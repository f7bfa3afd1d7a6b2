//! Application paths under the user scope: the configuration directories in
//! priority order and the cache directory, each with the application name
//! appended, following the XDG conventions.
use vstd::prelude::*;
use crate::text::{chars_of, extend_chars, extend_str, split, split_chars, string_of, trim_end_char, trim_end_char_exec};

verus! {

broadcast use vstd::string::group_string_axioms;

/// An application scope: the app name plus the platform conventions.
pub struct Scope {
    app: String,
}

impl View for Scope {
    type V = Seq<char>;

    closed spec fn view(&self) -> Seq<char> {
        self.app@
    }
}

/// `base` with the application name appended as a last path element.
pub open spec fn join_app(base: Seq<char>, app: Seq<char>) -> Seq<char> {
    trim_end_char(base, '/') + seq!['/'] + app
}

/// The user's configuration home: `$XDG_CONFIG_HOME` when set, else
/// `~/.config`.
pub open spec fn config_home(xdg_config_home: Option<Seq<char>>, home: Option<Seq<char>>, app: Seq<char>) -> Seq<Seq<char>> {
    match xdg_config_home {
        Some(p) if p.len() > 0 => seq![join_app(p, app)],
        _ => match home {
            Some(h) => seq![join_app(h + "/.config"@, app)],
            None => Seq::empty(),
        },
    }
}

/// Each `:`-separated entry of `$XDG_CONFIG_DIRS`, scoped to the app.
pub open spec fn config_dirs_list(dirs: Seq<Seq<char>>, app: Seq<char>) -> Seq<Seq<char>> {
    dirs.map_values(|d: Seq<char>| join_app(d, app))
}

/// The priority-sorted configuration directories.
pub open spec fn config_dirs_spec(xdg_config_home: Option<Seq<char>>, home: Option<Seq<char>>, xdg_config_dirs: Option<Seq<char>>, app: Seq<char>) -> Seq<Seq<char>> {
    config_home(xdg_config_home, home, app) + (match xdg_config_dirs {
        Some(d) if d.len() > 0 => config_dirs_list(split(d, ':'), app),
        _ => Seq::empty(),
    }) + seq![join_app("/etc/xdg"@, app), join_app("/etc"@, app)]
}

/// The user cache directory: `$XDG_CACHE_HOME` when set, else `~/.cache`.
pub open spec fn cache_dir_spec(xdg_cache_home: Option<Seq<char>>, home: Option<Seq<char>>, app: Seq<char>) -> Result<Seq<char>, Seq<char>> {
    match xdg_cache_home {
        Some(p) if p.len() > 0 => Ok(join_app(p, app)),
        _ => match home {
            Some(h) => Ok(join_app(h + "/.cache"@, app)),
            None => Err("Could not retrieve path"@),
        },
    }
}

/// The view of an optional string.
pub open spec fn opt_str(o: Option<&str>) -> Option<Seq<char>> {
    match o {
        Some(s) => Some(s@),
        None => None,
    }
}

impl Scope {
    /// A user-scoped set of paths for `app`.
    pub fn user(app: &str) -> (r: Scope)
        ensures
            r@ == app@,
    {
        Scope { app: app.to_owned() }
    }

    fn join(&self, base: &Vec<char>) -> (r: String)
        ensures
            r@ == join_app(base@, self@),
    {
        let mut v = trim_end_char_exec(base, '/');
        v.push('/');
        extend_str(&mut v, self.app.as_str());
        string_of(&v)
    }

    /// The configuration directories in priority order, given the values of
    /// `$XDG_CONFIG_HOME`, the home directory and `$XDG_CONFIG_DIRS`.
    pub fn config_dirs_with(&self, xdg_config_home: Option<&str>, home: Option<&str>, xdg_config_dirs: Option<&str>) -> (r: Vec<String>)
        ensures
            r@.map_values(|s: String| s@) == config_dirs_spec(
                opt_str(xdg_config_home),
                opt_str(home),
                opt_str(xdg_config_dirs),
                self@,
            ),
    {
        let mut out: Vec<String> = Vec::new();
        let mut used_xdg = false;
        match xdg_config_home {
            Some(p) => {
                if !p.is_empty() {
                    out.push(self.join(&chars_of(p)));
                    used_xdg = true;
                }
            },
            None => {},
        }
        if !used_xdg {
            match home {
                Some(h) => {
                    let mut b = chars_of(h);
                    extend_str(&mut b, "/.config");
                    out.push(self.join(&b));
                },
                None => {},
            }
        }
        let ghost head = out@.map_values(|s: String| s@);
        assert(head =~= config_home(opt_str(xdg_config_home), opt_str(home), self@));
        match xdg_config_dirs {
            Some(d) => {
                if !d.is_empty() {
                    let parts = split_chars(&chars_of(d), ':');
                    let ghost pv = parts@.map_values(|q: Vec<char>| q@);
                    let mut i: usize = 0;
                    while i < parts.len()
                        invariant
                            i <= parts.len(),
                            pv == parts@.map_values(|q: Vec<char>| q@),
                            out@.map_values(|s: String| s@) == head + config_dirs_list(pv.take(i as int), self@),
                        decreases parts.len() - i,
                    {
                        let j = self.join(&parts[i]);
                        let ghost before = out@;
                        out.push(j);
                        proof {
                            assert(out@ == before.push(j));
                            assert(out@.map_values(|s: String| s@) =~= before.map_values(|s: String| s@).push(j@));
                            assert(pv.take(i + 1) =~= pv.take(i as int).push(pv[i as int]));
                            assert(pv[i as int] == parts@[i as int]@);
                            assert(config_dirs_list(pv.take(i + 1), self@) =~= config_dirs_list(pv.take(i as int), self@).push(join_app(pv[i as int], self@)));
                            assert(out@.map_values(|s: String| s@) =~= head + config_dirs_list(pv.take(i + 1), self@));
                        }
                        i += 1;
                    }
                    assert(pv.take(pv.len() as int) =~= pv);
                }
            },
            None => {},
        }
        let ghost mid = out@.map_values(|s: String| s@);
        let a = self.join(&chars_of("/etc/xdg"));
        out.push(a);
        let b = self.join(&chars_of("/etc"));
        out.push(b);
        proof {
            assert(out@.map_values(|s: String| s@) =~= mid + seq![a@, b@]);
        }
        out
    }

    /// The user cache directory, given the values of `$XDG_CACHE_HOME` and
    /// the home directory.
    pub fn cache_dir_with(&self, xdg_cache_home: Option<&str>, home: Option<&str>) -> (r: Result<String, String>)
        ensures
            match cache_dir_spec(opt_str(xdg_cache_home), opt_str(home), self@) {
                Ok(p) => r matches Ok(s) && s@ == p,
                Err(m) => r matches Err(e) && e@ == m,
            },
    {
        match xdg_cache_home {
            Some(p) => {
                if !p.is_empty() {
                    return Ok(self.join(&chars_of(p)));
                }
            },
            None => {},
        }
        match home {
            Some(h) => {
                let mut b = chars_of(h);
                extend_str(&mut b, "/.cache");
                Ok(self.join(&b))
            },
            None => Err("Could not retrieve path".to_owned()),
        }
    }
}

} // verus!
