//! Resolution of GitHub and GitLab shorthands into repository URLs, and the
//! check that tells a URL from a path.
use vstd::prelude::*;
use crate::deps::url::{join_path_spec, parse_spec, Url, UrlModel};
use crate::text::{
    chars_of, contains_str, has_char, has_infix, has_prefix, split, split_chars, starts_with,
    slice_chars, string_of,
};

verus! {

broadcast use vstd::string::group_string_axioms;

/// The canonical host of a forge, as `https://<host>` parses.
pub open spec fn forge_model(host: Seq<char>) -> UrlModel {
    UrlModel {
        scheme: "https"@,
        host,
        path: Seq::empty(),
        raw_query: Seq::empty(),
        fragment: Seq::empty(),
        has_authority: true,
    }
}

fn forge_url(host: &str) -> (r: Url)
    ensures
        r@ == forge_model(host@),
{
    Url {
        scheme: "https".to_owned(),
        host: host.to_owned(),
        path: String::new(),
        raw_query: String::new(),
        fragment: String::new(),
        has_authority: true,
    }
}

/// `s` without the leading `prefix`, or `s` when it does not start with it.
pub open spec fn strip(s: Seq<char>, prefix: Seq<char>) -> Seq<char> {
    if has_prefix(s, prefix) {
        s.skip(prefix.len() as int)
    } else {
        s
    }
}

/// `<scheme>owner/repo` expanded onto the forge's host: `None` unless the
/// rest is exactly two path segments, so that custom hosts are refused.
pub open spec fn shorthand_spec(path: Seq<char>, scheme: Seq<char>, host: Seq<char>) -> Option<UrlModel> {
    let rest = strip(path, scheme);
    if split(rest, '/').len() != 2 {
        None
    } else {
        Some(join_path_spec(forge_model(host), rest))
    }
}

fn shorthand(path: &str, scheme: &str, host: &str) -> (r: Option<Url>)
    ensures
        r matches Some(u) ==> shorthand_spec(path@, scheme@, host@) == Some(u@),
        r is None ==> shorthand_spec(path@, scheme@, host@) is None,
{
    let v = chars_of(path);
    let pre = chars_of(scheme);
    let rest = if starts_with(&v, scheme) {
        let r = slice_chars(&v, pre.len(), v.len());
        assert(r@ =~= v@.skip(scheme@.len() as int));
        r
    } else {
        v
    };
    let parts = split_chars(&rest, '/');
    if parts.len() != 2 {
        return None;
    }
    let base = forge_url(host);
    Some(base.join_path(string_of(&rest).as_str()))
}

/// Expands `github://owner/repo` into a GitHub URL.
///
/// Returns `None` for anything that is not exactly two path segments, because
/// custom hostnames are not supported.
pub fn github_readme_url(path: &str) -> (r: Option<Url>)
    ensures
        r matches Some(u) ==> shorthand_spec(path@, "github://"@, "github.com"@) == Some(u@),
        r is None ==> shorthand_spec(path@, "github://"@, "github.com"@) is None,
{
    shorthand(path, "github://", "github.com")
}

/// Expands `gitlab://owner/repo` into a GitLab URL.
pub fn gitlab_readme_url(path: &str) -> (r: Option<Url>)
    ensures
        r matches Some(u) ==> shorthand_spec(path@, "gitlab://"@, "gitlab.com"@) == Some(u@),
        r is None ==> shorthand_spec(path@, "gitlab://"@, "gitlab.com"@) is None,
{
    shorthand(path, "gitlab://", "gitlab.com")
}

/// Whether `raw` parses as a request URI: an absolute URL or an absolute
/// path, with no fragment.
pub open spec fn request_uri_ok(raw: Seq<char>) -> bool {
    match parse_spec(raw) {
        Ok(u) => (u.scheme.len() > 0 || has_prefix(u.path, seq!['/'])) && u.fragment.len() == 0
            && !has_char(raw, '#'),
        Err(_) => false,
    }
}

/// Whether `path` is a URL: parseable as a request URI and carrying `://`.
pub fn is_url(path: &str) -> (r: bool)
    ensures
        r == (request_uri_ok(path@) && has_infix(path@, "://"@)),
{
    let ok = Url::parse_request_uri(path).is_ok();
    ok && contains_str(&chars_of(path), "://")
}

/// Which forge a document location points at.
#[derive(Debug, Clone, Copy, PartialEq, Eq, Structural)]
pub enum Forge {
    GitHub,
    GitLab,
}

/// Where a README is to be fetched from, once shorthands are expanded: the
/// forge and the repository's URL, or `None` when the location is on neither
/// forge.
pub open spec fn readme_target_spec(path: Seq<char>) -> Result<Option<(Forge, UrlModel)>, Seq<char>>
    decreases path.len(), 1int,
{
    if has_prefix(path, "github://"@) {
        match shorthand_spec(path, "github://"@, "github.com"@) {
            Some(u) => readme_target_at(crate::deps::url::display(u)),
            None => Ok(None),
        }
    } else if has_prefix(path, "gitlab://"@) {
        match shorthand_spec(path, "gitlab://"@, "gitlab.com"@) {
            Some(u) => readme_target_at(crate::deps::url::display(u)),
            None => Ok(None),
        }
    } else {
        readme_target_at(path)
    }
}

/// The forge of a location that is not a shorthand: `https://` is added when
/// missing, and the host decides.
pub open spec fn readme_target_at(path: Seq<char>) -> Result<Option<(Forge, UrlModel)>, Seq<char>> {
    let full = if has_prefix(path, "https://"@) {
        path
    } else {
        "https://"@ + path
    };
    match parse_spec(full) {
        Err(e) => Err("unable to parse url: "@ + e),
        Ok(u) => if crate::deps::url::hostname_spec(u.host) == "github.com"@ {
            Ok(Some((Forge::GitHub, u)))
        } else if crate::deps::url::hostname_spec(u.host) == "gitlab.com"@ {
            Ok(Some((Forge::GitLab, u)))
        } else {
            Ok(None)
        },
    }
}

fn readme_target_at_exec(path: &str) -> (r: Result<Option<(Forge, Url)>, String>)
    ensures
        match readme_target_at(path@) {
            Ok(Some((f, u))) => r matches Ok(Some((g, v))) && g == f && v@ == u,
            Ok(None) => r matches Ok(None),
            Err(m) => r matches Err(e) && e@ == m,
        },
{
    let v = chars_of(path);
    let full = if starts_with(&v, "https://") {
        v
    } else {
        let mut f = chars_of("https://");
        crate::text::extend_chars(&mut f, &v);
        f
    };
    let u = match Url::parse_chars(&full) {
        Ok(u) => u,
        Err(e) => {
            let mut m = chars_of("unable to parse url: ");
            crate::text::extend_str(&mut m, e.0.as_str());
            return Err(string_of(&m));
        },
    };
    let host = chars_of(u.hostname().as_str());
    if crate::text::eq_str(&host, "github.com") {
        Ok(Some((Forge::GitHub, u)))
    } else if crate::text::eq_str(&host, "gitlab.com") {
        Ok(Some((Forge::GitLab, u)))
    } else {
        Ok(None)
    }
}

/// Resolves a document location into the forge and repository URL whose
/// README it names: `github://` and `gitlab://` shorthands are expanded first.
/// `Ok(None)` means the location is on neither forge, which tells the caller
/// to try the next resolution strategy.
pub fn readme_target(path: &str) -> (r: Result<Option<(Forge, Url)>, String>)
    ensures
        match readme_target_spec(path@) {
            Ok(Some((f, u))) => r matches Ok(Some((g, v))) && g == f && v@ == u,
            Ok(None) => r matches Ok(None),
            Err(m) => r matches Err(e) && e@ == m,
        },
{
    let v = chars_of(path);
    if starts_with(&v, "github://") {
        return match github_readme_url(path) {
            Some(u) => readme_target_at_exec(u.to_string().as_str()),
            None => Ok(None),
        };
    }
    if starts_with(&v, "gitlab://") {
        return match gitlab_readme_url(path) {
            Some(u) => readme_target_at_exec(u.to_string().as_str()),
            None => Ok(None),
        };
    }
    readme_target_at_exec(path)
}

} // verus!
