//! Shortening of GitHub URLs in link footnotes: a long issue, pull request,
//! discussion or commit URL becomes `owner/repo#123` or `owner/repo@abc1234`.
use vstd::prelude::*;
use crate::deps::url::{cut_at, cut_at_exec};
use crate::text::{
    all_digits, chars_of, eq_str, extend_chars, extend_str, has_prefix, is_ascii_alnum, slice_chars,
    split, split_chars, starts_with, string_of,
};

verus! {

broadcast use vstd::string::group_string_axioms;

/// Whether `s` is a non-empty GitHub owner or repository name.
pub open spec fn is_name(s: Seq<char>) -> bool {
    s.len() > 0 && forall|i: int| 0 <= i < s.len() ==> {
        let c = #[trigger] s[i];
        is_ascii_alnum(c) || c == '_' || c == '-'
    }
}

/// Whether every character of `s` is an ASCII letter or digit.
pub open spec fn all_alnum(s: Seq<char>) -> bool {
    forall|i: int| 0 <= i < s.len() ==> is_ascii_alnum(#[trigger] s[i])
}

/// A commit reference, when `part` (anchor dropped) is a hash of at least
/// seven letters and digits: `owner/repo@` and its first seven.
pub open spec fn commit_ref(owner: Seq<char>, repo: Seq<char>, part: Seq<char>) -> Option<Seq<char>> {
    let sha = cut_at(part, '#').0;
    if sha.len() >= 7 && all_alnum(sha) {
        Some(owner + seq!['/'] + repo + seq!['@'] + sha.take(7))
    } else {
        None
    }
}

/// Whether a path kind names an issue, a pull request or a discussion.
pub open spec fn is_thread_kind(k: Seq<char>) -> bool {
    k == "issue"@ || k == "issues"@ || k == "pull"@ || k == "pulls"@ || k == "discussion"@ || k
        == "discussions"@
}

/// The shortened form of a GitHub URL, if one of the patterns matches.
pub open spec fn detect_spec(u: Seq<char>) -> Option<Seq<char>> {
    let rest = if has_prefix(u, "https://github.com/"@) {
        Some(u.skip(19))
    } else if has_prefix(u, "http://github.com/"@) {
        Some(u.skip(18))
    } else {
        None
    };
    match rest {
        None => None,
        Some(r) => {
            let parts = split(r, '/');
            if parts.len() < 4 || !is_name(parts[0]) || !is_name(parts[1]) {
                None
            } else {
                let owner = parts[0];
                let repo = parts[1];
                let head = owner + seq!['/'] + repo;
                if is_thread_kind(parts[2]) {
                    let (number, anchor) = cut_at(parts[3], '#');
                    if !all_digits(number) || number.len() == 0 {
                        None
                    } else if parts.len() >= 6 && (parts[2] == "pull"@ || parts[2] == "pulls"@)
                        && parts[4] == "commits"@ {
                        commit_ref(owner, repo, parts[5])
                    } else if parts.len() != 4 {
                        None
                    } else {
                        match anchor {
                            None => Some(head + seq!['#'] + number),
                            Some(a) => if has_prefix(a, "issuecomment-"@) || has_prefix(
                                a,
                                "discussioncomment-"@,
                            ) || has_prefix(a, "discussion_r"@) {
                                Some(head + seq!['#'] + number + " (comment)"@)
                            } else if has_prefix(a, "pullrequestreview-"@) {
                                Some(head + seq!['#'] + number + " (review)"@)
                            } else {
                                None
                            },
                        }
                    }
                } else if parts[2] == "commit"@ {
                    commit_ref(owner, repo, parts[3])
                } else {
                    None
                }
            }
        }
    }
}

fn is_name_exec(s: &Vec<char>) -> (r: bool)
    ensures
        r == is_name(s@),
{
    if s.len() == 0 {
        return false;
    }
    let mut i: usize = 0;
    while i < s.len()
        invariant
            i <= s.len(),
            forall|j: int| 0 <= j < i ==> {
                let c = #[trigger] s@[j];
                is_ascii_alnum(c) || c == '_' || c == '-'
            },
        decreases s.len() - i,
    {
        let c = s[i];
        if !(('a' <= c && c <= 'z') || ('A' <= c && c <= 'Z') || ('0' <= c && c <= '9') || c == '_'
            || c == '-') {
            return false;
        }
        i += 1;
    }
    true
}

fn all_alnum_exec(s: &Vec<char>) -> (r: bool)
    ensures
        r == all_alnum(s@),
{
    let mut i: usize = 0;
    while i < s.len()
        invariant
            i <= s.len(),
            forall|j: int| 0 <= j < i ==> is_ascii_alnum(#[trigger] s@[j]),
        decreases s.len() - i,
    {
        let c = s[i];
        if !(('a' <= c && c <= 'z') || ('A' <= c && c <= 'Z') || ('0' <= c && c <= '9')) {
            return false;
        }
        i += 1;
    }
    true
}

fn all_digits_exec(s: &Vec<char>) -> (r: bool)
    ensures
        r == all_digits(s@),
{
    let mut i: usize = 0;
    while i < s.len()
        invariant
            i <= s.len(),
            forall|j: int| 0 <= j < i ==> crate::text::is_digit(#[trigger] s@[j]),
        decreases s.len() - i,
    {
        if !('0' <= s[i] && s[i] <= '9') {
            return false;
        }
        i += 1;
    }
    true
}

fn commit_ref_exec(owner: &Vec<char>, repo: &Vec<char>, part: &Vec<char>) -> (r: Option<String>)
    ensures
        match commit_ref(owner@, repo@, part@) {
            Some(s) => r matches Some(t) && t@ == s,
            None => r is None,
        },
{
    let (sha, _) = cut_at_exec(part, '#');
    if sha.len() >= 7 && all_alnum_exec(&sha) {
        let mut out: Vec<char> = Vec::new();
        extend_chars(&mut out, owner);
        out.push('/');
        extend_chars(&mut out, repo);
        out.push('@');
        let h = slice_chars(&sha, 0, 7);
        extend_chars(&mut out, &h);
        proof {
            assert(h@ =~= sha@.take(7));
            assert(out@ =~= owner@ + seq!['/'] + repo@ + seq!['@'] + sha@.take(7));
        }
        Some(string_of(&out))
    } else {
        None
    }
}

/// Returns the shortened form of a GitHub URL, if one of the patterns matches.
pub fn detect(u: &str) -> (r: Option<String>)
    ensures
        match detect_spec(u@) {
            Some(s) => r matches Some(t) && t@ == s,
            None => r is None,
        },
{
    let v = chars_of(u);
    proof {
        reveal_strlit("https://github.com/");
        reveal_strlit("http://github.com/");
    }
    let rest = if starts_with(&v, "https://github.com/") {
        slice_chars(&v, 19, v.len())
    } else if starts_with(&v, "http://github.com/") {
        slice_chars(&v, 18, v.len())
    } else {
        return None;
    };
    proof {
        if has_prefix(u@, "https://github.com/"@) {
            assert(rest@ =~= u@.skip(19));
        } else {
            assert(rest@ =~= u@.skip(18));
        }
    }
    let parts = split_chars(&rest, '/');
    let ghost pv = parts@.map_values(|q: Vec<char>| q@);
    if parts.len() < 4 || !is_name_exec(&parts[0]) || !is_name_exec(&parts[1]) {
        return None;
    }
    let owner = &parts[0];
    let repo = &parts[1];
    let kind = &parts[2];
    proof {
        assert(pv[0] == owner@);
        assert(pv[1] == repo@);
        assert(pv[2] == kind@);
        assert(pv[3] == parts@[3]@);
    }
    let is_pull = eq_str(kind, "pull") || eq_str(kind, "pulls");
    if eq_str(kind, "issue") || eq_str(kind, "issues") || is_pull || eq_str(kind, "discussion")
        || eq_str(kind, "discussions") {
        let (number, anchor) = cut_at_exec(&parts[3], '#');
        if !all_digits_exec(&number) || number.len() == 0 {
            return None;
        }
        if parts.len() >= 6 && is_pull && eq_str(&parts[4], "commits") {
            proof {
                assert(pv[4] == parts@[4]@);
                assert(pv[5] == parts@[5]@);
            }
            return commit_ref_exec(owner, repo, &parts[5]);
        }
        proof {
            if parts.len() >= 6 {
                assert(pv[4] == parts@[4]@);
            }
        }
        if parts.len() != 4 {
            return None;
        }
        let mut head: Vec<char> = Vec::new();
        extend_chars(&mut head, owner);
        head.push('/');
        extend_chars(&mut head, repo);
        head.push('#');
        extend_chars(&mut head, &number);
        match anchor {
            None => Some(string_of(&head)),
            Some(a) => {
                if starts_with(&a, "issuecomment-") || starts_with(&a, "discussioncomment-")
                    || starts_with(&a, "discussion_r") {
                    extend_str(&mut head, " (comment)");
                    Some(string_of(&head))
                } else if starts_with(&a, "pullrequestreview-") {
                    extend_str(&mut head, " (review)");
                    Some(string_of(&head))
                } else {
                    None
                }
            },
        }
    } else if eq_str(kind, "commit") {
        commit_ref_exec(owner, repo, &parts[3])
    } else {
        None
    }
}

} // verus!
