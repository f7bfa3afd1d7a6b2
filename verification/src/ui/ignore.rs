//! Directories the document search skips.
use vstd::prelude::*;
use crate::ui::config::Config;

verus! {

broadcast use vstd::string::group_string_axioms;

/// The patterns excluded from the search unless every file is asked for:
/// the Go path, dependency directories, and hidden files.
pub fn ignore_patterns(cfg: &Config) -> (r: Vec<String>)
    ensures
        r@.map_values(|p: String| p@) == seq![cfg.gopath@, "node_modules"@, ".*"@],
{
    let mut out: Vec<String> = Vec::new();
    out.push(cfg.gopath.clone());
    out.push("node_modules".to_owned());
    out.push(".*".to_owned());
    assert(out@.map_values(|p: String| p@) =~= seq![cfg.gopath@, "node_modules"@, ".*"@]);
    out
}

} // verus!
