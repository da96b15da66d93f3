//! Choosing the manifest files among the files that were found.

use crate::tree::same_text;
use regex::Regex;
use vstd::prelude::*;

verus! {

/// `regex::Regex`: a compiled pattern.
#[verifier::external_type_specification]
#[verifier::external_body]
pub struct ExRegex(regex::Regex);

/// Whether `regex::Regex::is_match` finds a match of the pattern somewhere
/// in the text.
pub uninterp spec fn regex_matches(regex: Regex, text: Seq<char>) -> bool;

/// `regex::Regex::is_match`: the answer is the one that `regex_matches`
/// names for the pattern and the text.
#[verifier::external_body]
fn path_matches(regex: &Regex, path: &str) -> (r: bool)
    ensures
        r == regex_matches(*regex, path@),
{
    regex.is_match(path)
}

/// Whether a file extension marks a manifest file: `yaml` or `yml`.
pub open spec fn is_yaml(extension: Seq<char>) -> bool {
    extension == "yaml"@ || extension == "yml"@
}

/// Whether a path is wanted: it matches the pattern, if there is one.
pub open spec fn wanted(path: Seq<char>, regex: Option<Regex>) -> bool {
    match regex {
        Some(pattern) => regex_matches(pattern, path),
        None => true,
    }
}

/// The texts of a sequence of paths.
pub open spec fn texts(paths: Seq<String>) -> Seq<Seq<char>> {
    Seq::new(paths.len(), |i: int| paths[i]@)
}

/// The wanted paths, in order.
pub open spec fn wanted_paths(paths: Seq<Seq<char>>, regex: Option<Regex>) -> Seq<Seq<char>>
    decreases paths.len(),
{
    if paths.len() == 0 {
        Seq::empty()
    } else {
        let before = wanted_paths(paths.drop_last(), regex);
        if wanted(paths.last(), regex) {
            before.push(paths.last())
        } else {
            before
        }
    }
}

/// Whether a file extension marks a manifest file.
pub fn is_yaml_extension(extension: &str) -> (r: bool)
    ensures
        r == is_yaml(extension@),
{
    same_text(extension, "yaml") || same_text(extension, "yml")
}

/// Whether a path is wanted.
pub fn is_wanted(path: &str, regex: &Option<Regex>) -> (r: bool)
    ensures
        r == wanted(path@, *regex),
{
    match regex {
        Some(pattern) => path_matches(pattern, path),
        None => true,
    }
}

/// Keeps the paths that match the pattern, in order; all of them where there
/// is no pattern.
pub fn select_files(paths: Vec<String>, regex: &Option<Regex>) -> (out: Vec<String>)
    ensures
        texts(out@) == wanted_paths(texts(paths@), *regex),
        regex is None ==> texts(out@) == texts(paths@),
{
    let ghost all = texts(paths@);
    let mut out: Vec<String> = Vec::new();
    assert(all.take(0) =~= Seq::empty());
    assert(texts(out@) =~= Seq::empty());
    for path in it: paths
        invariant
            it.seq() == paths@,
            all == texts(paths@),
            texts(out@) == wanted_paths(all.take(it.index() as int), *regex),
            regex is None ==> texts(out@) == all.take(it.index() as int),
    {
        let ghost i = it.index() as int;
        let ghost before = texts(out@);
        assert(all.take(i + 1).drop_last() =~= all.take(i));
        assert(all.take(i + 1).last() == path@);
        if is_wanted(path.as_str(), regex) {
            out.push(path);
            assert(texts(out@) =~= before.push(all[i]));
        }
        assert(regex is None ==> texts(out@) =~= all.take(i + 1));
    }
    assert(all.take(all.len() as int) =~= all);
    out
}

} // verus!
