//! The glob pattern under which documents and archives are looked for.

use vstd::prelude::*;
use vstd::string::*;

verus! {

/// The paths found for one glob pattern.
#[derive(Debug)]
pub struct Fnames {
    pub fnames: Vec<String>,
}

/// `text` without the slashes at its end.
pub open spec fn without_trailing_slashes(text: Seq<char>) -> Seq<char>
    decreases text.len(),
{
    if text.len() > 0 && text.last() == '/' {
        without_trailing_slashes(text.drop_last())
    } else {
        text
    }
}

/// The pattern for every file below `base_dir`, at any depth, whose name
/// ends with `suffix`.
pub open spec fn path_pattern(base_dir: Seq<char>, suffix: Seq<char>) -> Seq<char> {
    without_trailing_slashes(base_dir) + "/**/*"@ + suffix
}

/// `text` without the slashes at its end.
pub fn trim_trailing_slashes<'a>(text: &'a str) -> (trimmed: &'a str)
    ensures
        trimmed@ == without_trailing_slashes(text@),
{
    let mut keep = text.unicode_len();
    assert(text@.take(keep as int) =~= text@);
    while keep > 0 && text.get_char(keep - 1) == '/'
        invariant
            keep <= text@.len(),
            without_trailing_slashes(text@) == without_trailing_slashes(text@.take(keep as int)),
        decreases keep,
    {
        assert(text@.take(keep as int).drop_last() =~= text@.take(keep - 1));
        keep = keep - 1;
    }
    assert(text@.subrange(0, keep as int) =~= text@.take(keep as int));
    text.substring_char(0, keep)
}

/// Builds the glob pattern for the files below `base_dir` that end with
/// `suffix`.
pub fn make_path(base_dir: &str, suffix: &str) -> (pattern: String)
    ensures
        pattern@ == path_pattern(base_dir@, suffix@),
{
    let mut fpath = trim_trailing_slashes(base_dir).to_owned();
    fpath.append("/**/*");
    fpath.append(suffix);
    fpath
}

} // verus!
