//! File-path queries, answered by `std::path::Path` with the path syntax of
//! the platform the library is built for.
use vstd::prelude::*;

verus! {

/// What `Path::extension` gives for a path.
pub uninterp spec fn spec_path_extension(p: Seq<char>) -> Option<Seq<char>>;

/// What `Path::file_stem` gives for a path.
pub uninterp spec fn spec_path_file_stem(p: Seq<char>) -> Option<Seq<char>>;

/// The contents of an optional string.
pub open spec fn opt_chars(o: Option<String>) -> Option<Seq<char>> {
    match o {
        Some(s) => Some(s@),
        None => None,
    }
}

/// Index of the last `c` in `s`, or -1 when there is none.
pub open spec fn last_index_of(s: Seq<char>, c: char) -> int
    decreases s.len(),
{
    if s.len() == 0 {
        -1
    } else if s.last() == c {
        s.len() - 1
    } else {
        last_index_of(s.drop_last(), c)
    }
}

/// The text after the last `/` of a path (the whole path when it has none).
pub open spec fn final_part(p: Seq<char>) -> Seq<char> {
    p.subrange(last_index_of(p, '/') + 1, p.len() as int)
}

/// A path whose file name is plainly its text after the last `/`, on every
/// platform: no `\` and no `:` (so no Windows prefix or other separator), it
/// does not start with `//`, and that last part is neither empty nor `.` nor
/// `..`.
pub open spec fn plain_path(p: Seq<char>) -> bool {
    &&& forall|i: int| 0 <= i < p.len() ==> #[trigger] p[i] != '\\' && p[i] != ':'
    &&& !(p.len() >= 2 && p[0] == '/' && p[1] == '/')
    &&& final_part(p).len() > 0
    &&& final_part(p) != seq!['.']
    &&& final_part(p) != seq!['.', '.']
}

/// The extension of a file name as `Path::extension` documents it: none
/// without a dot, none when the only dot starts the name, else the text
/// after the last dot.
pub open spec fn name_extension(f: Seq<char>) -> Option<Seq<char>> {
    let d = last_index_of(f, '.');
    if d <= 0 {
        None
    } else {
        Some(f.subrange(d + 1, f.len() as int))
    }
}

/// The stem of a file name as `Path::file_stem` documents it: the whole name
/// without a dot or when the only dot starts it, else the text before the
/// last dot.
pub open spec fn name_stem(f: Seq<char>) -> Seq<char> {
    let d = last_index_of(f, '.');
    if d <= 0 {
        f
    } else {
        f.subrange(0, d)
    }
}

/// The extension of a path as far as it is known: the documented one for a
/// plain path, the named result otherwise.
pub open spec fn path_ext(p: Seq<char>) -> Option<Seq<char>> {
    if plain_path(p) {
        name_extension(final_part(p))
    } else {
        spec_path_extension(p)
    }
}

/// The file stem of a path as far as it is known: the documented one for a
/// plain path, the named result otherwise.
pub open spec fn path_stem(p: Seq<char>) -> Option<Seq<char>> {
    if plain_path(p) {
        Some(name_stem(final_part(p)))
    } else {
        spec_path_file_stem(p)
    }
}

/// `Path::extension` of a UTF-8 path; its result is named by
/// `spec_path_extension`. For a plain path (see `plain_path`) it is what
/// std's documentation describes for the file name: nothing when there is no
/// dot or the only dot starts the name, else the text after the last dot.
/// Other paths (Windows prefixes, other separators) are left to the name.
#[verifier::external_body]
pub(crate) fn path_extension(p: &str) -> (r: Option<String>)
    ensures
        opt_chars(r) == spec_path_extension(p@),
        plain_path(p@) ==> opt_chars(r) == name_extension(final_part(p@)),
{
    std::path::Path::new(p).extension().map(|s| s.to_string_lossy().to_string())
}

/// `Path::file_stem` of a UTF-8 path; its result is named by
/// `spec_path_file_stem`. For a plain path it is what std's documentation
/// describes: the file name without the text from its last dot on (the whole
/// name when there is no dot or the only dot starts it). Other paths are left
/// to the name.
#[verifier::external_body]
pub(crate) fn path_file_stem(p: &str) -> (r: Option<String>)
    ensures
        opt_chars(r) == spec_path_file_stem(p@),
        plain_path(p@) ==> opt_chars(r) == Some(name_stem(final_part(p@))),
{
    std::path::Path::new(p).file_stem().map(|s| s.to_string_lossy().to_string())
}

} // verus!
