//! Catalog logic that does not touch the database itself: folder-name
//! sanitation, import-type filters, duplicate grouping and scan bookkeeping.
use vstd::prelude::*;

use crate::grouping::strs;
use crate::manifest::{opt_view, or_empty};
use crate::imageproc::{is_listed, is_photo_path, is_photo_spec, listed};
use crate::paths::{path_extension, path_file_stem, path_ext, path_stem};
use crate::types::{Album, DuplicateGroup, Preset, ScanResult};
use crate::text::{
    char_upper, chars_of, lemma_upper_concat, find_char_from, index_of_from, is_ws, lemma_index_of_from, push_char, upper_case, str_eq,
    lower_case, string_from_range, to_lowercase, to_uppercase, trim, trim_bounds, trim_end, trim_start, trim_str,
};

verus! {

/// Characters never kept in a folder name: `\ / : * ? " < > |` and the controls `\0`..`\x1f`.
pub open spec fn is_forbidden_in_folder(c: char) -> bool {
    ||| c == '\\' || c == '/' || c == ':' || c == '*' || c == '?'
    ||| c == '"' || c == '<' || c == '>' || c == '|'
    ||| c <= '\u{1f}'
}

/// `s` without the forbidden characters, in order.
pub open spec fn drop_forbidden(s: Seq<char>) -> Seq<char>
    decreases s.len(),
{
    if s.len() == 0 {
        s
    } else if is_forbidden_in_folder(s.last()) {
        drop_forbidden(s.drop_last())
    } else {
        drop_forbidden(s.drop_last()).push(s.last())
    }
}

/// `s` without its trailing dots and spaces.
pub open spec fn trim_dots_spaces(s: Seq<char>) -> Seq<char>
    decreases s.len(),
{
    if s.len() > 0 && (s.last() == '.' || s.last() == ' ') {
        trim_dots_spaces(s.drop_last())
    } else {
        s
    }
}

/// The name once cleaned: forbidden characters dropped, whitespace trimmed,
/// trailing dots and spaces removed.
pub open spec fn cleaned_folder_name(name: Seq<char>) -> Seq<char> {
    trim_dots_spaces(trim(drop_forbidden(name)))
}

/// The part of `s` before its first dot.
pub open spec fn first_segment(s: Seq<char>) -> Seq<char> {
    s.subrange(0, index_of_from(s, '.', 0))
}

/// Device names Windows reserves: CON, PRN, AUX, NUL, COM1..COM9, LPT1..LPT9.
pub open spec fn is_reserved_device(s: Seq<char>) -> bool {
    ||| s == seq!['C', 'O', 'N']
    ||| s == seq!['P', 'R', 'N']
    ||| s == seq!['A', 'U', 'X']
    ||| s == seq!['N', 'U', 'L']
    ||| (s.len() == 4 && ((s[0] == 'C' && s[1] == 'O' && s[2] == 'M') || (s[0] == 'L' && s[1]
        == 'P' && s[2] == 'T')) && '1' <= s[3] && s[3] <= '9')
}

/// The folder name chosen for `name`: the cleaned name, the fallback when
/// nothing is left, and `fallback_name` when the part before the first dot of
/// the upper-cased name is a reserved device name.
pub open spec fn folder_name(name: Seq<char>, fallback: Seq<char>) -> Seq<char> {
    let t = cleaned_folder_name(name);
    if t.len() == 0 {
        fallback
    } else if is_reserved_device(first_segment(upper_case(t))) {
        fallback + seq!['_'] + t
    } else {
        t
    }
}

fn is_forbidden_char(c: char) -> (r: bool)
    ensures
        r == is_forbidden_in_folder(c),
{
    c == '\\' || c == '/' || c == ':' || c == '*' || c == '?' || c == '"' || c == '<' || c == '>'
        || c == '|' || c <= '\u{1f}'
}

fn reserved_device(v: &Vec<char>) -> (r: bool)
    ensures
        r == is_reserved_device(v@),
{
    let n = v.len();
    if n == 3 {
        let r = (v[0] == 'C' && v[1] == 'O' && v[2] == 'N') || (v[0] == 'P' && v[1] == 'R' && v[2]
            == 'N') || (v[0] == 'A' && v[1] == 'U' && v[2] == 'X') || (v[0] == 'N' && v[1] == 'U'
            && v[2] == 'L');
        assert(r == is_reserved_device(v@)) by {
            if v@ == seq!['C', 'O', 'N'] || v@ == seq!['P', 'R', 'N'] || v@ == seq!['A', 'U', 'X']
                || v@ == seq!['N', 'U', 'L'] {
            }
            if r {
                if v[0] == 'C' {
                    assert(v@ =~= seq!['C', 'O', 'N']);
                } else if v[0] == 'P' {
                    assert(v@ =~= seq!['P', 'R', 'N']);
                } else if v[0] == 'A' {
                    assert(v@ =~= seq!['A', 'U', 'X']);
                } else {
                    assert(v@ =~= seq!['N', 'U', 'L']);
                }
            }
        }
        r
    } else if n == 4 {
        ((v[0] == 'C' && v[1] == 'O' && v[2] == 'M') || (v[0] == 'L' && v[1] == 'P' && v[2] == 'T'))
            && '1' <= v[3] && v[3] <= '9'
    } else {
        false
    }
}

/// Sanitizes a name for safe use as a folder name on any system.
/// Drops the characters Windows forbids (`\ / : * ? " < > |`) and control
/// characters, trims, removes trailing dots and spaces. Reserved Windows
/// device names (CON, PRN, AUX, NUL, COM1..COM9, LPT1..LPT9) get a safe prefix.
pub fn sanitize_folder_name(name: &str, fallback: &str) -> (r: String)
    ensures
        r@ == folder_name(name@, fallback@),
{
    let v = chars_of(name);
    let mut f: Vec<char> = Vec::new();
    let mut k: usize = 0;
    while k < v.len()
        invariant
            k <= v.len(),
            f@ == drop_forbidden(v@.subrange(0, k as int)),
        decreases v.len() - k,
    {
        assert(v@.subrange(0, k + 1).drop_last() == v@.subrange(0, k as int));
        if !is_forbidden_char(v[k]) {
            f.push(v[k]);
        }
        k = k + 1;
    }
    assert(v@.subrange(0, v.len() as int) == name@);
    let (a, b) = trim_bounds(&f);
    let mut e = b;
    while e > a && (f[e - 1] == '.' || f[e - 1] == ' ')
        invariant
            a <= e <= b <= f.len(),
            cleaned_folder_name(name@) == trim_dots_spaces(f@.subrange(a as int, e as int)),
        decreases e - a,
    {
        assert(f@.subrange(a as int, e as int).drop_last() == f@.subrange(a as int, e - 1));
        e = e - 1;
    }
    assert(cleaned_folder_name(name@) == f@.subrange(a as int, e as int));
    if e == a {
        return fallback.to_owned();
    }
    let t = string_from_range(&f, a, e);
    let upper = chars_of(&to_uppercase(&t));
    let dot = find_char_from(&upper, '.', 0);
    proof {
        lemma_index_of_from(upper@, '.', 0);
    }
    let stem = string_from_range(&upper, 0, dot);
    if reserved_device(&chars_of(&stem)) {
        let mut r = fallback.to_owned();
        push_char(&mut r, '_');
        r.append(&t);
        r
    } else {
        t
    }
}

/// No character of `s` is forbidden in folder names.
pub open spec fn no_forbidden(s: Seq<char>) -> bool {
    forall|k: int| 0 <= k < s.len() ==> !is_forbidden_in_folder(#[trigger] s[k])
}

/// A name that can be used as a folder as it is: not empty, no forbidden
/// character, and no trailing dot or space.
pub open spec fn is_safe_folder_name(s: Seq<char>) -> bool {
    &&& s.len() > 0
    &&& no_forbidden(s)
    &&& s.last() != '.' && s.last() != ' '
}

proof fn lemma_drop_forbidden_clean(s: Seq<char>)
    ensures
        no_forbidden(drop_forbidden(s)),
    decreases s.len(),
{
    if s.len() > 0 {
        lemma_drop_forbidden_clean(s.drop_last());
        let p = drop_forbidden(s.drop_last());
        if !is_forbidden_in_folder(s.last()) {
            assert forall|k: int| 0 <= k < p.push(s.last()).len() implies !is_forbidden_in_folder(
                #[trigger] p.push(s.last())[k],
            ) by {
                if k < p.len() {
                    assert(p.push(s.last())[k] == p[k]);
                }
            }
        }
    }
}

proof fn lemma_trim_start_clean(s: Seq<char>)
    requires
        no_forbidden(s),
    ensures
        no_forbidden(trim_start(s)),
    decreases s.len(),
{
    if s.len() > 0 && is_ws(s[0]) {
        assert forall|k: int| 0 <= k < s.drop_first().len() implies !is_forbidden_in_folder(
            #[trigger] s.drop_first()[k],
        ) by {
            assert(s.drop_first()[k] == s[k + 1]);
        }
        lemma_trim_start_clean(s.drop_first());
    }
}

proof fn lemma_trim_end_clean(s: Seq<char>)
    requires
        no_forbidden(s),
    ensures
        no_forbidden(trim_end(s)),
    decreases s.len(),
{
    if s.len() > 0 && is_ws(s.last()) {
        assert forall|k: int| 0 <= k < s.drop_last().len() implies !is_forbidden_in_folder(
            #[trigger] s.drop_last()[k],
        ) by {
            assert(s.drop_last()[k] == s[k]);
        }
        lemma_trim_end_clean(s.drop_last());
    }
}

proof fn lemma_trim_dots_spaces_clean(s: Seq<char>)
    requires
        no_forbidden(s),
    ensures
        no_forbidden(trim_dots_spaces(s)),
        trim_dots_spaces(s).len() > 0 ==> trim_dots_spaces(s).last() != '.' && trim_dots_spaces(
            s,
        ).last() != ' ',
    decreases s.len(),
{
    if s.len() > 0 && (s.last() == '.' || s.last() == ' ') {
        assert forall|k: int| 0 <= k < s.drop_last().len() implies !is_forbidden_in_folder(
            #[trigger] s.drop_last()[k],
        ) by {
            assert(s.drop_last()[k] == s[k]);
        }
        lemma_trim_dots_spaces_clean(s.drop_last());
    }
}

/// Law: the folder name chosen for any name is usable as a folder on any
/// system (not empty, no forbidden character, no trailing dot or space),
/// provided the fallback is.
pub proof fn lemma_folder_name_safe(name: Seq<char>, fallback: Seq<char>)
    requires
        is_safe_folder_name(fallback),
    ensures
        is_safe_folder_name(folder_name(name, fallback)),
{
    let d = drop_forbidden(name);
    lemma_drop_forbidden_clean(name);
    lemma_trim_start_clean(d);
    lemma_trim_end_clean(trim_start(d));
    lemma_trim_dots_spaces_clean(trim(d));
    let t = cleaned_folder_name(name);
    if t.len() > 0 && is_reserved_device(first_segment(upper_case(t))) {
        let r = fallback + seq!['_'] + t;
        assert(r.last() == t.last());
        assert forall|k: int| 0 <= k < r.len() implies !is_forbidden_in_folder(#[trigger] r[k]) by {
            if k < fallback.len() {
                assert(r[k] == fallback[k]);
            } else if k == fallback.len() {
                assert(r[k] == '_');
            } else {
                assert(r[k] == t[k - fallback.len() - 1]);
            }
        }
    }
}

proof fn lemma_trim_start_range(s: Seq<char>) -> (k: int)
    ensures
        0 <= k <= s.len(),
        trim_start(s) == s.subrange(k, s.len() as int),
        k < s.len() ==> !is_ws(s[k]),
    decreases s.len(),
{
    if s.len() > 0 && is_ws(s[0]) {
        let k1 = lemma_trim_start_range(s.drop_first());
        assert(s.drop_first().subrange(k1, s.drop_first().len() as int) == s.subrange(
            k1 + 1,
            s.len() as int,
        ));
        k1 + 1
    } else {
        assert(s.subrange(0, s.len() as int) == s);
        0
    }
}

proof fn lemma_trim_end_range(s: Seq<char>) -> (k: int)
    ensures
        0 <= k <= s.len(),
        trim_end(s) == s.subrange(0, k),
        k > 0 ==> !is_ws(s[k - 1]),
    decreases s.len(),
{
    if s.len() > 0 && is_ws(s.last()) {
        let k1 = lemma_trim_end_range(s.drop_last());
        assert(s.drop_last().subrange(0, k1) == s.subrange(0, k1));
        k1
    } else {
        assert(s.subrange(0, s.len() as int) == s);
        s.len() as int
    }
}

proof fn lemma_trim_dots_range(s: Seq<char>) -> (k: int)
    ensures
        0 <= k <= s.len(),
        trim_dots_spaces(s) == s.subrange(0, k),
    decreases s.len(),
{
    if s.len() > 0 && (s.last() == '.' || s.last() == ' ') {
        let k1 = lemma_trim_dots_range(s.drop_last());
        assert(s.drop_last().subrange(0, k1) == s.subrange(0, k1));
        k1
    } else {
        assert(s.subrange(0, s.len() as int) == s);
        s.len() as int
    }
}

proof fn lemma_drop_forbidden_from(s: Seq<char>)
    ensures
        forall|i: int| 0 <= i < drop_forbidden(s).len() ==> #[trigger] s.contains(drop_forbidden(s)[i]),
    decreases s.len(),
{
    if s.len() > 0 {
        lemma_drop_forbidden_from(s.drop_last());
        let p = drop_forbidden(s.drop_last());
        assert forall|i: int| 0 <= i < p.len() implies #[trigger] s.contains(p[i]) by {
            assert(s.drop_last().contains(p[i]));
            let j = choose|j: int| 0 <= j < s.drop_last().len() && s.drop_last()[j] == p[i];
            assert(s[j] == p[i]);
        }
        if !is_forbidden_in_folder(s.last()) {
            assert forall|i: int| 0 <= i < p.push(s.last()).len() implies #[trigger] s.contains(
                p.push(s.last())[i],
            ) by {
                if i < p.len() {
                    assert(p.push(s.last())[i] == p[i]);
                    assert(s.contains(p[i]));
                } else {
                    assert(s[s.len() - 1] == s.last());
                }
            }
        }
    }
}

proof fn lemma_drop_forbidden_id(s: Seq<char>)
    requires
        no_forbidden(s),
    ensures
        drop_forbidden(s) == s,
    decreases s.len(),
{
    if s.len() > 0 {
        assert(!is_forbidden_in_folder(s[s.len() - 1]));
        lemma_drop_forbidden_id(s.drop_last());
        assert(s.drop_last().push(s.last()) == s);
    }
}

/// A name the cleaning leaves as it is: no forbidden character, and, when not
/// empty, no whitespace at either end and no trailing dot.
pub open spec fn is_clean_folder_text(s: Seq<char>) -> bool {
    &&& no_forbidden(s)
    &&& s.len() > 0 ==> !is_ws(s[0]) && !is_ws(s.last()) && s.last() != '.'
}

proof fn lemma_clean_fixed(s: Seq<char>)
    requires
        is_clean_folder_text(s),
    ensures
        cleaned_folder_name(s) == s,
{
    lemma_drop_forbidden_id(s);
    if s.len() > 0 {
        assert(!is_ws(s.last()));
        assert(s.last() != ' ');
    }
}

/// The only whitespace in `s` is the space and the control characters.
pub open spec fn plain_whitespace(s: Seq<char>) -> bool {
    forall|i: int| 0 <= i < s.len() && is_ws(#[trigger] s[i]) ==> s[i] == ' ' || s[i] <= '\u{1f}'
}

proof fn lemma_cleaned_is_clean(name: Seq<char>)
    requires
        plain_whitespace(name),
    ensures
        is_clean_folder_text(cleaned_folder_name(name)),
{
    let d = drop_forbidden(name);
    lemma_drop_forbidden_clean(name);
    lemma_drop_forbidden_from(name);
    let a = lemma_trim_start_range(d);
    let u = trim_start(d);
    let b = lemma_trim_end_range(u);
    let v = trim(d);
    let c = lemma_trim_dots_range(v);
    lemma_trim_dots_spaces_clean(v);
    let t = cleaned_folder_name(name);
    assert forall|i: int| 0 <= i < t.len() implies t[i] == d[a + i] by {}
    assert forall|i: int| 0 <= i < t.len() implies !is_forbidden_in_folder(#[trigger] t[i]) by {
        assert(t[i] == d[a + i]);
    }
    assert forall|i: int| 0 <= i < t.len() implies is_ws(#[trigger] t[i]) ==> t[i] == ' ' by {
        assert(t[i] == d[a + i]);
        assert(name.contains(d[a + i]));
        assert(!is_forbidden_in_folder(d[a + i]));
    }
    if t.len() > 0 {
        assert(t[0] == d[a]);
        assert(t.last() == t[t.len() - 1]);
        assert(is_ws(t[t.len() - 1]) ==> t[t.len() - 1] == ' ');
    }
}

/// The fallback is a clean name without dots whose upper-cased part before
/// its first dot is not a reserved device name: a fallback the sanitation
/// keeps as it is.
pub open spec fn is_plain_fallback(fallback: Seq<char>) -> bool {
    &&& fallback.len() > 0
    &&& is_clean_folder_text(fallback)
    &&& forall|i: int| 0 <= i < fallback.len() ==> #[trigger] fallback[i] != '.'
    &&& !is_reserved_device(first_segment(upper_case(fallback)))
}

/// No reserved device name holds an underscore at position `n`.
proof fn lemma_underscore_not_reserved(seg: Seq<char>, n: int)
    requires
        0 <= n < seg.len(),
        seg[n] == '_',
    ensures
        !is_reserved_device(seg),
{
    if is_reserved_device(seg) {
        let c3 = seq!['C', 'O', 'N'];
        let p3 = seq!['P', 'R', 'N'];
        let a3 = seq!['A', 'U', 'X'];
        let n3 = seq!['N', 'U', 'L'];
        if n == 0 {
            assert(seg[0] == '_');
        } else if n == 1 {
            assert(seg[1] == '_');
        } else if n == 2 {
            assert(seg[2] == '_');
        } else {
            assert(seg[3] == '_');
        }
        assert(seg != c3 && seg != p3 && seg != a3 && seg != n3);
        assert(false);
    }
}

/// The name the sanitation makes for a reserved name, the fallback, an
/// underscore and that name, is never reserved itself.
proof fn lemma_prefixed_not_reserved(fallback: Seq<char>, t: Seq<char>)
    requires
        is_plain_fallback(fallback),
    ensures
        !is_reserved_device(first_segment(upper_case(fallback + seq!['_'] + t))),
{
    let uf = upper_case(fallback);
    lemma_upper_concat(fallback + seq!['_'], t);
    lemma_upper_concat(fallback, seq!['_']);
    assert(seq!['_'].drop_last() =~= Seq::<char>::empty());
    assert(seq!['_'].last() == '_');
    assert(upper_case(Seq::<char>::empty()) =~= Seq::<char>::empty());
    assert(char_upper('_') =~= seq!['_']);
    assert(upper_case(seq!['_']) =~= seq!['_']);
    let u = upper_case(fallback + seq!['_'] + t);
    assert(u == uf + seq!['_'] + upper_case(t));
    let n = uf.len() as int;
    assert forall|k: int| 0 <= k < n implies u[k] == uf[k] by {}
    assert(u[n] == '_');
    lemma_index_of_from(uf, '.', 0);
    lemma_index_of_from(u, '.', 0);
    let m = index_of_from(uf, '.', 0);
    let i = index_of_from(u, '.', 0);
    if m < n {
        assert(u[m] == '.');
        if i < m {
            assert(u[i] == uf[i]);
        }
        assert(i == m);
        assert(first_segment(u) =~= first_segment(uf));
    } else {
        assert forall|k: int| 0 <= k <= n implies u[k] != '.' by {
            if k < n {
                assert(u[k] == uf[k]);
            }
        }
        if i <= n {
            assert(i < u.len());
        }
        assert(i > n);
        let seg = first_segment(u);
        assert(seg[n] == u[n]);
        lemma_underscore_not_reserved(seg, n);
    }
}

/// Law: for a plain fallback, the chosen folder name is never a reserved
/// device name: the upper-cased part before its first dot is none of CON,
/// PRN, AUX, NUL, COM1..COM9 and LPT1..LPT9.
pub proof fn lemma_folder_name_not_reserved(name: Seq<char>, fallback: Seq<char>)
    requires
        is_plain_fallback(fallback),
    ensures
        !is_reserved_device(first_segment(upper_case(folder_name(name, fallback)))),
{
    let t = cleaned_folder_name(name);
    if t.len() > 0 && is_reserved_device(first_segment(upper_case(t))) {
        lemma_prefixed_not_reserved(fallback, t);
    }
}

proof fn lemma_dots_spaces_trimmed(s: Seq<char>)
    requires
        forall|i: int| 0 <= i < s.len() ==> #[trigger] s[i] == '.' || s[i] == ' ',
    ensures
        trim_dots_spaces(s).len() == 0,
    decreases s.len(),
{
    if s.len() > 0 {
        assert(s.last() == s[s.len() - 1]);
        assert forall|i: int| 0 <= i < s.drop_last().len() implies #[trigger] s.drop_last()[i] == '.'
            || s.drop_last()[i] == ' ' by {
            assert(s.drop_last()[i] == s[i]);
        }
        lemma_dots_spaces_trimmed(s.drop_last());
    }
}

/// Law: a name made only of forbidden characters, spaces and dots gets the
/// fallback.
pub proof fn lemma_folder_name_empty_gives_fallback(name: Seq<char>, fallback: Seq<char>)
    requires
        forall|i: int|
            0 <= i < name.len() ==> is_forbidden_in_folder(#[trigger] name[i]) || name[i] == ' ' || name[i] == '.',
    ensures
        folder_name(name, fallback) == fallback,
{
    let d = drop_forbidden(name);
    lemma_drop_forbidden_clean(name);
    lemma_drop_forbidden_from(name);
    assert forall|i: int| 0 <= i < d.len() implies #[trigger] d[i] == '.' || d[i] == ' ' by {
        assert(name.contains(d[i]));
        assert(!is_forbidden_in_folder(d[i]));
    }
    let a = lemma_trim_start_range(d);
    let u = trim_start(d);
    let b = lemma_trim_end_range(u);
    let v = trim(d);
    assert forall|i: int| 0 <= i < v.len() implies #[trigger] v[i] == '.' || v[i] == ' ' by {
        assert(v[i] == d[a + i]);
    }
    lemma_dots_spaces_trimmed(v);
}

/// Law: sanitizing a folder name twice gives the same as once, for a plain
/// fallback and any name whose only whitespace is the space and the control
/// characters. (A name with other whitespace before a trailing dot, such as
/// "a\u{2003}.", is cleaned to "a\u{2003}", which a second pass trims.)
pub proof fn lemma_folder_name_idempotent(name: Seq<char>, fallback: Seq<char>)
    requires
        is_plain_fallback(fallback),
        plain_whitespace(name),
    ensures
        folder_name(folder_name(name, fallback), fallback) == folder_name(name, fallback),
{
    lemma_cleaned_is_clean(name);
    let t = cleaned_folder_name(name);
    // The fallback is left as it is.
    lemma_clean_fixed(fallback);
    assert(folder_name(fallback, fallback) == fallback);
    if t.len() == 0 {
    } else if is_reserved_device(first_segment(upper_case(t))) {
        let r = fallback + seq!['_'] + t;
        let n = fallback.len() as int;
        assert forall|k: int| 0 <= k < r.len() implies !is_forbidden_in_folder(#[trigger] r[k]) by {
            if k < n {
                assert(r[k] == fallback[k]);
            } else if k == n {
                assert(r[k] == '_');
            } else {
                assert(r[k] == t[k - n - 1]);
            }
        }
        assert(r[0] == fallback[0]);
        assert(r.last() == t.last());
        lemma_clean_fixed(r);
        lemma_prefixed_not_reserved(fallback, t);
    } else {
        lemma_clean_fixed(t);
    }
}

/// A catalog photo whose hash is shared by another photo, as the duplicate
/// query returns it (ordered by hash, then id).
pub struct DuplicateRow {
    pub hash: String,
    pub id: i64,
    pub file_name: String,
    pub path: String,
}

/// A run of consecutive rows sharing a hash, as a value: the hash, every id,
/// and the name and path of the first row.
pub struct DupRun {
    pub hash: Seq<char>,
    pub ids: Seq<i64>,
    pub names: Seq<Seq<char>>,
    pub paths: Seq<Seq<char>>,
}

/// The run a row starts.
pub open spec fn new_run(r: DuplicateRow) -> DupRun {
    DupRun { hash: r.hash@, ids: seq![r.id], names: seq![r.file_name@], paths: seq![r.path@] }
}

/// The groups once run `c` ends: it is kept when it has two photos or more.
pub open spec fn close_run(groups: Seq<DupRun>, c: DupRun) -> Seq<DupRun> {
    if c.ids.len() > 1 {
        groups.push(c)
    } else {
        groups
    }
}

/// Scanning the rows in order: the groups closed so far and the open run.
pub open spec fn dup_scan(rows: Seq<DuplicateRow>) -> (Seq<DupRun>, Option<DupRun>)
    decreases rows.len(),
{
    if rows.len() == 0 {
        (seq![], None)
    } else {
        let (groups, cur) = dup_scan(rows.drop_last());
        let r = rows.last();
        match cur {
            Some(c) => if c.hash == r.hash@ {
                (groups, Some(DupRun { ids: c.ids.push(r.id), ..c }))
            } else {
                (close_run(groups, c), Some(new_run(r)))
            },
            None => (groups, Some(new_run(r))),
        }
    }
}

/// The duplicate groups of the rows: each run of rows sharing a hash that
/// has two photos or more.
pub open spec fn duplicate_groups(rows: Seq<DuplicateRow>) -> Seq<DupRun> {
    let (groups, cur) = dup_scan(rows);
    match cur {
        Some(c) => close_run(groups, c),
        None => groups,
    }
}

/// A duplicate group as a value.
pub open spec fn dup_view(g: DuplicateGroup) -> DupRun {
    DupRun {
        hash: g.hash@,
        ids: g.photo_ids@,
        names: strs(g.photo_names@),
        paths: strs(g.photo_paths@),
    }
}

/// Groups duplicate photos by SHA-256: every run of rows sharing a hash that
/// has two photos or more becomes a group with all their ids, and the name
/// and path of the first.
pub fn find_duplicates(rows: &Vec<DuplicateRow>) -> (r: Vec<DuplicateGroup>)
    ensures
        r@.map_values(|g: DuplicateGroup| dup_view(g)) == duplicate_groups(rows@),
{
    let mut groups: Vec<DuplicateGroup> = Vec::new();
    let mut active = false;
    let mut hash = String::new();
    let mut ids: Vec<i64> = Vec::new();
    let mut names: Vec<String> = Vec::new();
    let mut paths: Vec<String> = Vec::new();
    let mut k: usize = 0;
    while k < rows.len()
        invariant
            k <= rows@.len(),
            groups@.map_values(|g: DuplicateGroup| dup_view(g)) == dup_scan(rows@.take(k as int)).0,
            active == dup_scan(rows@.take(k as int)).1 is Some,
            active ==> dup_scan(rows@.take(k as int)).1 == Some(
                DupRun { hash: hash@, ids: ids@, names: strs(names@), paths: strs(paths@) },
            ),
        decreases rows@.len() - k,
    {
        assert(rows@.take(k + 1).drop_last() == rows@.take(k as int));
        let r = &rows[k];
        let ghost gv = groups@;
        if active && str_eq(hash.as_str(), r.hash.as_str()) {
            ids.push(r.id);
        } else {
            if active {
                if ids.len() > 1 {
                    let ghost closed = DupRun { hash: hash@, ids: ids@, names: strs(names@), paths: strs(paths@) };
                    groups.push(DuplicateGroup { hash, photo_ids: ids, photo_names: names, photo_paths: paths });
                    assert(groups@.map_values(|g: DuplicateGroup| dup_view(g)) =~= gv.map_values(
                        |g: DuplicateGroup| dup_view(g),
                    ).push(closed));
                }
            }
            hash = r.hash.clone();
            ids = Vec::new();
            ids.push(r.id);
            names = Vec::new();
            names.push(r.file_name.clone());
            paths = Vec::new();
            paths.push(r.path.clone());
            assert(strs(names@) =~= seq![r.file_name@]);
            assert(strs(paths@) =~= seq![r.path@]);
            active = true;
        }
        k = k + 1;
    }
    assert(rows@.take(rows@.len() as int) == rows@);
    if active && ids.len() > 1 {
        let ghost gv = groups@;
        let ghost closed = DupRun { hash: hash@, ids: ids@, names: strs(names@), paths: strs(paths@) };
        groups.push(DuplicateGroup { hash, photo_ids: ids, photo_names: names, photo_paths: paths });
        assert(groups@.map_values(|g: DuplicateGroup| dup_view(g)) =~= gv.map_values(
            |g: DuplicateGroup| dup_view(g),
        ).push(closed));
    }
    groups
}

/// A run or group has one name, one path and `min` ids or more.
pub open spec fn well_formed_run(c: DupRun, min: nat) -> bool {
    c.ids.len() >= min && c.names.len() == 1 && c.paths.len() == 1
}

proof fn lemma_dup_scan(rows: Seq<DuplicateRow>)
    ensures
        forall|j: int|
            0 <= j < dup_scan(rows).0.len() ==> well_formed_run(#[trigger] dup_scan(rows).0[j], 2),
        dup_scan(rows).1 matches Some(c) ==> well_formed_run(c, 1),
        dup_scan(rows).1 is None <==> rows.len() == 0,
    decreases rows.len(),
{
    if rows.len() > 0 {
        lemma_dup_scan(rows.drop_last());
    }
}

/// Law: every duplicate group holds two photos or more, with the name and
/// path of its first photo.
pub proof fn lemma_duplicate_groups_well_formed(rows: Seq<DuplicateRow>)
    ensures
        forall|j: int|
            0 <= j < duplicate_groups(rows).len() ==> well_formed_run(
                #[trigger] duplicate_groups(rows)[j],
                2,
            ),
{
    lemma_dup_scan(rows);
}

/// Rows whose equal hashes stand next to each other, as rows ordered by
/// hash do.
pub open spec fn hashes_contiguous(rows: Seq<DuplicateRow>) -> bool {
    forall|i: int, j: int, k: int|
        #![trigger rows[i], rows[j], rows[k]]
        0 <= i < j < k < rows.len() && rows[i].hash@ == rows[k].hash@ ==> rows[j].hash@
            == rows[i].hash@
}

/// Some row carries hash `h`.
pub open spec fn hash_seen(rows: Seq<DuplicateRow>, h: Seq<char>) -> bool {
    exists|i: int| 0 <= i < rows.len() && #[trigger] rows[i].hash@ == h
}

proof fn lemma_dup_scan_hashes(rows: Seq<DuplicateRow>)
    requires
        hashes_contiguous(rows),
    ensures
        forall|a: int, b: int|
            0 <= a < b < dup_scan(rows).0.len() ==> #[trigger] dup_scan(rows).0[a].hash
                != #[trigger] dup_scan(rows).0[b].hash,
        forall|a: int|
            0 <= a < dup_scan(rows).0.len() ==> hash_seen(rows, #[trigger] dup_scan(rows).0[a].hash),
        rows.len() > 0 ==> forall|a: int|
            0 <= a < dup_scan(rows).0.len() ==> #[trigger] dup_scan(rows).0[a].hash
                != rows.last().hash@,
        dup_scan(rows).1 matches Some(c) ==> rows.len() > 0 && c.hash == rows.last().hash@,
    decreases rows.len(),
{
    if rows.len() > 0 {
        let prev = rows.drop_last();
        assert forall|i: int, j: int, k: int|
            #![trigger prev[i], prev[j], prev[k]]
            0 <= i < j < k < prev.len() && prev[i].hash@ == prev[k].hash@ implies prev[j].hash@
                == prev[i].hash@ by {
            assert(prev[i] == rows[i] && prev[j] == rows[j] && prev[k] == rows[k]);
        }
        lemma_dup_scan_hashes(prev);
        lemma_dup_scan(prev);
        let (groups, cur) = dup_scan(prev);
        let r = rows.last();
        let n = rows.len() - 1;
        assert forall|a: int| 0 <= a < groups.len() implies hash_seen(rows, #[trigger] groups[a].hash) by {
            let i = choose|i: int| 0 <= i < prev.len() && #[trigger] prev[i].hash@ == groups[a].hash;
            assert(rows[i] == prev[i]);
        }
        if prev.len() > 0 {
            let h0 = prev.last().hash@;
            assert(rows[n - 1] == prev.last());
            if h0 != r.hash@ {
                assert forall|a: int| 0 <= a < groups.len() implies #[trigger] groups[a].hash
                    != r.hash@ by {
                    if groups[a].hash == r.hash@ {
                        let i = choose|i: int|
                            0 <= i < prev.len() && #[trigger] prev[i].hash@ == groups[a].hash;
                        assert(rows[i] == prev[i]);
                        assert(i != n - 1);
                        assert(rows[i].hash@ == rows[n].hash@);
                        assert(rows[n - 1].hash@ == rows[i].hash@);
                    }
                }
                let c = cur.unwrap();
                let ng = close_run(groups, c);
                assert forall|a: int| 0 <= a < ng.len() implies hash_seen(rows, #[trigger] ng[a].hash) by {
                    if a == groups.len() {
                        assert(rows[n - 1].hash@ == ng[a].hash);
                    }
                }
            }
        }
    }
}

/// Law: over rows ordered by hash, no two duplicate groups share a hash,
/// so each set of identical photos is reported once.
pub proof fn lemma_duplicate_hashes_distinct(rows: Seq<DuplicateRow>)
    requires
        hashes_contiguous(rows),
    ensures
        forall|a: int, b: int|
            0 <= a < b < duplicate_groups(rows).len() ==> #[trigger] duplicate_groups(rows)[a].hash
                != #[trigger] duplicate_groups(rows)[b].hash,
{
    lemma_dup_scan_hashes(rows);
}

/// RAW extensions accepted by a "raw" import.
pub const IMPORT_RAW_EXTENSIONS: [&'static str; 10] = [
    "nef", "arw", "dng", "cr2", "cr3", "orf", "raf", "rw2", "pef", "srw",
];

/// Extensions accepted by a "jpeg" import.
pub const IMPORT_JPEG_EXTENSIONS: [&'static str; 8] = [
    "jpg", "jpeg", "tiff", "tif", "png", "webp", "heic", "heif",
];

/// The lower-cased extension of a path, or the empty string.
pub open spec fn lower_extension(path: Seq<char>) -> Seq<char> {
    match path_ext(path) {
        Some(e) => lower_case(e),
        None => seq![],
    }
}

/// Whether a file belongs to an import type: "raw" and "jpeg" accept their
/// extensions (case-insensitively), any other type accepts every file.
pub open spec fn matches_type_spec(path: Seq<char>, types: Seq<char>) -> bool {
    if types == "raw"@ {
        listed(IMPORT_RAW_EXTENSIONS@, lower_extension(path))
    } else if types == "jpeg"@ {
        listed(IMPORT_JPEG_EXTENSIONS@, lower_extension(path))
    } else {
        true
    }
}

/// Whether the file's extension matches the import type (see `matches_type_spec`).
pub fn matches_photo_type(path: &str, types: &str) -> (r: bool)
    ensures
        r == matches_type_spec(path@, types@),
{
    let ext = match path_extension(path) {
        Some(e) => to_lowercase(e.as_str()),
        None => String::new(),
    };
    if str_eq(types, "raw") {
        is_listed(&IMPORT_RAW_EXTENSIONS, ext.as_str())
    } else if str_eq(types, "jpeg") {
        is_listed(&IMPORT_JPEG_EXTENSIONS, ext.as_str())
    } else {
        true
    }
}

/// An entry met while walking a folder.
pub enum WalkEntry {
    /// An entry the walk could not read.
    Unreadable,
    /// A directory or anything else that is not a regular file.
    NotAFile,
    /// A regular file, by path.
    File(String),
}

/// What indexing does with a walked entry.
pub enum ScanAction {
    /// Not a photo file: passed over silently.
    Ignore,
    /// Unreadable, or a photo of another type: counted as skipped.
    Skip,
    /// A photo of the requested type: inspected and recorded.
    Inspect,
}

/// The action for an entry, given the import type.
pub open spec fn entry_action(e: WalkEntry, types: Seq<char>) -> ScanAction {
    match e {
        WalkEntry::Unreadable => ScanAction::Skip,
        WalkEntry::NotAFile => ScanAction::Ignore,
        WalkEntry::File(p) => if !is_photo_spec(p@) {
            ScanAction::Ignore
        } else if !matches_type_spec(p@, types) {
            ScanAction::Skip
        } else {
            ScanAction::Inspect
        },
    }
}

/// Decides what indexing does with one walked entry.
pub fn scan_entry_action(e: &WalkEntry, types: &str) -> (r: ScanAction)
    ensures
        r == entry_action(*e, types@),
{
    match e {
        WalkEntry::Unreadable => ScanAction::Skip,
        WalkEntry::NotAFile => ScanAction::Ignore,
        WalkEntry::File(p) => {
            if !is_photo_path(p.as_str()) {
                ScanAction::Ignore
            } else if !matches_photo_type(p.as_str(), types) {
                ScanAction::Skip
            } else {
                ScanAction::Inspect
            }
        },
    }
}

/// The paths to inspect, in walk order.
pub open spec fn scan_targets_spec(entries: Seq<WalkEntry>, types: Seq<char>) -> Seq<Seq<char>>
    decreases entries.len(),
{
    if entries.len() == 0 {
        seq![]
    } else {
        let prev = scan_targets_spec(entries.drop_last(), types);
        match entries.last() {
            WalkEntry::File(p) => if entry_action(entries.last(), types) is Inspect {
                prev.push(p@)
            } else {
                prev
            },
            _ => prev,
        }
    }
}

/// How many entries are skipped.
pub open spec fn skipped_count(entries: Seq<WalkEntry>, types: Seq<char>) -> nat
    decreases entries.len(),
{
    if entries.len() == 0 {
        0
    } else {
        skipped_count(entries.drop_last(), types) + if entry_action(entries.last(), types) is Skip {
            1nat
        } else {
            0
        }
    }
}

/// The paths to inspect among the walked entries, in order.
pub fn scan_targets(entries: &Vec<WalkEntry>, types: &str) -> (r: Vec<String>)
    ensures
        strs(r@) == scan_targets_spec(entries@, types@),
{
    let mut out: Vec<String> = Vec::new();
    let mut k: usize = 0;
    while k < entries.len()
        invariant
            k <= entries@.len(),
            strs(out@) == scan_targets_spec(entries@.take(k as int), types@),
        decreases entries@.len() - k,
    {
        assert(entries@.take(k + 1).drop_last() == entries@.take(k as int));
        let e = &entries[k];
        match scan_entry_action(e, types) {
            ScanAction::Inspect => {
                match e {
                    WalkEntry::File(p) => {
                        let ghost before = out@;
                        out.push(p.clone());
                        assert(strs(out@) =~= strs(before).push(p@));
                    },
                    _ => {},
                }
            },
            _ => {},
        }
        k = k + 1;
    }
    assert(entries@.take(entries@.len() as int) == entries@);
    out
}

/// What came of inspecting and recording one photo.
pub enum InspectOutcome {
    /// New to the catalog.
    Added,
    /// Already in the catalog; refreshed.
    Updated,
    /// The file could not be inspected, for this reason.
    Failed(String),
}

/// How many outcomes are `Added`.
pub open spec fn added_count(o: Seq<InspectOutcome>) -> nat
    decreases o.len(),
{
    if o.len() == 0 {
        0
    } else {
        added_count(o.drop_last()) + if o.last() is Added {
            1nat
        } else {
            0
        }
    }
}

/// How many outcomes are `Updated`.
pub open spec fn updated_count(o: Seq<InspectOutcome>) -> nat
    decreases o.len(),
{
    if o.len() == 0 {
        0
    } else {
        updated_count(o.drop_last()) + if o.last() is Updated {
            1nat
        } else {
            0
        }
    }
}

/// The error messages: `<path>: <reason>` for each failed inspection.
pub open spec fn scan_errors(paths: Seq<Seq<char>>, o: Seq<InspectOutcome>) -> Seq<Seq<char>>
    decreases o.len(),
{
    if o.len() == 0 {
        seq![]
    } else {
        let prev = scan_errors(paths, o.drop_last());
        match o.last() {
            InspectOutcome::Failed(e) => prev.push(paths[o.len() - 1] + ": "@ + e@),
            _ => prev,
        }
    }
}

/// The catalog's paths after inspecting `targets` in order from a catalog
/// holding `known`: each target whose inspection did not fail (`failed`) is
/// stored under its path.
pub open spec fn known_after(known: Set<Seq<char>>, targets: Seq<Seq<char>>, failed: Seq<bool>) -> Set<Seq<char>>
    decreases targets.len(),
{
    if targets.len() == 0 {
        known
    } else {
        let k = known_after(known, targets.drop_last(), failed);
        if failed[targets.len() - 1] {
            k
        } else {
            k.insert(targets.last())
        }
    }
}

/// `o` are the outcomes of inspecting `targets` in order from a catalog
/// holding `known`: a failed inspection fails, and a stored file is
/// `Updated` exactly when its path was already in the catalog at that point.
pub open spec fn scan_outcomes_from(
    known: Set<Seq<char>>,
    targets: Seq<Seq<char>>,
    failed: Seq<bool>,
    o: Seq<InspectOutcome>,
) -> bool {
    &&& o.len() == targets.len()
    &&& failed.len() == targets.len()
    &&& forall|i: int|
        0 <= i < o.len() ==> {
            &&& (failed[i] <==> #[trigger] o[i] is Failed)
            &&& (!failed[i] ==> (o[i] is Updated <==> known_after(known, targets.take(i), failed).contains(
                targets[i],
            )))
        }
}

proof fn lemma_known_after_grows(known: Set<Seq<char>>, targets: Seq<Seq<char>>, failed: Seq<bool>)
    ensures
        known.subset_of(known_after(known, targets, failed)),
        forall|i: int|
            0 <= i < targets.len() && !failed[i] ==> known_after(known, targets, failed).contains(
                #[trigger] targets[i],
            ),
    decreases targets.len(),
{
    if targets.len() > 0 {
        let init = targets.drop_last();
        lemma_known_after_grows(known, init, failed);
        assert forall|i: int| 0 <= i < targets.len() && !failed[i] implies known_after(
            known,
            targets,
            failed,
        ).contains(#[trigger] targets[i]) by {
            if i < targets.len() - 1 {
                assert(init[i] == targets[i]);
            }
        }
    }
}

proof fn lemma_rescan_counts(
    known: Set<Seq<char>>,
    targets: Seq<Seq<char>>,
    failed: Seq<bool>,
    o1: Seq<InspectOutcome>,
    o2: Seq<InspectOutcome>,
    paths: Seq<Seq<char>>,
    n: int,
)
    requires
        0 <= n <= o1.len(),
        o1.len() == o2.len(),
        forall|i: int| 0 <= i < o1.len() ==> (#[trigger] o1[i] is Failed <==> o2[i] is Failed),
        forall|i: int| 0 <= i < o2.len() && !(o2[i] is Failed) ==> #[trigger] o2[i] is Updated,
    ensures
        added_count(o2.take(n)) == 0,
        updated_count(o2.take(n)) == added_count(o1.take(n)) + updated_count(o1.take(n)),
        scan_errors(paths, o2.take(n)).len() == scan_errors(paths, o1.take(n)).len(),
    decreases n,
{
    if n > 0 {
        lemma_rescan_counts(known, targets, failed, o1, o2, paths, n - 1);
        assert(o1.take(n).drop_last() == o1.take(n - 1));
        assert(o2.take(n).drop_last() == o2.take(n - 1));
        assert(o1.take(n).last() == o1[n - 1]);
        assert(o2.take(n).last() == o2[n - 1]);
    }
}

/// Law: scanning the same files again, unchanged (each inspection fails or
/// succeeds as before), adds nothing: every file stored the first time is now
/// updated, the errors are as many as before, and the catalog's paths stay
/// as the first scan left them.
pub proof fn lemma_rescan_adds_nothing(
    known: Set<Seq<char>>,
    targets: Seq<Seq<char>>,
    failed: Seq<bool>,
    first: Seq<InspectOutcome>,
    second: Seq<InspectOutcome>,
)
    requires
        scan_outcomes_from(known, targets, failed, first),
        scan_outcomes_from(known_after(known, targets, failed), targets, failed, second),
    ensures
        added_count(second) == 0,
        updated_count(second) == added_count(first) + updated_count(first),
        scan_errors(targets, second).len() == scan_errors(targets, first).len(),
        known_after(known_after(known, targets, failed), targets, failed) == known_after(known, targets, failed),
{
    let k1 = known_after(known, targets, failed);
    lemma_known_after_grows(known, targets, failed);
    assert forall|i: int| 0 <= i < second.len() && !(second[i] is Failed) implies #[trigger] second[i] is Updated by {
        lemma_known_after_grows(k1, targets.take(i), failed);
        assert(!failed[i]);
        assert(k1.contains(targets[i]));
    }
    assert forall|i: int| 0 <= i < first.len() implies (#[trigger] first[i] is Failed <==> second[i] is Failed) by {}
    lemma_rescan_counts(known, targets, failed, first, second, targets, first.len() as int);
    assert(first.take(first.len() as int) == first);
    assert(second.take(second.len() as int) == second);
    lemma_known_after_grows(k1, targets, failed);
    lemma_known_after_fixed(k1, targets, failed, targets.len() as int);
    assert(targets.take(targets.len() as int) == targets);
}

proof fn lemma_known_after_fixed(k: Set<Seq<char>>, targets: Seq<Seq<char>>, failed: Seq<bool>, n: int)
    requires
        0 <= n <= targets.len(),
        forall|i: int| 0 <= i < targets.len() && !failed[i] ==> k.contains(#[trigger] targets[i]),
    ensures
        known_after(k, targets.take(n), failed) == k,
    decreases n,
{
    if n == 0 {
        assert(targets.take(0).len() == 0);
    } else {
        lemma_known_after_fixed(k, targets, failed, n - 1);
        let t = targets.take(n);
        assert(t.drop_last() == targets.take(n - 1));
        assert(t.last() == targets[n - 1]);
        if !failed[n - 1] {
            assert(k.insert(targets[n - 1]) =~= k);
        }
    }
}

/// Tallies a folder scan: `entries` as walked, `outcomes` for the paths
/// `scan_targets` chose, in the same order.
pub fn scan_folder(entries: &Vec<WalkEntry>, types: &str, outcomes: &Vec<InspectOutcome>) -> (r:
    ScanResult)
    requires
        entries@.len() <= i64::MAX,
        outcomes@.len() == scan_targets_spec(entries@, types@).len(),
    ensures
        r.scanned == outcomes@.len(),
        r.added == added_count(outcomes@),
        r.updated == updated_count(outcomes@),
        r.skipped == skipped_count(entries@, types@),
        strs(r.errors@) == scan_errors(scan_targets_spec(entries@, types@), outcomes@),
        r.scanned == r.added + r.updated + r.errors@.len(),
{
    let targets = scan_targets(entries, types);
    let mut skipped: i64 = 0;
    let mut k: usize = 0;
    while k < entries.len()
        invariant
            k <= entries@.len() <= i64::MAX,
            skipped == skipped_count(entries@.take(k as int), types@),
            skipped <= k,
        decreases entries@.len() - k,
    {
        assert(entries@.take(k + 1).drop_last() == entries@.take(k as int));
        match scan_entry_action(&entries[k], types) {
            ScanAction::Skip => {
                skipped = skipped + 1;
            },
            _ => {},
        }
        k = k + 1;
    }
    assert(entries@.take(entries@.len() as int) == entries@);
    proof {
        lemma_targets_len(entries@, types@);
    }
    let mut added: i64 = 0;
    let mut updated: i64 = 0;
    let mut errors: Vec<String> = Vec::new();
    let mut j: usize = 0;
    while j < outcomes.len()
        invariant
            j <= outcomes@.len() == targets@.len() <= entries@.len() <= i64::MAX,
            strs(targets@) == scan_targets_spec(entries@, types@),
            added == added_count(outcomes@.take(j as int)),
            updated == updated_count(outcomes@.take(j as int)),
            added + updated + errors@.len() == j,
            strs(errors@) == scan_errors(strs(targets@), outcomes@.take(j as int)),
        decreases outcomes@.len() - j,
    {
        assert(outcomes@.take(j + 1).drop_last() == outcomes@.take(j as int));
        match &outcomes[j] {
            InspectOutcome::Added => {
                added = added + 1;
            },
            InspectOutcome::Updated => {
                updated = updated + 1;
            },
            InspectOutcome::Failed(e) => {
                let mut m = targets[j].clone();
                m.append(": ");
                m.append(e.as_str());
                let ghost before = errors@;
                let ghost mv = m@;
                errors.push(m);
                assert(strs(errors@) =~= strs(before).push(mv));
                assert(strs(targets@)[j as int] == targets@[j as int]@);
            },
        }
        j = j + 1;
    }
    assert(outcomes@.take(outcomes@.len() as int) == outcomes@);
    ScanResult { scanned: outcomes.len() as i64, added, updated, skipped, errors }
}

proof fn lemma_targets_len(entries: Seq<WalkEntry>, types: Seq<char>)
    ensures
        scan_targets_spec(entries, types).len() <= entries.len(),
    decreases entries.len(),
{
    if entries.len() > 0 {
        lemma_targets_len(entries.drop_last(), types);
    }
}

/// Law: every inspected photo is accounted for exactly once, as added, as
/// updated or as an error: `scanned == added + updated + errors`.
pub proof fn lemma_scan_accounts_for_every_photo(paths: Seq<Seq<char>>, o: Seq<InspectOutcome>)
    ensures
        added_count(o) + updated_count(o) + scan_errors(paths, o).len() == o.len(),
    decreases o.len(),
{
    if o.len() > 0 {
        lemma_scan_accounts_for_every_photo(paths, o.drop_last());
    }
}

/// A catalog photo's id and path.
pub struct PhotoPath {
    pub id: i64,
    pub path: String,
}

/// The message when the catalog is used before `setup`.
pub open spec fn not_initialized_message() -> Seq<char> {
    "core nao inicializado: chame setup() primeiro"@
}

/// The catalog database path, once the catalog has been set up.
pub fn db_path_string(db_path: Option<String>) -> (r: Result<String, String>)
    ensures
        match db_path {
            Some(p) => r matches Ok(s) && s@ == p@,
            None => r matches Err(e) && e@ == not_initialized_message(),
        },
{
    match db_path {
        Some(p) => Ok(p),
        None => Err("core nao inicializado: chame setup() primeiro".to_owned()),
    }
}

/// A photo's edit recipe from its stored value: the empty string when it has
/// none; a failed read stays an error.
pub fn get_photo_edit(stored: Result<Option<String>, String>) -> (r: Result<String, String>)
    ensures
        match stored {
            Ok(o) => r matches Ok(s) && s@ == or_empty(o),
            Err(e) => r matches Err(m) && m@ == e@,
        },
{
    match stored {
        Ok(Some(s)) => Ok(s),
        Ok(None) => Ok(String::new()),
        Err(e) => Err(e),
    }
}

/// The key a preset is stored under: its name, trimmed.
pub fn preset_key(name: &str) -> (r: String)
    ensures
        r@ == trim(name@),
{
    trim_str(name)
}

/// The record `save_preset_full` writes (an upsert by name): the trimmed
/// name, the recipe and the identity metadata.
pub fn save_preset_full(name: &str, recipe: &str, file_type: &str, color_type: &str, source: &str) -> (r:
    Preset)
    ensures
        r.name@ == trim(name@),
        r.recipe@ == recipe@,
        r.file_type@ == file_type@,
        r.color_type@ == color_type@,
        r.source@ == source@,
{
    Preset {
        name: trim_str(name),
        recipe: recipe.to_owned(),
        file_type: file_type.to_owned(),
        color_type: color_type.to_owned(),
        source: source.to_owned(),
    }
}

/// The record `save_preset` writes: a preset without identity, of manual origin.
pub fn save_preset(name: &str, recipe: &str) -> (r: Preset)
    ensures
        r.name@ == trim(name@),
        r.recipe@ == recipe@,
        r.file_type@ == Seq::<char>::empty(),
        r.color_type@ == Seq::<char>::empty(),
        r.source@ == "manual"@,
{
    proof {
        reveal_strlit("");
    }
    save_preset_full(name, recipe, "", "", "manual")
}

/// What `serde_json` reports for a text that is not one JSON value (the
/// error's message), or `None` when the text parses.
pub uninterp spec fn spec_json_error(text: Seq<char>) -> Option<Seq<char>>;

/// `serde_json::from_str::<serde_json::Value>`: whether the text is one JSON
/// value, and the error's message (its `Display`) when it is not.
#[verifier::external_body]
pub(crate) fn json_error(text: &str) -> (r: Option<String>)
    ensures
        opt_view(r) == spec_json_error(text@),
{
    match serde_json::from_str::<serde_json::Value>(text) {
        Ok(_) => None,
        Err(e) => Some(e.to_string()),
    }
}

/// The name a preset file is imported under: the file's stem, or
/// "Preset importado" when the path has none.
pub open spec fn imported_preset_name(path: Seq<char>) -> Seq<char> {
    match path_stem(path) {
        Some(stem) => stem,
        None => "Preset importado"@,
    }
}

/// The outcome of importing a preset file given what parsing its recipe
/// reported: `Err("JSON inválido: <error>")` for a recipe that is not JSON,
/// else the name it is saved under.
pub fn preset_import_outcome(path: &str, parse_error: Option<String>) -> (r: Result<String, String>)
    ensures
        match parse_error {
            Some(e) => r matches Err(m) && m@ == "JSON inválido: "@ + e@,
            None => r matches Ok(n) && n@ == imported_preset_name(path@),
        },
{
    match parse_error {
        Some(e) => {
            let mut m = "JSON inválido: ".to_owned();
            m.append(e.as_str());
            Err(m)
        },
        None => match path_file_stem(path) {
            Some(stem) => Ok(stem),
            None => Ok("Preset importado".to_owned()),
        },
    }
}

/// Checks a preset file's recipe and picks the name it is imported under
/// (see `preset_import_outcome`); the recipe is saved as it was read.
pub fn preset_import(path: &str, recipe: &str) -> (r: Result<String, String>)
    ensures
        match spec_json_error(recipe@) {
            Some(e) => r matches Err(m) && m@ == "JSON inválido: "@ + e,
            None => r matches Ok(n) && n@ == imported_preset_name(path@),
        },
{
    let err = json_error(recipe);
    preset_import_outcome(path, err)
}

/// Whether a delete removed anything, from the number of rows it affected.
fn removed_any(affected: Result<usize, String>) -> (r: Result<bool, String>)
    ensures
        match affected {
            Ok(n) => r == Ok::<bool, String>(n > 0),
            Err(e) => r matches Err(m) && m@ == e@,
        },
{
    match affected {
        Ok(n) => Ok(n > 0),
        Err(e) => Err(e),
    }
}

/// Whether deleting a preset (by `preset_key`) removed one.
pub fn delete_preset(affected: Result<usize, String>) -> (r: Result<bool, String>)
    ensures
        match affected {
            Ok(n) => r == Ok::<bool, String>(n > 0),
            Err(e) => r matches Err(m) && m@ == e@,
        },
{
    removed_any(affected)
}

/// Whether deleting an album removed it, from the rows the album delete
/// affected (its photo links are removed first).
pub fn delete_album(affected: Result<usize, String>) -> (r: Result<bool, String>)
    ensures
        match affected {
            Ok(n) => r == Ok::<bool, String>(n > 0),
            Err(e) => r matches Err(m) && m@ == e@,
        },
{
    removed_any(affected)
}

/// A preset as read from the catalog; the identity columns are `None` when
/// missing or unreadable.
pub struct PresetRow {
    pub name: String,
    pub recipe: String,
    pub file_type: Option<String>,
    pub color_type: Option<String>,
    pub source: Option<String>,
}

/// An album as read from the catalog; the optional columns are `None` when
/// missing or unreadable.
pub struct AlbumRow {
    pub id: i64,
    pub name: String,
    pub session_type: Option<String>,
    pub cover_photo_id: Option<i64>,
    pub created_at: String,
    pub photo_count: Option<i64>,
    pub cover_path: Option<String>,
}

/// `p` is preset row `r`, unreadable identity columns read as empty.
pub open spec fn preset_of(p: Preset, r: PresetRow) -> bool {
    &&& p.name@ == r.name@
    &&& p.recipe@ == r.recipe@
    &&& p.file_type@ == or_empty(r.file_type)
    &&& p.color_type@ == or_empty(r.color_type)
    &&& p.source@ == or_empty(r.source)
}

/// `a` is album row `r`: no session type reads as empty, no count as zero.
pub open spec fn album_of(a: Album, r: AlbumRow) -> bool {
    &&& a.id == r.id
    &&& a.name@ == r.name@
    &&& a.session_type@ == or_empty(r.session_type)
    &&& a.cover_photo_id == r.cover_photo_id
    &&& a.created_at@ == r.created_at@
    &&& a.photo_count == (match r.photo_count {
        Some(c) => c,
        None => 0,
    })
    &&& opt_view(a.cover_path) == opt_view(r.cover_path)
}

fn string_or_empty(o: &Option<String>) -> (r: String)
    ensures
        r@ == or_empty(*o),
{
    match o {
        Some(s) => s.clone(),
        None => String::new(),
    }
}

/// The presets, from the catalog rows (ordered by name).
pub fn list_presets(rows: &Vec<PresetRow>) -> (r: Vec<Preset>)
    ensures
        r@.len() == rows@.len(),
        forall|k: int| 0 <= k < rows@.len() ==> preset_of(#[trigger] r@[k], rows@[k]),
{
    let mut out: Vec<Preset> = Vec::new();
    let mut k: usize = 0;
    while k < rows.len()
        invariant
            k <= rows@.len(),
            out@.len() == k,
            forall|m: int| 0 <= m < k ==> preset_of(#[trigger] out@[m], rows@[m]),
        decreases rows@.len() - k,
    {
        let row = &rows[k];
        out.push(
            Preset {
                name: row.name.clone(),
                recipe: row.recipe.clone(),
                file_type: string_or_empty(&row.file_type),
                color_type: string_or_empty(&row.color_type),
                source: string_or_empty(&row.source),
            },
        );
        k = k + 1;
    }
    out
}

/// The albums, from the catalog rows (newest first).
pub fn list_albums(rows: &Vec<AlbumRow>) -> (r: Vec<Album>)
    ensures
        r@.len() == rows@.len(),
        forall|k: int| 0 <= k < rows@.len() ==> album_of(#[trigger] r@[k], rows@[k]),
{
    let mut out: Vec<Album> = Vec::new();
    let mut k: usize = 0;
    while k < rows.len()
        invariant
            k <= rows@.len(),
            out@.len() == k,
            forall|m: int| 0 <= m < k ==> album_of(#[trigger] out@[m], rows@[m]),
        decreases rows@.len() - k,
    {
        let row = &rows[k];
        out.push(
            Album {
                id: row.id,
                name: row.name.clone(),
                session_type: string_or_empty(&row.session_type),
                cover_photo_id: row.cover_photo_id,
                created_at: row.created_at.clone(),
                photo_count: match row.photo_count {
                    Some(c) => c,
                    None => 0,
                },
                cover_path: match &row.cover_path {
                    Some(p) => Some(p.clone()),
                    None => None,
                },
            },
        );
        k = k + 1;
    }
    out
}

} // verus!
