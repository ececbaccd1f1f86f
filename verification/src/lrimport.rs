//! Reading Lightroom presets: the text side of the import. Camera Raw XMP
//! presets carry `crs:Key="value"` attributes and tone-curve blocks; legacy
//! `.lrtemplate` presets carry `Param Key value` lines. This module finds the
//! values and maps Lightroom's keys to recipe parameters; turning the values
//! into numbers (floating point) is left to the caller.
use vstd::prelude::*;

use crate::grouping::strs;
use crate::text::{
    chars_of, find_char_from, index_of_from, is_whitespace, is_ws, lemma_index_of_from,
    string_from_range, trim, trim_bounds,
};

verus! {

/// `pat` occurs in `s` at position `i`.
pub open spec fn occurs_at(s: Seq<char>, pat: Seq<char>, i: int) -> bool {
    0 <= i && i + pat.len() <= s.len() && s.subrange(i, i + pat.len()) == pat
}

/// The first position at or after `i` where `pat` occurs in `s`.
pub open spec fn find_sub_from(s: Seq<char>, pat: Seq<char>, i: int) -> Option<int>
    decreases s.len() + 1 - i,
{
    if i < 0 || i + pat.len() > s.len() {
        None
    } else if occurs_at(s, pat, i) {
        Some(i)
    } else {
        find_sub_from(s, pat, i + 1)
    }
}

/// The pattern introducing attribute `key`: `crs:<key>="`.
pub open spec fn crs_pattern(key: Seq<char>) -> Seq<char> {
    "crs:"@ + key + "=\""@
}

/// The value of attribute `crs:<key>` in `line`: the text between its first
/// `crs:<key>="` and the next `"`.
pub open spec fn crs_value_spec(line: Seq<char>, key: Seq<char>) -> Option<Seq<char>> {
    let pat = crs_pattern(key);
    match find_sub_from(line, pat, 0) {
        Some(p) => {
            let rest = line.subrange(p + pat.len(), line.len() as int);
            let e = index_of_from(rest, '"', 0);
            if e < rest.len() {
                Some(rest.subrange(0, e))
            } else {
                None
            }
        },
        None => None,
    }
}

/// Whether `pat` occurs in `s` at `i`.
fn matches_at(s: &Vec<char>, pat: &Vec<char>, i: usize) -> (r: bool)
    requires
        i + pat.len() <= s.len(),
    ensures
        r == occurs_at(s@, pat@, i as int),
{
    let mut k: usize = 0;
    while k < pat.len()
        invariant
            k <= pat@.len(),
            i + pat.len() <= s.len(),
            forall|m: int| 0 <= m < k ==> s@[i + m] == pat@[m],
        decreases pat@.len() - k,
    {
        if s[i + k] != pat[k] {
            assert(s@.subrange(i as int, i + pat@.len())[k as int] != pat@[k as int]);
            return false;
        }
        k = k + 1;
    }
    assert(s@.subrange(i as int, i + pat@.len()) =~= pat@);
    true
}

/// The first position where `pat` occurs in `s` (see `find_sub_from`).
fn find_sub(s: &Vec<char>, pat: &Vec<char>) -> (r: Option<usize>)
    ensures
        match r {
            Some(p) => find_sub_from(s@, pat@, 0) == Some(p as int),
            None => find_sub_from(s@, pat@, 0) is None,
        },
{
    if pat.len() > s.len() {
        return None;
    }
    let last = s.len() - pat.len();
    let mut i: usize = 0;
    while i <= last
        invariant
            last + pat@.len() == s@.len(),
            i <= last + 1,
            find_sub_from(s@, pat@, 0) == find_sub_from(s@, pat@, i as int),
        decreases last + 1 - i,
    {
        if matches_at(s, pat, i) {
            return Some(i);
        }
        if i == last {
            assert(find_sub_from(s@, pat@, i + 1) is None);
            return None;
        }
        i = i + 1;
    }
    None
}

proof fn lemma_find_sub_from(s: Seq<char>, pat: Seq<char>, i: int)
    ensures
        find_sub_from(s, pat, i) matches Some(p) ==> occurs_at(s, pat, p) && i <= p,
    decreases s.len() + 1 - i,
{
    if 0 <= i && i + pat.len() <= s.len() && !occurs_at(s, pat, i) {
        lemma_find_sub_from(s, pat, i + 1);
    }
}

/// Reads attribute `crs:<key>` from a line (see `crs_value_spec`).
pub fn crs_value(line: &str, key: &str) -> (r: Option<String>)
    ensures
        match r {
            Some(v) => crs_value_spec(line@, key@) == Some(v@),
            None => crs_value_spec(line@, key@) is None,
        },
{
    let mut p = "crs:".to_owned();
    p.append(key);
    p.append("=\"");
    let pat = chars_of(p.as_str());
    let s = chars_of(line);
    match find_sub(&s, &pat) {
        Some(pos) => {
            proof {
                lemma_find_sub_from(s@, pat@, 0);
            }
            let slen = s.len();
            assert(pos + pat@.len() <= slen);
            let start = pos + pat.len();
            let rest = string_from_range(&s, start, s.len());
            let rv = chars_of(rest.as_str());
            let e = find_char_from(&rv, '"', 0);
            proof {
                lemma_index_of_from(rv@, '"', 0);
            }
            if e < rv.len() {
                Some(string_from_range(&rv, 0, e))
            } else {
                None
            }
        },
        None => None,
    }
}

/// Lightroom `.lrtemplate` keys and the recipe parameters they set.
pub const LRTEMPLATE_MAPPING: [(&'static str, &'static str); 18] = [
    ("Exposure", "exposure"),
    ("Temperature", "temperature"),
    ("Tint", "tint"),
    ("Contrast", "contrast"),
    ("Saturation", "saturation"),
    ("Shadows", "shadows"),
    ("Highlights", "highlights"),
    ("Brightness", "brightness"),
    ("Clarity", "clarity"),
    ("Vibrance", "vibrance"),
    ("Whites", "whites"),
    ("Blacks", "blacks"),
    ("Texture", "texture"),
    ("Dehaze", "dehaze"),
    ("SharpenAmount", "sharpen"),
    ("LuminanceSmoothing", "denoise"),
    ("GrainAmount", "grain"),
    ("PostCropVignetteAmount", "vignette"),
];

/// The parameter a key maps to: the first entry of `mapping` with that key.
pub open spec fn mapped_param(mapping: Seq<(&str, &str)>, key: Seq<char>, k: int) -> Option<Seq<char>>
    decreases mapping.len() - k,
{
    if k < 0 || k >= mapping.len() {
        None
    } else if mapping[k].0@ == key {
        Some(mapping[k].1@)
    } else {
        mapped_param(mapping, key, k + 1)
    }
}

/// The parameter `key` maps to (see `mapped_param`).
fn lookup_param(mapping: &[(&'static str, &'static str)], key: &str) -> (r: Option<&'static str>)
    ensures
        match r {
            Some(p) => mapped_param(mapping@, key@, 0) == Some(p@),
            None => mapped_param(mapping@, key@, 0) is None,
        },
{
    let mut k: usize = 0;
    while k < mapping.len()
        invariant
            k <= mapping@.len(),
            mapped_param(mapping@, key@, 0) == mapped_param(mapping@, key@, k as int),
        decreases mapping@.len() - k,
    {
        let (mk, mp) = mapping[k];
        if crate::text::str_eq(mk, key) {
            return Some(mp);
        }
        k = k + 1;
    }
    None
}

/// The segments of `s` between line feeds, from position `i` on.
pub open spec fn segments_from(s: Seq<char>, i: int) -> Seq<Seq<char>>
    decreases s.len() - i,
{
    if i < 0 || i > s.len() {
        seq![]
    } else {
        let j = index_of_from(s, '\n', i);
        proof {
            lemma_index_of_from(s, '\n', i);
        }
        if j >= s.len() {
            seq![s.subrange(i, s.len() as int)]
        } else {
            seq![s.subrange(i, j)] + segments_from(s, j + 1)
        }
    }
}

/// The key and value of a trimmed `Param Key value` line: the first word after
/// `Param`, and the rest, trimmed.
pub open spec fn param_fields(t: Seq<char>) -> (Seq<char>, Seq<char>) {
    let rest = trim(t.subrange(5, t.len() as int));
    let k = first_ws(rest, 0);
    if k < rest.len() {
        (rest.subrange(0, k), trim(rest.subrange(k + 1, rest.len() as int)))
    } else {
        (rest, seq![])
    }
}

/// The position of the first whitespace of `s` at or after `i`, or `s.len()`.
pub open spec fn first_ws(s: Seq<char>, i: int) -> int
    decreases s.len() - i,
{
    if i < 0 || i >= s.len() {
        s.len() as int
    } else if is_ws(s[i]) {
        i
    } else {
        first_ws(s, i + 1)
    }
}

/// What a line of a `.lrtemplate` sets: for a trimmed line starting with
/// `Param` whose key is known, the parameter and the value's text.
pub open spec fn lrtemplate_entry(line: Seq<char>) -> Option<(Seq<char>, Seq<char>)> {
    let t = trim(line);
    if t.len() >= 5 && t.subrange(0, 5) == "Param"@ {
        let (key, val) = param_fields(t);
        if key.len() == 0 {
            None
        } else {
            match mapped_param(LRTEMPLATE_MAPPING@, key, 0) {
                Some(p) => Some((p, val)),
                None => None,
            }
        }
    } else {
        None
    }
}

/// The settings of a list of lines, in order.
pub open spec fn lrtemplate_entries_of(lines: Seq<Seq<char>>) -> Seq<(Seq<char>, Seq<char>)>
    decreases lines.len(),
{
    if lines.len() == 0 {
        seq![]
    } else {
        lrtemplate_entries_of(lines.drop_last()) + match lrtemplate_entry(lines.last()) {
            Some(e) => seq![e],
            None => seq![],
        }
    }
}

/// A pair of strings as values.
pub open spec fn pair_views(v: Seq<(String, String)>) -> Seq<(Seq<char>, Seq<char>)> {
    v.map_values(|p: (String, String)| (p.0@, p.1@))
}

/// What one `.lrtemplate` line sets (see `lrtemplate_entry`).
fn lrtemplate_line(line: &Vec<char>) -> (r: Option<(String, String)>)
    ensures
        match r {
            Some(p) => lrtemplate_entry(line@) == Some((p.0@, p.1@)),
            None => lrtemplate_entry(line@) is None,
        },
{
    let (a, b) = trim_bounds(line);
    let t = string_from_range(line, a, b);
    let tv = chars_of(t.as_str());
    proof {
        reveal_strlit("Param");
    }
    if tv.len() < 5 || tv[0] != 'P' || tv[1] != 'a' || tv[2] != 'r' || tv[3] != 'a' || tv[4] != 'm' {
        proof {
            if tv@.len() >= 5 {
                assert(tv@.subrange(0, 5) != "Param"@) by {
                    if tv@.subrange(0, 5) == "Param"@ {
                        assert(tv@.subrange(0, 5)[0] == 'P');
                        assert(tv@.subrange(0, 5)[1] == 'a');
                        assert(tv@.subrange(0, 5)[2] == 'r');
                        assert(tv@.subrange(0, 5)[3] == 'a');
                        assert(tv@.subrange(0, 5)[4] == 'm');
                    }
                }
            }
        }
        return None;
    }
    assert(tv@.subrange(0, 5) =~= "Param"@);
    let after = string_from_range(&tv, 5, tv.len());
    let av = chars_of(after.as_str());
    let (ra, rb) = trim_bounds(&av);
    let rest = string_from_range(&av, ra, rb);
    let rv = chars_of(rest.as_str());
    let mut k: usize = 0;
    while k < rv.len() && !is_whitespace(rv[k])
        invariant
            k <= rv@.len(),
            first_ws(rv@, 0) == first_ws(rv@, k as int),
        decreases rv@.len() - k,
    {
        k = k + 1;
    }
    let key = string_from_range(&rv, 0, k);
    let val = if k < rv.len() {
        let tail = string_from_range(&rv, k + 1, rv.len());
        crate::text::trim_str(tail.as_str())
    } else {
        String::new()
    };
    assert(t@ == trim(line@));
    assert(tv@ == trim(line@));
    assert(rv@ == trim(tv@.subrange(5, tv@.len() as int)));
    assert(k as int == first_ws(rv@, 0));
    assert(param_fields(tv@).0 == key@);
    assert(param_fields(tv@).1 == val@);
    if key.as_str().is_empty() {
        return None;
    }
    match lookup_param(&LRTEMPLATE_MAPPING, key.as_str()) {
        Some(p) => Some((p.to_owned(), val)),
        None => None,
    }
}

/// The settings of a legacy `.lrtemplate` preset: for each `Param Key value`
/// line whose key is known, the recipe parameter and the value's text, in
/// file order.
pub fn parse_lrtemplate(text: &str) -> (r: Vec<(String, String)>)
    ensures
        pair_views(r@) == lrtemplate_entries_of(segments_from(text@, 0)),
{
    let s = chars_of(text);
    let mut out: Vec<(String, String)> = Vec::new();
    let mut i: usize = 0;
    let ghost all = segments_from(s@, 0);
    let ghost mut done: Seq<Seq<char>> = seq![];
    let mut finished = false;
    while !finished
        invariant
            i <= s@.len(),
            s@ == text@,
            all == segments_from(s@, 0),
            !finished ==> all == done + segments_from(s@, i as int),
            finished ==> all == done,
            pair_views(out@) == lrtemplate_entries_of(done),
        decreases s@.len() - i, if finished { 0int } else { 1int },
    {
        let j = find_char_from(&s, '\n', i);
        proof {
            lemma_index_of_from(s@, '\n', i as int);
        }
        let seg = string_from_range(&s, i, j);
        let sv = chars_of(seg.as_str());
        let ghost done_before = done;
        proof {
            done = done.push(sv@);
            assert(done.drop_last() == done_before);
        }
        match lrtemplate_line(&sv) {
            Some(p) => {
                let ghost pv = (p.0@, p.1@);
                let ghost out_before = out@;
                out.push(p);
                assert(pair_views(out@) =~= pair_views(out_before).push(pv));
            },
            None => {},
        }
        if j >= s.len() {
            assert(segments_from(s@, i as int) == seq![sv@]);
            finished = true;
        } else {
            assert(segments_from(s@, i as int) == seq![sv@] + segments_from(s@, j + 1));
            i = j + 1;
        }
    }
    out
}

/// Camera Raw (`crs:`) attribute keys and the recipe parameters they set;
/// process-2012 keys come first, so a legacy key read later overrides them.
pub const CRS_MAPPING: [(&'static str, &'static str); 30] = [
    ("Exposure2012", "exposure"),
    ("Exposure", "exposure"),
    ("Temperature", "temperature"),
    ("Tint", "tint"),
    ("Contrast2012", "contrast"),
    ("Contrast", "contrast"),
    ("Saturation", "saturation"),
    ("Vibrance", "vibrance"),
    ("Shadows2012", "shadows"),
    ("Shadows", "shadows"),
    ("Highlights2012", "highlights"),
    ("Highlights", "highlights"),
    ("Whites2012", "whites"),
    ("Whites", "whites"),
    ("Blacks2012", "blacks"),
    ("Blacks", "blacks"),
    ("Brightness", "brightness"),
    ("Clarity2012", "clarity"),
    ("Clarity", "clarity"),
    ("Texture", "texture"),
    ("Dehaze", "dehaze"),
    ("SharpenAmount", "sharpen"),
    ("LuminanceSmoothing", "denoise"),
    ("GrainAmount", "grain"),
    ("PostCropVignetteAmount", "vignette"),
    ("SplitToningShadowHue", "split_toning_shadow_hue"),
    ("SplitToningShadowSaturation", "split_toning_shadow_saturation"),
    ("SplitToningHighlightHue", "split_toning_highlight_hue"),
    ("SplitToningHighlightSaturation", "split_toning_highlight_saturation"),
    ("SplitToningBalance", "split_toning_balance"),
];

/// The HSL colours, in Lightroom's order.
pub const HSL_COLORS: [&'static str; 8] = [
    "Red", "Orange", "Yellow", "Green", "Aqua", "Blue", "Purple", "Magenta",
];

/// The HSL adjustment kinds, in channel order (hue, saturation, luminance).
pub const HSL_KINDS: [&'static str; 3] = ["HueAdjustment", "SaturationAdjustment", "LuminanceAdjustment"];

/// `s` starts with `p`.
pub open spec fn starts_with(s: Seq<char>, p: Seq<char>) -> bool {
    s.len() >= p.len() && s.subrange(0, p.len() as int) == p
}

/// `s` ends with `p`.
pub open spec fn ends_with(s: Seq<char>, p: Seq<char>) -> bool {
    s.len() >= p.len() && s.subrange(s.len() - p.len(), s.len() as int) == p
}

/// The mapped attributes of one line, in mapping order, from entry `k` on.
pub open spec fn line_attributes(t: Seq<char>, mapping: Seq<(&str, &str)>, k: int) -> Seq<(Seq<char>, Seq<char>)>
    decreases mapping.len() - k,
{
    if k < 0 || k >= mapping.len() {
        seq![]
    } else {
        let rest = line_attributes(t, mapping, k + 1);
        match crs_value_spec(t, mapping[k].0@) {
            Some(v) => seq![(mapping[k].1@, v)] + rest,
            None => rest,
        }
    }
}

/// The point a tone-curve line holds: `<rdf:li>x, y</rdf:li>` with exactly
/// one comma; the texts of `x` and `y`.
pub open spec fn curve_point(t: Seq<char>) -> Option<(Seq<char>, Seq<char>)> {
    let li = trim(t.subrange(8, t.len() - 9));
    let c = index_of_from(li, ',', 0);
    if c < li.len() && index_of_from(li, ',', c + 1) == li.len() {
        Some((li.subrange(0, c), li.subrange(c + 1, li.len() as int)))
    } else {
        None
    }
}

/// A tone-curve point line: `<rdf:li>...</rdf:li>`.
pub open spec fn is_point_line(t: Seq<char>) -> bool {
    t.len() >= 17 && starts_with(t, "<rdf:li>"@) && ends_with(t, "</rdf:li>"@)
}

/// Where a scan of an XMP preset stands: inside a tone-curve block or not,
/// the points of the open block, the closed blocks, and the attributes read.
pub struct XmpScan {
    pub in_curve: bool,
    pub current: Seq<(Seq<char>, Seq<char>)>,
    pub curves: Seq<Seq<(Seq<char>, Seq<char>)>>,
    pub attributes: Seq<(Seq<char>, Seq<char>)>,
}

/// Scanning one trimmed line.
pub open spec fn scan_line(st: XmpScan, t: Seq<char>) -> XmpScan {
    if starts_with(t, "<crs:ToneCurvePV2012"@) {
        XmpScan { in_curve: true, current: seq![], ..st }
    } else if st.in_curve {
        if is_point_line(t) {
            match curve_point(t) {
                Some(p) => XmpScan { current: st.current.push(p), ..st },
                None => st,
            }
        } else if starts_with(t, "</crs:ToneCurvePV2012"@) {
            XmpScan { in_curve: false, current: seq![], curves: st.curves.push(st.current), ..st }
        } else {
            st
        }
    } else {
        XmpScan { attributes: st.attributes + line_attributes(t, CRS_MAPPING@, 0), ..st }
    }
}

/// Scanning trimmed lines in order.
pub open spec fn scan_lines(lines: Seq<Seq<char>>) -> XmpScan
    decreases lines.len(),
{
    if lines.len() == 0 {
        XmpScan { in_curve: false, current: seq![], curves: seq![], attributes: seq![] }
    } else {
        scan_line(scan_lines(lines.drop_last()), lines.last())
    }
}

/// The value of attribute `key` on the first line that has it.
pub open spec fn first_value(lines: Seq<Seq<char>>, key: Seq<char>) -> Option<Seq<char>>
    decreases lines.len(),
{
    if lines.len() == 0 {
        None
    } else {
        match crs_value_spec(lines[0], key) {
            Some(v) => Some(v),
            None => first_value(lines.drop_first(), key),
        }
    }
}

/// The HSL slots set, from slot `s` on: slot `3 * colour + kind`, read from
/// attribute `<kind><colour>`.
pub open spec fn hsl_slots(lines: Seq<Seq<char>>, s: int) -> Seq<(usize, Seq<char>)>
    decreases 24 - s,
{
    if s < 0 || s >= 24 {
        seq![]
    } else {
        let key = HSL_KINDS@[s % 3]@ + HSL_COLORS@[s / 3]@;
        let rest = hsl_slots(lines, s + 1);
        match first_value(lines, key) {
            Some(v) => seq![(s as usize, v)] + rest,
            None => rest,
        }
    }
}

/// The trimmed lines of a text.
pub open spec fn trimmed_lines(text: Seq<char>) -> Seq<Seq<char>> {
    segments_from(text, 0).map_values(|l: Seq<char>| trim(l))
}

/// The trimmed lines of a text (see `trimmed_lines`).
pub fn lines_of(text: &str) -> (r: Vec<String>)
    ensures
        strs(r@) == trimmed_lines(text@),
{
    let s = chars_of(text);
    let mut out: Vec<String> = Vec::new();
    let mut i: usize = 0;
    let ghost all = segments_from(s@, 0);
    let ghost mut done: Seq<Seq<char>> = seq![];
    let mut finished = false;
    while !finished
        invariant
            i <= s@.len(),
            s@ == text@,
            all == segments_from(s@, 0),
            !finished ==> all == done + segments_from(s@, i as int),
            finished ==> all == done,
            strs(out@) == done.map_values(|l: Seq<char>| trim(l)),
        decreases s@.len() - i, if finished { 0int } else { 1int },
    {
        let j = find_char_from(&s, '\n', i);
        proof {
            lemma_index_of_from(s@, '\n', i as int);
        }
        let (a, b) = trim_bounds_range(&s, i, j);
        let line = string_from_range(&s, a, b);
        let ghost seg = s@.subrange(i as int, j as int);
        let ghost before = out@;
        let ghost done_before = done;
        proof {
            done = done.push(seg);
        }
        let ghost lv = line@;
        out.push(line);
        assert(strs(out@) =~= strs(before).push(lv));
        assert(done.map_values(|l: Seq<char>| trim(l)) =~= done_before.map_values(|l: Seq<char>| trim(l)).push(trim(seg)));
        if j >= s.len() {
            assert(segments_from(s@, i as int) == seq![seg]);
            finished = true;
        } else {
            assert(segments_from(s@, i as int) == seq![seg] + segments_from(s@, j + 1));
            i = j + 1;
        }
    }
    out
}

/// Bounds of `v[i..j]` trimmed, as positions in `v`.
fn trim_bounds_range(v: &Vec<char>, i: usize, j: usize) -> (r: (usize, usize))
    requires
        i <= j <= v@.len(),
    ensures
        i <= r.0 <= r.1 <= j,
        v@.subrange(r.0 as int, r.1 as int) == trim(v@.subrange(i as int, j as int)),
{
    let seg = string_from_range(v, i, j);
    let sv = chars_of(seg.as_str());
    let (a, b) = trim_bounds(&sv);
    assert(v@.subrange(i + a, i + b) =~= sv@.subrange(a as int, b as int));
    (i + a, i + b)
}

/// Whether `v` starts with `p`.
fn has_prefix(v: &Vec<char>, p: &str) -> (r: bool)
    ensures
        r == starts_with(v@, p@),
{
    let pv = chars_of(p);
    if pv.len() > v.len() {
        return false;
    }
    let head = string_from_range(v, 0, pv.len());
    let hv = chars_of(head.as_str());
    crate::text::chars_eq(&hv, &pv)
}

/// Whether `v` ends with `p`.
fn has_suffix(v: &Vec<char>, p: &str) -> (r: bool)
    ensures
        r == ends_with(v@, p@),
{
    let pv = chars_of(p);
    if pv.len() > v.len() {
        return false;
    }
    let tail = string_from_range(v, v.len() - pv.len(), v.len());
    let tv = chars_of(tail.as_str());
    crate::text::chars_eq(&tv, &pv)
}

/// Appends the mapped attributes of a line (see `line_attributes`).
fn push_line_attributes(t: &str, out: &mut Vec<(String, String)>)
    ensures
        pair_views(final(out)@) == pair_views(old(out)@) + line_attributes(t@, CRS_MAPPING@, 0),
{
    let mut k: usize = 0;
    while k < CRS_MAPPING.len()
        invariant
            k <= CRS_MAPPING@.len(),
            pair_views(out@) + line_attributes(t@, CRS_MAPPING@, k as int) == pair_views(old(out)@)
                + line_attributes(t@, CRS_MAPPING@, 0),
        decreases CRS_MAPPING@.len() - k,
    {
        let (key, param) = CRS_MAPPING[k];
        match crs_value(t, key) {
            Some(v) => {
                let ghost before = out@;
                let ghost pv = (param@, v@);
                out.push((param.to_owned(), v));
                assert(pair_views(out@) =~= pair_views(before).push(pv));
                assert(pair_views(before) + line_attributes(t@, CRS_MAPPING@, k as int) =~= pair_views(
                    before,
                ).push(pv) + line_attributes(t@, CRS_MAPPING@, k + 1));
            },
            None => {},
        }
        k = k + 1;
    }
    assert(line_attributes(t@, CRS_MAPPING@, k as int) == Seq::<(Seq<char>, Seq<char>)>::empty());
    assert(pair_views(out@) + Seq::<(Seq<char>, Seq<char>)>::empty() =~= pair_views(out@));
}

/// The point of a tone-curve point line (see `curve_point`).
fn curve_point_of(t: &Vec<char>) -> (r: Option<(String, String)>)
    requires
        t@.len() >= 17,
    ensures
        match r {
            Some(p) => curve_point(t@) == Some((p.0@, p.1@)),
            None => curve_point(t@) is None,
        },
{
    let (a, b) = trim_bounds_range(t, 8, t.len() - 9);
    let li = string_from_range(t, a, b);
    let lv = chars_of(li.as_str());
    let c = find_char_from(&lv, ',', 0);
    proof {
        lemma_index_of_from(lv@, ',', 0);
    }
    if c >= lv.len() {
        return None;
    }
    let c2 = find_char_from(&lv, ',', c + 1);
    proof {
        lemma_index_of_from(lv@, ',', c + 1);
    }
    if c2 < lv.len() {
        return None;
    }
    Some((string_from_range(&lv, 0, c), string_from_range(&lv, c + 1, lv.len())))
}

/// The text of a Camera Raw XMP preset: the mapped attributes outside
/// tone-curve blocks (parameter and value text, line by line), the point
/// texts of each complete tone-curve block, and the value text of each HSL
/// slot found.
pub struct CrsPreset {
    pub attributes: Vec<(String, String)>,
    pub curves: Vec<Vec<(String, String)>>,
    pub hsl: Vec<(usize, String)>,
}

/// A list of point lists, as values.
pub open spec fn curve_views(v: Seq<Vec<(String, String)>>) -> Seq<Seq<(Seq<char>, Seq<char>)>> {
    v.map_values(|c: Vec<(String, String)>| pair_views(c@))
}

/// HSL slots as values.
pub open spec fn slot_views(v: Seq<(usize, String)>) -> Seq<(usize, Seq<char>)> {
    v.map_values(|p: (usize, String)| (p.0, p.1@))
}

/// The value of `key` on the first line holding it (see `first_value`).
fn first_value_of(lines: &Vec<String>, key: &str) -> (r: Option<String>)
    ensures
        match r {
            Some(v) => first_value(strs(lines@), key@) == Some(v@),
            None => first_value(strs(lines@), key@) is None,
        },
{
    let mut k: usize = 0;
    assert(strs(lines@).skip(0) =~= strs(lines@));
    while k < lines.len()
        invariant
            k <= lines@.len(),
            first_value(strs(lines@), key@) == first_value(strs(lines@).skip(k as int), key@),
        decreases lines@.len() - k,
    {
        assert(strs(lines@).skip(k as int)[0] == lines@[k as int]@);
        assert(strs(lines@).skip(k as int).drop_first() == strs(lines@).skip(k + 1));
        match crs_value(lines[k].as_str(), key) {
            Some(v) => {
                return Some(v);
            },
            None => {},
        }
        k = k + 1;
    }
    assert(strs(lines@).skip(k as int) == Seq::<Seq<char>>::empty());
    None
}

/// Reads the text of a Camera Raw XMP preset (see `CrsPreset`).
pub fn parse_crs_xmp(text: &str) -> (r: CrsPreset)
    ensures
        pair_views(r.attributes@) == scan_lines(trimmed_lines(text@)).attributes,
        curve_views(r.curves@) == scan_lines(trimmed_lines(text@)).curves,
        slot_views(r.hsl@) == hsl_slots(trimmed_lines(text@), 0),
{
    let lines = lines_of(text);
    let ghost ls = strs(lines@);
    let mut in_curve = false;
    let mut current: Vec<(String, String)> = Vec::new();
    let mut curves: Vec<Vec<(String, String)>> = Vec::new();
    let mut attributes: Vec<(String, String)> = Vec::new();
    let mut k: usize = 0;
    while k < lines.len()
        invariant
            k <= lines@.len(),
            ls == strs(lines@),
            ({
                let st = scan_lines(ls.take(k as int));
                &&& st.in_curve == in_curve
                &&& st.current == pair_views(current@)
                &&& st.curves == curve_views(curves@)
                &&& st.attributes == pair_views(attributes@)
            }),
        decreases lines@.len() - k,
    {
        assert(ls.take(k + 1).drop_last() == ls.take(k as int));
        assert(ls.take(k + 1).last() == lines@[k as int]@);
        let t = chars_of(lines[k].as_str());
        if has_prefix(&t, "<crs:ToneCurvePV2012") {
            current = Vec::new();
            in_curve = true;
            assert(pair_views(current@) =~= Seq::<(Seq<char>, Seq<char>)>::empty());
        } else if in_curve {
            let is_point = t.len() >= 17 && has_prefix(&t, "<rdf:li>") && has_suffix(&t, "</rdf:li>");
            if is_point {
                match curve_point_of(&t) {
                    Some(p) => {
                        let ghost before = current@;
                        let ghost pv = (p.0@, p.1@);
                        current.push(p);
                        assert(pair_views(current@) =~= pair_views(before).push(pv));
                    },
                    None => {},
                }
            } else if has_prefix(&t, "</crs:ToneCurvePV2012") {
                let ghost before = curves@;
                let ghost cv = pair_views(current@);
                let done = current;
                curves.push(done);
                assert(curve_views(curves@) =~= curve_views(before).push(cv));
                current = Vec::new();
                assert(pair_views(current@) =~= Seq::<(Seq<char>, Seq<char>)>::empty());
                in_curve = false;
            }
        } else {
            push_line_attributes(lines[k].as_str(), &mut attributes);
        }
        k = k + 1;
    }
    assert(ls.take(lines@.len() as int) == ls);
    let mut hsl: Vec<(usize, String)> = Vec::new();
    let mut s: usize = 0;
    while s < 24
        invariant
            s <= 24,
            ls == strs(lines@),
            ls == trimmed_lines(text@),
            slot_views(hsl@) + hsl_slots(ls, s as int) == hsl_slots(ls, 0),
        decreases 24 - s,
    {
        let mut key = HSL_KINDS[s % 3].to_owned();
        key.append(HSL_COLORS[s / 3]);
        match first_value_of(&lines, key.as_str()) {
            Some(v) => {
                let ghost before = hsl@;
                let ghost pv = (s, v@);
                hsl.push((s, v));
                assert(slot_views(hsl@) =~= slot_views(before).push(pv));
                assert(slot_views(before) + hsl_slots(ls, s as int) =~= slot_views(before).push(pv)
                    + hsl_slots(ls, s + 1));
            },
            None => {},
        }
        s = s + 1;
    }
    assert(hsl_slots(ls, 24) == Seq::<(usize, Seq<char>)>::empty());
    assert(slot_views(hsl@) + Seq::<(usize, Seq<char>)>::empty() =~= slot_views(hsl@));
    CrsPreset { attributes, curves, hsl }
}

} // verus!
