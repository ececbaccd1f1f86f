//! Embedded JPEG preview extraction for Canon CR3 (ISO-BMFF/HEIF) files.
//!
//! The file is scanned for JPEG start markers (`FF D8 FF`); from each one the
//! first end marker (`FF D9`) closes a candidate, and the largest candidate of
//! at least 1 KiB wins.
use vstd::prelude::*;

verus! {

/// Smallest candidate accepted as a preview.
pub const MIN_PREVIEW_LEN: usize = 1024;

/// The first 16 bytes carry an `ftyp` box whose major brand is `crx ` or `crx\0`.
pub open spec fn is_cr3_header(d: Seq<u8>) -> bool {
    &&& d.len() >= 16
    &&& d[4] == 0x66u8 && d[5] == 0x74u8 && d[6] == 0x79u8 && d[7] == 0x70u8
    &&& d[8] == 0x63u8 && d[9] == 0x72u8 && d[10] == 0x78u8
    &&& (d[11] == 0x20u8 || d[11] == 0x00u8)
}

/// An end-of-image marker `FF D9` starts at `m`.
pub open spec fn is_eoi_at(d: Seq<u8>, m: int) -> bool {
    0 <= m && m + 1 < d.len() && d[m] == 0xFFu8 && d[m + 1] == 0xD9u8
}

/// Index of the first end-of-image marker `FF D9` at or after `j`.
pub open spec fn find_eoi(d: Seq<u8>, j: int) -> Option<int>
    decreases d.len() - j,
{
    if j < 0 || j + 1 >= d.len() {
        None
    } else if d[j] == 0xFFu8 && d[j + 1] == 0xD9u8 {
        Some(j)
    } else {
        find_eoi(d, j + 1)
    }
}

/// What `find_eoi` returns is an end marker at or after `j`, and it is the first one.
pub proof fn lemma_find_eoi(d: Seq<u8>, j: int)
    requires
        0 <= j,
    ensures
        find_eoi(d, j) matches Some(k) ==> {
            &&& j <= k && k + 1 < d.len()
            &&& d[k] == 0xFFu8 && d[k + 1] == 0xD9u8
            &&& forall|m: int| j <= m < k ==> !#[trigger] is_eoi_at(d, m)
        },
        find_eoi(d, j) is None ==> forall|m: int| j <= m ==> !#[trigger] is_eoi_at(d, m),
    decreases d.len() - j,
{
    if j + 1 < d.len() && !(d[j] == 0xFFu8 && d[j + 1] == 0xD9u8) {
        lemma_find_eoi(d, j + 1);
    }
}

/// Length of a candidate range `(start, end)`.
pub open spec fn range_len(r: Option<(int, int)>) -> int {
    match r {
        Some((s, e)) => e - s,
        None => 0,
    }
}

/// The best candidate after considering `(s, e)`.
pub open spec fn better(best: Option<(int, int)>, s: int, e: int) -> Option<(int, int)> {
    if e - s >= MIN_PREVIEW_LEN && (best is None || e - s > range_len(best)) {
        Some((s, e))
    } else {
        best
    }
}

/// A JPEG start-of-image marker `FF D8 FF` starts at `i`.
pub open spec fn is_soi_at(d: Seq<u8>, i: int) -> bool {
    0 <= i && i + 2 < d.len() && d[i] == 0xFFu8 && d[i + 1] == 0xD8u8 && d[i + 2] == 0xFFu8
}

/// The scan from position `i`, with `best` the largest candidate so far.
pub open spec fn scan(d: Seq<u8>, i: int, best: Option<(int, int)>) -> Option<(int, int)>
    decreases d.len() - i,
{
    if i < 0 || i + 4 >= d.len() {
        best
    } else if is_soi_at(d, i) {
        match find_eoi(d, i + 2) {
            Some(k) => {
                proof {
                    lemma_find_eoi(d, i + 2);
                }
                scan(d, k + 2, better(best, i, k + 2))
            },
            None => best,
        }
    } else {
        scan(d, i + 1, best)
    }
}

/// The bytes of a candidate range.
pub open spec fn range_bytes(d: Seq<u8>, r: Option<(int, int)>) -> Option<Seq<u8>> {
    match r {
        Some((s, e)) => Some(d.subrange(s, e)),
        None => None,
    }
}

/// The contents of an optional byte buffer.
pub open spec fn bytes_view(o: Option<Vec<u8>>) -> Option<Seq<u8>> {
    match o {
        Some(v) => Some(v@),
        None => None,
    }
}

/// The preview chosen from the whole buffer.
pub open spec fn largest_jpeg(d: Seq<u8>) -> Option<Seq<u8>> {
    range_bytes(d, scan(d, 0, None))
}

/// A candidate range holds a whole JPEG stream: start marker, end marker, at least 1 KiB.
pub open spec fn is_jpeg_range(d: Seq<u8>, r: Option<(int, int)>) -> bool {
    r matches Some((s, e)) ==> {
        &&& 0 <= s && s + MIN_PREVIEW_LEN <= e <= d.len()
        &&& d[s] == 0xFFu8 && d[s + 1] == 0xD8u8 && d[s + 2] == 0xFFu8
        &&& d[e - 2] == 0xFFu8 && d[e - 1] == 0xD9u8
    }
}

proof fn lemma_scan_keeps_jpeg(d: Seq<u8>, i: int, best: Option<(int, int)>)
    requires
        0 <= i,
        is_jpeg_range(d, best),
    ensures
        is_jpeg_range(d, scan(d, i, best)),
    decreases d.len() - i,
{
    if i + 4 < d.len() {
        if is_soi_at(d, i) {
            lemma_find_eoi(d, i + 2);
            if let Some(k) = find_eoi(d, i + 2) {
                lemma_scan_keeps_jpeg(d, k + 2, better(best, i, k + 2));
            }
        } else {
            lemma_scan_keeps_jpeg(d, i + 1, best);
        }
    }
}

/// The preview, when there is one, is a contiguous part of the buffer that
/// begins with a JPEG start marker `FF D8 FF`, ends with an end marker and holds at
/// least 1 KiB.
pub proof fn lemma_preview_is_whole_jpeg(d: Seq<u8>)
    ensures
        largest_jpeg(d) matches Some(p) ==> {
            &&& p.len() >= MIN_PREVIEW_LEN
            &&& p[0] == 0xFFu8 && p[1] == 0xD8u8 && p[2] == 0xFFu8
            &&& p[p.len() - 2] == 0xFFu8 && p[p.len() - 1] == 0xD9u8
            &&& exists|s: int| 0 <= s && s + p.len() <= d.len() && #[trigger] d.subrange(s, s + p.len()) == p
        },
{
    lemma_scan_keeps_jpeg(d, 0, None);
    if let Some((s, e)) = scan(d, 0, None) {
        let p = d.subrange(s, e);
        assert(d.subrange(s, s + p.len()) == p);
    }
}

/// Checks whether the first bytes look like a CR3/HEIF file (`ftyp` box with a `crx` brand).
pub fn looks_like_cr3(data: &[u8]) -> (r: bool)
    ensures
        r == is_cr3_header(data@),
{
    if data.len() < 16 {
        return false;
    }
    data[4] == 0x66 && data[5] == 0x74 && data[6] == 0x79 && data[7] == 0x70 && data[8] == 0x63
        && data[9] == 0x72 && data[10] == 0x78 && (data[11] == 0x20 || data[11] == 0x00)
}

/// Position of the first end marker at or after `j`.
fn find_eoi_from(data: &[u8], j: usize) -> (r: Option<usize>)
    ensures
        match r {
            Some(k) => find_eoi(data@, j as int) == Some(k as int),
            None => find_eoi(data@, j as int) is None,
        },
{
    let n = data.len();
    let mut k = j;
    while k < n && n - k > 1
        invariant
            j <= k,
            n == data@.len(),
            find_eoi(data@, j as int) == find_eoi(data@, k as int),
        decreases n - k,
    {
        if data[k] == 0xFF && data[k + 1] == 0xD9 {
            return Some(k);
        }
        k = k + 1;
    }
    None
}

/// Extracts the largest embedded JPEG found by scanning for start markers.
pub fn extract_largest_jpeg(data: &[u8]) -> (r: Option<Vec<u8>>)
    ensures
        bytes_view(r) == largest_jpeg(data@),
{
    let n = data.len();
    let mut best: Option<Vec<u8>> = None;
    let ghost mut br: Option<(int, int)> = None;
    let mut i: usize = 0;
    while i < n && n - i > 4
        invariant
            i <= n,
            n == data@.len(),
            scan(data@, i as int, br) == scan(data@, 0, None),
            bytes_view(best) == range_bytes(data@, br),
            br matches Some((s, e)) ==> 0 <= s <= e <= n,
        decreases n - i,
    {
        let ghost old_i = i as int;
        let ghost old_br = br;
        if data[i] == 0xFF && data[i + 1] == 0xD8 && data[i + 2] == 0xFF {
            proof {
                lemma_find_eoi(data@, i + 2);
            }
            match find_eoi_from(data, i + 2) {
                Some(k) => {
                    let len = k + 2 - i;
                    let replace = match &best {
                        None => len >= MIN_PREVIEW_LEN,
                        Some(b) => {
                            assert(b@.len() == range_len(br));
                            len >= MIN_PREVIEW_LEN && len > b.len()
                        },
                    };
                    assert(replace == (better(br, i as int, k + 2) != br));
                    if replace {
                        best = Some(vstd::slice::slice_to_vec(&data[i..k + 2]));
                        proof {
                            br = Some((i as int, k + 2));
                        }
                    }
                    i = k + 2;
                    assert(br == better(old_br, old_i, k + 2));
                },
                None => {
                    return best;
                },
            }
        } else {
            i = i + 1;
        }
    }
    best
}

/// Extracts the JPEG preview of a CR3 file: the largest embedded JPEG.
pub fn extract_cr3_preview(data: &[u8]) -> (r: Option<Vec<u8>>)
    ensures
        bytes_view(r) == (if is_cr3_header(data@) { largest_jpeg(data@) } else { None }),
{
    if !looks_like_cr3(data) {
        return None;
    }
    extract_largest_jpeg(data)
}

} // verus!
