//! Local captions: keywords, a title and a description built from a photo's
//! own data (camera, capture date, rating, number of faces). Entirely offline.
use vstd::prelude::*;
use vstd::utf8::{
    decode_utf8, encode_utf8, encode_utf8_decode_utf8, encode_utf8_valid_utf8,
    is_char_boundary, is_char_boundary_iff_not_is_continuation_byte,
    is_char_boundary_start_end_of_seq,
    is_continuation_byte, valid_utf8, valid_utf8_split,
};

use crate::grouping::strs;
use crate::text::{chars_of, decimal, is_whitespace, is_ws, push_decimal, trim, trim_end, trim_str};

verus! {

/// A generated caption.
pub struct Caption {
    pub keywords: Vec<String>,
    pub title: String,
    pub description: String,
}

/// The camera as shown in captions: the trimmed camera name, or "fotografia"
/// when there is none.
pub open spec fn friendly_camera_spec(camera: Seq<char>) -> Seq<char> {
    if trim(camera).len() == 0 {
        "fotografia"@
    } else {
        trim(camera)
    }
}

/// The camera as shown in captions (see `friendly_camera_spec`).
pub fn friendly_camera(camera: &str) -> (r: String)
    ensures
        r@ == friendly_camera_spec(camera@),
{
    let t = trim_str(camera);
    if t.as_str().is_empty() {
        "fotografia".to_owned()
    } else {
        t
    }
}

/// Whether `c` is an ASCII digit.
pub open spec fn is_digit(c: char) -> bool {
    '0' <= c && c <= '9'
}

/// All characters of `s` are ASCII digits.
pub open spec fn all_digits(s: Seq<char>) -> bool {
    forall|i: int| 0 <= i < s.len() ==> is_digit(#[trigger] s[i])
}

/// The value of a string of decimal digits.
pub open spec fn digits_value(s: Seq<char>) -> nat
    decreases s.len(),
{
    if s.len() == 0 {
        0
    } else {
        digits_value(s.drop_last()) * 10 + (s.last() as nat - '0' as nat) as nat
    }
}

/// The month number written in `m`, as `usize` parsing reads it (an
/// optional `+`, then one or more digits); 0 when it is not a number.
pub open spec fn month_number(m: Seq<char>) -> nat {
    let body = if m.len() > 0 && m[0] == '+' {
        m.drop_first()
    } else {
        m
    };
    if body.len() > 0 && all_digits(body) {
        digits_value(body)
    } else {
        0
    }
}

/// The Portuguese name of month `i` (1..12); empty for 0, "mês" past 12.
pub open spec fn month_name(i: nat) -> Seq<char> {
    if i == 0 {
        seq![]
    } else if i == 1 {
        "janeiro"@
    } else if i == 2 {
        "fevereiro"@
    } else if i == 3 {
        "março"@
    } else if i == 4 {
        "abril"@
    } else if i == 5 {
        "maio"@
    } else if i == 6 {
        "junho"@
    } else if i == 7 {
        "julho"@
    } else if i == 8 {
        "agosto"@
    } else if i == 9 {
        "setembro"@
    } else if i == 10 {
        "outubro"@
    } else if i == 11 {
        "novembro"@
    } else if i == 12 {
        "dezembro"@
    } else {
        "mês"@
    }
}

/// Law: month `n` of the calendar (1 for January .. 12 for December) is
/// named by the `n`-th Portuguese month name.
pub proof fn lemma_month_names(n: nat)
    requires
        1 <= n <= 12,
    ensures
        month_name(n) == seq![
            "janeiro"@, "fevereiro"@, "março"@, "abril"@, "maio"@, "junho"@, "julho"@,
            "agosto"@, "setembro"@, "outubro"@, "novembro"@, "dezembro"@,
        ][n - 1],
{
}

/// The UTF-8 bytes of the trimmed capture time.
pub open spec fn date_bytes(t: Seq<char>) -> Seq<u8> {
    encode_utf8(trim(t))
}

/// The capture time looks like an Exif date: ten bytes or more, a colon
/// after the four-byte year.
pub open spec fn looks_like_exif_date(t: Seq<char>) -> bool {
    date_bytes(t).len() >= 10 && date_bytes(t)[4] == 58u8
}

/// The year, month and day fields of an Exif date `YYYY:MM:DD ...`, cut at
/// bytes 0..4, 5..7 and 8..10 of the trimmed text.
pub open spec fn date_field(t: Seq<char>, from: int, to: int) -> Seq<char> {
    decode_utf8(date_bytes(t).subrange(from, to))
}

/// The date fields of an Exif-looking capture time can be cut: bytes 7, 8 and
/// 10 each start a character (or end the text).
pub open spec fn date_fields_cuttable(taken_at: Option<Seq<char>>) -> bool {
    match taken_at {
        Some(t) => looks_like_exif_date(t) ==> {
            let b = date_bytes(t);
            &&& !is_continuation_byte(b[7])
            &&& !is_continuation_byte(b[8])
            &&& (b.len() == 10 || !is_continuation_byte(b[10]))
        },
        None => true,
    }
}

/// The capture date written out, "14 de maio de 2023", for an Exif-looking
/// capture time; `None` otherwise.
pub open spec fn friendly_date_spec(taken_at: Option<Seq<char>>) -> Option<Seq<char>> {
    match taken_at {
        Some(t) => if looks_like_exif_date(t) {
            Some(
                date_field(t, 8, 10) + " de "@ + month_name(month_number(date_field(t, 5, 7)))
                    + " de "@ + date_field(t, 0, 4),
            )
        } else {
            None
        },
        None => None,
    }
}

/// Law: a two-digit month field "d1d2" is month 10 * d1 + d2 ("06" is June,
/// "12" December).
pub proof fn lemma_month_field(d1: char, d2: char)
    requires
        '0' <= d1 <= '9',
        '0' <= d2 <= '9',
    ensures
        month_number(seq![d1, d2]) == 10 * (d1 as int - '0' as int) + (d2 as int - '0' as int),
{
    let m = seq![d1, d2];
    assert(m.drop_last() =~= seq![d1]);
    assert(seq![d1].drop_last() =~= Seq::<char>::empty());
    assert(all_digits(m));
    assert(m[0] != '+');
    assert(m.last() == d2);
    assert(seq![d1].last() == d1);
    assert(digits_value(Seq::<char>::empty()) == 0);
    assert(digits_value(seq![d1]) == digits_value(seq![d1].drop_last()) * 10 + (d1 as nat - '0' as nat) as nat);
    assert(digits_value(seq![d1]) == (d1 as nat - '0' as nat) as nat);
    assert(digits_value(m) == digits_value(seq![d1]) * 10 + (d2 as nat - '0' as nat));
}

/// Law: a capture time "YYYY:MM:DD ..." whose month field is `n` in 1..12
/// reads "DD de <n-th month of the calendar> de YYYY".
pub proof fn lemma_friendly_date_month(t: Seq<char>)
    requires
        looks_like_exif_date(t),
        1 <= month_number(date_field(t, 5, 7)) <= 12,
    ensures
        friendly_date_spec(Some(t)) == Some(
            date_field(t, 8, 10) + " de "@ + seq![
                "janeiro"@, "fevereiro"@, "março"@, "abril"@, "maio"@, "junho"@, "julho"@,
                "agosto"@, "setembro"@, "outubro"@, "novembro"@, "dezembro"@,
            ][month_number(date_field(t, 5, 7)) - 1] + " de "@ + date_field(t, 0, 4),
        ),
{
    lemma_month_names(month_number(date_field(t, 5, 7)));
}

proof fn lemma_encode_len(chars: Seq<char>)
    ensures
        encode_utf8(chars).len() >= chars.len(),
    decreases chars.len(),
{
    if chars.len() > 0 {
        lemma_encode_len(chars.drop_first());
    }
}

fn digit_value(c: char) -> (r: usize)
    requires
        is_digit(c),
    ensures
        r == c as nat - '0' as nat,
{
    if c == '0' { 0 } else if c == '1' { 1 } else if c == '2' { 2 } else if c == '3' { 3 }
    else if c == '4' { 4 } else if c == '5' { 5 } else if c == '6' { 6 } else if c == '7' { 7 }
    else if c == '8' { 8 } else { 9 }
}

fn is_ascii_digit(c: char) -> (r: bool)
    ensures
        r == is_digit(c),
{
    '0' <= c && c <= '9'
}

/// The month number written in a field of at most two characters.
fn parse_month(m: &str) -> (r: usize)
    requires
        m@.len() <= 2,
    ensures
        r == month_number(m@),
{
    let v = chars_of(m);
    let start: usize = if v.len() > 0 && v[0] == '+' {
        1
    } else {
        0
    };
    let ghost body = v@.subrange(start as int, v@.len() as int);
    assert(body =~= (if m@.len() > 0 && m@[0] == '+' { m@.drop_first() } else { m@ }));
    if start >= v.len() {
        return 0;
    }
    let mut value: usize = 0;
    let mut k = start;
    while k < v.len()
        invariant
            start <= k <= v@.len() <= 2,
            start < v@.len(),
            body == v@.subrange(start as int, v@.len() as int),
            month_number(m@) == (if body.len() > 0 && all_digits(body) {
                digits_value(body)
            } else {
                0
            }),
            all_digits(v@.subrange(start as int, k as int)),
            value == digits_value(v@.subrange(start as int, k as int)),
            value < 100,
            k - start <= 1 ==> value < 10,
        decreases v@.len() - k,
    {
        if !is_ascii_digit(v[k]) {
            assert(!all_digits(body)) by {
                assert(body[k - start] == v@[k as int]);
            }
            return 0;
        }
        assert(v@.subrange(start as int, k + 1).drop_last() == v@.subrange(start as int, k as int));
        value = value * 10 + digit_value(v[k]);
        k = k + 1;
    }
    assert(v@.subrange(start as int, k as int) == body);
    value
}

/// The name of month `i` (see `month_name`).
fn month_label(i: usize) -> (r: &'static str)
    ensures
        r@ == month_name(i as nat),
{
    proof {
        reveal_strlit("");
    }
    if i == 0 {
        ""
    } else if i == 1 {
        "janeiro"
    } else if i == 2 {
        "fevereiro"
    } else if i == 3 {
        "março"
    } else if i == 4 {
        "abril"
    } else if i == 5 {
        "maio"
    } else if i == 6 {
        "junho"
    } else if i == 7 {
        "julho"
    } else if i == 8 {
        "agosto"
    } else if i == 9 {
        "setembro"
    } else if i == 10 {
        "outubro"
    } else if i == 11 {
        "novembro"
    } else if i == 12 {
        "dezembro"
    } else {
        "mês"
    }
}

/// Turns an Exif capture time ("YYYY:MM:DD HH:MM:SS") into a readable date
/// (see `friendly_date_spec`).
pub fn friendly_date(taken_at: Option<&str>) -> (r: Option<String>)
    requires
        date_fields_cuttable(
            match taken_at {
                Some(t) => Some(t@),
                None => None,
            },
        ),
    ensures
        match r {
            Some(s) => friendly_date_spec(
                match taken_at {
                    Some(t) => Some(t@),
                    None => None,
                },
            ) == Some(s@),
            None => friendly_date_spec(
                match taken_at {
                    Some(t) => Some(t@),
                    None => None,
                },
            ) is None,
        },
{
    let t = match taken_at {
        Some(t) => t,
        None => {
            return None;
        },
    };
    let s = trim_str(t);
    let ss = s.as_str();
    let b = ss.as_bytes();
    assert(b@ == date_bytes(t@));
    if b.len() >= 10 && b[4] == 58u8 {
        let ghost bs = b@;
        proof {
            encode_utf8_valid_utf8(trim(t@));
            is_char_boundary_iff_not_is_continuation_byte(bs, 4);
            is_char_boundary_iff_not_is_continuation_byte(bs, 5);
            is_char_boundary_iff_not_is_continuation_byte(bs, 8);
            valid_utf8_split(bs, 4);
            let b4 = bs.subrange(4, bs.len() as int);
            assert(b4[0] == 58u8);
            assert(is_char_boundary(b4, 1)) by {
                reveal_with_fuel(is_char_boundary, 2);
            }
            assert(b4[1] == bs[5]);
            is_char_boundary_iff_not_is_continuation_byte(b4, 1);
        }
        let (y, _) = ss.split_at(4);
        let (_, r5) = ss.split_at(5);
        let (_, r8) = ss.split_at(8);
        proof {
            valid_utf8_split(bs, 5);
            valid_utf8_split(bs, 8);
            let b5 = bs.subrange(5, bs.len() as int);
            let b8 = bs.subrange(8, bs.len() as int);
            assert(b5[2] == bs[7]);
            is_char_boundary_iff_not_is_continuation_byte(b5, 2);
            if bs.len() == 10 {
                is_char_boundary_start_end_of_seq(b8);
            } else {
                assert(b8[2] == bs[10]);
                is_char_boundary_iff_not_is_continuation_byte(b8, 2);
            }
        }
        let (m, _) = r5.split_at(2);
        let (d, _) = r8.split_at(2);
        proof {
            encode_utf8_decode_utf8(y@);
            encode_utf8_decode_utf8(m@);
            encode_utf8_decode_utf8(d@);
            assert(encode_utf8(m@) =~= bs.subrange(5, 7));
            assert(encode_utf8(d@) =~= bs.subrange(8, 10));
            lemma_encode_len(m@);
        }
        let month = month_label(parse_month(m));
        let mut out = d.to_owned();
        out.append(" de ");
        out.append(month);
        out.append(" de ");
        out.append(y);
        return Some(out);
    }
    None
}

/// How a rating is described: 0 unrated, 5 among the best, 4 a highlight,
/// 3 a good option, 1 and 2 up for review, anything else selected.
pub open spec fn quality_phrase(rating: i64) -> Seq<char> {
    if rating == 0 {
        "não classificada"@
    } else if rating == 5 {
        "uma das melhores da série"@
    } else if rating == 4 {
        "um destaque da série"@
    } else if rating == 3 {
        "uma boa opção"@
    } else if 1 <= rating <= 2 {
        "candidata a revisão"@
    } else {
        "selecionada"@
    }
}

/// The run of non-whitespace characters at the end of `t`.
pub open spec fn trailing_word(t: Seq<char>) -> Seq<char>
    decreases t.len(),
{
    if t.len() == 0 || is_ws(t.last()) {
        seq![]
    } else {
        trailing_word(t.drop_last()).push(t.last())
    }
}

/// The last whitespace-separated word of `s`, if it has one.
pub open spec fn last_word(s: Seq<char>) -> Option<Seq<char>> {
    if trim_end(s).len() == 0 {
        None
    } else {
        Some(trailing_word(trim_end(s)))
    }
}

/// The keywords of a caption: the app's tag, the camera, the year, people
/// and their number, and pick or cull by rating.
pub open spec fn caption_keywords(camera: Seq<char>, date: Option<Seq<char>>, rating: i64, faces: nat) -> Seq<
    Seq<char>,
> {
    seq!["OpenShoot"@, "camera:"@ + camera] + (match date {
        Some(d) => match last_word(d) {
            Some(y) => seq!["year:"@ + y],
            None => seq![],
        },
        None => seq![],
    }) + (if faces > 0 {
        seq!["pessoas"@, "faces:"@ + decimal(faces)]
    } else {
        seq![]
    }) + (if rating >= 4 {
        seq!["pick"@]
    } else if rating >= 1 {
        seq!["cull"@]
    } else {
        seq![]
    })
}

/// The caption's title: a portrait or a photograph, with its date when known.
pub open spec fn caption_title(camera: Seq<char>, date: Option<Seq<char>>, faces: nat) -> Seq<char> {
    match date {
        Some(d) => if faces > 0 {
            "Retrato capturado em "@ + d
        } else {
            "Fotografia de "@ + d
        },
        None => if faces > 0 {
            "Retrato — "@ + decimal(faces) + " pessoa(s)"@
        } else {
            "Fotografia — "@ + camera
        },
    }
}

/// The caption's description: camera, date when known, and the rating's phrase.
pub open spec fn caption_description(camera: Seq<char>, date: Option<Seq<char>>, rating: i64) -> Seq<
    char,
> {
    match date {
        Some(d) => "Capturada com "@ + camera + " em "@ + d + ", esta foto é "@ + quality_phrase(rating)
            + "."@,
        None => "Capturada com "@ + camera + ", esta foto é "@ + quality_phrase(rating) + "."@,
    }
}

fn quality_text(rating: i64) -> (r: &'static str)
    ensures
        r@ == quality_phrase(rating),
{
    if rating == 0 {
        "não classificada"
    } else if rating == 5 {
        "uma das melhores da série"
    } else if rating == 4 {
        "um destaque da série"
    } else if rating == 3 {
        "uma boa opção"
    } else if 1 <= rating && rating <= 2 {
        "candidata a revisão"
    } else {
        "selecionada"
    }
}

/// The last whitespace-separated word of `s` (see `last_word`).
pub fn last_word_of(s: &str) -> (r: Option<String>)
    ensures
        match r {
            Some(w) => last_word(s@) == Some(w@),
            None => last_word(s@) is None,
        },
{
    let v = chars_of(s);
    let mut e = v.len();
    assert(v@.take(e as int) == v@);
    while e > 0 && is_whitespace(v[e - 1])
        invariant
            e <= v@.len(),
            trim_end(v@) == trim_end(v@.take(e as int)),
        decreases e,
    {
        assert(v@.take(e as int).drop_last() == v@.take(e - 1));
        e = e - 1;
    }
    assert(trim_end(v@) == v@.take(e as int));
    if e == 0 {
        return None;
    }
    let mut st = e;
    while st > 0 && !is_whitespace(v[st - 1])
        invariant
            st <= e <= v@.len(),
            trailing_word(v@.take(e as int)) == trailing_word(v@.take(st as int)) + v@.subrange(
                st as int,
                e as int,
            ),
        decreases st,
    {
        assert(v@.take(st as int).drop_last() == v@.take(st - 1));
        assert(v@.subrange(st - 1, e as int) == seq![v@[st - 1]] + v@.subrange(st as int, e as int));
        assert(trailing_word(v@.take(st as int)) == trailing_word(v@.take(st - 1)).push(v@[st - 1]));
        assert(trailing_word(v@.take(st - 1)).push(v@[st - 1]) + v@.subrange(st as int, e as int)
            =~= trailing_word(v@.take(st - 1)) + v@.subrange(st - 1, e as int));
        st = st - 1;
    }
    assert(trailing_word(v@.take(st as int)) == Seq::<char>::empty());
    assert(trailing_word(v@.take(e as int)) =~= v@.subrange(st as int, e as int));
    Some(crate::text::string_from_range(&v, st, e))
}

fn push_str(v: &mut Vec<String>, s: String)
    ensures
        strs(final(v)@) == strs(old(v)@).push(s@),
{
    let ghost sv = s@;
    v.push(s);
    assert(strs(final(v)@) =~= strs(old(v)@).push(sv));
}

/// Builds the local caption of a photo from its camera, capture time,
/// rating and number of faces.
pub fn generate(camera: &str, taken_at: Option<&str>, rating: i64, face_count: usize) -> (r: Caption)
    requires
        date_fields_cuttable(
            match taken_at {
                Some(t) => Some(t@),
                None => None,
            },
        ),
    ensures
        ({
            let cam = friendly_camera_spec(camera@);
            let date = friendly_date_spec(
                match taken_at {
                    Some(t) => Some(t@),
                    None => None,
                },
            );
            &&& strs(r.keywords@) == caption_keywords(cam, date, rating, face_count as nat)
            &&& r.title@ == caption_title(cam, date, face_count as nat)
            &&& r.description@ == caption_description(cam, date, rating)
        }),
{
    let cam = friendly_camera(camera);
    let date = friendly_date(taken_at);
    let ghost dv = match &date {
        Some(d) => Some(d@),
        None => None::<Seq<char>>,
    };
    let mut keywords: Vec<String> = Vec::new();
    push_str(&mut keywords, "OpenShoot".to_owned());
    let mut ck = "camera:".to_owned();
    ck.append(cam.as_str());
    push_str(&mut keywords, ck);
    let ghost k0 = strs(keywords@);
    match &date {
        Some(d) => {
            match last_word_of(d.as_str()) {
                Some(y) => {
                    let mut yk = "year:".to_owned();
                    yk.append(y.as_str());
                    push_str(&mut keywords, yk);
                },
                None => {},
            }
        },
        None => {},
    }
    let ghost k1 = strs(keywords@);
    if face_count > 0 {
        push_str(&mut keywords, "pessoas".to_owned());
        let mut fk = "faces:".to_owned();
        push_decimal(&mut fk, face_count as u64);
        push_str(&mut keywords, fk);
    }
    let ghost k2 = strs(keywords@);
    if rating >= 4 {
        push_str(&mut keywords, "pick".to_owned());
    } else if rating >= 1 {
        push_str(&mut keywords, "cull".to_owned());
    }
    assert(strs(keywords@) =~= caption_keywords(cam@, dv, rating, face_count as nat));
    let title = match &date {
        Some(d) => {
            if face_count > 0 {
                let mut t = "Retrato capturado em ".to_owned();
                t.append(d.as_str());
                t
            } else {
                let mut t = "Fotografia de ".to_owned();
                t.append(d.as_str());
                t
            }
        },
        None => {
            if face_count > 0 {
                let mut t = "Retrato — ".to_owned();
                push_decimal(&mut t, face_count as u64);
                t.append(" pessoa(s)");
                t
            } else {
                let mut t = "Fotografia — ".to_owned();
                t.append(cam.as_str());
                t
            }
        },
    };
    let q = quality_text(rating);
    let mut description = "Capturada com ".to_owned();
    description.append(cam.as_str());
    match &date {
        Some(d) => {
            description.append(" em ");
            description.append(d.as_str());
        },
        None => {},
    }
    description.append(", esta foto é ");
    description.append(q);
    description.append(".");
    Caption { keywords, title, description }
}

} // verus!
