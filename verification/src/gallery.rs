//! Static web gallery page: a self-contained `index.html` (dark theme,
//! responsive grid, lightbox through CSS `:target`) with no external
//! dependencies. The caller lays out `photos/<file>` (copies of the originals)
//! and `thumbs/<stem>.jpg` (thumbnails with the same stem).
use vstd::prelude::*;

use crate::paths::{path_file_stem, path_stem};
use crate::paths::{path_extension, path_ext};
use crate::text::{
    chars_of, decimal, push_char, push_decimal, push_i64, signed_decimal, lower_case,
    string_from_range, to_lowercase, trim, trim_str,
};

verus! {

/// Page start, up to the opening `<title>`.
pub const PAGE_HEAD: &'static str = "<!DOCTYPE html>\n\
<html lang=\"pt-BR\">\n\
<head>\n\
<meta charset=\"utf-8\">\n\
<meta name=\"viewport\" content=\"width=device-width, initial-scale=1\">\n\
<title>";

/// From `</title>` through the style sheet to the opening `<h1>`.
pub const PAGE_STYLE: &'static str = "</title>\n\
<style>\n\
:root { --bg:#0f1115; --panel:#171a21; --text:#e6e8ee; --muted:#8b90a0; --accent:#4f8cff; }\n\
* { box-sizing:border-box; margin:0; padding:0; }\n\
body { background:var(--bg); color:var(--text); font-family:-apple-system,BlinkMacSystemFont,'Segoe UI',Roboto,sans-serif; min-height:100vh; }\n\
header { padding:32px 24px 16px; text-align:center; border-bottom:1px solid #232734; }\n\
header h1 { font-size:1.6rem; font-weight:600; letter-spacing:.02em; }\n\
header p { color:var(--muted); margin-top:6px; font-size:.9rem; }\n\
main { max-width:1400px; margin:0 auto; padding:24px; display:grid; gap:12px; grid-template-columns:repeat(auto-fill,minmax(200px,1fr)); }\n\
.card { display:block; aspect-ratio:1/1; overflow:hidden; border-radius:10px; background:var(--panel); transition:transform .15s ease, box-shadow .15s ease; }\n\
.card img { width:100%; height:100%; object-fit:cover; display:block; }\n\
.card:hover { transform:translateY(-2px); box-shadow:0 8px 24px rgba(0,0,0,.45); }\n\
.lightbox { position:fixed; inset:0; background:rgba(8,9,12,.92); display:none; align-items:center; justify-content:center; flex-direction:column; z-index:10; padding:24px; }\n\
.lightbox:target { display:flex; }\n\
.lightbox img { max-width:min(92vw,1600px); max-height:78vh; object-fit:contain; border-radius:8px; }\n\
.lightbox figcaption { margin-top:14px; color:var(--muted); font-size:.95rem; text-align:center; }\n\
.lightbox .close { position:absolute; top:16px; right:24px; font-size:2.2rem; line-height:1; color:var(--text); text-decoration:none; opacity:.8; }\n\
.lightbox .close:hover { opacity:1; }\n\
footer { text-align:center; color:var(--muted); font-size:.8rem; padding:24px 0 40px; }\n\
</style>\n\
</head>\n\
<body>\n\
<header><h1>";

/// Between the heading and the photo count.
pub const PAGE_COUNT: &'static str = "</h1><p>";

/// From the count to the opening of the card grid.
pub const PAGE_MAIN: &'static str = "</p></header>\n\
<main>\n";

/// Closing of the card grid.
pub const PAGE_MAIN_END: &'static str = "</main>\n";

/// Footer and page end.
pub const PAGE_END: &'static str = "<footer>OpenShoot</footer>\n\
</body>\n\
</html>\n";

/// How one character is written in HTML text and attribute values.
pub open spec fn escape_char(c: char) -> Seq<char> {
    if c == '&' {
        "&amp;"@
    } else if c == '<' {
        "&lt;"@
    } else if c == '>' {
        "&gt;"@
    } else if c == '"' {
        "&quot;"@
    } else if c == '\'' {
        "&#39;"@
    } else {
        seq![c]
    }
}

/// `s` escaped for HTML, character by character.
pub open spec fn escape_html(s: Seq<char>) -> Seq<char>
    decreases s.len(),
{
    if s.len() == 0 {
        Seq::empty()
    } else {
        escape_html(s.drop_last()) + escape_char(s.last())
    }
}

/// A character that would end text or an attribute value in HTML.
pub open spec fn is_markup_char(c: char) -> bool {
    c == '<' || c == '>' || c == '"' || c == '\''
}

/// Law: escaped text holds no character that could open a tag or close an
/// attribute, so a title or caption cannot inject markup into the page.
pub proof fn lemma_escape_html_no_markup(s: Seq<char>)
    ensures
        forall|k: int| 0 <= k < escape_html(s).len() ==> !is_markup_char(#[trigger] escape_html(s)[k]),
    decreases s.len(),
{
    reveal_strlit("&amp;");
    reveal_strlit("&lt;");
    reveal_strlit("&gt;");
    reveal_strlit("&quot;");
    reveal_strlit("&#39;");
    if s.len() > 0 {
        lemma_escape_html_no_markup(s.drop_last());
        let prev = escape_html(s.drop_last());
        let tail = escape_char(s.last());
        assert(escape_html(s) == prev + tail);
        assert forall|k: int| 0 <= k < tail.len() implies !is_markup_char(#[trigger] tail[k]) by {}
        assert forall|k: int| 0 <= k < escape_html(s).len() implies !is_markup_char(
            #[trigger] escape_html(s)[k],
        ) by {
            if k < prev.len() {
                assert(escape_html(s)[k] == prev[k]);
            } else {
                assert(escape_html(s)[k] == tail[k - prev.len()]);
            }
        }
    }
}

/// The thumbnail path for a copied photo: `photos/foo.CR3` -> `thumbs/foo.jpg`.
pub open spec fn thumb_rel(photo_rel: Seq<char>) -> Seq<char> {
    let stem = match path_stem(photo_rel) {
        Some(s) => s,
        None => photo_rel,
    };
    "thumbs/"@ + stem + ".jpg"@
}

/// Grid card of the photo at position `i`.
pub open spec fn card_html(i: nat, photo_rel: Seq<char>, caption: Seq<char>) -> Seq<char> {
    "<a class=\"card\" href=\"#p"@ + decimal(i) + "\"><img loading=\"lazy\" src=\""@ + escape_html(
        thumb_rel(photo_rel),
    ) + "\" alt=\""@ + escape_html(caption) + "\"></a>\n"@
}

/// Lightbox of the photo at position `i`.
pub open spec fn lightbox_html(i: nat, photo_rel: Seq<char>, caption: Seq<char>) -> Seq<char> {
    "<figure class=\"lightbox\" id=\"p"@ + decimal(i)
        + "\">\n<a class=\"close\" href=\"#\" aria-label=\"Close\">&times;</a>\n<img src=\""@
        + escape_html(photo_rel) + "\" alt=\"\">\n<figcaption>"@ + escape_html(caption)
        + "</figcaption>\n</figure>\n"@
}

/// Cards of the first `k` photos.
pub open spec fn cards_html(photos: Seq<(String, String)>, k: nat) -> Seq<char>
    decreases k,
{
    if k == 0 {
        Seq::empty()
    } else {
        let j = (k - 1) as nat;
        cards_html(photos, j) + card_html(j, photos[j as int].0@, photos[j as int].1@)
    }
}

/// Lightboxes of the first `k` photos.
pub open spec fn lightboxes_html(photos: Seq<(String, String)>, k: nat) -> Seq<char>
    decreases k,
{
    if k == 0 {
        Seq::empty()
    } else {
        let j = (k - 1) as nat;
        lightboxes_html(photos, j) + lightbox_html(j, photos[j as int].0@, photos[j as int].1@)
    }
}

/// "1 foto" or "<n> fotos".
pub open spec fn count_text(n: nat) -> Seq<char> {
    if n == 1 {
        "1 foto"@
    } else {
        decimal(n) + " fotos"@
    }
}

/// The whole page for the given photos and title.
pub open spec fn gallery_page(photos: Seq<(String, String)>, title: Seq<char>) -> Seq<char> {
    PAGE_HEAD@ + escape_html(title) + PAGE_STYLE@ + escape_html(title) + PAGE_COUNT@ + count_text(
        photos.len(),
    ) + PAGE_MAIN@ + cards_html(photos, photos.len()) + PAGE_MAIN_END@ + lightboxes_html(
        photos,
        photos.len(),
    ) + PAGE_END@
}

/// `t` occurs in `s` at position `k`.
pub open spec fn occurs_at(s: Seq<char>, t: Seq<char>, k: int) -> bool {
    0 <= k && k + t.len() <= s.len() && s.subrange(k, k + t.len()) == t
}

/// `t` occurs somewhere in `s`.
pub open spec fn occurs_in(s: Seq<char>, t: Seq<char>) -> bool {
    exists|k: int| occurs_at(s, t, k)
}

/// The anchor of the `i`-th photo: `p<i>`.
pub open spec fn anchor(i: nat) -> Seq<char> {
    seq!['p'] + decimal(i)
}

/// Law: different photos get different anchors.
pub proof fn lemma_anchors_distinct(i: nat, j: nat)
    requires
        i != j,
    ensures
        anchor(i) != anchor(j),
{
    if anchor(i) == anchor(j) {
        assert(decimal(i) =~= anchor(i).drop_first());
        assert(decimal(j) =~= anchor(j).drop_first());
        crate::naming::lemma_decimal_value(i);
        crate::naming::lemma_decimal_value(j);
    }
}

/// The start of a card that links to `#<target>` and shows the thumbnail of
/// `photo_rel`.
pub open spec fn card_link(target: Seq<char>, photo_rel: Seq<char>) -> Seq<char> {
    "<a class=\"card\" href=\"#"@ + target + "\"><img loading=\"lazy\" src=\""@ + escape_html(
        thumb_rel(photo_rel),
    ) + "\" alt=\""@
}

/// The start of a lightbox with id `<id>` that shows `photo_rel`.
pub open spec fn lightbox_target(id: Seq<char>, photo_rel: Seq<char>) -> Seq<char> {
    "<figure class=\"lightbox\" id=\""@ + id
        + "\">\n<a class=\"close\" href=\"#\" aria-label=\"Close\">&times;</a>\n<img src=\""@
        + escape_html(photo_rel) + "\" alt=\"\">\n<figcaption>"@
}

proof fn lemma_occurs_in_context(a: Seq<char>, s: Seq<char>, b: Seq<char>, t: Seq<char>, k: int)
    requires
        occurs_at(s, t, k),
    ensures
        occurs_at(a + s + b, t, a.len() + k),
{
    assert((a + s + b).subrange(a.len() + k, a.len() + k + t.len()) =~= s.subrange(k, k + t.len()));
}

proof fn lemma_card_in_cards(photos: Seq<(String, String)>, i: nat, n: nat) -> (k: int)
    requires
        i < n <= photos.len(),
    ensures
        occurs_at(cards_html(photos, n), card_link(anchor(i), photos[i as int].0@), k),
    decreases n,
{
    let t = card_link(anchor(i), photos[i as int].0@);
    if n == i + 1 {
        let pre = cards_html(photos, i);
        let c = card_html(i, photos[i as int].0@, photos[i as int].1@);
        reveal_strlit("<a class=\"card\" href=\"#p");
        reveal_strlit("<a class=\"card\" href=\"#");
        assert("<a class=\"card\" href=\"#p"@ =~= "<a class=\"card\" href=\"#"@ + seq!['p']);
        assert(c.subrange(0, t.len() as int) =~= t);
        assert(cards_html(photos, n) == pre + c);
        assert(cards_html(photos, n).subrange(pre.len() as int, (pre.len() + t.len()) as int) =~= c.subrange(
            0,
            t.len() as int,
        ));
        pre.len() as int
    } else {
        let k = lemma_card_in_cards(photos, i, (n - 1) as nat);
        let j = (n - 1) as nat;
        let prev = cards_html(photos, j);
        let c = card_html(j, photos[j as int].0@, photos[j as int].1@);
        assert(cards_html(photos, n) == prev + c);
        assert((prev + c).subrange(k, k + t.len()) =~= prev.subrange(k, k + t.len()));
        k
    }
}

proof fn lemma_box_in_boxes(photos: Seq<(String, String)>, i: nat, n: nat) -> (k: int)
    requires
        i < n <= photos.len(),
    ensures
        occurs_at(lightboxes_html(photos, n), lightbox_target(anchor(i), photos[i as int].0@), k),
    decreases n,
{
    let t = lightbox_target(anchor(i), photos[i as int].0@);
    if n == i + 1 {
        let pre = lightboxes_html(photos, i);
        let c = lightbox_html(i, photos[i as int].0@, photos[i as int].1@);
        reveal_strlit("<figure class=\"lightbox\" id=\"p");
        reveal_strlit("<figure class=\"lightbox\" id=\"");
        assert("<figure class=\"lightbox\" id=\"p"@ =~= "<figure class=\"lightbox\" id=\""@ + seq!['p']);
        assert(c.subrange(0, t.len() as int) =~= t);
        assert(lightboxes_html(photos, n) == pre + c);
        assert(lightboxes_html(photos, n).subrange(pre.len() as int, (pre.len() + t.len()) as int)
            =~= c.subrange(0, t.len() as int));
        pre.len() as int
    } else {
        let k = lemma_box_in_boxes(photos, i, (n - 1) as nat);
        let j = (n - 1) as nat;
        let prev = lightboxes_html(photos, j);
        let c = lightbox_html(j, photos[j as int].0@, photos[j as int].1@);
        assert(lightboxes_html(photos, n) == prev + c);
        assert((prev + c).subrange(k, k + t.len()) =~= prev.subrange(k, k + t.len()));
        k
    }
}

/// Law: on the gallery page every photo `i` has a card that shows its
/// thumbnail and links to `#p<i>`, and a lightbox with that same id `p<i>`
/// that shows the photo itself, so each card opens its own photo; the ids
/// of different photos differ (see `lemma_anchors_distinct`).
pub proof fn lemma_cards_open_their_own_photo(photos: Seq<(String, String)>, title: Seq<char>)
    ensures
        forall|i: int|
            0 <= i < photos.len() ==> occurs_in(gallery_page(photos, title), #[trigger] card_link(anchor(i as nat), photos[i].0@))
                && occurs_in(gallery_page(photos, title), lightbox_target(anchor(i as nat), photos[i].0@)),
{
    let n = photos.len();
    assert forall|i: int| 0 <= i < photos.len() implies occurs_in(gallery_page(photos, title), #[trigger] card_link(anchor(i as nat), photos[i].0@))
        && occurs_in(gallery_page(photos, title), lightbox_target(anchor(i as nat), photos[i].0@)) by {
        let cards = cards_html(photos, n);
        let boxes = lightboxes_html(photos, n);
        let head = PAGE_HEAD@ + escape_html(title) + PAGE_STYLE@ + escape_html(title) + PAGE_COUNT@
            + count_text(n) + PAGE_MAIN@;
        let tail1 = PAGE_MAIN_END@ + boxes + PAGE_END@;
        let k1 = lemma_card_in_cards(photos, i as nat, n);
        lemma_occurs_in_context(head, cards, tail1, card_link(anchor(i as nat), photos[i].0@), k1);
        assert(gallery_page(photos, title) =~= head + cards + tail1);
        let head2 = head + cards + PAGE_MAIN_END@;
        let k2 = lemma_box_in_boxes(photos, i as nat, n);
        lemma_occurs_in_context(head2, boxes, PAGE_END@, lightbox_target(anchor(i as nat), photos[i].0@), k2);
        assert(gallery_page(photos, title) =~= head2 + boxes + PAGE_END@);
    }
}

/// Appends `s` escaped for HTML.
pub fn push_escaped(out: &mut String, s: &str)
    ensures
        final(out)@ == old(out)@ + escape_html(s@),
{
    let v = chars_of(s);
    let mut k: usize = 0;
    while k < v.len()
        invariant
            k <= v.len(),
            v@ == s@,
            out@ == old(out)@ + escape_html(v@.subrange(0, k as int)),
        decreases v.len() - k,
    {
        let c = v[k];
        assert(v@.subrange(0, k + 1).drop_last() == v@.subrange(0, k as int));
        if c == '&' {
            out.append("&amp;");
        } else if c == '<' {
            out.append("&lt;");
        } else if c == '>' {
            out.append("&gt;");
        } else if c == '"' {
            out.append("&quot;");
        } else if c == '\'' {
            out.append("&#39;");
        } else {
            push_char(out, c);
        }
        k = k + 1;
    }
    assert(v@.subrange(0, v.len() as int) == s@);
}

/// Escapes text for safe use in HTML (titles and captions).
pub fn escape_html_str(s: &str) -> (r: String)
    ensures
        r@ == escape_html(s@),
{
    let mut r = String::new();
    push_escaped(&mut r, s);
    r
}

/// The thumbnail path for a copied photo: `photos/foo.CR3` -> `thumbs/foo.jpg`.
pub fn thumb_rel_for(photo_rel: &str) -> (r: String)
    ensures
        r@ == thumb_rel(photo_rel@),
{
    let stem = match path_file_stem(photo_rel) {
        Some(s) => s,
        None => photo_rel.to_owned(),
    };
    let mut r = String::new();
    r.append("thumbs/");
    r.append(&stem);
    r.append(".jpg");
    r
}

/// Builds the whole gallery page. Each item is `(relative path of the copied
/// photo, caption)`. A title that is empty once trimmed is refused.
pub fn generate_html(photos: &[(String, String)], title: &str) -> (r: Result<String, String>)
    ensures
        r is Err <==> trim(title@).len() == 0,
        r matches Ok(page) ==> page@ == gallery_page(photos@, title@),
        r matches Ok(page) ==> forall|i: int|
            0 <= i < photos@.len() ==> occurs_in(page@, #[trigger] card_link(anchor(i as nat), photos@[i].0@))
                && occurs_in(page@, lightbox_target(anchor(i as nat), photos@[i].0@)),
        r matches Err(e) ==> e@ == "título vazio"@,
{
    let trimmed = trim_str(title);
    if trimmed.as_str().is_empty() {
        return Err("título vazio".to_owned());
    }
    let mut cards = String::new();
    let mut boxes = String::new();
    let mut i: usize = 0;
    while i < photos.len()
        invariant
            i <= photos.len(),
            cards@ == cards_html(photos@, i as nat),
            boxes@ == lightboxes_html(photos@, i as nat),
        decreases photos.len() - i,
    {
        let photo_rel = &photos[i].0;
        let caption = &photos[i].1;
        let thumb = thumb_rel_for(photo_rel);
        cards.append("<a class=\"card\" href=\"#p");
        push_decimal(&mut cards, i as u64);
        cards.append("\"><img loading=\"lazy\" src=\"");
        push_escaped(&mut cards, &thumb);
        cards.append("\" alt=\"");
        push_escaped(&mut cards, caption);
        cards.append("\"></a>\n");
        boxes.append("<figure class=\"lightbox\" id=\"p");
        push_decimal(&mut boxes, i as u64);
        boxes.append("\">\n<a class=\"close\" href=\"#\" aria-label=\"Close\">&times;</a>\n<img src=\"");
        push_escaped(&mut boxes, photo_rel);
        boxes.append("\" alt=\"\">\n<figcaption>");
        push_escaped(&mut boxes, caption);
        boxes.append("</figcaption>\n</figure>\n");
        i = i + 1;
    }
    let mut page = String::new();
    page.append(PAGE_HEAD);
    push_escaped(&mut page, title);
    page.append(PAGE_STYLE);
    push_escaped(&mut page, title);
    page.append(PAGE_COUNT);
    if photos.len() == 1 {
        page.append("1 foto");
    } else {
        push_decimal(&mut page, photos.len() as u64);
        page.append(" fotos");
    }
    page.append(PAGE_MAIN);
    page.append(&cards);
    page.append(PAGE_MAIN_END);
    page.append(&boxes);
    page.append(PAGE_END);
    proof {
        lemma_cards_open_their_own_photo(photos@, title@);
        assert(page@ =~= gallery_page(photos@, title@));
    }
    Ok(page)
}

/// The stem used for a photo whose path has none: `foto_<id>`.
pub open spec fn fallback_stem(id: i64) -> Seq<char> {
    "foto_"@ + signed_decimal(id as int)
}

/// The stem a photo is exported under: its file stem, or `foto_<id>`.
pub open spec fn export_stem(path: Seq<char>, id: i64) -> Seq<char> {
    match path_stem(path) {
        Some(s) => s,
        None => fallback_stem(id),
    }
}

/// The extension a photo keeps in a gallery: its own, lower-cased, or "jpg".
pub open spec fn gallery_ext_spec(path: Seq<char>) -> Seq<char> {
    match path_ext(path) {
        Some(e) => lower_case(e),
        None => "jpg"@,
    }
}

/// The stem a photo is exported under (see `export_stem`).
pub fn export_stem_for(path: &str, id: i64) -> (r: String)
    ensures
        r@ == export_stem(path@, id),
{
    match path_file_stem(path) {
        Some(s) => s,
        None => {
            let mut s = "foto_".to_owned();
            push_i64(&mut s, id);
            s
        },
    }
}

/// The extension a photo keeps in a gallery (see `gallery_ext_spec`).
pub fn gallery_ext(path: &str) -> (r: String)
    ensures
        r@ == gallery_ext_spec(path@),
{
    match path_extension(path) {
        Some(e) => to_lowercase(e.as_str()),
        None => "jpg".to_owned(),
    }
}

/// The `counter`-th file name tried for a photo in the gallery's `photos/`
/// folder: `<stem>.<ext>`, then `<stem>_<counter>.<ext>`.
pub open spec fn gallery_file_name_spec(stem: Seq<char>, ext: Seq<char>, counter: nat) -> Seq<char> {
    if counter == 0 {
        stem + "."@ + ext
    } else {
        stem + "_"@ + decimal(counter) + "."@ + ext
    }
}

/// The `counter`-th file name tried for a photo (see `gallery_file_name_spec`).
pub fn gallery_file_name(stem: &str, ext: &str, counter: u64) -> (r: String)
    ensures
        r@ == gallery_file_name_spec(stem@, ext@, counter as nat),
{
    let mut s = stem.to_owned();
    if counter > 0 {
        s.append("_");
        push_decimal(&mut s, counter);
    }
    s.append(".");
    s.append(ext);
    s
}

/// The position of the last `c` in `s` before `i`, if any.
pub open spec fn last_index_before(s: Seq<char>, c: char, i: int) -> Option<int>
    decreases i,
{
    if i <= 0 || i > s.len() {
        None
    } else if s[i - 1] == c {
        Some(i - 1)
    } else {
        last_index_before(s, c, i - 1)
    }
}

/// The thumbnail of a gallery photo: its name up to the last dot (or the
/// whole name when it has none), with `.jpg`.
pub open spec fn gallery_thumb_spec(name: Seq<char>) -> Seq<char> {
    match last_index_before(name, '.', name.len() as int) {
        Some(p) => name.subrange(0, p) + ".jpg"@,
        None => name + ".jpg"@,
    }
}

/// The thumbnail of a gallery photo (see `gallery_thumb_spec`).
pub fn gallery_thumb_name(name: &str) -> (r: String)
    ensures
        r@ == gallery_thumb_spec(name@),
{
    let v = chars_of(name);
    let mut i = v.len();
    while i > 0 && v[i - 1] != '.'
        invariant
            i <= v@.len(),
            v@ == name@,
            last_index_before(v@, '.', v@.len() as int) == last_index_before(v@, '.', i as int),
        decreases i,
    {
        i = i - 1;
    }
    if i == 0 {
        let mut r = name.to_owned();
        r.append(".jpg");
        r
    } else {
        let mut r = string_from_range(&v, 0, i - 1);
        r.append(".jpg");
        r
    }
}

/// The gallery title: the given title, trimmed; refused when blank.
pub fn gallery_title(title: &str) -> (r: Result<String, String>)
    ensures
        trim(title@).len() == 0 ==> (r matches Err(e) && e@ == "título vazio"@),
        trim(title@).len() > 0 ==> (r matches Ok(t) && t@ == trim(title@)),
{
    let t = trim_str(title);
    if t.as_str().is_empty() {
        Err("título vazio".to_owned())
    } else {
        Ok(t)
    }
}

/// Where a copied photo is linked from the page: `photos/<name>`.
pub fn gallery_photo_rel(name: &str) -> (r: String)
    ensures
        r@ == "photos/"@ + name@,
{
    let mut r = "photos/".to_owned();
    r.append(name);
    r
}

} // verus!
