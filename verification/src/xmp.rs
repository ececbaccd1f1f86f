//! XMP sidecars (Lightroom / Capture One compatible): the document holding a
//! photo's rating, colour label and keywords, and the colour labels users set.
use vstd::prelude::*;

use crate::grouping::strs;
use crate::text::{chars_of, decimal, push_char, push_decimal, lower_case, str_eq, to_lowercase, trim, trim_str};

verus! {

/// The xpacket id of every sidecar.
pub const XPACKET_UUID: &'static str = "W5M0MpCehiHzreSzNTczkc9d";

/// Document start, up to the namespace declarations.
pub const XMP_HEAD: &'static str = "<?xpacket begin=\"\u{feff}\" id=\"W5M0MpCehiHzreSzNTczkc9d\"?>\n<x:xmpmeta xmlns:x=\"adobe:ns:meta/\" x:xmptk=\"OpenShoot\">\n  <rdf:RDF xmlns:rdf=\"http://www.w3.org/1999/02/22-rdf-syntax-ns#\">\n    <rdf:Description rdf:about=\"\"\n        ";

/// The XMP namespace declaration.
pub const XMP_NS: &'static str = "xmlns:xmp=\"http://ns.adobe.com/xap/1.0/\"";

/// The Dublin Core namespace declaration, on its own line.
pub const DC_NS: &'static str = "\n        xmlns:dc=\"http://purl.org/dc/elements/1.1/\"";

/// Between the namespaces and the rating value.
pub const XMP_RATING_OPEN: &'static str = ">\n      <xmp:Rating>";

/// After the rating value.
pub const XMP_RATING_CLOSE: &'static str = "</xmp:Rating>\n";

/// Document end.
pub const XMP_TAIL: &'static str = "    </rdf:Description>\n  </rdf:RDF>\n</x:xmpmeta>\n<?xpacket end=\"w\"?>\n";

/// How one character is written in XML text.
pub open spec fn xml_escape_char(c: char) -> Seq<char> {
    if c == '&' {
        "&amp;"@
    } else if c == '<' {
        "&lt;"@
    } else if c == '>' {
        "&gt;"@
    } else if c == '"' {
        "&quot;"@
    } else if c == '\'' {
        "&apos;"@
    } else {
        seq![c]
    }
}

/// `s` escaped for XML, character by character.
pub open spec fn xml_escape(s: Seq<char>) -> Seq<char>
    decreases s.len(),
{
    if s.len() == 0 {
        seq![]
    } else {
        xml_escape(s.drop_last()) + xml_escape_char(s.last())
    }
}

/// Law: XML-escaped text holds no `<`, `>`, `"` or `'`, so a keyword or a
/// label cannot break the sidecar's markup.
pub proof fn lemma_xml_escape_no_markup(s: Seq<char>)
    ensures
        forall|k: int|
            0 <= k < xml_escape(s).len() ==> {
                let c = #[trigger] xml_escape(s)[k];
                c != '<' && c != '>' && c != '"' && c != '\''
            },
    decreases s.len(),
{
    reveal_strlit("&amp;");
    reveal_strlit("&lt;");
    reveal_strlit("&gt;");
    reveal_strlit("&quot;");
    reveal_strlit("&apos;");
    if s.len() > 0 {
        lemma_xml_escape_no_markup(s.drop_last());
        let prev = xml_escape(s.drop_last());
        let tail = xml_escape_char(s.last());
        assert(xml_escape(s) == prev + tail);
        assert forall|k: int| 0 <= k < xml_escape(s).len() implies {
            let c = #[trigger] xml_escape(s)[k];
            c != '<' && c != '>' && c != '"' && c != '\''
        } by {
            if k < prev.len() {
                assert(xml_escape(s)[k] == prev[k]);
            } else {
                assert(xml_escape(s)[k] == tail[k - prev.len()]);
            }
        }
    }
}

/// The colour labels a sidecar accepts.
pub open spec fn is_sidecar_label(label: Seq<char>) -> bool {
    ||| label.len() == 0
    ||| label == "Red"@
    ||| label == "Yellow"@
    ||| label == "Green"@
    ||| label == "Blue"@
    ||| label == "Purple"@
}

/// The keyword list items: one per keyword that is not blank.
pub open spec fn keyword_items(keywords: Seq<Seq<char>>) -> Seq<char>
    decreases keywords.len(),
{
    if keywords.len() == 0 {
        seq![]
    } else {
        keyword_items(keywords.drop_last()) + if trim(keywords.last()).len() == 0 {
            seq![]
        } else {
            "          <rdf:li>"@ + xml_escape(keywords.last()) + "</rdf:li>\n"@
        }
    }
}

/// The rating written: clamped to 0..5.
pub open spec fn clamped_rating(rating: i64) -> nat {
    if rating < 0 {
        0
    } else if rating > 5 {
        5
    } else {
        rating as nat
    }
}

/// The sidecar document for a rating, a valid label and keywords.
pub open spec fn xmp_document_spec(rating: i64, label: Seq<char>, keywords: Seq<Seq<char>>) -> Seq<char> {
    let ns = if keywords.len() > 0 {
        XMP_NS@ + DC_NS@
    } else {
        XMP_NS@
    };
    let label_tag = if label.len() == 0 {
        seq![]
    } else {
        "      <xmp:Label>"@ + xml_escape(label) + "</xmp:Label>\n"@
    };
    let items = keyword_items(keywords);
    let subject = if keywords.len() > 0 && items.len() > 0 {
        "      <dc:subject>\n        <rdf:Bag>\n"@ + items + "        </rdf:Bag>\n      </dc:subject>\n"@
    } else {
        seq![]
    };
    XMP_HEAD@ + ns + XMP_RATING_OPEN@ + decimal(clamped_rating(rating)) + XMP_RATING_CLOSE@
        + label_tag + subject + XMP_TAIL@
}

/// Appends `s` escaped for XML.
pub fn push_xml_escaped(out: &mut String, s: &str)
    ensures
        final(out)@ == old(out)@ + xml_escape(s@),
{
    let v = chars_of(s);
    let mut k: usize = 0;
    while k < v.len()
        invariant
            k <= v@.len(),
            v@ == s@,
            out@ == old(out)@ + xml_escape(v@.take(k as int)),
        decreases v@.len() - k,
    {
        let c = v[k];
        assert(v@.take(k + 1).drop_last() == v@.take(k as int));
        if c == '&' {
            out.append("&amp;");
        } else if c == '<' {
            out.append("&lt;");
        } else if c == '>' {
            out.append("&gt;");
        } else if c == '"' {
            out.append("&quot;");
        } else if c == '\'' {
            out.append("&apos;");
        } else {
            push_char(out, c);
        }
        k = k + 1;
    }
    assert(v@.take(v@.len() as int) == v@);
}

/// `s` escaped for XML.
pub fn escape(s: &str) -> (r: String)
    ensures
        r@ == xml_escape(s@),
{
    let mut out = String::new();
    push_xml_escaped(&mut out, s);
    out
}

/// Builds the XMP sidecar of a photo: its rating (clamped to 0..5), its
/// colour label ("" or Red, Yellow, Green, Blue, Purple; anything else is
/// refused) and its keywords (blank ones left out).
pub fn xmp_document(rating: i64, label: &str, keywords: &Vec<String>) -> (r: Result<String, String>)
    ensures
        !is_sidecar_label(label@) ==> (r matches Err(e) && e@ == "label inválido: "@ + label@),
        is_sidecar_label(label@) ==> (r matches Ok(d) && d@ == xmp_document_spec(
            rating,
            label@,
            strs(keywords@),
        )),
{
    let valid = label.is_empty() || str_eq(label, "Red") || str_eq(label, "Yellow") || str_eq(
        label,
        "Green",
    ) || str_eq(label, "Blue") || str_eq(label, "Purple");
    proof {
        reveal_strlit("");
    }
    if !valid {
        let mut e = "label inválido: ".to_owned();
        e.append(label);
        return Err(e);
    }
    let r: u64 = if rating < 0 {
        0
    } else if rating > 5 {
        5
    } else {
        rating as u64
    };
    let mut d = XMP_HEAD.to_owned();
    d.append(XMP_NS);
    if keywords.len() > 0 {
        d.append(DC_NS);
    }
    d.append(XMP_RATING_OPEN);
    push_decimal(&mut d, r);
    d.append(XMP_RATING_CLOSE);
    if !label.is_empty() {
        d.append("      <xmp:Label>");
        push_xml_escaped(&mut d, label);
        d.append("</xmp:Label>\n");
    }
    let mut items = String::new();
    let mut k: usize = 0;
    while k < keywords.len()
        invariant
            k <= keywords@.len(),
            items@ == keyword_items(strs(keywords@).take(k as int)),
        decreases keywords@.len() - k,
    {
        assert(strs(keywords@).take(k + 1).drop_last() == strs(keywords@).take(k as int));
        assert(strs(keywords@).take(k + 1).last() == keywords@[k as int]@);
        let kw = keywords[k].as_str();
        let t = trim_str(kw);
        if !t.as_str().is_empty() {
            items.append("          <rdf:li>");
            push_xml_escaped(&mut items, kw);
            items.append("</rdf:li>\n");
        }
        k = k + 1;
    }
    assert(strs(keywords@).take(keywords@.len() as int) == strs(keywords@));
    if keywords.len() > 0 && !items.as_str().is_empty() {
        d.append("      <dc:subject>\n        <rdf:Bag>\n");
        d.append(items.as_str());
        d.append("        </rdf:Bag>\n      </dc:subject>\n");
    }
    d.append(XMP_TAIL);
    Ok(d)
}

/// The label and keyword a photo's rating earns in its sidecar: Green and
/// "keep" from 4 stars, Yellow and "maybe" at 3, Red and "cull" below.
pub open spec fn rating_label(rating: i64) -> (Seq<char>, Seq<char>) {
    if rating >= 4 {
        ("Green"@, "OpenShoot:keep"@)
    } else if rating == 3 {
        ("Yellow"@, "OpenShoot:maybe"@)
    } else {
        ("Red"@, "OpenShoot:cull"@)
    }
}

/// Law: the sidecar label follows the rating in three bands: 4 stars or more
/// keep (Green), exactly 3 maybe (Yellow), and every rating below 3 cull
/// (Red).
pub proof fn lemma_rating_bands(rating: i64)
    ensures
        rating >= 4 ==> rating_label(rating) == ("Green"@, "OpenShoot:keep"@),
        rating == 3 ==> rating_label(rating) == ("Yellow"@, "OpenShoot:maybe"@),
        rating <= 2 ==> rating_label(rating) == ("Red"@, "OpenShoot:cull"@),
{
}

/// The label and keywords written to a photo's sidecar, by rating.
pub fn label_for_rating(rating: i64) -> (r: (&'static str, Vec<String>))
    ensures
        r.0@ == rating_label(rating).0,
        strs(r.1@) == seq![rating_label(rating).1],
        rating >= 4 ==> r.0@ == "Green"@ && strs(r.1@) == seq!["OpenShoot:keep"@],
        rating == 3 ==> r.0@ == "Yellow"@ && strs(r.1@) == seq!["OpenShoot:maybe"@],
        rating <= 2 ==> r.0@ == "Red"@ && strs(r.1@) == seq!["OpenShoot:cull"@],
{
    let (label, keyword) = if rating >= 4 {
        ("Green", "OpenShoot:keep")
    } else if rating == 3 {
        ("Yellow", "OpenShoot:maybe")
    } else {
        ("Red", "OpenShoot:cull")
    };
    let mut ks: Vec<String> = Vec::new();
    ks.push(keyword.to_owned());
    assert(strs(ks@) =~= seq![keyword@]);
    (label, ks)
}

/// The colour labels a user can set (stored in lower case).
pub open spec fn is_user_label(label: Seq<char>) -> bool {
    ||| label.len() == 0
    ||| label == "red"@
    ||| label == "yellow"@
    ||| label == "green"@
    ||| label == "blue"@
    ||| label == "purple"@
}

/// The colour label to store for what the user typed: trimmed and
/// lower-cased; refused unless it is one of the user labels.
pub fn normalize_label(label: &str) -> (r: Result<String, String>)
    ensures
        is_user_label(lower_case(trim(label@))) ==> (r matches Ok(l) && l@ == lower_case(
            trim(label@),
        )),
        !is_user_label(lower_case(trim(label@))) ==> (r matches Err(e) && e@
            == "label inválido: "@ + label@ + " (use '', red, yellow, green, blue ou purple)"@),
{
    let t = trim_str(label);
    let n = to_lowercase(t.as_str());
    let s = n.as_str();
    proof {
        reveal_strlit("");
    }
    if s.is_empty() || str_eq(s, "red") || str_eq(s, "yellow") || str_eq(s, "green") || str_eq(
        s,
        "blue",
    ) || str_eq(s, "purple") {
        Ok(n)
    } else {
        let mut e = "label inválido: ".to_owned();
        e.append(label);
        e.append(" (use '', red, yellow, green, blue ou purple)");
        Err(e)
    }
}

} // verus!
