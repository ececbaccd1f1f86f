use openshoot_core::xmp::{escape, label_for_rating, normalize_label, xmp_document, XPACKET_UUID};

#[test]
fn writes_valid_sidecar() {
    let img = std::path::Path::new("/tmp/IMG_0001.CR3");
    let sidecar = img.with_extension("xmp");
    assert_eq!(sidecar.file_name().unwrap(), "IMG_0001.xmp");
    let text = xmp_document(5, "Green", &vec!["OpenShoot:keep".to_string()]).unwrap();
    assert!(text.contains("<xmp:Rating>5</xmp:Rating>"));
    assert!(text.contains("<xmp:Label>Green</xmp:Label>"));
    assert!(text.contains("OpenShoot:keep"));
    assert!(text.contains(XPACKET_UUID));
}

#[test]
fn clamps_rating() {
    let text = xmp_document(99, "", &vec![]).unwrap();
    assert!(text.contains("<xmp:Rating>5</xmp:Rating>"));
}

#[test]
fn rejects_bad_label() {
    assert!(xmp_document(3, "Mauve", &vec![]).is_err());
}

#[test]
fn sidecar_exact_text() {
    let text = xmp_document(-2, "Red", &vec!["a&b".to_string(), "  ".to_string(), "<x>".to_string()]).unwrap();
    let expected = [
        "<?xpacket begin=\"\u{feff}\" id=\"W5M0MpCehiHzreSzNTczkc9d\"?>\n",
        "<x:xmpmeta xmlns:x=\"adobe:ns:meta/\" x:xmptk=\"OpenShoot\">\n",
        "  <rdf:RDF xmlns:rdf=\"http://www.w3.org/1999/02/22-rdf-syntax-ns#\">\n",
        "    <rdf:Description rdf:about=\"\"\n",
        "        xmlns:xmp=\"http://ns.adobe.com/xap/1.0/\"\n",
        "        xmlns:dc=\"http://purl.org/dc/elements/1.1/\">\n",
        "      <xmp:Rating>0</xmp:Rating>\n",
        "      <xmp:Label>Red</xmp:Label>\n",
        "      <dc:subject>\n",
        "        <rdf:Bag>\n",
        "          <rdf:li>a&amp;b</rdf:li>\n",
        "          <rdf:li>&lt;x&gt;</rdf:li>\n",
        "        </rdf:Bag>\n",
        "      </dc:subject>\n",
        "    </rdf:Description>\n",
        "  </rdf:RDF>\n",
        "</x:xmpmeta>\n",
        "<?xpacket end=\"w\"?>\n",
    ]
    .concat();
    assert_eq!(text, expected);
}

#[test]
fn blank_keywords_declare_namespace_without_subject() {
    let text = xmp_document(3, "", &vec![" ".to_string()]).unwrap();
    assert!(text.contains("xmlns:dc="));
    assert!(!text.contains("dc:subject"));
    assert!(!text.contains("xmp:Label"));
}

#[test]
fn bad_label_message_and_escape() {
    assert_eq!(xmp_document(1, "green", &vec![]).err().unwrap(), "label inválido: green");
    assert_eq!(escape("a<b>&\"c'"), "a&lt;b&gt;&amp;&quot;c&apos;");
}

#[test]
fn labels_by_rating() {
    assert_eq!(label_for_rating(5), ("Green", vec!["OpenShoot:keep".to_string()]));
    assert_eq!(label_for_rating(4).0, "Green");
    assert_eq!(label_for_rating(3), ("Yellow", vec!["OpenShoot:maybe".to_string()]));
    assert_eq!(label_for_rating(1), ("Red", vec!["OpenShoot:cull".to_string()]));
}

#[test]
fn user_labels_are_normalized() {
    assert_eq!(normalize_label("  Green "), Ok("green".to_string()));
    assert_eq!(normalize_label(""), Ok(String::new()));
    assert_eq!(
        normalize_label("Mauve"),
        Err("label inválido: Mauve (use '', red, yellow, green, blue ou purple)".to_string())
    );
}

#[test]
fn xml_escaped_keywords_have_no_markup_characters() {
    let out = escape("</rdf:li><x a=\"1\" b='2'>");
    assert!(!out.contains(['<', '>', '"', '\'']));
}
