use openshoot_core::lrimport::{crs_value, lines_of, parse_crs_xmp, parse_lrtemplate};

fn as_map(entries: Vec<(String, String)>) -> std::collections::BTreeMap<String, f64> {
    let mut m = std::collections::BTreeMap::new();
    for (k, v) in entries {
        if let Ok(n) = v.parse::<f64>() {
            m.insert(k, n);
        }
    }
    m
}

#[test]
fn parses_lrtemplate() {
    let lr = r#"DevelopPreset:
  Param Exposure 0.75
  Param Saturation -15
  Param Clarity 30"#;
    let m = as_map(parse_lrtemplate(lr));
    assert_eq!(m["exposure"], 0.75);
    assert_eq!(m["saturation"], -15.0);
    assert_eq!(m["clarity"], 30.0);
}

#[test]
fn lrtemplate_entries_in_order() {
    let lr = "Param Exposure  +1.5 \r\nParam Unknown 3\nParam\nParam SharpenAmount\tabc\n  Param Tint -4";
    let e = parse_lrtemplate(lr);
    assert_eq!(
        e,
        vec![
            ("exposure".to_string(), "+1.5".to_string()),
            ("sharpen".to_string(), "abc".to_string()),
            ("tint".to_string(), "-4".to_string()),
        ]
    );
}

#[test]
fn reads_crs_attributes() {
    let line = r#"crs:Exposure2012="+1.25" crs:Temperature="5800""#;
    assert_eq!(crs_value(line, "Exposure2012"), Some("+1.25".to_string()));
    assert_eq!(crs_value(line, "Temperature"), Some("5800".to_string()));
    assert_eq!(crs_value(line, "Exposure"), None);
    assert_eq!(crs_value(r#"crs:Tint="12"#, "Tint"), None);
    assert_eq!(crs_value(r#"x crs:Tint="" y"#, "Tint"), Some(String::new()));
}

fn crs_map(text: &str) -> std::collections::BTreeMap<String, serde_json::Value> {
    let scan = parse_crs_xmp(text);
    let mut m = std::collections::BTreeMap::new();
    for (k, v) in scan.attributes {
        if let Ok(n) = v.trim().parse::<f64>() {
            m.insert(k, serde_json::Value::from(n));
        }
    }
    let mut hsl = [0f64; 24];
    for (slot, v) in scan.hsl {
        if let Ok(n) = v.trim().parse::<f64>() {
            hsl[slot] = n;
        }
    }
    if hsl.iter().any(|v| *v != 0.0) {
        m.insert("hsl".to_string(), serde_json::Value::from(hsl.to_vec()));
    }
    m
}

#[test]
fn parses_crs_xmp() {
    let xmp = r#"<?xpacket begin=""?>
<x:xmpmeta xmlns:x="adobe:ns:meta/">
 <rdf:RDF>
  <rdf:Description rdf:about="" xmlns:crs="http://ns.adobe.com/camera-raw-settings/1.0/"
    crs:Exposure2012="+1.25"
    crs:Temperature="5800"
    crs:Contrast2012="+22"/>
 </rdf:RDF>
</x:xmpmeta>"#;
    let m = crs_map(xmp);
    assert_eq!(m["exposure"], 1.25);
    assert_eq!(m["temperature"], 5800.0);
    assert_eq!(m["contrast"], 22.0);
}

#[test]
fn parses_pv2012_and_hsl() {
    let xmp = r#"<rdf:Description
    crs:Highlights2012="-30"
    crs:Shadows2012="+50"
    crs:Whites2012="+40"
    crs:Blacks2012="-10"
    crs:HueAdjustmentRed="+15"
    crs:SaturationAdjustmentOrange="-20"
    crs:Vibrance="+25"/> "#;
    let m = crs_map(xmp);
    assert_eq!(m["highlights"], -30.0);
    assert_eq!(m["shadows"], 50.0);
    assert_eq!(m["whites"], 40.0);
    assert_eq!(m["blacks"], -10.0);
    assert_eq!(m["vibrance"], 25.0);
    // HSL: Red hue = índice 0*3+0 = 0, Orange sat = 1*3+1 = 4.
    let hsl = m["hsl"].as_array().unwrap();
    assert_eq!(hsl[0], 15.0);
    assert_eq!(hsl[4], -20.0);
}

#[test]
fn tone_curve_blocks_and_points() {
    let xmp = r#"<crs:ToneCurvePV2012>
    <rdf:Seq>
     <rdf:li>0, 0</rdf:li>
     <rdf:li>64, 48</rdf:li>
     <rdf:li>1,2,3</rdf:li>
     <rdf:li>255, 255</rdf:li>
    </rdf:Seq>
   </crs:ToneCurvePV2012>
   crs:Exposure2012="0.5" "#;
    let scan = parse_crs_xmp(xmp);
    assert_eq!(scan.curves.len(), 1);
    assert_eq!(
        scan.curves[0],
        vec![
            ("0".to_string(), " 0".to_string()),
            ("64".to_string(), " 48".to_string()),
            ("255".to_string(), " 255".to_string()),
        ]
    );
    assert_eq!(scan.attributes, vec![("exposure".to_string(), "0.5".to_string())]);
    assert!(scan.hsl.is_empty());
}

#[test]
fn attributes_inside_a_curve_block_are_ignored_but_hsl_is_not() {
    let xmp = "<crs:ToneCurvePV2012Red>\ncrs:Exposure=\"1\" crs:HueAdjustmentBlue=\"7\"\n</crs:ToneCurvePV2012Red>\ncrs:Exposure=\"2\"";
    let scan = parse_crs_xmp(xmp);
    assert_eq!(scan.attributes, vec![("exposure".to_string(), "2".to_string())]);
    assert_eq!(scan.hsl, vec![(15, "7".to_string())]);
    assert_eq!(lines_of(" a \r\n b\n"), vec!["a".to_string(), "b".to_string(), String::new()]);
}
