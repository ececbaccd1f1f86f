use openshoot_core::captions::{friendly_camera, friendly_date, generate, last_word_of};

#[test]
fn generates_keywords() {
    let c = generate("Canon EOS R6", Some("2023:05:14 14:30:00"), 5, 1);
    assert!(c.keywords.iter().any(|k| k.contains("Canon")));
    assert!(c.keywords.contains(&"pessoas".to_string()));
    assert!(c.keywords.contains(&"pick".to_string()));
    assert!(c.title.contains("2023"));
}

#[test]
fn friendly_date_parses_exif() {
    assert_eq!(friendly_date(Some("2023:05:14 14:30:00")), Some("14 de maio de 2023".into()));
    assert_eq!(friendly_date(Some("not a date")), None);
    assert_eq!(friendly_date(None), None);
}

#[test]
fn pick_quality_word() {
    let c = generate("Sony A7IV", None, 5, 0);
    assert!(c.description.contains("melhores"));
}

#[test]
fn caption_full_text() {
    let c = generate("  Canon EOS R6 ", Some("2023:05:14 14:30:00"), 5, 2);
    assert_eq!(
        c.keywords,
        vec![
            "OpenShoot".to_string(),
            "camera:Canon EOS R6".to_string(),
            "year:2023".to_string(),
            "pessoas".to_string(),
            "faces:2".to_string(),
            "pick".to_string(),
        ]
    );
    assert_eq!(c.title, "Retrato capturado em 14 de maio de 2023");
    assert_eq!(
        c.description,
        "Capturada com Canon EOS R6 em 14 de maio de 2023, esta foto é uma das melhores da série."
    );
}

#[test]
fn caption_without_date_or_camera() {
    let c = generate("", None, 0, 0);
    assert_eq!(c.keywords, vec!["OpenShoot".to_string(), "camera:fotografia".to_string()]);
    assert_eq!(c.title, "Fotografia — fotografia");
    assert_eq!(c.description, "Capturada com fotografia, esta foto é não classificada.");
    let c = generate("X100", None, 2, 3);
    assert_eq!(c.title, "Retrato — 3 pessoa(s)");
    assert!(c.keywords.contains(&"cull".to_string()));
    assert!(c.keywords.contains(&"faces:3".to_string()));
    assert!(c.description.ends_with("candidata a revisão."));
    let c = generate("X100", Some("2020:01:02"), 9, 0);
    assert_eq!(c.title, "Fotografia de 02 de janeiro de 2020");
    assert!(c.description.ends_with("selecionada."));
}

#[test]
fn friendly_date_month_edge_cases() {
    assert_eq!(friendly_date(Some("2023:00:14")), Some("14 de  de 2023".into()));
    assert_eq!(friendly_date(Some("2023:13:14")), Some("14 de mês de 2023".into()));
    assert_eq!(friendly_date(Some("2023:+3:14")), Some("14 de março de 2023".into()));
    assert_eq!(friendly_date(Some("2023:xx:14")), Some("14 de  de 2023".into()));
    assert_eq!(friendly_date(Some("  2021:12:31 ")), Some("31 de dezembro de 2021".into()));
    assert_eq!(friendly_date(Some("2021:12:3")), None);
}

#[test]
fn camera_and_last_word() {
    assert_eq!(friendly_camera("  "), "fotografia");
    assert_eq!(friendly_camera(" Nikon Z6 "), "Nikon Z6");
    assert_eq!(last_word_of("14 de maio de 2023  "), Some("2023".to_string()));
    assert_eq!(last_word_of("   "), None);
    assert_eq!(last_word_of("solo"), Some("solo".to_string()));
}
