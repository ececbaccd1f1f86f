use openshoot_core::catalog::{preset_import, preset_import_outcome};
use openshoot_core::catalog::sanitize_folder_name;

#[test]
fn sanitize_folder_name_basic() {
    assert_eq!(sanitize_folder_name("Alice", "fallback"), "Alice");
    assert_eq!(sanitize_folder_name("Pessoa 1", "fb"), "Pessoa 1");
    assert_eq!(sanitize_folder_name("C:\\bad/name*", "fb"), "Cbadname");
    assert_eq!(sanitize_folder_name("?!<>", "fb"), "!");
    assert_eq!(sanitize_folder_name("  ", "fb"), "fb");
    assert_eq!(sanitize_folder_name("", "fb"), "fb");
    assert_eq!(sanitize_folder_name("a:b;c", "fb"), "ab;c");
    assert_eq!(sanitize_folder_name("Pessoa / Teste", "fb"), "Pessoa  Teste");
}

#[test]
fn sanitize_folder_name_control_chars() {
    assert_eq!(sanitize_folder_name("A\x00B\x1fC", "fb"), "ABC");
    assert_eq!(sanitize_folder_name(" normal ", "fb"), "normal");
}

#[test]
fn sanitize_folder_name_trailing_dots_and_spaces() {
    assert_eq!(sanitize_folder_name("abc.", "fb"), "abc");
    assert_eq!(sanitize_folder_name("abc...", "fb"), "abc");
    assert_eq!(sanitize_folder_name("abc  ", "fb"), "abc");
    assert_eq!(sanitize_folder_name("abc. .", "fb"), "abc");
    assert_eq!(sanitize_folder_name(".", "fb"), "fb");
    assert_eq!(sanitize_folder_name("..", "fb"), "fb");
    assert_eq!(sanitize_folder_name("...", "fb"), "fb");
}

#[test]
fn sanitize_folder_name_reserved_windows() {
    assert_eq!(sanitize_folder_name("CON", "fb"), "fb_CON");
    assert_eq!(sanitize_folder_name("con", "fb"), "fb_con");
    assert_eq!(sanitize_folder_name("PRN", "fb"), "fb_PRN");
    assert_eq!(sanitize_folder_name("AUX", "fb"), "fb_AUX");
    assert_eq!(sanitize_folder_name("NUL", "fb"), "fb_NUL");
    assert_eq!(sanitize_folder_name("COM1", "fb"), "fb_COM1");
    assert_eq!(sanitize_folder_name("COM9", "fb"), "fb_COM9");
    assert_eq!(sanitize_folder_name("LPT1", "fb"), "fb_LPT1");
    assert_eq!(sanitize_folder_name("LPT9", "fb"), "fb_LPT9");
    assert_eq!(sanitize_folder_name("CON.txt", "fb"), "fb_CON.txt");
    assert_eq!(sanitize_folder_name("lpt1.jpg", "fb"), "fb_lpt1.jpg");
    assert_eq!(sanitize_folder_name("CONSOLE", "fb"), "CONSOLE");
    assert_eq!(sanitize_folder_name("LPT10", "fb"), "LPT10");
}

#[test]
fn sanitize_keeps_inner_whitespace_before_a_dot() {
    assert_eq!(sanitize_folder_name("\u{a0}abc\u{a0}.", "fb"), "abc\u{a0}");
    assert_eq!(sanitize_folder_name("\tabc\t.", "fb"), "abc");
    assert_eq!(sanitize_folder_name("COM0", "fb"), "COM0");
}

use openshoot_core::catalog::{
    db_path_string, delete_album, delete_preset, find_duplicates, get_photo_edit, list_albums,
    list_presets, matches_photo_type, preset_key, save_preset, save_preset_full, scan_folder,
    scan_targets, AlbumRow, DuplicateRow, InspectOutcome, PresetRow, WalkEntry,
};

fn dup(hash: &str, id: i64, name: &str) -> DuplicateRow {
    DuplicateRow {
        hash: hash.to_string(),
        id,
        file_name: name.to_string(),
        path: format!("/tmp/{name}"),
    }
}

#[test]
fn duplicates_grouped_by_hash_runs() {
    let rows = vec![
        dup("AAAA", 1, "dup_a.jpg"),
        dup("AAAA", 2, "dup_b.jpg"),
        dup("BBBB", 3, "lonely.jpg"),
        dup("CCCC", 4, "c1.jpg"),
        dup("CCCC", 5, "c2.jpg"),
        dup("CCCC", 6, "c3.jpg"),
    ];
    let groups = find_duplicates(&rows);
    assert_eq!(groups.len(), 2);
    assert_eq!(groups[0].hash, "AAAA");
    assert_eq!(groups[0].photo_ids, vec![1, 2]);
    assert_eq!(groups[0].photo_names, vec!["dup_a.jpg".to_string()]);
    assert_eq!(groups[0].photo_paths, vec!["/tmp/dup_a.jpg".to_string()]);
    assert_eq!(groups[1].photo_ids, vec![4, 5, 6]);
    assert!(find_duplicates(&vec![]).is_empty());
}

#[test]
fn sorted_rows_give_one_group_per_hash() {
    let rows = vec![
        dup("AAAA", 1, "a1.jpg"),
        dup("AAAA", 2, "a2.jpg"),
        dup("BBBB", 3, "b1.jpg"),
        dup("BBBB", 4, "b2.jpg"),
        dup("CCCC", 5, "c1.jpg"),
    ];
    let groups = find_duplicates(&rows);
    assert_eq!(groups.len(), 2);
    assert_ne!(groups[0].hash, groups[1].hash);
    assert_eq!(groups[1].photo_ids, vec![3, 4]);
}

#[test]
fn import_type_filter() {
    assert!(matches_photo_type("/x/a.NEF", "raw"));
    assert!(matches_photo_type("/x/a.srw", "raw"));
    assert!(!matches_photo_type("/x/a.jpg", "raw"));
    assert!(matches_photo_type("/x/a.HEIC", "jpeg"));
    assert!(!matches_photo_type("/x/a.cr3", "jpeg"));
    assert!(!matches_photo_type("/x/noext", "jpeg"));
    assert!(matches_photo_type("/x/a.txt", "all"));
    assert!(matches_photo_type("/x/a.txt", "qualquer"));
}

#[test]
fn scan_tallies_entries() {
    let entries = vec![
        WalkEntry::NotAFile,
        WalkEntry::Unreadable,
        WalkEntry::File("/f/a.jpg".to_string()),
        WalkEntry::File("/f/notes.txt".to_string()),
        WalkEntry::File("/f/b.NEF".to_string()),
        WalkEntry::File("/f/c.png".to_string()),
        WalkEntry::File("/f/d.jpeg".to_string()),
    ];
    let targets = scan_targets(&entries, "jpeg");
    assert_eq!(targets, vec!["/f/a.jpg".to_string(), "/f/c.png".to_string(), "/f/d.jpeg".to_string()]);
    let outcomes = vec![
        InspectOutcome::Added,
        InspectOutcome::Failed("arquivo truncado".to_string()),
        InspectOutcome::Updated,
    ];
    let r = scan_folder(&entries, "jpeg", &outcomes);
    assert_eq!(r.scanned, 3);
    assert_eq!(r.added, 1);
    assert_eq!(r.updated, 1);
    assert_eq!(r.skipped, 2);
    assert_eq!(r.errors, vec!["/f/c.png: arquivo truncado".to_string()]);
    assert_eq!(r.scanned, r.added + r.updated + r.errors.len() as i64);
}

#[test]
fn setup_state_and_edit_recipe() {
    assert_eq!(db_path_string(Some("/data/catalog.db".to_string())), Ok("/data/catalog.db".to_string()));
    assert_eq!(
        db_path_string(None),
        Err("core nao inicializado: chame setup() primeiro".to_string())
    );
    assert_eq!(get_photo_edit(Ok(None)), Ok(String::new()));
    assert_eq!(get_photo_edit(Ok(Some("{\"exposure\":1}".to_string()))), Ok("{\"exposure\":1}".to_string()));
    assert_eq!(get_photo_edit(Err("no rows".to_string())), Err("no rows".to_string()));
}

#[test]
fn presets_and_albums() {
    let p = save_preset("  Quente  ", "{}");
    assert_eq!(p.name, "Quente");
    assert_eq!(p.recipe, "{}");
    assert_eq!(p.file_type, "");
    assert_eq!(p.color_type, "");
    assert_eq!(p.source, "manual");
    let q = save_preset_full("P&B", "{\"saturation\":-100}", "raw", "bw", "learned");
    assert_eq!((q.file_type.as_str(), q.color_type.as_str(), q.source.as_str()), ("raw", "bw", "learned"));
    assert_eq!(preset_key(" Quente\n"), "Quente");
    assert_eq!(delete_preset(Ok(1)), Ok(true));
    assert_eq!(delete_preset(Ok(0)), Ok(false));
    assert_eq!(delete_album(Err("locked".to_string())), Err("locked".to_string()));
    let presets = list_presets(&vec![PresetRow {
        name: "A".to_string(),
        recipe: "{}".to_string(),
        file_type: None,
        color_type: Some("color".to_string()),
        source: None,
    }]);
    assert_eq!(presets[0].file_type, "");
    assert_eq!(presets[0].color_type, "color");
    assert_eq!(presets[0].source, "");
    let albums = list_albums(&vec![AlbumRow {
        id: 7,
        name: "Casamento".to_string(),
        session_type: None,
        cover_photo_id: Some(3),
        created_at: "2024-01-01 10:00:00".to_string(),
        photo_count: None,
        cover_path: Some("/f/a.jpg".to_string()),
    }]);
    assert_eq!(albums[0].id, 7);
    assert_eq!(albums[0].session_type, "");
    assert_eq!(albums[0].photo_count, 0);
    assert_eq!(albums[0].cover_path.as_deref(), Some("/f/a.jpg"));
}

#[test]
fn preset_import_names_by_file_stem() {
    assert_eq!(
        preset_import("/tmp/openshoot_preset_export.json", r#"{"exposure":0.5}"#),
        Ok("openshoot_preset_export".to_string())
    );
    assert_eq!(preset_import_outcome("/", None), Ok("Preset importado".to_string()));
    assert_eq!(preset_import_outcome("/a/b.json", Some("x".to_string())), Err("JSON inválido: x".to_string()));
}

#[test]
fn preset_import_rejects_invalid_json() {
    let r = preset_import("/tmp/p.json", "{nao json");
    let e = r.unwrap_err();
    assert!(e.starts_with("JSON inválido: "));
    assert!(e.len() > "JSON inválido: ".len());
}

#[test]
fn folder_names_are_always_usable() {
    for name in ["CON.txt ..", "a/b\\c:d*e?f\"g<h>i|j", "  . . ", "\u{1}\u{2}", "LPT1", "Ana Maria.", "x"] {
        let r = sanitize_folder_name(name, "Grupo 1");
        assert!(!r.is_empty(), "{name:?}");
        assert!(!r.ends_with('.') && !r.ends_with(' '), "{name:?} -> {r:?}");
        assert!(!r.chars().any(|c| "\\/:*?\"<>|".contains(c) || c <= '\u{1f}'), "{name:?} -> {r:?}");
    }
    assert_eq!(sanitize_folder_name("CON.txt ..", "Grupo 1"), "Grupo 1_CON.txt");
}

#[test]
fn sanitizing_twice_changes_nothing() {
    for name in ["CON.txt", "  abc. .", "a:b;c", "lpt1.jpg", "", "Pessoa / Teste", "COM0"] {
        let once = sanitize_folder_name(name, "fb");
        assert_eq!(sanitize_folder_name(&once, "fb"), once);
    }
}

#[test]
fn sanitizing_twice_changes_nothing_for_non_ascii_names() {
    for name in ["çon.txt", "Ærø", "CON.é", "lpt1.ß"] {
        let once = sanitize_folder_name(name, "Grupo 7");
        assert_eq!(sanitize_folder_name(&once, "Grupo 7"), once);
    }
}

#[test]
fn non_ascii_fallbacks_keep_names_safe_and_stable() {
    for name in ["CON", "nul.txt", "Ærø", "..  .", "a/b"] {
        let once = sanitize_folder_name(name, "Pessoa ç");
        assert_eq!(sanitize_folder_name(&once, "Pessoa ç"), once);
        let stem = once.to_uppercase().split('.').next().unwrap().to_string();
        assert!(!["CON", "PRN", "AUX", "NUL", "COM1", "LPT1"].contains(&stem.as_str()));
    }
    assert_eq!(sanitize_folder_name("..  .", "Pessoa ç"), "Pessoa ç");
    assert_eq!(sanitize_folder_name("CON", "Pessoa ç"), "Pessoa ç_CON");
}

#[test]
fn a_second_scan_of_unchanged_files_adds_nothing() {
    let entries = vec![
        WalkEntry::File("/f/a.jpg".to_string()),
        WalkEntry::File("/f/b.jpg".to_string()),
        WalkEntry::File("/f/c.jpg".to_string()),
    ];
    let first = scan_folder(
        &entries,
        "all",
        &vec![InspectOutcome::Added, InspectOutcome::Failed("x".to_string()), InspectOutcome::Updated],
    );
    let second = scan_folder(
        &entries,
        "all",
        &vec![InspectOutcome::Updated, InspectOutcome::Failed("x".to_string()), InspectOutcome::Updated],
    );
    assert_eq!(second.added, 0);
    assert_eq!(second.updated, first.added + first.updated);
    assert_eq!(second.errors.len(), first.errors.len());
}
