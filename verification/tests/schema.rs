use openshoot_core::schema::{label_migration, schema_migrations, BASE_SCHEMA, PEOPLE_SCHEMA};

fn cols(v: &[&str]) -> Vec<String> {
    v.iter().map(|s| s.to_string()).collect()
}

#[test]
fn migrations_for_a_fresh_catalog() {
    let photos = cols(&["id", "path", "file_name", "ext", "file_size", "sha256"]);
    let presets = cols(&["id", "name", "recipe", "created_at"]);
    let m = schema_migrations(&photos, &presets);
    assert_eq!(
        m,
        cols(&[
            "ALTER TABLE photos ADD COLUMN cull_score REAL",
            "ALTER TABLE photos ADD COLUMN edit_json TEXT",
            "ALTER TABLE photos ADD COLUMN has_face INTEGER DEFAULT 0",
            "ALTER TABLE photos ADD COLUMN review INTEGER DEFAULT 0",
            "ALTER TABLE photos ADD COLUMN ai_pick INTEGER DEFAULT 0",
            "ALTER TABLE photos ADD COLUMN session_type TEXT DEFAULT ''",
            "ALTER TABLE presets ADD COLUMN file_type TEXT DEFAULT ''",
            "ALTER TABLE presets ADD COLUMN color_type TEXT DEFAULT ''",
            "ALTER TABLE presets ADD COLUMN source TEXT DEFAULT 'manual'",
            "ALTER TABLE photos ADD COLUMN eyes_score REAL DEFAULT -1",
            "ALTER TABLE photos ADD COLUMN face_embedding BLOB",
        ])
    );
}

#[test]
fn migrations_are_idempotent() {
    let photos = cols(&[
        "id", "cull_score", "edit_json", "has_face", "review", "ai_pick", "session_type", "eyes_score",
        "face_embedding",
    ]);
    let presets = cols(&["file_type", "color_type", "source"]);
    assert!(schema_migrations(&photos, &presets).is_empty());
    assert_eq!(label_migration(&photos), Some("ALTER TABLE photos ADD COLUMN label TEXT DEFAULT ''".to_string()));
    assert_eq!(label_migration(&cols(&["label"])), None);
}

#[test]
fn schema_text_creates_the_tables() {
    for t in ["photos", "presets", "albums", "album_photos"] {
        assert!(BASE_SCHEMA.contains(&format!("CREATE TABLE IF NOT EXISTS {t} (")));
    }
    assert!(PEOPLE_SCHEMA.contains("CREATE TABLE IF NOT EXISTS person_groups"));
    assert!(PEOPLE_SCHEMA.contains("CREATE TABLE IF NOT EXISTS photo_person_faces"));
}
