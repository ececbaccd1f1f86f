//! The catalog database schema: the tables created on first use and the
//! light migrations that add the columns introduced by later versions.
use vstd::prelude::*;

use crate::grouping::strs;
use crate::text::str_eq;

verus! {

/// Tables and indexes of the catalog: photos, presets, albums and their photos.
pub const BASE_SCHEMA: &'static str = "
  CREATE TABLE IF NOT EXISTS photos (
    id INTEGER PRIMARY KEY AUTOINCREMENT,
    path TEXT UNIQUE NOT NULL,
    file_name TEXT NOT NULL,
    ext TEXT NOT NULL,
    file_size INTEGER NOT NULL,
    sha256 TEXT NOT NULL,
    width INTEGER,
    height INTEGER,
    camera TEXT,
    taken_at TEXT,
    rating INTEGER DEFAULT 0,
    has_xmp INTEGER DEFAULT 0,
    preview_available INTEGER DEFAULT 0,
    indexed_at TEXT NOT NULL
  );
  CREATE TABLE IF NOT EXISTS presets (
    id INTEGER PRIMARY KEY AUTOINCREMENT,
    name TEXT UNIQUE NOT NULL,
    recipe TEXT NOT NULL,
    created_at TEXT NOT NULL
  );
  CREATE TABLE IF NOT EXISTS albums (
    id INTEGER PRIMARY KEY AUTOINCREMENT,
    name TEXT NOT NULL,
    session_type TEXT DEFAULT '',
    cover_photo_id INTEGER,
    created_at TEXT NOT NULL
  );
  CREATE TABLE IF NOT EXISTS album_photos (
    album_id INTEGER NOT NULL,
    photo_id INTEGER NOT NULL,
    added_at TEXT NOT NULL,
    PRIMARY KEY (album_id, photo_id)
  );
  CREATE INDEX IF NOT EXISTS idx_album_photos_photo ON album_photos(photo_id);
  CREATE INDEX IF NOT EXISTS idx_photos_ext ON photos(ext);
  CREATE INDEX IF NOT EXISTS idx_photos_sha ON photos(sha256);
  CREATE INDEX IF NOT EXISTS idx_photos_taken ON photos(taken_at);
  ";

/// Tables and indexes of the people recognised in albums.
pub const PEOPLE_SCHEMA: &'static str = "
    CREATE TABLE IF NOT EXISTS person_groups (
    id INTEGER PRIMARY KEY AUTOINCREMENT,
    album_id INTEGER,
    name TEXT NOT NULL,
    threshold REAL DEFAULT 0.5
    );
    CREATE TABLE IF NOT EXISTS photo_person_faces (
    id INTEGER PRIMARY KEY AUTOINCREMENT,
    group_id INTEGER NOT NULL REFERENCES person_groups(id) ON DELETE CASCADE,
    photo_id INTEGER NOT NULL REFERENCES photos(id) ON DELETE CASCADE,
    bbox_x1 REAL NOT NULL,
    bbox_y1 REAL NOT NULL,
    bbox_x2 REAL NOT NULL,
    bbox_y2 REAL NOT NULL
    );
    CREATE INDEX IF NOT EXISTS idx_ppf_group ON photo_person_faces(group_id);
    CREATE INDEX IF NOT EXISTS idx_ppf_photo ON photo_person_faces(photo_id);
    CREATE INDEX IF NOT EXISTS idx_pg_album ON person_groups(album_id);
    ";

/// The statement adding column `col` with definition `def` to `table`.
pub open spec fn add_column_sql(table: Seq<char>, col: Seq<char>, def: Seq<char>) -> Seq<char> {
    "ALTER TABLE "@ + table + " ADD COLUMN "@ + col + " "@ + def
}

/// The statement adding `col` to `table`, unless `cols` (the table's current
/// columns) already has it.
pub open spec fn missing_column(cols: Seq<Seq<char>>, table: Seq<char>, col: Seq<char>, def: Seq<char>) -> Seq<
    Seq<char>,
> {
    if cols.contains(col) {
        seq![]
    } else {
        seq![add_column_sql(table, col, def)]
    }
}

/// The migrations to run after the base schema, given the current columns of
/// the photos and presets tables, in the order they are applied.
pub open spec fn schema_migrations_spec(photo_cols: Seq<Seq<char>>, preset_cols: Seq<Seq<char>>) -> Seq<
    Seq<char>,
> {
    missing_column(photo_cols, "photos"@, "cull_score"@, "REAL"@)
        + missing_column(photo_cols, "photos"@, "edit_json"@, "TEXT"@)
        + missing_column(photo_cols, "photos"@, "has_face"@, "INTEGER DEFAULT 0"@)
        + missing_column(photo_cols, "photos"@, "review"@, "INTEGER DEFAULT 0"@)
        + missing_column(photo_cols, "photos"@, "ai_pick"@, "INTEGER DEFAULT 0"@)
        + missing_column(photo_cols, "photos"@, "session_type"@, "TEXT DEFAULT ''"@)
        + missing_column(preset_cols, "presets"@, "file_type"@, "TEXT DEFAULT ''"@)
        + missing_column(preset_cols, "presets"@, "color_type"@, "TEXT DEFAULT ''"@)
        + missing_column(preset_cols, "presets"@, "source"@, "TEXT DEFAULT 'manual'"@)
        + missing_column(photo_cols, "photos"@, "eyes_score"@, "REAL DEFAULT -1"@)
        + missing_column(photo_cols, "photos"@, "face_embedding"@, "BLOB"@)
}

/// Columns of the photos table added by migrations.
pub open spec fn migrated_photo_columns() -> Seq<Seq<char>> {
    seq!["cull_score"@, "edit_json"@, "has_face"@, "review"@, "ai_pick"@, "session_type"@, "eyes_score"@, "face_embedding"@]
}

/// Columns of the presets table added by migrations.
pub open spec fn migrated_preset_columns() -> Seq<Seq<char>> {
    seq!["file_type"@, "color_type"@, "source"@]
}

/// Whether `cols` has a column named `col`.
pub fn has_column(cols: &Vec<String>, col: &str) -> (r: bool)
    ensures
        r == strs(cols@).contains(col@),
{
    let mut k: usize = 0;
    while k < cols.len()
        invariant
            k <= cols@.len(),
            forall|m: int| 0 <= m < k ==> cols@[m]@ != col@,
        decreases cols@.len() - k,
    {
        if str_eq(cols[k].as_str(), col) {
            assert(strs(cols@)[k as int] == col@);
            return true;
        }
        k = k + 1;
    }
    assert forall|m: int| 0 <= m < strs(cols@).len() implies strs(cols@)[m] != col@ by {
        assert(strs(cols@)[m] == cols@[m]@);
    }
    false
}

/// The statement adding `col` to `table` when `cols` lacks it.
pub fn column_migration(cols: &Vec<String>, table: &str, col: &str, def: &str) -> (r: Option<String>)
    ensures
        match r {
            Some(s) => missing_column(strs(cols@), table@, col@, def@) == seq![s@],
            None => missing_column(strs(cols@), table@, col@, def@) == Seq::<Seq<char>>::empty(),
        },
{
    if has_column(cols, col) {
        None
    } else {
        let mut s = "ALTER TABLE ".to_owned();
        s.append(table);
        s.append(" ADD COLUMN ");
        s.append(col);
        s.append(" ");
        s.append(def);
        Some(s)
    }
}

fn push_missing(out: &mut Vec<String>, cols: &Vec<String>, table: &str, col: &str, def: &str)
    ensures
        strs(final(out)@) == strs(old(out)@) + missing_column(strs(cols@), table@, col@, def@),
{
    match column_migration(cols, table, col, def) {
        Some(s) => {
            let ghost sv = s@;
            out.push(s);
            assert(strs(final(out)@) =~= strs(old(out)@) + seq![sv]);
        },
        None => {
            assert(strs(final(out)@) =~= strs(old(out)@) + Seq::<Seq<char>>::empty());
        },
    }
}

/// The migrations the catalog needs, given the current columns of the photos
/// and presets tables: one `ALTER TABLE` per column a later version added
/// that the table lacks.
pub fn schema_migrations(photo_cols: &Vec<String>, preset_cols: &Vec<String>) -> (r: Vec<String>)
    ensures
        strs(r@) == schema_migrations_spec(strs(photo_cols@), strs(preset_cols@)),
{
    let mut out: Vec<String> = Vec::new();
    push_missing(&mut out, photo_cols, "photos", "cull_score", "REAL");
    push_missing(&mut out, photo_cols, "photos", "edit_json", "TEXT");
    push_missing(&mut out, photo_cols, "photos", "has_face", "INTEGER DEFAULT 0");
    push_missing(&mut out, photo_cols, "photos", "review", "INTEGER DEFAULT 0");
    push_missing(&mut out, photo_cols, "photos", "ai_pick", "INTEGER DEFAULT 0");
    push_missing(&mut out, photo_cols, "photos", "session_type", "TEXT DEFAULT ''");
    push_missing(&mut out, preset_cols, "presets", "file_type", "TEXT DEFAULT ''");
    push_missing(&mut out, preset_cols, "presets", "color_type", "TEXT DEFAULT ''");
    push_missing(&mut out, preset_cols, "presets", "source", "TEXT DEFAULT 'manual'");
    push_missing(&mut out, photo_cols, "photos", "eyes_score", "REAL DEFAULT -1");
    push_missing(&mut out, photo_cols, "photos", "face_embedding", "BLOB");
    out
}

/// Law: once the tables have every migrated column, there is nothing left to
/// migrate, so running the migrations again changes nothing.
pub proof fn lemma_migrations_idempotent(photo_cols: Seq<Seq<char>>, preset_cols: Seq<Seq<char>>)
    requires
        forall|k: int| 0 <= k < migrated_photo_columns().len() ==> photo_cols.contains(#[trigger] migrated_photo_columns()[k]),
        forall|k: int| 0 <= k < migrated_preset_columns().len() ==> preset_cols.contains(#[trigger] migrated_preset_columns()[k]),
    ensures
        schema_migrations_spec(photo_cols, preset_cols) == Seq::<Seq<char>>::empty(),
{
    assert(photo_cols.contains(migrated_photo_columns()[0]));
    assert(photo_cols.contains(migrated_photo_columns()[1]));
    assert(photo_cols.contains(migrated_photo_columns()[2]));
    assert(photo_cols.contains(migrated_photo_columns()[3]));
    assert(photo_cols.contains(migrated_photo_columns()[4]));
    assert(photo_cols.contains(migrated_photo_columns()[5]));
    assert(photo_cols.contains(migrated_photo_columns()[6]));
    assert(photo_cols.contains(migrated_photo_columns()[7]));
    assert(preset_cols.contains(migrated_preset_columns()[0]));
    assert(preset_cols.contains(migrated_preset_columns()[1]));
    assert(preset_cols.contains(migrated_preset_columns()[2]));
    assert(schema_migrations_spec(photo_cols, preset_cols) =~= Seq::<Seq<char>>::empty());
}

/// The migration adding the colour-label column to the photos table, when
/// `photo_cols` lacks it.
pub fn label_migration(photo_cols: &Vec<String>) -> (r: Option<String>)
    ensures
        match r {
            Some(s) => missing_column(strs(photo_cols@), "photos"@, "label"@, "TEXT DEFAULT ''"@) == seq![s@],
            None => missing_column(strs(photo_cols@), "photos"@, "label"@, "TEXT DEFAULT ''"@) == Seq::<Seq<char>>::empty(),
        },
{
    column_migration(photo_cols, "photos", "label", "TEXT DEFAULT ''")
}

} // verus!
