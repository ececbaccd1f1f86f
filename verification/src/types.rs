//! Records the catalog hands out.
use vstd::prelude::*;

verus! {

/// Outcome of indexing a folder.
pub struct ScanResult {
    /// Photo files of the requested type that were inspected.
    pub scanned: i64,
    /// Of those, photos new to the catalog.
    pub added: i64,
    /// Of those, photos already in the catalog, refreshed.
    pub updated: i64,
    /// Entries that could not be read, and photos of another type.
    pub skipped: i64,
    /// One message per photo that could not be inspected.
    pub errors: Vec<String>,
}

/// Photos sharing one SHA-256: the ids of all of them, and the name and path
/// of the first.
pub struct DuplicateGroup {
    pub hash: String,
    pub photo_ids: Vec<i64>,
    pub photo_names: Vec<String>,
    pub photo_paths: Vec<String>,
}

/// Photo counts behind the gallery filters.
pub struct FilterCounts {
    pub all: i64,
    pub picks: i64,
    pub rejects: i64,
    pub unrated: i64,
    pub review: i64,
    pub destaques: i64,
    pub selecionado: i64,
    pub duplicates: i64,
    pub faces: i64,
    pub edited: i64,
}

/// A named edit preset.
pub struct Preset {
    pub name: String,
    /// The edit recipe, as JSON.
    pub recipe: String,
    /// File type the profile was trained on: "raw", "jpeg" or "".
    pub file_type: String,
    /// Colour type of the profile: "color", "bw" or "".
    pub color_type: String,
    /// Origin: "manual", "learned", "lightroom" or "imported".
    pub source: String,
}

/// An album, with its photo count and the path of its cover.
pub struct Album {
    pub id: i64,
    pub name: String,
    pub session_type: String,
    pub cover_photo_id: Option<i64>,
    pub created_at: String,
    pub photo_count: i64,
    pub cover_path: Option<String>,
}

} // verus!
