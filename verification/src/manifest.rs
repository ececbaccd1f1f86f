//! Importing a portable catalog manifest (`openshoot-catalog`, schema 1)
//! into this catalog without touching the images. The caller parses the JSON
//! into the types below and reads the catalog's photos and album names; this
//! module validates the manifest, reconciles every photo reference (first by
//! path, then by SHA-256) and lays out what to write. Fields holding floating
//! point numbers (scores, face boxes, thresholds) stay with the caller, who
//! finds them again through the entry indices kept in the plan.
use vstd::prelude::*;

use crate::catalog::{json_error, spec_json_error};
use crate::grouping::strs;
use crate::text::{str_eq, trim, trim_str};

verus! {

/// A photo already in the catalog.
pub struct CatalogPhotoRef {
    pub id: i64,
    pub path: String,
    pub sha256: String,
}

/// A reference to a photo in the manifest.
pub struct ManifestRef {
    pub path: Option<String>,
    pub sha256: Option<String>,
}

/// A photo entry of the manifest: its reference and the non-destructive
/// metadata to restore (absent or mistyped fields are `None`).
pub struct ManifestPhoto {
    pub path: Option<String>,
    pub sha256: Option<String>,
    pub rating: Option<i64>,
    pub has_xmp: Option<bool>,
    pub preview_available: Option<bool>,
    pub has_face: Option<bool>,
    pub review: Option<bool>,
    pub ai_pick: Option<bool>,
    pub edit_json: Option<String>,
}

/// A face of a person in the manifest; `bbox_len` is the length of its box
/// when the box is an array.
pub struct ManifestFace {
    pub path: Option<String>,
    pub sha256: Option<String>,
    pub bbox_len: Option<usize>,
}

/// A person of an album in the manifest.
pub struct ManifestGroup {
    pub name: Option<String>,
    pub faces: Option<Vec<ManifestFace>>,
}

/// An album of the manifest.
pub struct ManifestAlbum {
    pub name: Option<String>,
    pub session_type: Option<String>,
    pub photos: Option<Vec<ManifestRef>>,
    pub people: Option<Vec<ManifestGroup>>,
}

/// A catalog manifest.
pub struct CatalogManifest {
    pub format: Option<String>,
    pub schema_version: Option<i64>,
    pub photos: Option<Vec<ManifestPhoto>>,
    pub albums: Option<Vec<ManifestAlbum>>,
}

/// The contents of an optional string.
pub open spec fn opt_view(o: Option<String>) -> Option<Seq<char>> {
    match o {
        Some(s) => Some(s@),
        None => None,
    }
}

/// An optional string, or the empty string.
pub open spec fn or_empty(o: Option<String>) -> Seq<char> {
    match o {
        Some(s) => s@,
        None => seq![],
    }
}

/// The id of the last catalog photo stored under `path`.
pub open spec fn path_lookup(rows: Seq<CatalogPhotoRef>, path: Seq<char>) -> Option<i64>
    decreases rows.len(),
{
    if rows.len() == 0 {
        None
    } else if rows.last().path@ == path {
        Some(rows.last().id)
    } else {
        path_lookup(rows.drop_last(), path)
    }
}

/// The id of the last catalog photo with the non-empty hash `hash`.
pub open spec fn hash_lookup(rows: Seq<CatalogPhotoRef>, hash: Seq<char>) -> Option<i64>
    decreases rows.len(),
{
    if rows.len() == 0 {
        None
    } else if rows.last().sha256@.len() > 0 && rows.last().sha256@ == hash {
        Some(rows.last().id)
    } else {
        hash_lookup(rows.drop_last(), hash)
    }
}

/// The catalog photo a manifest reference names: by path first, then by hash
/// (a missing field counts as the empty string).
pub open spec fn resolve(rows: Seq<CatalogPhotoRef>, path: Option<String>, hash: Option<String>) -> Option<
    i64,
> {
    match path_lookup(rows, or_empty(path)) {
        Some(id) => Some(id),
        None => hash_lookup(rows, or_empty(hash)),
    }
}

/// The catalog photo stored under `path`.
fn lookup_path(rows: &Vec<CatalogPhotoRef>, path: &str) -> (r: Option<i64>)
    ensures
        r == path_lookup(rows@, path@),
{
    let mut k = rows.len();
    assert(rows@.take(k as int) == rows@);
    while k > 0
        invariant
            k <= rows@.len(),
            path_lookup(rows@, path@) == path_lookup(rows@.take(k as int), path@),
        decreases k,
    {
        assert(rows@.take(k as int).drop_last() == rows@.take(k - 1));
        if str_eq(rows[k - 1].path.as_str(), path) {
            return Some(rows[k - 1].id);
        }
        k = k - 1;
    }
    None
}

/// The catalog photo with the non-empty hash `hash`.
fn lookup_hash(rows: &Vec<CatalogPhotoRef>, hash: &str) -> (r: Option<i64>)
    ensures
        r == hash_lookup(rows@, hash@),
{
    let mut k = rows.len();
    assert(rows@.take(k as int) == rows@);
    while k > 0
        invariant
            k <= rows@.len(),
            hash_lookup(rows@, hash@) == hash_lookup(rows@.take(k as int), hash@),
        decreases k,
    {
        assert(rows@.take(k as int).drop_last() == rows@.take(k - 1));
        let row = &rows[k - 1];
        if !row.sha256.as_str().is_empty() && str_eq(row.sha256.as_str(), hash) {
            return Some(row.id);
        }
        k = k - 1;
    }
    None
}

/// Reconciles a manifest reference with the catalog (see `resolve`).
pub fn resolve_ref(rows: &Vec<CatalogPhotoRef>, path: &Option<String>, hash: &Option<String>) -> (r:
    Option<i64>)
    ensures
        r == resolve(rows@, *path, *hash),
{
    proof {
        reveal_strlit("");
    }
    let p: &str = match path {
        Some(s) => s.as_str(),
        None => "",
    };
    assert(p@ =~= or_empty(*path));
    match lookup_path(rows, p) {
        Some(id) => Some(id),
        None => {
            let h: &str = match hash {
                Some(s) => s.as_str(),
                None => "",
            };
            assert(h@ =~= or_empty(*hash));
            lookup_hash(rows, h)
        },
    }
}

/// Metadata restored on a catalog photo from manifest entry `entry`.
pub struct PhotoUpdate {
    pub photo_id: i64,
    pub entry: usize,
    pub rating: i64,
    pub has_xmp: bool,
    pub preview_available: bool,
    pub has_face: bool,
    pub review: bool,
    pub ai_pick: bool,
    pub edit_json: Option<String>,
}

/// An album to create.
pub struct AlbumImport {
    pub name: String,
    pub session_type: String,
}

/// A catalog photo to add to the `album`-th created album.
pub struct AlbumLink {
    pub album: usize,
    pub photo_id: i64,
}

/// Entry `entry` of the `album`-th album's photos, absent from the catalog.
pub struct MissingRef {
    pub album: usize,
    pub entry: usize,
}

/// A person to create in the `album`-th created album, from its `entry`-th
/// person in the manifest.
pub struct GroupImport {
    pub album: usize,
    pub entry: usize,
    pub name: String,
}

/// A face to record in the `group`-th created person, from that person's
/// `entry`-th face in the manifest.
pub struct FaceImport {
    pub group: usize,
    pub entry: usize,
    pub photo_id: i64,
}

/// What an import writes, in order: photo updates, then albums with their
/// photos and people. Each count the import reports is the length of one list.
pub struct ImportPlan {
    pub updates: Vec<PhotoUpdate>,
    pub albums: Vec<AlbumImport>,
    pub links: Vec<AlbumLink>,
    pub missing: Vec<MissingRef>,
    pub groups: Vec<GroupImport>,
    pub faces: Vec<FaceImport>,
}

/// The manifest entries that name a catalog photo, with that photo's id.
pub open spec fn update_entries(rows: Seq<CatalogPhotoRef>, photos: Seq<ManifestPhoto>) -> Seq<
    (usize, i64),
>
    decreases photos.len(),
{
    if photos.len() == 0 {
        seq![]
    } else {
        let prev = update_entries(rows, photos.drop_last());
        match resolve(rows, photos.last().path, photos.last().sha256) {
            Some(id) => prev.push(((photos.len() - 1) as usize, id)),
            None => prev,
        }
    }
}

/// `u` restores entry `p` on catalog photo `id`: absent fields become 0,
/// `false` and no edit recipe.
pub open spec fn restores(u: PhotoUpdate, p: ManifestPhoto, entry: usize, id: i64) -> bool {
    &&& u.photo_id == id
    &&& u.entry == entry
    &&& u.rating == (match p.rating {
        Some(r) => r,
        None => 0,
    })
    &&& u.has_xmp == (p.has_xmp == Some(true))
    &&& u.preview_available == (p.preview_available == Some(true))
    &&& u.has_face == (p.has_face == Some(true))
    &&& u.review == (p.review == Some(true))
    &&& u.ai_pick == (p.ai_pick == Some(true))
    &&& opt_view(u.edit_json) == opt_view(p.edit_json)
}

fn clone_opt(o: &Option<String>) -> (r: Option<String>)
    ensures
        opt_view(r) == opt_view(*o),
{
    match o {
        Some(s) => Some(s.clone()),
        None => None,
    }
}

/// The photo updates of a manifest, entry by entry.
pub fn plan_photo_updates(rows: &Vec<CatalogPhotoRef>, photos: &Vec<ManifestPhoto>) -> (r: Vec<
    PhotoUpdate,
>)
    ensures
        r@.len() == update_entries(rows@, photos@).len(),
        forall|j: int|
            0 <= j < r@.len() ==> {
                let (e, id) = #[trigger] update_entries(rows@, photos@)[j];
                restores(r@[j], photos@[e as int], e, id)
            },
{
    let mut out: Vec<PhotoUpdate> = Vec::new();
    let mut k: usize = 0;
    while k < photos.len()
        invariant
            k <= photos@.len(),
            out@.len() == update_entries(rows@, photos@.take(k as int)).len(),
            forall|j: int|
                0 <= j < out@.len() ==> {
                    let (e, id) = #[trigger] update_entries(rows@, photos@.take(k as int))[j];
                    e < k && restores(out@[j], photos@[e as int], e, id)
                },
        decreases photos@.len() - k,
    {
        let ghost prev = update_entries(rows@, photos@.take(k as int));
        assert(photos@.take(k + 1).drop_last() == photos@.take(k as int));
        let p = &photos[k];
        match resolve_ref(rows, &p.path, &p.sha256) {
            Some(id) => {
                let u = PhotoUpdate {
                    photo_id: id,
                    entry: k,
                    rating: match p.rating {
                        Some(r) => r,
                        None => 0,
                    },
                    has_xmp: p.has_xmp == Some(true),
                    preview_available: p.preview_available == Some(true),
                    has_face: p.has_face == Some(true),
                    review: p.review == Some(true),
                    ai_pick: p.ai_pick == Some(true),
                    edit_json: clone_opt(&p.edit_json),
                };
                out.push(u);
                assert(update_entries(rows@, photos@.take(k + 1)) == prev.push((k, id)));
            },
            None => {},
        }
        k = k + 1;
    }
    assert(photos@.take(photos@.len() as int) == photos@);
    out
}

/// Name given to an imported album without a usable name.
pub open spec fn default_album_name() -> Seq<char> {
    "Álbum importado"@
}

/// An album's name from the manifest, trimmed; the default name when it is
/// absent or blank.
pub open spec fn base_album_name(name: Option<String>) -> Seq<char> {
    let t = match name {
        Some(s) => trim(s@),
        None => trim(default_album_name()),
    };
    if t.len() == 0 {
        default_album_name()
    } else {
        t
    }
}

/// The name an album gets when `taken` are the names already in use: its
/// base name, marked as imported when that name is taken.
pub open spec fn import_name(base: Seq<char>, taken: Seq<Seq<char>>) -> Seq<char> {
    if taken.contains(base) {
        base + " (importado)"@
    } else {
        base
    }
}

/// The names of the imported albums, given the catalog's album names: each
/// album is checked against the catalog and the albums imported before it.
pub open spec fn album_names(existing: Seq<Seq<char>>, albums: Seq<ManifestAlbum>) -> Seq<Seq<char>>
    decreases albums.len(),
{
    if albums.len() == 0 {
        seq![]
    } else {
        let prev = album_names(existing, albums.drop_last());
        prev.push(import_name(base_album_name(albums.last().name), existing + prev))
    }
}

proof fn lemma_album_names_len(existing: Seq<Seq<char>>, albums: Seq<ManifestAlbum>)
    ensures
        album_names(existing, albums).len() == albums.len(),
    decreases albums.len(),
{
    if albums.len() > 0 {
        lemma_album_names_len(existing, albums.drop_last());
    }
}

/// The name an imported album gets (see `import_name`).
pub fn import_album_name(taken: &Vec<String>, name: &Option<String>) -> (r: String)
    ensures
        r@ == import_name(base_album_name(*name), strs(taken@)),
{
    let t = match name {
        Some(s) => trim_str(s.as_str()),
        None => trim_str("Álbum importado"),
    };
    let base = if t.as_str().is_empty() {
        "Álbum importado".to_owned()
    } else {
        t
    };
    assert(base@ == base_album_name(*name));
    let mut found = false;
    let mut k: usize = 0;
    while k < taken.len() && !found
        invariant
            k <= taken@.len(),
            !found ==> forall|m: int| 0 <= m < k ==> taken@[m]@ != base@,
            found ==> strs(taken@).contains(base@),
        decreases taken@.len() - k,
    {
        if str_eq(taken[k].as_str(), base.as_str()) {
            assert(strs(taken@)[k as int] == base@);
            found = true;
        }
        k = k + 1;
    }
    if !found {
        assert forall|m: int| 0 <= m < strs(taken@).len() implies strs(taken@)[m] != base@ by {
            assert(strs(taken@)[m] == taken@[m]@);
        }
    }
    if found {
        let mut r = base;
        r.append(" (importado)");
        r
    } else {
        base
    }
}

/// An optional list, or the empty list.
pub open spec fn opt_seq<T>(o: Option<Vec<T>>) -> Seq<T> {
    match o {
        Some(v) => v@,
        None => seq![],
    }
}

/// The catalog photos an album's references name, in order.
pub open spec fn album_links(rows: Seq<CatalogPhotoRef>, album: usize, refs: Seq<ManifestRef>) -> Seq<
    AlbumLink,
>
    decreases refs.len(),
{
    if refs.len() == 0 {
        seq![]
    } else {
        let prev = album_links(rows, album, refs.drop_last());
        match resolve(rows, refs.last().path, refs.last().sha256) {
            Some(id) => prev.push(AlbumLink { album, photo_id: id }),
            None => prev,
        }
    }
}

/// The references of an album that name no catalog photo, in order.
pub open spec fn album_missing(rows: Seq<CatalogPhotoRef>, album: usize, refs: Seq<ManifestRef>) -> Seq<
    MissingRef,
>
    decreases refs.len(),
{
    if refs.len() == 0 {
        seq![]
    } else {
        let prev = album_missing(rows, album, refs.drop_last());
        match resolve(rows, refs.last().path, refs.last().sha256) {
            Some(id) => prev,
            None => prev.push(MissingRef { album, entry: (refs.len() - 1) as usize }),
        }
    }
}

/// A person's name from the manifest, or "Pessoa".
pub open spec fn group_name(g: ManifestGroup) -> Seq<char> {
    match g.name {
        Some(s) => s@,
        None => "Pessoa"@,
    }
}

/// A person to create, as a value.
pub open spec fn group_views(v: Seq<GroupImport>) -> Seq<(usize, usize, Seq<char>)> {
    v.map_values(|g: GroupImport| (g.album, g.entry, g.name@))
}

/// The people of an album: one per manifest entry.
pub open spec fn album_groups(album: usize, people: Seq<ManifestGroup>) -> Seq<(usize, usize, Seq<char>)> {
    Seq::new(people.len(), |j: int| (album, j as usize, group_name(people[j])))
}

/// The faces of a person to record: those naming a catalog photo and having
/// a four-number box.
pub open spec fn group_faces(rows: Seq<CatalogPhotoRef>, group: usize, faces: Seq<ManifestFace>) -> Seq<
    FaceImport,
>
    decreases faces.len(),
{
    if faces.len() == 0 {
        seq![]
    } else {
        let prev = group_faces(rows, group, faces.drop_last());
        let f = faces.last();
        match resolve(rows, f.path, f.sha256) {
            Some(id) => if f.bbox_len == Some(4usize) {
                prev.push(FaceImport { group, entry: (faces.len() - 1) as usize, photo_id: id })
            } else {
                prev
            },
            None => prev,
        }
    }
}

/// The faces to record for an album's people, the first of which becomes
/// person number `base`.
pub open spec fn album_faces(rows: Seq<CatalogPhotoRef>, base: int, people: Seq<ManifestGroup>) -> Seq<
    FaceImport,
>
    decreases people.len(),
{
    if people.len() == 0 {
        seq![]
    } else {
        let init = people.drop_last();
        album_faces(rows, base, init) + group_faces(
            rows,
            (base + init.len()) as usize,
            opt_seq(people.last().faces),
        )
    }
}

/// Adds an album's links and missing references.
fn append_album_links(
    rows: &Vec<CatalogPhotoRef>,
    album: usize,
    refs: &Vec<ManifestRef>,
    links: &mut Vec<AlbumLink>,
    missing: &mut Vec<MissingRef>,
)
    ensures
        final(links)@ == old(links)@ + album_links(rows@, album, refs@),
        final(missing)@ == old(missing)@ + album_missing(rows@, album, refs@),
{
    let mut k: usize = 0;
    while k < refs.len()
        invariant
            k <= refs@.len(),
            links@ == old(links)@ + album_links(rows@, album, refs@.take(k as int)),
            missing@ == old(missing)@ + album_missing(rows@, album, refs@.take(k as int)),
        decreases refs@.len() - k,
    {
        assert(refs@.take(k + 1).drop_last() == refs@.take(k as int));
        let r = &refs[k];
        match resolve_ref(rows, &r.path, &r.sha256) {
            Some(id) => {
                links.push(AlbumLink { album, photo_id: id });
            },
            None => {
                missing.push(MissingRef { album, entry: k });
            },
        }
        k = k + 1;
    }
    assert(refs@.take(refs@.len() as int) == refs@);
}

/// Adds the faces of person number `group`.
fn append_group_faces(
    rows: &Vec<CatalogPhotoRef>,
    group: usize,
    faces: &Vec<ManifestFace>,
    out: &mut Vec<FaceImport>,
)
    ensures
        final(out)@ == old(out)@ + group_faces(rows@, group, faces@),
{
    let mut k: usize = 0;
    while k < faces.len()
        invariant
            k <= faces@.len(),
            out@ == old(out)@ + group_faces(rows@, group, faces@.take(k as int)),
        decreases faces@.len() - k,
    {
        assert(faces@.take(k + 1).drop_last() == faces@.take(k as int));
        let f = &faces[k];
        match resolve_ref(rows, &f.path, &f.sha256) {
            Some(id) => {
                if f.bbox_len == Some(4usize) {
                    out.push(FaceImport { group, entry: k, photo_id: id });
                }
            },
            None => {},
        }
        k = k + 1;
    }
    assert(faces@.take(faces@.len() as int) == faces@);
}

/// Adds an album's people and their faces.
fn append_album_people(
    rows: &Vec<CatalogPhotoRef>,
    album: usize,
    people: &Vec<ManifestGroup>,
    groups: &mut Vec<GroupImport>,
    faces: &mut Vec<FaceImport>,
)
    ensures
        group_views(final(groups)@) == group_views(old(groups)@) + album_groups(album, people@),
        final(faces)@ == old(faces)@ + album_faces(rows@, old(groups)@.len() as int, people@),
{
    let ghost base = old(groups)@.len() as int;
    let mut k: usize = 0;
    while k < people.len()
        invariant
            k <= people@.len(),
            base == old(groups)@.len(),
            groups@.len() == base + k,
            group_views(groups@) == group_views(old(groups)@) + album_groups(
                album,
                people@.take(k as int),
            ),
            faces@ == old(faces)@ + album_faces(rows@, base, people@.take(k as int)),
        decreases people@.len() - k,
    {
        assert(people@.take(k + 1).drop_last() == people@.take(k as int));
        let g = &people[k];
        let gi = groups.len();
        let name = match &g.name {
            Some(s) => s.clone(),
            None => "Pessoa".to_owned(),
        };
        let ghost before = groups@;
        groups.push(GroupImport { album, entry: k, name });
        assert(group_views(groups@) =~= group_views(before).push((album, k, group_name(*g))));
        assert(album_groups(album, people@.take(k + 1)) =~= album_groups(
            album,
            people@.take(k as int),
        ).push((album, k, group_name(*g))));
        match &g.faces {
            Some(fs) => {
                append_group_faces(rows, gi, fs, faces);
            },
            None => {
                assert(group_faces(rows@, gi, seq![]) == Seq::<FaceImport>::empty());
            },
        }
        k = k + 1;
    }
    assert(people@.take(people@.len() as int) == people@);
}

/// The catalog photos each album's references name, album by album.
pub open spec fn import_links(rows: Seq<CatalogPhotoRef>, albums: Seq<ManifestAlbum>) -> Seq<AlbumLink>
    decreases albums.len(),
{
    if albums.len() == 0 {
        seq![]
    } else {
        let init = albums.drop_last();
        import_links(rows, init) + album_links(rows, init.len() as usize, opt_seq(albums.last().photos))
    }
}

/// The references naming no catalog photo, album by album.
pub open spec fn import_missing(rows: Seq<CatalogPhotoRef>, albums: Seq<ManifestAlbum>) -> Seq<
    MissingRef,
>
    decreases albums.len(),
{
    if albums.len() == 0 {
        seq![]
    } else {
        let init = albums.drop_last();
        import_missing(rows, init) + album_missing(
            rows,
            init.len() as usize,
            opt_seq(albums.last().photos),
        )
    }
}

/// The people to create, album by album.
pub open spec fn import_groups(albums: Seq<ManifestAlbum>) -> Seq<(usize, usize, Seq<char>)>
    decreases albums.len(),
{
    if albums.len() == 0 {
        seq![]
    } else {
        let init = albums.drop_last();
        import_groups(init) + album_groups(init.len() as usize, opt_seq(albums.last().people))
    }
}

/// The faces to record, album by album, person by person.
pub open spec fn import_faces(rows: Seq<CatalogPhotoRef>, albums: Seq<ManifestAlbum>) -> Seq<FaceImport>
    decreases albums.len(),
{
    if albums.len() == 0 {
        seq![]
    } else {
        let init = albums.drop_last();
        import_faces(rows, init) + album_faces(
            rows,
            import_groups(init).len() as int,
            opt_seq(albums.last().people),
        )
    }
}

/// An album to create, as a value.
pub open spec fn album_views(v: Seq<AlbumImport>) -> Seq<(Seq<char>, Seq<char>)> {
    v.map_values(|a: AlbumImport| (a.name@, a.session_type@))
}

/// The albums to create: their import names and session types.
pub open spec fn import_albums(existing: Seq<Seq<char>>, albums: Seq<ManifestAlbum>) -> Seq<
    (Seq<char>, Seq<char>),
> {
    Seq::new(
        albums.len(),
        |k: int| (album_names(existing, albums)[k], or_empty(albums[k].session_type)),
    )
}

/// Why a manifest is refused before anything is read from the catalog.
pub open spec fn manifest_error(m: CatalogManifest) -> Option<Seq<char>> {
    if opt_view(m.format) != Some("openshoot-catalog"@) {
        Some("arquivo não é um catálogo OpenShoot"@)
    } else if m.schema_version != Some(1i64) {
        Some("versão de catálogo não suportada"@)
    } else {
        None
    }
}

/// The outcome of reading a manifest's text given what JSON parsing
/// reported: `Err("JSON inválido: <error>")` when it is not JSON.
pub fn manifest_json_outcome(parse_error: Option<String>) -> (r: Result<(), String>)
    ensures
        match parse_error {
            Some(e) => r matches Err(m) && m@ == "JSON inválido: "@ + e@,
            None => r is Ok,
        },
{
    match parse_error {
        Some(e) => {
            let mut m = "JSON inválido: ".to_owned();
            m.append(e.as_str());
            Err(m)
        },
        None => Ok(()),
    }
}

/// Checks that a manifest's text is JSON (see `manifest_json_outcome`).
pub fn check_manifest_json(manifest: &str) -> (r: Result<(), String>)
    ensures
        match spec_json_error(manifest@) {
            Some(e) => r matches Err(m) && m@ == "JSON inválido: "@ + e,
            None => r is Ok,
        },
{
    let err = json_error(manifest);
    manifest_json_outcome(err)
}

/// Checks that a manifest is an OpenShoot catalog of a supported version.
pub fn validate_manifest(m: &CatalogManifest) -> (r: Result<(), String>)
    ensures
        match r {
            Ok(()) => manifest_error(*m) is None,
            Err(e) => manifest_error(*m) == Some(e@),
        },
{
    let is_catalog = match &m.format {
        Some(f) => str_eq(f.as_str(), "openshoot-catalog"),
        None => false,
    };
    if !is_catalog {
        return Err("arquivo não é um catálogo OpenShoot".to_owned());
    }
    if m.schema_version != Some(1i64) {
        return Err("versão de catálogo não suportada".to_owned());
    }
    Ok(())
}

/// Lays out the import of a validated manifest into a catalog whose photos
/// are `rows` and whose album names are `existing_names`. Fails when the
/// manifest has no album list. Photos are reconciled by path, then by hash;
/// an album whose name is taken (by the catalog or an album imported before
/// it) is marked as imported.
pub fn plan_import(m: &CatalogManifest, rows: &Vec<CatalogPhotoRef>, existing_names: &Vec<String>) -> (r:
    Result<ImportPlan, String>)
    ensures
        m.albums is None ==> (r matches Err(e) && e@ == "manifesto sem albums"@),
        m.albums is Some ==> (r matches Ok(plan) && {
            let albums = opt_seq(m.albums);
            let photos = opt_seq(m.photos);
            &&& plan.updates@.len() == update_entries(rows@, photos).len()
            &&& forall|j: int|
                0 <= j < plan.updates@.len() ==> {
                    let (e, id) = #[trigger] update_entries(rows@, photos)[j];
                    restores(plan.updates@[j], photos[e as int], e, id)
                }
            &&& album_views(plan.albums@) == import_albums(strs(existing_names@), albums)
            &&& plan.links@ == import_links(rows@, albums)
            &&& plan.missing@ == import_missing(rows@, albums)
            &&& group_views(plan.groups@) == import_groups(albums)
            &&& plan.faces@ == import_faces(rows@, albums)
        }),
{
    let albums = match &m.albums {
        Some(a) => a,
        None => {
            return Err("manifesto sem albums".to_owned());
        },
    };
    let updates = match &m.photos {
        Some(ps) => plan_photo_updates(rows, ps),
        None => Vec::new(),
    };
    let ghost existing = strs(existing_names@);
    let mut taken: Vec<String> = Vec::new();
    let mut t: usize = 0;
    while t < existing_names.len()
        invariant
            t <= existing_names@.len(),
            strs(taken@) == strs(existing_names@).take(t as int),
        decreases existing_names@.len() - t,
    {
        let ghost before = taken@;
        taken.push(existing_names[t].clone());
        assert(strs(taken@) =~= strs(before).push(existing_names@[t as int]@));
        assert(strs(existing_names@).take(t + 1) =~= strs(existing_names@).take(t as int).push(
            existing_names@[t as int]@,
        ));
        t = t + 1;
    }
    assert(strs(existing_names@).take(existing_names@.len() as int) == existing);
    let mut out_albums: Vec<AlbumImport> = Vec::new();
    let mut links: Vec<AlbumLink> = Vec::new();
    let mut missing: Vec<MissingRef> = Vec::new();
    let mut groups: Vec<GroupImport> = Vec::new();
    let mut faces: Vec<FaceImport> = Vec::new();
    let mut k: usize = 0;
    while k < albums.len()
        invariant
            k <= albums@.len(),
            existing == strs(existing_names@),
            strs(taken@) == existing + album_names(existing, albums@.take(k as int)),
            out_albums@.len() == k,
            album_views(out_albums@) == Seq::new(
                k as nat,
                |j: int| (album_names(existing, albums@.take(k as int))[j], or_empty(albums@[j].session_type)),
            ),
            links@ == import_links(rows@, albums@.take(k as int)),
            missing@ == import_missing(rows@, albums@.take(k as int)),
            group_views(groups@) == import_groups(albums@.take(k as int)),
            groups@.len() == import_groups(albums@.take(k as int)).len(),
            faces@ == import_faces(rows@, albums@.take(k as int)),
        decreases albums@.len() - k,
    {
        let ghost pre = albums@.take(k as int);
        assert(albums@.take(k + 1).drop_last() == pre);
        let a = &albums[k];
        let name = import_album_name(&taken, &a.name);
        let ghost names_before = album_names(existing, pre);
        proof {
            lemma_album_names_len(existing, pre);
        }
        assert(album_names(existing, albums@.take(k + 1)) == names_before.push(name@));
        let session_type = match &a.session_type {
            Some(st) => st.clone(),
            None => "".to_owned(),
        };
        proof {
            reveal_strlit("");
            assert(session_type@ =~= or_empty(a.session_type));
        }
        let ghost taken_before = taken@;
        taken.push(name.clone());
        assert(strs(taken@) =~= strs(taken_before).push(name@));
        let ghost albums_before = out_albums@;
        out_albums.push(AlbumImport { name, session_type });
        assert(album_views(out_albums@) =~= Seq::new(
            (k + 1) as nat,
            |j: int|
                (
                    album_names(existing, albums@.take(k + 1))[j],
                    or_empty(albums@[j].session_type),
                ),
        )) by {
            let av = album_views(out_albums@);
            let new_names = names_before.push(name@);
            assert(av =~= album_views(albums_before).push((name@, session_type@)));
            assert(album_names(existing, albums@.take(k + 1)) == new_names);
            assert forall|j: int| 0 <= j < k + 1 implies #[trigger] av[j] == (
                new_names[j],
                or_empty(albums@[j].session_type),
            ) by {
                if j < k {
                    assert(new_names[j] == names_before[j]);
                    assert(av[j] == album_views(albums_before)[j]);
                }
            }
        }
        match &a.photos {
            Some(refs) => {
                append_album_links(rows, k, refs, &mut links, &mut missing);
            },
            None => {
                assert(album_links(rows@, k, seq![]) == Seq::<AlbumLink>::empty());
                assert(album_missing(rows@, k, seq![]) == Seq::<MissingRef>::empty());
            },
        }
        match &a.people {
            Some(people) => {
                append_album_people(rows, k, people, &mut groups, &mut faces);
            },
            None => {
                assert(album_groups(k, seq![]) =~= Seq::<(usize, usize, Seq<char>)>::empty());
                assert(album_faces(rows@, groups@.len() as int, seq![]) == Seq::<FaceImport>::empty());
            },
        }
        k = k + 1;
    }
    assert(albums@.take(albums@.len() as int) == albums@);
    Ok(ImportPlan { updates, albums: out_albums, links, missing, groups, faces })
}

/// No two catalog photos share a path (the catalog's paths are unique).
pub open spec fn unique_paths(rows: Seq<CatalogPhotoRef>) -> bool {
    forall|i: int, j: int|
        0 <= i < j < rows.len() ==> #[trigger] rows[i].path@ != #[trigger] rows[j].path@
}

proof fn lemma_path_lookup(rows: Seq<CatalogPhotoRef>, i: int)
    requires
        unique_paths(rows),
        0 <= i < rows.len(),
    ensures
        path_lookup(rows, rows[i].path@) == Some(rows[i].id),
    decreases rows.len(),
{
    if i < rows.len() - 1 {
        let init = rows.drop_last();
        assert(rows.last().path@ != rows[i].path@);
        assert(init[i] == rows[i]);
        assert(unique_paths(init)) by {
            assert forall|a: int, b: int| 0 <= a < b < init.len() implies #[trigger] init[a].path@
                != #[trigger] init[b].path@ by {
                assert(init[a] == rows[a] && init[b] == rows[b]);
            }
        }
        lemma_path_lookup(init, i);
    }
}

/// Law: in a catalog with unique paths, a reference carrying a catalog
/// photo's path reconciles to that photo, whatever hash it carries; in
/// particular every photo of a manifest exported from a catalog reconciles to
/// itself when imported back.
pub proof fn lemma_path_reconciles(rows: Seq<CatalogPhotoRef>, i: int, hash: Option<String>)
    requires
        unique_paths(rows),
        0 <= i < rows.len(),
    ensures
        resolve(rows, Some(rows[i].path), hash) == Some(rows[i].id),
{
    lemma_path_lookup(rows, i);
}

/// The number of photo references in the albums.
pub open spec fn album_ref_count(albums: Seq<ManifestAlbum>) -> nat
    decreases albums.len(),
{
    if albums.len() == 0 {
        0
    } else {
        album_ref_count(albums.drop_last()) + opt_seq(albums.last().photos).len()
    }
}

proof fn lemma_album_split(rows: Seq<CatalogPhotoRef>, album: usize, refs: Seq<ManifestRef>)
    ensures
        album_links(rows, album, refs).len() + album_missing(rows, album, refs).len() == refs.len(),
    decreases refs.len(),
{
    if refs.len() > 0 {
        lemma_album_split(rows, album, refs.drop_last());
    }
}

/// Law: every photo reference of every album is either linked to a catalog
/// photo or counted as missing, never both and never neither.
pub proof fn lemma_refs_linked_or_missing(rows: Seq<CatalogPhotoRef>, albums: Seq<ManifestAlbum>)
    ensures
        import_links(rows, albums).len() + import_missing(rows, albums).len() == album_ref_count(
            albums,
        ),
    decreases albums.len(),
{
    if albums.len() > 0 {
        let init = albums.drop_last();
        lemma_refs_linked_or_missing(rows, init);
        lemma_album_split(rows, init.len() as usize, opt_seq(albums.last().photos));
    }
}

/// A catalog photo's state as a manifest carries it.
pub struct CatalogPhotoState {
    pub id: i64,
    pub path: String,
    pub sha256: String,
    pub rating: i64,
    pub has_xmp: bool,
    pub preview_available: bool,
    pub has_face: bool,
    pub review: bool,
    pub ai_pick: bool,
    pub edit_json: Option<String>,
}

/// `p` is the manifest entry of catalog photo `s`: its path and hash, and
/// its rating, flags and edit recipe.
pub open spec fn exports(p: ManifestPhoto, s: CatalogPhotoState) -> bool {
    &&& opt_view(p.path) == Some(s.path@)
    &&& opt_view(p.sha256) == Some(s.sha256@)
    &&& p.rating == Some(s.rating)
    &&& p.has_xmp == Some(s.has_xmp)
    &&& p.preview_available == Some(s.preview_available)
    &&& p.has_face == Some(s.has_face)
    &&& p.review == Some(s.review)
    &&& p.ai_pick == Some(s.ai_pick)
    &&& opt_view(p.edit_json) == opt_view(s.edit_json)
}

/// The manifest entries of the catalog's photos, in order.
pub fn manifest_photos(states: &Vec<CatalogPhotoState>) -> (r: Vec<ManifestPhoto>)
    ensures
        r@.len() == states@.len(),
        forall|k: int| 0 <= k < r@.len() ==> exports(#[trigger] r@[k], states@[k]),
{
    let mut out: Vec<ManifestPhoto> = Vec::new();
    let mut k: usize = 0;
    while k < states.len()
        invariant
            k <= states@.len(),
            out@.len() == k,
            forall|j: int| 0 <= j < k ==> exports(#[trigger] out@[j], states@[j]),
        decreases states@.len() - k,
    {
        let st = &states[k];
        out.push(ManifestPhoto {
            path: Some(st.path.clone()),
            sha256: Some(st.sha256.clone()),
            rating: Some(st.rating),
            has_xmp: Some(st.has_xmp),
            preview_available: Some(st.preview_available),
            has_face: Some(st.has_face),
            review: Some(st.review),
            ai_pick: Some(st.ai_pick),
            edit_json: clone_opt(&st.edit_json),
        });
        k = k + 1;
    }
    out
}

/// `rows` are the catalog references of the photos `states`, in order.
pub open spec fn refs_of(rows: Seq<CatalogPhotoRef>, states: Seq<CatalogPhotoState>) -> bool {
    &&& rows.len() == states.len()
    &&& forall|k: int|
        0 <= k < rows.len() ==> (#[trigger] rows[k]).id == states[k].id && rows[k].path@ == states[k].path@
            && rows[k].sha256@ == states[k].sha256@
}

proof fn lemma_export_entries(rows: Seq<CatalogPhotoRef>, states: Seq<CatalogPhotoState>, photos: Seq<ManifestPhoto>, n: int)
    requires
        refs_of(rows, states),
        unique_paths(rows),
        photos.len() == states.len(),
        forall|k: int| 0 <= k < photos.len() ==> exports(#[trigger] photos[k], states[k]),
        0 <= n <= photos.len(),
    ensures
        update_entries(rows, photos.take(n)) == Seq::new(n as nat, |j: int| (j as usize, states[j].id)),
    decreases n,
{
    if n > 0 {
        lemma_export_entries(rows, states, photos, n - 1);
        let pre = photos.take(n);
        assert(pre.drop_last() == photos.take(n - 1));
        assert(pre.last() == photos[n - 1]);
        assert(exports(photos[n - 1], states[n - 1]));
        lemma_path_lookup(rows, n - 1);
        assert(or_empty(photos[n - 1].path) == rows[n - 1].path@);
        assert(resolve(rows, pre.last().path, pre.last().sha256) == Some(states[n - 1].id));
        assert(update_entries(rows, pre) =~= Seq::new(n as nat, |j: int| (j as usize, states[j].id)));
    } else {
        assert(photos.take(0) =~= Seq::<ManifestPhoto>::empty());
        assert(update_entries(rows, photos.take(0)) =~= Seq::new(0, |j: int| (j as usize, states[j].id)));
    }
}

/// Law: exporting a catalog whose paths are unique and importing the
/// manifest back into the same catalog restores every photo's rating, flags
/// and edit recipe onto that same photo: entry `j` updates photo `j`, and any
/// update that restores the entry carries the photo's own state.
pub proof fn lemma_export_import_roundtrip(
    rows: Seq<CatalogPhotoRef>,
    states: Seq<CatalogPhotoState>,
    photos: Seq<ManifestPhoto>,
)
    requires
        refs_of(rows, states),
        unique_paths(rows),
        photos.len() == states.len(),
        forall|k: int| 0 <= k < photos.len() ==> exports(#[trigger] photos[k], states[k]),
    ensures
        update_entries(rows, photos).len() == states.len(),
        forall|j: int|
            0 <= j < states.len() ==> #[trigger] update_entries(rows, photos)[j] == (j as usize, states[j].id),
        forall|j: int, u: PhotoUpdate|
            0 <= j < states.len() && #[trigger] restores(u, photos[j], j as usize, states[j].id) ==> {
                &&& u.photo_id == states[j].id
                &&& u.rating == states[j].rating
                &&& u.has_xmp == states[j].has_xmp
                &&& u.preview_available == states[j].preview_available
                &&& u.has_face == states[j].has_face
                &&& u.review == states[j].review
                &&& u.ai_pick == states[j].ai_pick
                &&& opt_view(u.edit_json) == opt_view(states[j].edit_json)
            },
{
    lemma_export_entries(rows, states, photos, photos.len() as int);
    assert(photos.take(photos.len() as int) == photos);
    assert forall|j: int, u: PhotoUpdate|
        0 <= j < states.len() && #[trigger] restores(u, photos[j], j as usize, states[j].id) implies {
            &&& u.photo_id == states[j].id
            &&& u.rating == states[j].rating
            &&& u.has_xmp == states[j].has_xmp
            &&& u.preview_available == states[j].preview_available
            &&& u.has_face == states[j].has_face
            &&& u.review == states[j].review
            &&& u.ai_pick == states[j].ai_pick
            &&& opt_view(u.edit_json) == opt_view(states[j].edit_json)
        } by {
        assert(exports(photos[j], states[j]));
    }
}

} // verus!
