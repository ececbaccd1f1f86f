use openshoot_core::manifest::{
    manifest_photos, plan_photo_updates, CatalogPhotoState,
    check_manifest_json, manifest_json_outcome,
    plan_import, resolve_ref, validate_manifest, CatalogManifest, CatalogPhotoRef, ManifestAlbum,
    ManifestFace, ManifestGroup, ManifestPhoto, ManifestRef,
};

fn row(id: i64, path: &str, sha: &str) -> CatalogPhotoRef {
    CatalogPhotoRef { id, path: path.to_string(), sha256: sha.to_string() }
}

fn s(x: &str) -> Option<String> {
    Some(x.to_string())
}

fn rref(path: &str, sha: &str) -> ManifestRef {
    ManifestRef { path: s(path), sha256: s(sha) }
}

#[test]
fn reconciles_by_path_then_hash() {
    let rows = vec![row(1, "/a.jpg", "h1"), row(2, "/b.jpg", "h2"), row(3, "/c.jpg", "")];
    assert_eq!(resolve_ref(&rows, &s("/b.jpg"), &s("h1")), Some(2));
    assert_eq!(resolve_ref(&rows, &s("/moved/a.jpg"), &s("h1")), Some(1));
    assert_eq!(resolve_ref(&rows, &s("/x.jpg"), &s("")), None);
    assert_eq!(resolve_ref(&rows, &None, &None), None);
    assert_eq!(resolve_ref(&rows, &s("/c.jpg"), &None), Some(3));
}

fn manifest(albums: Option<Vec<ManifestAlbum>>) -> CatalogManifest {
    CatalogManifest {
        format: s("openshoot-catalog"),
        schema_version: Some(1),
        photos: Some(vec![ManifestPhoto {
            path: s("/a.jpg"),
            sha256: s("h1"),
            rating: Some(4),
            has_xmp: Some(true),
            preview_available: None,
            has_face: Some(false),
            review: None,
            ai_pick: Some(true),
            edit_json: s("{\"exposure\":0.5}"),
        }, ManifestPhoto {
            path: s("/gone.jpg"),
            sha256: s("zz"),
            rating: None,
            has_xmp: None,
            preview_available: None,
            has_face: None,
            review: None,
            ai_pick: None,
            edit_json: None,
        }]),
        albums,
    }
}

#[test]
fn validates_format_and_version() {
    let mut m = manifest(Some(vec![]));
    assert!(validate_manifest(&m).is_ok());
    m.schema_version = Some(2);
    assert_eq!(validate_manifest(&m), Err("versão de catálogo não suportada".to_string()));
    m.format = s("other");
    assert_eq!(validate_manifest(&m), Err("arquivo não é um catálogo OpenShoot".to_string()));
}

#[test]
fn plans_an_import() {
    let rows = vec![row(1, "/a.jpg", "h1"), row(2, "/b.jpg", "h2")];
    let albums = vec![
        ManifestAlbum {
            name: s("  Férias "),
            session_type: s("travel"),
            photos: Some(vec![rref("/a.jpg", "h1"), rref("/nope.jpg", "h2"), rref("/nope2.jpg", "x")]),
            people: Some(vec![ManifestGroup {
                name: None,
                faces: Some(vec![
                    ManifestFace { path: s("/a.jpg"), sha256: None, bbox_len: Some(4) },
                    ManifestFace { path: s("/b.jpg"), sha256: None, bbox_len: Some(3) },
                    ManifestFace { path: s("/q.jpg"), sha256: None, bbox_len: Some(4) },
                ]),
            }]),
        },
        ManifestAlbum { name: s("Férias"), session_type: None, photos: None, people: None },
        ManifestAlbum { name: s("   "), session_type: None, photos: None, people: None },
    ];
    let plan = plan_import(&manifest(Some(albums)), &rows, &vec!["Outro".to_string()]).ok().unwrap();
    assert_eq!(plan.updates.len(), 1);
    assert_eq!(plan.updates[0].photo_id, 1);
    assert_eq!(plan.updates[0].entry, 0);
    assert_eq!(plan.updates[0].rating, 4);
    assert!(plan.updates[0].has_xmp && !plan.updates[0].preview_available && plan.updates[0].ai_pick);
    assert_eq!(plan.updates[0].edit_json.as_deref(), Some("{\"exposure\":0.5}"));
    let names: Vec<&str> = plan.albums.iter().map(|a| a.name.as_str()).collect();
    assert_eq!(names, vec!["Férias", "Férias (importado)", "Álbum importado"]);
    assert_eq!(plan.albums[0].session_type, "travel");
    assert_eq!(plan.albums[1].session_type, "");
    let links: Vec<(usize, i64)> = plan.links.iter().map(|l| (l.album, l.photo_id)).collect();
    assert_eq!(links, vec![(0, 1), (0, 2)]);
    let missing: Vec<(usize, usize)> = plan.missing.iter().map(|m| (m.album, m.entry)).collect();
    assert_eq!(missing, vec![(0, 2)]);
    assert_eq!(plan.groups.len(), 1);
    assert_eq!(plan.groups[0].name, "Pessoa");
    assert_eq!((plan.groups[0].album, plan.groups[0].entry), (0, 0));
    let faces: Vec<(usize, usize, i64)> = plan.faces.iter().map(|f| (f.group, f.entry, f.photo_id)).collect();
    assert_eq!(faces, vec![(0, 0, 1)]);
}

#[test]
fn refuses_manifest_without_albums() {
    let rows = vec![row(1, "/a.jpg", "h1")];
    assert_eq!(plan_import(&manifest(None), &rows, &vec![]).err().unwrap(), "manifesto sem albums");
}

#[test]
fn manifest_text_must_be_json() {
    assert_eq!(check_manifest_json("{\"format\":\"openshoot-catalog\"}"), Ok(()));
    let e = check_manifest_json("{not json").unwrap_err();
    assert!(e.starts_with("JSON inválido: "));
    assert!(e.len() > "JSON inválido: ".len());
    assert_eq!(manifest_json_outcome(Some("eof".to_string())), Err("JSON inválido: eof".to_string()));
    assert_eq!(manifest_json_outcome(None), Ok(()));
}

fn state(id: i64, path: &str, sha: &str, rating: i64, edit: Option<&str>) -> CatalogPhotoState {
    CatalogPhotoState {
        id,
        path: path.to_string(),
        sha256: sha.to_string(),
        rating,
        has_xmp: id % 2 == 0,
        preview_available: true,
        has_face: false,
        review: id == 2,
        ai_pick: id == 3,
        edit_json: edit.map(|e| e.to_string()),
    }
}

#[test]
fn exported_photos_restore_themselves_on_import() {
    let states = vec![
        state(1, "/a/1.jpg", "h1", 5, Some("{\"exposure\":1}")),
        state(2, "/a/2.jpg", "h1", 0, None),
        state(3, "/a/3.nef", "", 1, None),
    ];
    let rows: Vec<CatalogPhotoRef> = states.iter().map(|s| row(s.id, &s.path, &s.sha256)).collect();
    let photos = manifest_photos(&states);
    let updates = plan_photo_updates(&rows, &photos);
    assert_eq!(updates.len(), 3);
    for (j, u) in updates.iter().enumerate() {
        let s = &states[j];
        assert_eq!(u.entry, j);
        assert_eq!(u.photo_id, s.id);
        assert_eq!(u.rating, s.rating);
        assert_eq!(u.has_xmp, s.has_xmp);
        assert_eq!(u.review, s.review);
        assert_eq!(u.ai_pick, s.ai_pick);
        assert_eq!(u.edit_json, s.edit_json);
    }
}
