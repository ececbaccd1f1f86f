use openshoot_core::grouping::{
    assign_groups, flatten_faces, group_by_similarity, group_faces, has_face_updates,
    parse_embeddings, serialize_embeddings, unavailable_photos_error, AnalyzedPhoto, FaceRef,
};

fn bits(v: &[Vec<f32>]) -> Vec<Vec<u32>> {
    v.iter().map(|e| e.iter().map(|x| x.to_bits()).collect()).collect()
}

fn floats(v: &[Vec<u32>]) -> Vec<Vec<f32>> {
    v.iter().map(|e| e.iter().map(|x| f32::from_bits(*x)).collect()).collect()
}

#[test]
fn embedding_blob_roundtrip() {
    let embs = vec![vec![0.1f32, -0.2, 0.3], vec![1.0, 2.0, -3.0]];
    let blob = serialize_embeddings(&bits(&embs));
    let parsed = floats(&parse_embeddings(&blob).unwrap());
    assert_eq!(parsed, embs);
    assert!(parse_embeddings(&blob[..6]).is_none()); // truncado
    assert!(parse_embeddings(&[]).is_none());
}

#[test]
fn reports_an_actionable_error_when_every_photo_is_unavailable() {
    let error = unavailable_photos_error(3, 3);
    assert!(error
        .as_deref()
        .is_some_and(|message| message.contains("Nenhuma das 3 foto(s)")));
    assert_eq!(unavailable_photos_error(3, 2), None);
}

#[test]
fn blob_layout_is_little_endian() {
    let blob = serialize_embeddings(&vec![vec![0x0403_0201u32], vec![0xA0B0_C0D0]]);
    assert_eq!(blob, vec![2, 0, 0, 0, 1, 2, 3, 4, 0xD0, 0xC0, 0xB0, 0xA0]);
    assert_eq!(serialize_embeddings(&vec![]), vec![0, 0, 0, 0]);
    // A zero count, or values that do not split evenly, are refused.
    assert!(parse_embeddings(&[0, 0, 0, 0, 1, 2, 3, 4]).is_none());
    assert!(parse_embeddings(&[2, 0, 0, 0, 1, 2, 3, 4, 5, 6, 7, 8, 9, 10, 11, 12]).is_none());
    assert!(parse_embeddings(&[1, 0, 0, 0, 1, 2, 3]).is_none());
}

#[test]
fn unavailable_message_text() {
    assert_eq!(
        unavailable_photos_error(12, 12).unwrap(),
        "Nenhuma das 12 foto(s) do álbum pôde ser aberta. Verifique se a pasta original continua disponível e atualize o álbum."
    );
    assert_eq!(unavailable_photos_error(0, 0), None);
}

fn sim(rows: &[&[bool]]) -> Vec<Vec<bool>> {
    rows.iter().map(|r| r.to_vec()).collect()
}

#[test]
fn greedy_grouping_joins_first_similar_group() {
    // Face 1 is not like 0; face 2 is like 1 only; face 3 is like 0 and 1:
    // it joins the first group (face 0's).
    let s = sim(&[&[], &[false], &[false, true], &[true, true, false]]);
    let (reps, assign) = assign_groups(&s);
    assert_eq!(reps, vec![0, 1]);
    assert_eq!(assign, vec![0, 1, 1, 0]);
}

fn face(id: i64, path: &str) -> FaceRef {
    FaceRef { photo_id: id, photo_path: path.to_string() }
}

#[test]
fn group_summaries_count_distinct_photos() {
    let faces = vec![face(10, "/a.jpg"), face(10, "/a.jpg"), face(11, "/b.jpg"), face(12, "/c.jpg")];
    // Faces 0, 1 and 3 are the same person; face 2 is someone else.
    let s = sim(&[&[], &[true], &[false, false], &[true, false, false]]);
    let (groups, grouped) = group_faces(&faces, &s);
    assert_eq!(groups.len(), 2);
    assert_eq!(groups[0].person_id, 0);
    assert_eq!(groups[0].photo_ids, vec![10, 12]);
    assert_eq!(groups[0].photo_paths, vec!["/a.jpg".to_string(), "/c.jpg".to_string()]);
    assert_eq!(groups[0].count, 2);
    assert_eq!(groups[0].sample_path, "/a.jpg");
    assert_eq!(groups[0].sample_face_index, 0);
    assert_eq!(groups[1].photo_ids, vec![11]);
    assert_eq!(groups[1].sample_face_index, 2);
    let gf: Vec<(usize, i64, usize)> = grouped.iter().map(|g| (g.group_index, g.photo_id, g.face_index)).collect();
    assert_eq!(gf, vec![(0, 10, 0), (0, 10, 1), (0, 12, 3), (1, 11, 2)]);
}

fn analyzed(id: i64, path: &str, n: usize) -> AnalyzedPhoto {
    AnalyzedPhoto { photo_id: id, photo_path: path.to_string(), face_count: n }
}

#[test]
fn grouping_errors_and_counts() {
    let photos = vec![analyzed(1, "/x.jpg", 2), analyzed(2, "/y.jpg", 0), analyzed(3, "/z.jpg", 1)];
    let faces = flatten_faces(&photos);
    assert_eq!(faces.len(), 3);
    assert_eq!(faces[2].photo_id, 3);
    let s = sim(&[&[], &[false], &[true, false]]);
    let err = group_by_similarity(false, 3, 0, &photos, &s).err().unwrap();
    assert_eq!(err, "modelo MobileFaceNet ausente (reconhecimento facial indisponível)");
    assert!(group_by_similarity(true, 4, 4, &vec![], &vec![]).is_err());
    let res = group_by_similarity(true, 4, 1, &photos, &s).ok().unwrap();
    assert_eq!(res.photos_scanned, 3);
    assert_eq!(res.photos_unavailable, 1);
    assert_eq!(res.groups.len(), 2);
    assert_eq!(res.groups[0].photo_ids, vec![1, 3]);
    assert_eq!(res.groups[1].photo_ids, vec![1]);
    assert_eq!(has_face_updates(&photos), vec![(1, true), (2, false), (3, true)]);
}
