use openshoot_core::naming::{build_export_name, chained_batch_names, chained_unique_name};
use openshoot_core::naming::{batch_names, candidate_name, unique_name};

fn v(x: &[&str]) -> Vec<String> {
    x.iter().map(|s| s.to_string()).collect()
}

#[test]
fn batch_names_get_first_free_suffix() {
    let names = batch_names(&v(&["IMG_1", "IMG_1", "IMG_2", "IMG_1", "IMG_1_1"]));
    assert_eq!(names, v(&["IMG_1", "IMG_1_1", "IMG_2", "IMG_1_2", "IMG_1_1_1"]));
}

#[test]
fn unique_name_skips_taken() {
    assert_eq!(unique_name(&v(&["a", "a_1", "a_2"]), "a"), "a_3");
    assert_eq!(unique_name(&v(&["a_1"]), "a"), "a");
    assert_eq!(candidate_name("foto", 12), "foto_12");
    assert_eq!(candidate_name("foto", 0), "foto");
}

use openshoot_core::people::{
    copy_file_name, copy_name, grouped_person_folder, people_folders, person_group_name,
    unique_photo_ids, PersonEntry,
};

fn person(id: i64, name: &str) -> PersonEntry {
    PersonEntry { id, name: name.to_string() }
}

#[test]
fn people_folder_names_resolve_collisions() {
    let folders = people_folders(&vec![
        person(1, "Ana"),
        person(2, "ana"),
        person(3, "Ana"),
        person(4, "  "),
        person(5, "CON"),
        person(6, "João/Silva"),
    ]);
    assert_eq!(
        folders,
        v(&["Ana", "ana-2", "Ana-3", "Grupo 4", "Grupo 5_CON", "JoãoSilva"])
    );
}

#[test]
fn people_copies() {
    assert_eq!(unique_photo_ids(&vec![3, 1, 3, 2, 1]), vec![3, 1, 2]);
    assert_eq!(copy_name("IMG_1.jpg", 2), "IMG_1-2.jpg");
    assert_eq!(copy_name("a.tar.gz", 3), "a.tar-3.gz");
    assert_eq!(copy_name("README", 2), "README-2");
    assert_eq!(copy_file_name(None, 9), "foto_9.jpg");
    assert_eq!(copy_file_name(Some("x.png".to_string()), 9), "x.png");
    assert_eq!(person_group_name("  Maria "), Ok("Maria".to_string()));
    assert_eq!(person_group_name(" "), Err("nome do grupo não pode ser vazio".to_string()));
    assert_eq!(grouped_person_folder(0), "Pessoa 1");
}

#[test]
fn export_name_patterns() {
    assert_eq!(build_export_name("{n}_{original}", 1, None, "_MG_7864"), "1__MG_7864");
    assert_eq!(build_export_name("{original}", 3, None, "IMG_1"), "IMG_1");
    assert_eq!(
        build_export_name("{date}_{original}", 2, Some("2024:05:10 14:30:00"), "IMG_2"),
        "2024-05-10_IMG_2"
    );
    assert_eq!(build_export_name("{date}_{original}", 2, Some("2024"), "IMG_2"), "IMG_2");
    assert_eq!(build_export_name("{date}_{original}", 2, None, "IMG_2"), "IMG_2");
}

#[test]
fn edited_export_names_chain_suffixes() {
    let names = chained_batch_names(&v(&["b", "b", "b", "c"]));
    assert_eq!(names, v(&["b", "b_1", "b_1_2", "c"]));
    assert_eq!(chained_unique_name(&v(&["x", "x_1"]), "x"), "x_1_2");
    assert_eq!(chained_unique_name(&v(&[]), "x"), "x");
}
