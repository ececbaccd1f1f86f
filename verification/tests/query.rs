use openshoot_core::query::{filter_sql, photo_query};

#[test]
fn listing_without_search_or_filter() {
    let q = photo_query("  ", "all");
    assert_eq!(q.count_sql, "SELECT COUNT(*) FROM photos ");
    assert!(q.list_sql.ends_with("FROM photos  ORDER BY rating DESC, cull_score DESC, id DESC LIMIT ? OFFSET ?"));
    assert_eq!(q.search_pattern, None);
}

#[test]
fn listing_with_search_and_filter() {
    let q = photo_query(" Canon ", "picks");
    assert_eq!(
        q.count_sql,
        "SELECT COUNT(*) FROM photos WHERE (file_name LIKE ? OR camera LIKE ?) AND rating >= 4"
    );
    assert!(q.list_sql.contains("FROM photos WHERE (file_name LIKE ? OR camera LIKE ?) AND rating >= 4 ORDER BY"));
    assert_eq!(q.search_pattern, Some("%Canon%".to_string()));
    let q = photo_query("", "rejects");
    assert_eq!(q.count_sql, "SELECT COUNT(*) FROM photos WHERE rating >= 1 AND rating <= 1");
}

#[test]
fn filter_conditions() {
    assert_eq!(filter_sql("faces"), Some("has_face = 1"));
    assert_eq!(filter_sql("selecionado"), Some("rating >= 4 AND ai_pick = 0"));
    assert_eq!(filter_sql("landscape"), Some("width > 0 AND height > 0 AND width >= height"));
    assert_eq!(filter_sql("all"), None);
    assert_eq!(filter_sql("Picks"), None);
}

#[test]
fn filter_count_queries_scope_every_count() {
    let q = openshoot_core::query::filter_count_queries(false);
    assert_eq!(q.all, "SELECT COUNT(*) FROM photos WHERE 1=1");
    assert_eq!(q.rejects, "SELECT COUNT(*) FROM photos WHERE 1=1 AND rating >= 1 AND rating <= 1");
    let q = openshoot_core::query::filter_count_queries(true);
    assert_eq!(q.picks, "SELECT COUNT(*) FROM photos WHERE id IN (SELECT id FROM openshoot_scope_ids) AND rating >= 4");
    assert_eq!(
        q.duplicates,
        "SELECT COUNT(*) FROM photos WHERE id IN (SELECT id FROM openshoot_scope_ids) AND sha256 IN (SELECT sha256 FROM photos WHERE id IN (SELECT id FROM openshoot_scope_ids) AND sha256 <> '' GROUP BY sha256 HAVING COUNT(*) > 1)"
    );
}

#[test]
fn paths_for_ids_sql_has_one_placeholder_per_id() {
    assert_eq!(openshoot_core::query::paths_for_ids_sql(1), "SELECT id, path FROM photos WHERE id IN (?)");
    assert_eq!(openshoot_core::query::paths_for_ids_sql(3), "SELECT id, path FROM photos WHERE id IN (?,?,?)");
}

#[test]
fn labels_sql_numbers_its_placeholders() {
    assert_eq!(openshoot_core::query::labels_sql(1), "SELECT id, COALESCE(label,'') FROM photos WHERE id IN (?1)");
    assert_eq!(
        openshoot_core::query::labels_sql(12),
        "SELECT id, COALESCE(label,'') FROM photos WHERE id IN (?1,?2,?3,?4,?5,?6,?7,?8,?9,?10,?11,?12)"
    );
}
