//! Building the catalog's photo listing query: the search and filter become
//! a `WHERE` clause, shared by the count and the page queries.
use vstd::prelude::*;

use crate::text::{decimal, str_eq, trim, trim_str};

verus! {

/// The condition a gallery filter adds; `None` for "all" and unknown filters.
pub open spec fn filter_condition(filter: Seq<char>) -> Option<Seq<char>> {
    if filter == "picks"@ {
        Some("rating >= 4"@)
    } else if filter == "rejects"@ {
        Some("rating >= 1 AND rating <= 1"@)
    } else if filter == "unrated"@ {
        Some("rating = 0"@)
    } else if filter == "duplicates"@ {
        Some("sha256 IN (SELECT sha256 FROM photos WHERE sha256 <> '' GROUP BY sha256 HAVING COUNT(*) > 1)"@)
    } else if filter == "faces"@ {
        Some("has_face = 1"@)
    } else if filter == "review"@ {
        Some("review = 1"@)
    } else if filter == "destaques"@ {
        Some("ai_pick = 1"@)
    } else if filter == "selecionado"@ {
        Some("rating >= 4 AND ai_pick = 0"@)
    } else if filter == "edited"@ {
        Some("edit_json IS NOT NULL AND edit_json <> ''"@)
    } else if filter == "unedited"@ {
        Some("edit_json IS NULL OR edit_json = ''"@)
    } else if filter == "portrait"@ {
        Some("width > 0 AND height > 0 AND height > width"@)
    } else if filter == "landscape"@ {
        Some("width > 0 AND height > 0 AND width >= height"@)
    } else if filter == "raw"@ {
        Some("ext IN ('nef','arw','dng','cr2','cr3','orf','raf','rw2','pef','srw','raw')"@)
    } else if filter == "jpeg"@ {
        Some("ext IN ('jpg','jpeg','tiff','tif','png','webp','heic','heif')"@)
    } else {
        None
    }
}

/// The condition the search adds, when the trimmed search is not empty.
pub open spec fn search_condition(search: Seq<char>) -> Option<Seq<char>> {
    if trim(search).len() > 0 {
        Some("(file_name LIKE ? OR camera LIKE ?)"@)
    } else {
        None
    }
}

/// The `WHERE` clause: the search condition and the filter condition, joined
/// by `AND`; empty when there is neither.
pub open spec fn where_clause(search: Seq<char>, filter: Seq<char>) -> Seq<char> {
    match (search_condition(search), filter_condition(filter)) {
        (None, None) => seq![],
        (Some(a), None) => "WHERE "@ + a,
        (None, Some(b)) => "WHERE "@ + b,
        (Some(a), Some(b)) => "WHERE "@ + a + " AND "@ + b,
    }
}

/// Start of the page query, up to the `WHERE` clause.
pub const LIST_HEAD: &'static str = "SELECT id, path, file_name, ext, file_size, width, height, camera, taken_at, rating, has_xmp, preview_available, cull_score, sha256, has_face, review, ai_pick\n   FROM photos ";

/// End of the page query: the order (best rated and scored first, newest
/// first among equals) and the page bounds.
pub const LIST_TAIL: &'static str = " ORDER BY rating DESC, cull_score DESC, id DESC LIMIT ? OFFSET ?";

/// A photo listing query.
pub struct PhotoQuery {
    /// Counts the matching photos.
    pub count_sql: String,
    /// Selects one page of them; its last two parameters are the limit and the offset.
    pub list_sql: String,
    /// The `LIKE` pattern bound (twice) before the page bounds, when searching.
    pub search_pattern: Option<String>,
}

/// The condition a gallery filter adds (see `filter_condition`).
pub fn filter_sql(filter: &str) -> (r: Option<&'static str>)
    ensures
        match r {
            Some(c) => filter_condition(filter@) == Some(c@),
            None => filter_condition(filter@) is None,
        },
{
    if str_eq(filter, "picks") {
        Some("rating >= 4")
    } else if str_eq(filter, "rejects") {
        Some("rating >= 1 AND rating <= 1")
    } else if str_eq(filter, "unrated") {
        Some("rating = 0")
    } else if str_eq(filter, "duplicates") {
        Some("sha256 IN (SELECT sha256 FROM photos WHERE sha256 <> '' GROUP BY sha256 HAVING COUNT(*) > 1)")
    } else if str_eq(filter, "faces") {
        Some("has_face = 1")
    } else if str_eq(filter, "review") {
        Some("review = 1")
    } else if str_eq(filter, "destaques") {
        Some("ai_pick = 1")
    } else if str_eq(filter, "selecionado") {
        Some("rating >= 4 AND ai_pick = 0")
    } else if str_eq(filter, "edited") {
        Some("edit_json IS NOT NULL AND edit_json <> ''")
    } else if str_eq(filter, "unedited") {
        Some("edit_json IS NULL OR edit_json = ''")
    } else if str_eq(filter, "portrait") {
        Some("width > 0 AND height > 0 AND height > width")
    } else if str_eq(filter, "landscape") {
        Some("width > 0 AND height > 0 AND width >= height")
    } else if str_eq(filter, "raw") {
        Some("ext IN ('nef','arw','dng','cr2','cr3','orf','raf','rw2','pef','srw','raw')")
    } else if str_eq(filter, "jpeg") {
        Some("ext IN ('jpg','jpeg','tiff','tif','png','webp','heic','heif')")
    } else {
        None
    }
}

/// Builds the count and page queries for a search text and a filter: "all",
/// "picks" (rating 4+), "rejects" (rating 1), "unrated", "duplicates" (a hash
/// shared with another photo), "faces", "review", "destaques" (AI picks),
/// "selecionado" (rated 4+ by hand), "edited", "unedited", "portrait",
/// "landscape", "raw" and "jpeg". The search matches the file name or the
/// camera, as `%<trimmed search>%`.
pub fn photo_query(search: &str, filter: &str) -> (r: PhotoQuery)
    ensures
        r.count_sql@ == "SELECT COUNT(*) FROM photos "@ + where_clause(search@, filter@),
        r.list_sql@ == LIST_HEAD@ + where_clause(search@, filter@) + LIST_TAIL@,
        match r.search_pattern {
            Some(p) => trim(search@).len() > 0 && p@ == "%"@ + trim(search@) + "%"@,
            None => trim(search@).len() == 0,
        },
{
    let s = trim_str(search);
    let searching = !s.as_str().is_empty();
    let fc = filter_sql(filter);
    let mut w = String::new();
    if searching {
        w.append("WHERE ");
        w.append("(file_name LIKE ? OR camera LIKE ?)");
        match fc {
            Some(c) => {
                w.append(" AND ");
                w.append(c);
            },
            None => {},
        }
    } else {
        match fc {
            Some(c) => {
                w.append("WHERE ");
                w.append(c);
            },
            None => {},
        }
    }
    assert(w@ =~= where_clause(search@, filter@));
    let mut count_sql = "SELECT COUNT(*) FROM photos ".to_owned();
    count_sql.append(w.as_str());
    let mut list_sql = LIST_HEAD.to_owned();
    list_sql.append(w.as_str());
    list_sql.append(LIST_TAIL);
    let search_pattern = if searching {
        let mut p = "%".to_owned();
        p.append(s.as_str());
        p.append("%");
        Some(p)
    } else {
        None
    };
    PhotoQuery { count_sql, list_sql, search_pattern }
}

/// Creates the table that holds the ids the filter counts are scoped to.
pub const SCOPE_TABLE_SQL: &'static str = "CREATE TEMP TABLE IF NOT EXISTS openshoot_scope_ids (id INTEGER PRIMARY KEY)";

/// Empties the scope table.
pub const SCOPE_CLEAR_SQL: &'static str = "DELETE FROM openshoot_scope_ids";

/// Adds one id (the only parameter) to the scope table.
pub const SCOPE_INSERT_SQL: &'static str = "INSERT OR IGNORE INTO openshoot_scope_ids (id) VALUES (?1)";

/// Which photos the filter counts cover: those in the scope table, or all.
pub open spec fn count_scope(scoped: bool) -> Seq<char> {
    if scoped {
        "id IN (SELECT id FROM openshoot_scope_ids)"@
    } else {
        "1=1"@
    }
}

/// A count of the photos in `scope` that also meet `cond` (which, when not
/// empty, starts with " AND ").
pub open spec fn count_sql(scope: Seq<char>, cond: Seq<char>) -> Seq<char> {
    "SELECT COUNT(*) FROM photos WHERE "@ + scope + cond
}

/// The duplicates condition: the hash is shared by another photo of the scope.
pub open spec fn duplicates_cond(scope: Seq<char>) -> Seq<char> {
    " AND sha256 IN (SELECT sha256 FROM photos WHERE "@ + scope
        + " AND sha256 <> '' GROUP BY sha256 HAVING COUNT(*) > 1)"@
}

/// The queries behind the filter counts, one per filter.
pub struct FilterCountQueries {
    pub all: String,
    pub picks: String,
    pub rejects: String,
    pub unrated: String,
    pub review: String,
    pub destaques: String,
    pub selecionado: String,
    pub duplicates: String,
    pub faces: String,
    pub edited: String,
}

fn count_query(scope: &str, cond: &str) -> (r: String)
    ensures
        r@ == count_sql(scope@, cond@),
{
    let mut r = "SELECT COUNT(*) FROM photos WHERE ".to_owned();
    r.append(scope);
    r.append(cond);
    r
}

/// The condition a filter count adds: " AND " and the list filter's own
/// condition (see `filter_condition`).
pub open spec fn count_condition(filter: Seq<char>) -> Seq<char> {
    " AND "@ + filter_condition(filter).unwrap()
}

/// The count conditions, spelled out.
#[verifier::rlimit(50)]
proof fn lemma_count_conditions()
    ensures
        count_condition("picks"@) == " AND rating >= 4"@,
        count_condition("rejects"@) == " AND rating >= 1 AND rating <= 1"@,
        count_condition("unrated"@) == " AND rating = 0"@,
        count_condition("review"@) == " AND review = 1"@,
        count_condition("destaques"@) == " AND ai_pick = 1"@,
        count_condition("selecionado"@) == " AND rating >= 4 AND ai_pick = 0"@,
        count_condition("faces"@) == " AND has_face = 1"@,
        count_condition("edited"@) == " AND edit_json IS NOT NULL AND edit_json <> ''"@,
{
    reveal_strlit("picks");
    reveal_strlit("rejects");
    reveal_strlit("unrated");
    reveal_strlit("review");
    reveal_strlit("destaques");
    reveal_strlit("selecionado");
    reveal_strlit("faces");
    reveal_strlit("edited");
    reveal_strlit("duplicates");
    reveal_strlit("rating >= 4");
    reveal_strlit("rating >= 1 AND rating <= 1");
    reveal_strlit("rating = 0");
    reveal_strlit("review = 1");
    reveal_strlit("ai_pick = 1");
    reveal_strlit("rating >= 4 AND ai_pick = 0");
    reveal_strlit("has_face = 1");
    reveal_strlit("edit_json IS NOT NULL AND edit_json <> ''");
    reveal_strlit(" AND rating >= 4");
    reveal_strlit(" AND rating >= 1 AND rating <= 1");
    reveal_strlit(" AND rating = 0");
    reveal_strlit(" AND review = 1");
    reveal_strlit(" AND ai_pick = 1");
    reveal_strlit(" AND rating >= 4 AND ai_pick = 0");
    reveal_strlit(" AND has_face = 1");
    reveal_strlit(" AND edit_json IS NOT NULL AND edit_json <> ''");
    reveal_strlit(" AND ");
    assert("rejects"@ != "picks"@) by { assert("rejects"@.len() != "picks"@.len()); }
    assert("unrated"@ != "picks"@) by { assert("unrated"@.len() != "picks"@.len()); }
    assert("unrated"@ != "rejects"@) by { assert("unrated"@[0] != "rejects"@[0]); }
    assert("duplicates"@ != "picks"@) by { assert("duplicates"@.len() != "picks"@.len()); }
    assert("duplicates"@ != "rejects"@) by { assert("duplicates"@.len() != "rejects"@.len()); }
    assert("duplicates"@ != "unrated"@) by { assert("duplicates"@.len() != "unrated"@.len()); }
    assert("faces"@ != "picks"@) by { assert("faces"@[0] != "picks"@[0]); }
    assert("faces"@ != "rejects"@) by { assert("faces"@.len() != "rejects"@.len()); }
    assert("faces"@ != "unrated"@) by { assert("faces"@.len() != "unrated"@.len()); }
    assert("faces"@ != "duplicates"@) by { assert("faces"@.len() != "duplicates"@.len()); }
    assert("review"@ != "picks"@) by { assert("review"@.len() != "picks"@.len()); }
    assert("review"@ != "rejects"@) by { assert("review"@.len() != "rejects"@.len()); }
    assert("review"@ != "unrated"@) by { assert("review"@.len() != "unrated"@.len()); }
    assert("review"@ != "duplicates"@) by { assert("review"@.len() != "duplicates"@.len()); }
    assert("review"@ != "faces"@) by { assert("review"@.len() != "faces"@.len()); }
    assert("destaques"@ != "picks"@) by { assert("destaques"@.len() != "picks"@.len()); }
    assert("destaques"@ != "rejects"@) by { assert("destaques"@.len() != "rejects"@.len()); }
    assert("destaques"@ != "unrated"@) by { assert("destaques"@.len() != "unrated"@.len()); }
    assert("destaques"@ != "duplicates"@) by { assert("destaques"@.len() != "duplicates"@.len()); }
    assert("destaques"@ != "faces"@) by { assert("destaques"@.len() != "faces"@.len()); }
    assert("destaques"@ != "review"@) by { assert("destaques"@.len() != "review"@.len()); }
    assert("selecionado"@ != "picks"@) by { assert("selecionado"@.len() != "picks"@.len()); }
    assert("selecionado"@ != "rejects"@) by { assert("selecionado"@.len() != "rejects"@.len()); }
    assert("selecionado"@ != "unrated"@) by { assert("selecionado"@.len() != "unrated"@.len()); }
    assert("selecionado"@ != "duplicates"@) by { assert("selecionado"@.len() != "duplicates"@.len()); }
    assert("selecionado"@ != "faces"@) by { assert("selecionado"@.len() != "faces"@.len()); }
    assert("selecionado"@ != "review"@) by { assert("selecionado"@.len() != "review"@.len()); }
    assert("selecionado"@ != "destaques"@) by { assert("selecionado"@.len() != "destaques"@.len()); }
    assert("edited"@ != "picks"@) by { assert("edited"@.len() != "picks"@.len()); }
    assert("edited"@ != "rejects"@) by { assert("edited"@.len() != "rejects"@.len()); }
    assert("edited"@ != "unrated"@) by { assert("edited"@.len() != "unrated"@.len()); }
    assert("edited"@ != "duplicates"@) by { assert("edited"@.len() != "duplicates"@.len()); }
    assert("edited"@ != "faces"@) by { assert("edited"@.len() != "faces"@.len()); }
    assert("edited"@ != "review"@) by { assert("edited"@[0] != "review"@[0]); }
    assert("edited"@ != "destaques"@) by { assert("edited"@.len() != "destaques"@.len()); }
    assert("edited"@ != "selecionado"@) by { assert("edited"@.len() != "selecionado"@.len()); }
    assert(filter_condition("picks"@) == Some("rating >= 4"@));
    assert(filter_condition("rejects"@) == Some("rating >= 1 AND rating <= 1"@));
    assert(filter_condition("unrated"@) == Some("rating = 0"@));
    assert(filter_condition("review"@) == Some("review = 1"@));
    assert(filter_condition("destaques"@) == Some("ai_pick = 1"@));
    assert(filter_condition("selecionado"@) == Some("rating >= 4 AND ai_pick = 0"@));
    assert(filter_condition("faces"@) == Some("has_face = 1"@));
    assert(filter_condition("edited"@) == Some("edit_json IS NOT NULL AND edit_json <> ''"@));
    assert(count_condition("picks"@) =~= " AND rating >= 4"@);
    assert(count_condition("rejects"@) =~= " AND rating >= 1 AND rating <= 1"@);
    assert(count_condition("unrated"@) =~= " AND rating = 0"@);
    assert(count_condition("review"@) =~= " AND review = 1"@);
    assert(count_condition("destaques"@) =~= " AND ai_pick = 1"@);
    assert(count_condition("selecionado"@) =~= " AND rating >= 4 AND ai_pick = 0"@);
    assert(count_condition("faces"@) =~= " AND has_face = 1"@);
    assert(count_condition("edited"@) =~= " AND edit_json IS NOT NULL AND edit_json <> ''"@);
}

/// The filter-count queries over the whole catalog, or over the scope table
/// when `scoped`: each bucket counts the photos its list filter shows (see
/// `filter_condition`); "duplicates" looks for the shared hash within the
/// same scope.
pub fn filter_count_queries(scoped: bool) -> (r: FilterCountQueries)
    ensures
        r.all@ == count_sql(count_scope(scoped), seq![]),
        r.picks@ == count_sql(count_scope(scoped), count_condition("picks"@)),
        r.rejects@ == count_sql(count_scope(scoped), count_condition("rejects"@)),
        r.unrated@ == count_sql(count_scope(scoped), count_condition("unrated"@)),
        r.review@ == count_sql(count_scope(scoped), count_condition("review"@)),
        r.destaques@ == count_sql(count_scope(scoped), count_condition("destaques"@)),
        r.selecionado@ == count_sql(count_scope(scoped), count_condition("selecionado"@)),
        r.duplicates@ == count_sql(count_scope(scoped), duplicates_cond(count_scope(scoped))),
        r.faces@ == count_sql(count_scope(scoped), count_condition("faces"@)),
        r.edited@ == count_sql(count_scope(scoped), count_condition("edited"@)),
{
    let scope: &str = if scoped {
        "id IN (SELECT id FROM openshoot_scope_ids)"
    } else {
        "1=1"
    };
    let mut dup = " AND sha256 IN (SELECT sha256 FROM photos WHERE ".to_owned();
    dup.append(scope);
    dup.append(" AND sha256 <> '' GROUP BY sha256 HAVING COUNT(*) > 1)");
    proof {
        assert(dup@ =~= duplicates_cond(scope@));
    }
    let all = count_query(scope, "");
    proof {
        reveal_strlit("");
        assert(count_sql(scope@, ""@) =~= count_sql(scope@, seq![]));
        lemma_count_conditions();
    }
    FilterCountQueries {
        all,
        picks: count_query(scope, " AND rating >= 4"),
        rejects: count_query(scope, " AND rating >= 1 AND rating <= 1"),
        unrated: count_query(scope, " AND rating = 0"),
        review: count_query(scope, " AND review = 1"),
        destaques: count_query(scope, " AND ai_pick = 1"),
        selecionado: count_query(scope, " AND rating >= 4 AND ai_pick = 0"),
        duplicates: count_query(scope, dup.as_str()),
        faces: count_query(scope, " AND has_face = 1"),
        edited: count_query(scope, " AND edit_json IS NOT NULL AND edit_json <> ''"),
    }
}

/// `n` comma-separated `?` placeholders.
pub open spec fn placeholders(n: nat) -> Seq<char>
    decreases n,
{
    if n == 0 {
        seq![]
    } else if n == 1 {
        seq!['?']
    } else {
        placeholders((n - 1) as nat) + seq![',', '?']
    }
}

/// The query for the paths of `n` given photo ids (bound in order).
pub fn paths_for_ids_sql(n: usize) -> (r: String)
    ensures
        r@ == "SELECT id, path FROM photos WHERE id IN ("@ + placeholders(n as nat) + ")"@,
{
    let mut p = String::new();
    let mut k: usize = 0;
    while k < n
        invariant
            k <= n,
            p@ == placeholders(k as nat),
        decreases n - k,
    {
        if k > 0 {
            crate::text::push_char(&mut p, ',');
        }
        crate::text::push_char(&mut p, '?');
        k = k + 1;
        proof {
            if k >= 2 {
                assert(placeholders(k as nat) == placeholders((k - 1) as nat) + seq![',', '?']);
            }
        }
    }
    let mut r = "SELECT id, path FROM photos WHERE id IN (".to_owned();
    r.append(p.as_str());
    r.append(")");
    r
}

/// How many ids one label query reads.
pub const LABEL_CHUNK: usize = 500;

/// `n` numbered placeholders: `?1,?2,...,?n`.
pub open spec fn numbered_placeholders(n: nat) -> Seq<char>
    decreases n,
{
    if n == 0 {
        seq![]
    } else if n == 1 {
        seq!['?', '1']
    } else {
        numbered_placeholders((n - 1) as nat) + seq![',', '?'] + decimal(n)
    }
}

/// The query for the colour labels of `n` photo ids (bound in order), an
/// empty label standing for none.
pub fn labels_sql(n: usize) -> (r: String)
    ensures
        r@ == "SELECT id, COALESCE(label,'') FROM photos WHERE id IN ("@ + numbered_placeholders(n as nat)
            + ")"@,
{
    let mut p = String::new();
    let mut k: usize = 0;
    while k < n
        invariant
            k <= n,
            p@ == numbered_placeholders(k as nat),
        decreases n - k,
    {
        k = k + 1;
        if k > 1 {
            crate::text::push_char(&mut p, ',');
        }
        crate::text::push_char(&mut p, '?');
        crate::text::push_decimal(&mut p, k as u64);
        proof {
            if k == 1 {
                assert(decimal(1) == seq!['1']);
                assert(p@ =~= numbered_placeholders(1));
            } else {
                assert(p@ =~= numbered_placeholders(k as nat));
            }
        }
    }
    let mut r = "SELECT id, COALESCE(label,'') FROM photos WHERE id IN (".to_owned();
    r.append(p.as_str());
    r.append(")");
    r
}

} // verus!
