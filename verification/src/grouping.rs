//! Grouping of detected faces into people. The face embeddings and their
//! cosine similarity are computed by the caller (floating point); this module
//! decides, from the similarity verdicts, which faces form a group, and builds
//! the per-person summaries.
use vstd::prelude::*;

use crate::text::{decimal, push_decimal};

verus! {

/// The rows of a boolean matrix, as sequences.
pub open spec fn rows(m: Seq<Vec<bool>>) -> Seq<Seq<bool>> {
    m.map_values(|r: Vec<bool>| r@)
}

/// Where the faces seen so far went: `reps[k]` is the first face of group
/// `k` (its representative) and `assign[i]` the group of face `i`.
pub struct GroupAssignment {
    pub reps: Seq<usize>,
    pub assign: Seq<usize>,
}

/// The first group at or after `k` whose representative is similar to the
/// face whose similarity row is `row`; `reps.len()` when there is none.
pub open spec fn first_match(reps: Seq<usize>, row: Seq<bool>, k: int) -> int
    decreases reps.len() - k,
{
    if k < 0 || k >= reps.len() {
        reps.len() as int
    } else if row[reps[k] as int] {
        k
    } else {
        first_match(reps, row, k + 1)
    }
}

/// Greedy grouping of the first `n` faces: each face, in order, joins the
/// first existing group whose representative it is similar to, or starts a
/// new group of which it is the representative.
pub open spec fn greedy_assignment(sim: Seq<Seq<bool>>, n: nat) -> GroupAssignment
    decreases n,
{
    if n == 0 {
        GroupAssignment { reps: seq![], assign: seq![] }
    } else {
        let prev = greedy_assignment(sim, (n - 1) as nat);
        let i = n - 1;
        let k = first_match(prev.reps, sim[i], 0);
        if k < prev.reps.len() {
            GroupAssignment { reps: prev.reps, assign: prev.assign.push(k as usize) }
        } else {
            GroupAssignment {
                reps: prev.reps.push(i as usize),
                assign: prev.assign.push(prev.reps.len() as usize),
            }
        }
    }
}

/// The faces among the first `n` assigned to group `k`, in increasing order.
pub open spec fn members(assign: Seq<usize>, k: int, n: int) -> Seq<usize>
    decreases n,
{
    if n <= 0 {
        seq![]
    } else if assign[n - 1] == k {
        members(assign, k, n - 1).push((n - 1) as usize)
    } else {
        members(assign, k, n - 1)
    }
}

/// Each row of `sim` reaches at least as far as the faces before it.
pub open spec fn similarity_rows_fit(sim: Seq<Seq<bool>>) -> bool {
    forall|i: int| 0 <= i < sim.len() ==> #[trigger] sim[i].len() >= i
}

/// Facts about `first_match`.
proof fn lemma_first_match(reps: Seq<usize>, row: Seq<bool>, k: int)
    requires
        0 <= k <= reps.len(),
    ensures
        k <= first_match(reps, row, k) <= reps.len(),
        first_match(reps, row, k) < reps.len() ==> row[reps[first_match(reps, row, k)] as int],
        forall|j: int| k <= j < first_match(reps, row, k) ==> !row[#[trigger] reps[j] as int],
    decreases reps.len() - k,
{
    if k < reps.len() && !row[reps[k] as int] {
        lemma_first_match(reps, row, k + 1);
    }
}

/// Runs the greedy grouping: for each face, the representatives and the
/// group it joined.
pub fn assign_groups(similar: &Vec<Vec<bool>>) -> (r: (Vec<usize>, Vec<usize>))
    requires
        similarity_rows_fit(rows(similar@)),
    ensures
        r.0@ == greedy_assignment(rows(similar@), similar@.len() as nat).reps,
        r.1@ == greedy_assignment(rows(similar@), similar@.len() as nat).assign,
{
    let ghost sim = rows(similar@);
    let mut reps: Vec<usize> = Vec::new();
    let mut assign: Vec<usize> = Vec::new();
    let n = similar.len();
    let mut i: usize = 0;
    while i < n
        invariant
            n == similar@.len(),
            sim == rows(similar@),
            similarity_rows_fit(sim),
            i <= n,
            reps@ == greedy_assignment(sim, i as nat).reps,
            assign@ == greedy_assignment(sim, i as nat).assign,
            reps@.len() <= i,
            forall|k: int| 0 <= k < reps@.len() ==> #[trigger] reps@[k] < i,
        decreases n - i,
    {
        let row = &similar[i];
        assert(row@ == sim[i as int]);
        assert(row@.len() >= i);
        let mut k: usize = 0;
        while k < reps.len() && !row[reps[k]]
            invariant
                0 <= k <= reps@.len(),
                row@.len() >= i,
                forall|m: int| 0 <= m < reps@.len() ==> #[trigger] reps@[m] < i,
                first_match(reps@, row@, 0) == first_match(reps@, row@, k as int),
            decreases reps@.len() - k,
        {
            k = k + 1;
        }
        proof {
            lemma_first_match(reps@, row@, 0);
        }
        if k < reps.len() {
            assign.push(k);
        } else {
            let g = reps.len();
            reps.push(i);
            assign.push(g);
        }
        i = i + 1;
    }
    (reps, assign)
}

/// The members of each of the `groups` groups, in increasing order.
pub fn group_members(assign: &Vec<usize>, groups: usize) -> (r: Vec<Vec<usize>>)
    ensures
        r@.len() == groups,
        forall|k: int| 0 <= k < groups ==> (#[trigger] r@[k])@ == members(assign@, k, assign@.len() as int),
{
    let mut out: Vec<Vec<usize>> = Vec::new();
    let mut k: usize = 0;
    while k < groups
        invariant
            k <= groups,
            out@.len() == k,
            forall|m: int| 0 <= m < k ==> (#[trigger] out@[m])@ == members(assign@, m, assign@.len() as int),
        decreases groups - k,
    {
        let mut g: Vec<usize> = Vec::new();
        let mut i: usize = 0;
        while i < assign.len()
            invariant
                i <= assign@.len(),
                g@ == members(assign@, k as int, i as int),
            decreases assign@.len() - i,
        {
            if assign[i] == k {
                g.push(i);
            }
            i = i + 1;
        }
        out.push(g);
        k = k + 1;
    }
    out
}

/// `g` partitions `n` faces: every face belongs to exactly one group, every
/// group's representative is a face assigned to it and is its first member,
/// and representatives come in increasing order.
pub open spec fn is_partition(g: GroupAssignment, n: nat) -> bool {
    &&& g.assign.len() == n
    &&& g.reps.len() <= n
    &&& forall|i: int| 0 <= i < n ==> #[trigger] g.assign[i] < g.reps.len()
    &&& forall|k: int|
        0 <= k < g.reps.len() ==> #[trigger] g.reps[k] < n && g.assign[g.reps[k] as int] == k
    &&& forall|k: int, i: int|
        0 <= k < g.reps.len() && 0 <= i < #[trigger] g.reps[k] ==> #[trigger] g.assign[i] != k
    &&& forall|k1: int, k2: int|
        0 <= k1 < k2 < g.reps.len() ==> #[trigger] g.reps[k1] < #[trigger] g.reps[k2]
}

/// Law: the greedy grouping partitions the faces.
pub proof fn lemma_grouping_partitions_faces(sim: Seq<Seq<bool>>, n: nat)
    requires
        n <= usize::MAX,
    ensures
        is_partition(greedy_assignment(sim, n), n),
    decreases n,
{
    if n > 0 {
        lemma_grouping_partitions_faces(sim, (n - 1) as nat);
        let prev = greedy_assignment(sim, (n - 1) as nat);
        let cur = greedy_assignment(sim, n);
        lemma_first_match(prev.reps, sim[n - 1], 0);
        let k = first_match(prev.reps, sim[n - 1], 0);
        assert(cur.assign == prev.assign.push(cur.assign[n - 1]));
        if k < prev.reps.len() {
            assert(cur.reps == prev.reps);
        } else {
            assert(cur.reps == prev.reps.push((n - 1) as usize));
            assert forall|k1: int, k2: int|
                0 <= k1 < k2 < cur.reps.len() implies #[trigger] cur.reps[k1] < #[trigger] cur.reps[k2] by {
                if k2 == prev.reps.len() {
                    assert(prev.reps[k1] < n - 1);
                }
            }
            assert forall|kk: int, i: int|
                0 <= kk < cur.reps.len() && 0 <= i < #[trigger] cur.reps[kk] implies #[trigger] cur.assign[i] != kk by {
                if kk == prev.reps.len() {
                    assert(prev.assign[i] < prev.reps.len());
                } else {
                    assert(prev.reps[kk] == cur.reps[kk]);
                }
            }
        }
    }
}

/// `m` lists, in strictly increasing order, exactly the faces among the
/// first `n` that `assign` puts in group `k`.
pub open spec fn lists_members(m: Seq<usize>, assign: Seq<usize>, k: int, n: int) -> bool {
    &&& forall|j: int| 0 <= j < m.len() ==> #[trigger] m[j] < n && assign[m[j] as int] == k
    &&& forall|j1: int, j2: int| 0 <= j1 < j2 < m.len() ==> #[trigger] m[j1] < #[trigger] m[j2]
    &&& forall|i: int| 0 <= i < n && #[trigger] assign[i] == k ==> m.contains(i as usize)
}

/// Law: the members of group `k` are exactly the faces assigned to it, in
/// strictly increasing order.
pub proof fn lemma_members(assign: Seq<usize>, k: int, n: int)
    requires
        0 <= n <= assign.len(),
        n <= usize::MAX,
    ensures
        lists_members(members(assign, k, n), assign, k, n),
    decreases n,
{
    if n > 0 {
        lemma_members(assign, k, n - 1);
        let m = members(assign, k, n - 1);
        if assign[n - 1] == k {
            let m2 = m.push((n - 1) as usize);
            assert(members(assign, k, n) == m2);
            assert forall|j: int| 0 <= j < m2.len() implies #[trigger] m2[j] < n && assign[m2[j] as int] == k by {
                if j < m.len() {
                    assert(m2[j] == m[j]);
                }
            }
            assert forall|j1: int, j2: int| 0 <= j1 < j2 < m2.len() implies #[trigger] m2[j1] < #[trigger] m2[j2] by {
                assert(m2[j1] == m[j1]);
                if j2 < m.len() {
                    assert(m2[j2] == m[j2]);
                }
            }
            assert forall|i: int| 0 <= i < n && #[trigger] assign[i] == k implies m2.contains(i as usize) by {
                if i < n - 1 {
                    let j = choose|j: int| 0 <= j < m.len() && m[j] == i as usize;
                    assert(m2[j] == i as usize);
                } else {
                    assert(m2[m.len() as int] == i as usize);
                }
            }
        }
    }
}

/// The error reported when none of the `total` photos could be opened.
pub open spec fn unavailable_message(total: nat) -> Seq<char> {
    "Nenhuma das "@ + decimal(total)
        + " foto(s) do álbum pôde ser aberta. Verifique se a pasta original continua disponível e atualize o álbum."@
}

/// An actionable error when there were photos and every one of them was
/// unavailable; `None` otherwise.
pub fn unavailable_photos_error(total: usize, unavailable: usize) -> (r: Option<String>)
    ensures
        r.is_some() <==> (total > 0 && unavailable == total),
        r matches Some(m) ==> m@ == unavailable_message(total as nat),
{
    if total > 0 && unavailable == total {
        let mut m = "Nenhuma das ".to_owned();
        push_decimal(&mut m, total as u64);
        m.append(
            " foto(s) do álbum pôde ser aberta. Verifique se a pasta original continua disponível e atualize o álbum.",
        );
        Some(m)
    } else {
        None
    }
}

/// A face found in a photo: the photo it belongs to.
pub struct FaceRef {
    pub photo_id: i64,
    pub photo_path: String,
}

/// A photo the analysis could open, with the number of faces found in it.
pub struct AnalyzedPhoto {
    pub photo_id: i64,
    pub photo_path: String,
    pub face_count: usize,
}

/// One person: the distinct photos in which the group's faces appear.
pub struct PersonGroup {
    pub person_id: usize,
    /// Number of distinct photos in the group.
    pub count: usize,
    /// Photo of the group's representative face.
    pub sample_path: String,
    /// Index of the representative face in the face list.
    pub sample_face_index: usize,
    pub photo_ids: Vec<i64>,
    pub photo_paths: Vec<String>,
}

/// A face and the group it was put in.
pub struct GroupedFace {
    pub group_index: usize,
    pub photo_id: i64,
    /// Index of the face in the face list.
    pub face_index: usize,
}

/// Outcome of a face analysis; the counts let the caller tell "no faces"
/// from "photos that could not be opened".
pub struct GroupingResult {
    pub groups: Vec<PersonGroup>,
    pub grouped_faces: Vec<GroupedFace>,
    pub photos_scanned: usize,
    pub photos_unavailable: usize,
}

/// A face as a value: its photo's id and path.
pub open spec fn face_views(f: Seq<FaceRef>) -> Seq<(i64, Seq<char>)> {
    f.map_values(|x: FaceRef| (x.photo_id, x.photo_path@))
}

/// The contents of a list of strings.
pub open spec fn strs(v: Seq<String>) -> Seq<Seq<char>> {
    v.map_values(|x: String| x@)
}

/// The faces of the analysed photos, photo by photo, each photo's faces in order.
pub open spec fn face_list(photos: Seq<AnalyzedPhoto>) -> Seq<(i64, Seq<char>)>
    decreases photos.len(),
{
    if photos.len() == 0 {
        seq![]
    } else {
        let p = photos.last();
        face_list(photos.drop_last()) + Seq::new(
            p.face_count as nat,
            |j: int| (p.photo_id, p.photo_path@),
        )
    }
}

/// The ids of a list of photos.
pub open spec fn ids_of(d: Seq<(i64, Seq<char>)>) -> Seq<i64> {
    d.map_values(|p: (i64, Seq<char>)| p.0)
}

/// The paths of a list of photos.
pub open spec fn paths_of(d: Seq<(i64, Seq<char>)>) -> Seq<Seq<char>> {
    d.map_values(|p: (i64, Seq<char>)| p.1)
}

/// The photos of the faces `g`, each photo once, in order of first appearance.
pub open spec fn distinct_photos(faces: Seq<(i64, Seq<char>)>, g: Seq<usize>) -> Seq<(i64, Seq<char>)>
    decreases g.len(),
{
    if g.len() == 0 {
        seq![]
    } else {
        let prev = distinct_photos(faces, g.drop_last());
        let f = faces[g.last() as int];
        if ids_of(prev).contains(f.0) {
            prev
        } else {
            prev.push(f)
        }
    }
}

/// `p` summarises group `k`, whose faces are `g`.
pub open spec fn summarises(p: PersonGroup, faces: Seq<(i64, Seq<char>)>, g: Seq<usize>, k: int) -> bool {
    let d = distinct_photos(faces, g);
    &&& p.person_id == k
    &&& p.photo_ids@ == ids_of(d)
    &&& strs(p.photo_paths@) == paths_of(d)
    &&& p.count == d.len()
    &&& p.sample_face_index == g[0]
    &&& p.sample_path@ == faces[g[0] as int].1
}

/// A grouped face as a value.
pub open spec fn grouped_view(v: Seq<GroupedFace>) -> Seq<(usize, i64, usize)> {
    v.map_values(|x: GroupedFace| (x.group_index, x.photo_id, x.face_index))
}

/// The faces of each group in turn, with the group's index.
pub open spec fn grouped_faces_of(faces: Seq<(i64, Seq<char>)>, groups: Seq<Seq<usize>>) -> Seq<
    (usize, i64, usize),
>
    decreases groups.len(),
{
    if groups.len() == 0 {
        seq![]
    } else {
        let k = (groups.len() - 1) as usize;
        grouped_faces_of(faces, groups.drop_last()) + groups.last().map_values(
            |i: usize| (k, faces[i as int].0, i),
        )
    }
}

/// The groups of the greedy grouping of `n` faces, as member lists.
pub open spec fn group_lists(sim: Seq<Seq<bool>>, n: nat) -> Seq<Seq<usize>> {
    let g = greedy_assignment(sim, n);
    Seq::new(g.reps.len(), |k: int| members(g.assign, k, n as int))
}

/// The faces of the analysed photos, in order.
pub fn flatten_faces(photos: &Vec<AnalyzedPhoto>) -> (r: Vec<FaceRef>)
    ensures
        face_views(r@) == face_list(photos@),
{
    let mut out: Vec<FaceRef> = Vec::new();
    let mut p: usize = 0;
    while p < photos.len()
        invariant
            p <= photos@.len(),
            face_views(out@) == face_list(photos@.take(p as int)),
        decreases photos@.len() - p,
    {
        let ph = &photos[p];
        let ghost base = face_views(out@);
        let mut j: usize = 0;
        while j < ph.face_count
            invariant
                j <= ph.face_count,
                face_views(out@) == base + Seq::new(
                    j as nat,
                    |t: int| (ph.photo_id, ph.photo_path@),
                ),
            decreases ph.face_count - j,
        {
            let ghost before = out@;
            out.push(FaceRef { photo_id: ph.photo_id, photo_path: ph.photo_path.clone() });
            assert(face_views(out@) =~= face_views(before).push((ph.photo_id, ph.photo_path@)));
            assert(face_views(out@) =~= base + Seq::new(
                (j + 1) as nat,
                |t: int| (ph.photo_id, ph.photo_path@),
            ));
            j = j + 1;
        }
        assert(photos@.take(p + 1).drop_last() == photos@.take(p as int));
        p = p + 1;
    }
    assert(photos@.take(photos@.len() as int) == photos@);
    out
}

/// Whether `id` is in `ids`.
fn contains_id(ids: &Vec<i64>, id: i64) -> (r: bool)
    ensures
        r == ids@.contains(id),
{
    let mut k: usize = 0;
    while k < ids.len()
        invariant
            k <= ids@.len(),
            forall|m: int| 0 <= m < k ==> ids@[m] != id,
        decreases ids@.len() - k,
    {
        if ids[k] == id {
            return true;
        }
        k = k + 1;
    }
    false
}

/// The summary of group `k`, whose faces are `g`.
fn summarise_group(faces: &Vec<FaceRef>, g: &Vec<usize>, k: usize) -> (p: PersonGroup)
    requires
        g@.len() > 0,
        forall|j: int| 0 <= j < g@.len() ==> #[trigger] g@[j] < faces@.len(),
    ensures
        summarises(p, face_views(faces@), g@, k as int),
{
    let ghost fv = face_views(faces@);
    let mut photo_ids: Vec<i64> = Vec::new();
    let mut photo_paths: Vec<String> = Vec::new();
    let mut j: usize = 0;
    while j < g.len()
        invariant
            j <= g@.len(),
            fv == face_views(faces@),
            forall|m: int| 0 <= m < g@.len() ==> #[trigger] g@[m] < faces@.len(),
            photo_ids@ == ids_of(distinct_photos(fv, g@.take(j as int))),
            strs(photo_paths@) == paths_of(distinct_photos(fv, g@.take(j as int))),
            photo_ids@.len() == distinct_photos(fv, g@.take(j as int)).len(),
        decreases g@.len() - j,
    {
        let f = &faces[g[j]];
        assert(g@.take(j + 1).drop_last() == g@.take(j as int));
        assert(fv[g@[j as int] as int] == (f.photo_id, f.photo_path@));
        if !contains_id(&photo_ids, f.photo_id) {
            let ghost prev = distinct_photos(fv, g@.take(j as int));
            let ghost old_paths = photo_paths@;
            photo_ids.push(f.photo_id);
            photo_paths.push(f.photo_path.clone());
            assert(distinct_photos(fv, g@.take(j + 1)) == prev.push(fv[g@[j as int] as int]));
            assert(strs(photo_paths@) =~= strs(old_paths).push(f.photo_path@));
            assert(paths_of(prev.push(fv[g@[j as int] as int])) =~= paths_of(prev).push(f.photo_path@));
            assert(strs(photo_paths@) =~= paths_of(distinct_photos(fv, g@.take(j + 1))));
            assert(photo_ids@ =~= ids_of(distinct_photos(fv, g@.take(j + 1))));
        }
        j = j + 1;
    }
    assert(g@.take(g@.len() as int) == g@);
    let first = &faces[g[0]];
    PersonGroup {
        person_id: k,
        count: photo_ids.len(),
        sample_path: first.photo_path.clone(),
        sample_face_index: g[0],
        photo_ids,
        photo_paths,
    }
}

/// Groups faces into people: greedy grouping on the similarity verdicts
/// (`similar[i][j]`: face `i` is similar enough to face `j`, for `j < i`),
/// then one summary per group and the list of grouped faces, group by group.
pub fn group_faces(faces: &Vec<FaceRef>, similar: &Vec<Vec<bool>>) -> (r: (
    Vec<PersonGroup>,
    Vec<GroupedFace>,
))
    requires
        similar@.len() == faces@.len(),
        similarity_rows_fit(rows(similar@)),
    ensures
        r.0@.len() == group_lists(rows(similar@), faces@.len() as nat).len(),
        forall|k: int|
            0 <= k < r.0@.len() ==> summarises(
                #[trigger] r.0@[k],
                face_views(faces@),
                group_lists(rows(similar@), faces@.len() as nat)[k],
                k,
            ),
        grouped_view(r.1@) == grouped_faces_of(
            face_views(faces@),
            group_lists(rows(similar@), faces@.len() as nat),
        ),
{
    let nf = faces.len();
    let ghost n = nf as nat;
    let ghost sim = rows(similar@);
    let ghost fv = face_views(faces@);
    let (reps, assign) = assign_groups(similar);
    let lists = group_members(&assign, reps.len());
    let ghost groups = group_lists(sim, n);
    proof {
        lemma_grouping_partitions_faces(sim, n);
        assert(groups.len() == lists@.len());
    }
    let mut out: Vec<PersonGroup> = Vec::new();
    let mut grouped: Vec<GroupedFace> = Vec::new();
    let mut k: usize = 0;
    while k < lists.len()
        invariant
            k <= lists@.len() == reps@.len() == groups.len(),
            n == faces@.len(),
            n == nf,
            fv == face_views(faces@),
            sim == rows(similar@),
            groups == group_lists(sim, n),
            reps@ == greedy_assignment(sim, n).reps,
            assign@ == greedy_assignment(sim, n).assign,
            is_partition(greedy_assignment(sim, n), n),
            forall|m: int| 0 <= m < lists@.len() ==> (#[trigger] lists@[m])@ == members(assign@, m, assign@.len() as int),
            out@.len() == k,
            forall|m: int| 0 <= m < k ==> summarises(#[trigger] out@[m], fv, groups[m], m),
            grouped_view(grouped@) == grouped_faces_of(fv, groups.take(k as int)),
        decreases lists@.len() - k,
    {
        let g = &lists[k];
        proof {
            lemma_members(assign@, k as int, n as int);
            let r = reps@[k as int];
            assert(assign@[r as int] == k);
            assert(g@.contains(r));
            assert(groups[k as int] == g@);
        }
        let p = summarise_group(faces, g, k);
        out.push(p);
        let ghost before = grouped@;
        let mut j: usize = 0;
        while j < g.len()
            invariant
                j <= g@.len(),
                fv == face_views(faces@),
                forall|m: int| 0 <= m < g@.len() ==> #[trigger] g@[m] < faces@.len(),
                grouped_view(grouped@) == grouped_view(before) + g@.take(j as int).map_values(
                    |i: usize| (k, fv[i as int].0, i),
                ),
            decreases g@.len() - j,
        {
            let i = g[j];
            let ghost prev = grouped@;
            grouped.push(GroupedFace { group_index: k, photo_id: faces[i].photo_id, face_index: i });
            assert(grouped_view(grouped@) =~= grouped_view(prev).push((k, fv[i as int].0, i)));
            assert(g@.take(j + 1).map_values(|i: usize| (k, fv[i as int].0, i)) =~= g@.take(
                j as int,
            ).map_values(|i: usize| (k, fv[i as int].0, i)).push((k, fv[i as int].0, i)));
            j = j + 1;
        }
        proof {
            assert(g@.take(g@.len() as int) == g@);
            assert(groups.take(k + 1).drop_last() == groups.take(k as int));
            assert(groups.take(k + 1).last() == g@);
        }
        k = k + 1;
    }
    proof {
        assert(groups.take(groups.len() as int) == groups);
    }
    (out, grouped)
}

/// The error when the face-embedding model is missing.
pub open spec fn model_missing_message() -> Seq<char> {
    "modelo MobileFaceNet ausente (reconhecimento facial indisponível)"@
}

/// Groups the analysed photos' faces by person. Fails when the embedding
/// model is missing, or when there were photos and none could be opened;
/// otherwise groups the faces (see `group_faces`) and reports how many photos
/// were analysed and how many could not be opened. Each of the
/// `total_photos` photos is analysed, could not be opened, or was dropped
/// because face detection failed, so the first two counts never exceed it.
pub fn group_by_similarity(
    model_available: bool,
    total_photos: usize,
    unavailable: usize,
    analyzed: &Vec<AnalyzedPhoto>,
    similar: &Vec<Vec<bool>>,
) -> (r: Result<GroupingResult, String>)
    requires
        similar@.len() == face_list(analyzed@).len(),
        similarity_rows_fit(rows(similar@)),
        analyzed@.len() + unavailable <= total_photos,
    ensures
        !model_available ==> (r matches Err(e) && e@ == model_missing_message()),
        model_available && total_photos > 0 && unavailable == total_photos ==> (r matches Err(e)
            && e@ == unavailable_message(total_photos as nat)),
        model_available && !(total_photos > 0 && unavailable == total_photos) ==> (r matches Ok(
            res,
        ) && {
            let groups = group_lists(rows(similar@), similar@.len() as nat);
            &&& res.photos_scanned == analyzed@.len()
            &&& res.photos_unavailable == unavailable
            &&& res.photos_scanned + res.photos_unavailable <= total_photos
            &&& res.groups@.len() == groups.len()
            &&& forall|k: int|
                0 <= k < groups.len() ==> summarises(
                    #[trigger] res.groups@[k],
                    face_list(analyzed@),
                    groups[k],
                    k,
                )
            &&& grouped_view(res.grouped_faces@) == grouped_faces_of(face_list(analyzed@), groups)
        }),
{
    if !model_available {
        return Err("modelo MobileFaceNet ausente (reconhecimento facial indisponível)".to_owned());
    }
    if let Some(e) = unavailable_photos_error(total_photos, unavailable) {
        return Err(e);
    }
    let faces = flatten_faces(analyzed);
    let (groups, grouped_faces) = group_faces(&faces, similar);
    Ok(GroupingResult {
        groups,
        grouped_faces,
        photos_scanned: analyzed.len(),
        photos_unavailable: unavailable,
    })
}

/// The has-face flag to record for each analysed photo (photos that could
/// not be opened are left alone).
pub fn has_face_updates(analyzed: &Vec<AnalyzedPhoto>) -> (r: Vec<(i64, bool)>)
    ensures
        r@ == analyzed@.map_values(|p: AnalyzedPhoto| (p.photo_id, p.face_count > 0)),
{
    let mut out: Vec<(i64, bool)> = Vec::new();
    let mut k: usize = 0;
    while k < analyzed.len()
        invariant
            k <= analyzed@.len(),
            out@ == analyzed@.take(k as int).map_values(|p: AnalyzedPhoto| (p.photo_id, p.face_count > 0)),
        decreases analyzed@.len() - k,
    {
        out.push((analyzed[k].photo_id, analyzed[k].face_count > 0));
        assert(analyzed@.take(k + 1).map_values(|p: AnalyzedPhoto| (p.photo_id, p.face_count > 0))
            =~= out@);
        k = k + 1;
    }
    assert(analyzed@.take(analyzed@.len() as int) == analyzed@);
    out
}

/// The four little-endian bytes of `v`.
pub open spec fn le_bytes(v: u32) -> Seq<u8> {
    seq![(v % 256) as u8, ((v / 256) % 256) as u8, ((v / 65536) % 256) as u8, (v / 16777216) as u8]
}

/// The `u32` stored little-endian in `b` at `at`.
pub open spec fn le_value(b: Seq<u8>, at: int) -> u32 {
    (b[at] + 256 * b[at + 1] + 65536 * b[at + 2] + 16777216 * b[at + 3]) as u32
}

/// The values of `vals`, each as four little-endian bytes, in order.
pub open spec fn flat_bytes(vals: Seq<u32>) -> Seq<u8>
    decreases vals.len(),
{
    if vals.len() == 0 {
        seq![]
    } else {
        flat_bytes(vals.drop_last()) + le_bytes(vals.last())
    }
}

/// The rows of `embs`, one after the other.
pub open spec fn concat_rows(embs: Seq<Seq<u32>>) -> Seq<u32>
    decreases embs.len(),
{
    if embs.len() == 0 {
        seq![]
    } else {
        concat_rows(embs.drop_last()) + embs.last()
    }
}

/// Embedding blob layout: the number of embeddings (`u32`, little-endian),
/// then every component (the bits of an `f32`, little-endian), embedding
/// after embedding.
pub open spec fn embeddings_blob(embs: Seq<Seq<u32>>) -> Seq<u8> {
    le_bytes(embs.len() as u32) + flat_bytes(concat_rows(embs))
}

/// Reading a blob back: `None` when it is shorter than the count, when the
/// count is zero, when the payload is not whole values, or when the values
/// do not split evenly into `count` embeddings.
pub open spec fn parsed_embeddings(blob: Seq<u8>) -> Option<Seq<Seq<u32>>> {
    if blob.len() < 4 {
        None
    } else {
        let count = le_value(blob, 0) as int;
        let rest = blob.len() - 4;
        if count == 0 || rest % 4 != 0 {
            None
        } else if (rest / 4) % count != 0 {
            None
        } else {
            let total = rest / 4;
            let dim = total / count;
            let vals = Seq::new(total as nat, |t: int| le_value(blob, 4 + 4 * t));
            Some(Seq::new(count as nat, |r: int| vals.subrange(r * dim, r * dim + dim)))
        }
    }
}

/// A blob whose reading would split values into chunks of length zero: a
/// bare non-zero count with no values.
pub open spec fn blob_without_values(blob: Seq<u8>) -> bool {
    blob.len() == 4 && le_value(blob, 0) != 0
}

/// The rows of a matrix of `u32`, as sequences.
pub open spec fn rows_u32(m: Seq<Vec<u32>>) -> Seq<Seq<u32>> {
    m.map_values(|r: Vec<u32>| r@)
}

fn push_le(out: &mut Vec<u8>, v: u32)
    ensures
        final(out)@ == old(out)@ + le_bytes(v),
{
    out.push((v % 256) as u8);
    out.push(((v / 256) % 256) as u8);
    out.push(((v / 65536) % 256) as u8);
    out.push((v / 16777216) as u8);
    assert(final(out)@ =~= old(out)@ + le_bytes(v));
}

/// Serialises face embeddings (each component given as the bits of its
/// `f32`) into the blob cached in the catalog.
pub fn serialize_embeddings(embs: &Vec<Vec<u32>>) -> (r: Vec<u8>)
    ensures
        r@ == embeddings_blob(rows_u32(embs@)),
{
    let mut out: Vec<u8> = Vec::new();
    push_le(&mut out, embs.len() as u32);
    let ghost head = le_bytes(embs@.len() as u32);
    let mut k: usize = 0;
    while k < embs.len()
        invariant
            k <= embs@.len(),
            head == le_bytes(embs@.len() as u32),
            out@ == head + flat_bytes(concat_rows(rows_u32(embs@).take(k as int))),
        decreases embs@.len() - k,
    {
        let e = &embs[k];
        let ghost before = concat_rows(rows_u32(embs@).take(k as int));
        let mut j: usize = 0;
        while j < e.len()
            invariant
                j <= e@.len(),
                out@ == head + flat_bytes(before + e@.take(j as int)),
            decreases e@.len() - j,
        {
            push_le(&mut out, e[j]);
            assert((before + e@.take(j + 1)).drop_last() =~= before + e@.take(j as int));
            j = j + 1;
        }
        assert(rows_u32(embs@).take(k + 1).drop_last() =~= rows_u32(embs@).take(k as int));
        assert(e@.take(e@.len() as int) == e@);
        k = k + 1;
    }
    assert(rows_u32(embs@).take(embs@.len() as int) =~= rows_u32(embs@));
    out
}

fn read_le(blob: &[u8], at: usize) -> (v: u32)
    requires
        at + 4 <= blob@.len(),
    ensures
        v == le_value(blob@, at as int),
{
    let b0 = blob[at] as u32;
    let b1 = blob[at + 1] as u32;
    let b2 = blob[at + 2] as u32;
    let b3 = blob[at + 3] as u32;
    b0 + 256 * b1 + 65536 * b2 + 16777216 * b3
}

proof fn lemma_rows_fit(r: int, dim: int, count: int)
    requires
        0 <= r < count,
        0 <= dim,
    ensures
        0 <= r * dim,
        r * dim + dim <= count * dim,
        (r + 1) * dim == r * dim + dim,
{
    assert(r * dim + dim <= count * dim) by (nonlinear_arith)
        requires
            0 <= r < count,
            0 <= dim,
    ;
    assert(0 <= r * dim) by (nonlinear_arith)
        requires
            0 <= r,
            0 <= dim,
    ;
    assert((r + 1) * dim == r * dim + dim) by (nonlinear_arith);
}

/// Reads an embedding blob back (see `parsed_embeddings`).
pub fn parse_embeddings(blob: &[u8]) -> (r: Option<Vec<Vec<u32>>>)
    requires
        !blob_without_values(blob@),
    ensures
        match r {
            Some(v) => parsed_embeddings(blob@) == Some(rows_u32(v@)),
            None => parsed_embeddings(blob@) is None,
        },
{
    let len = blob.len();
    if len < 4 {
        return None;
    }
    let count = read_le(blob, 0) as usize;
    let rest = len - 4;
    if count == 0 || rest % 4 != 0 {
        return None;
    }
    let total = rest / 4;
    if total % count != 0 {
        return None;
    }
    let dim = total / count;
    assert(dim > 0) by (nonlinear_arith)
        requires
            total % count == 0,
            total > 0,
            count > 0,
            dim == total / count,
    {
        assert(total == count * (total / count) + total % count);
    }
    let ghost vals_spec = Seq::new(total as nat, |t: int| le_value(blob@, 4 + 4 * t));
    let mut vals: Vec<u32> = Vec::new();
    let mut t: usize = 0;
    while t < total
        invariant
            t <= total,
            total == rest / 4,
            rest == blob@.len() - 4,
            vals_spec == Seq::new(total as nat, |t: int| le_value(blob@, 4 + 4 * t)),
            vals@ == vals_spec.take(t as int),
        decreases total - t,
    {
        vals.push(read_le(blob, 4 + 4 * t));
        assert(vals@ =~= vals_spec.take(t + 1));
        t = t + 1;
    }
    assert(vals@ == vals_spec);
    assert(count * dim == total) by (nonlinear_arith)
        requires
            total % count == 0,
            count > 0,
            dim == total / count,
    {
        assert(total == count * (total / count) + total % count);
    }
    let mut out: Vec<Vec<u32>> = Vec::new();
    let mut rr: usize = 0;
    let mut start: usize = 0;
    while rr < count
        invariant
            rr <= count,
            count * dim == total,
            vals@.len() == total,
            start == rr * dim,
            rows_u32(out@) == Seq::new(
                rr as nat,
                |r: int| vals@.subrange(r * dim, r * dim + dim),
            ),
        decreases count - rr,
    {
        proof {
            lemma_rows_fit(rr as int, dim as int, count as int);
        }
        let row = vstd::slice::slice_to_vec(vstd::slice::slice_subrange(vals.as_slice(), start, start + dim));
        let ghost rv = row@;
        let ghost old_rows = out@;
        assert(rv == vals@.subrange(rr * dim, rr * dim + dim));
        out.push(row);
        assert(rows_u32(out@) =~= rows_u32(old_rows).push(rv));
        assert(rows_u32(out@) =~= Seq::new(
            (rr + 1) as nat,
            |r: int| vals@.subrange(r * dim, r * dim + dim),
        ));
        start = start + dim;
        rr = rr + 1;
    }
    Some(out)
}

proof fn lemma_le_roundtrip(v: u32)
    ensures
        le_value(le_bytes(v), 0) == v,
{
    let b = le_bytes(v);
    assert(b[0] + 256 * b[1] + 65536 * b[2] + 16777216 * b[3] == v) by (nonlinear_arith)
        requires
            b[0] == v % 256,
            b[1] == (v / 256) % 256,
            b[2] == (v / 65536) % 256,
            b[3] == v / 16777216,
            v < 0x1_0000_0000,
    ;
}

proof fn lemma_flat_bytes(vals: Seq<u32>)
    ensures
        flat_bytes(vals).len() == 4 * vals.len(),
        forall|t: int| 0 <= t < vals.len() ==> #[trigger] le_value(flat_bytes(vals), 4 * t) == vals[t],
    decreases vals.len(),
{
    if vals.len() > 0 {
        let init = vals.drop_last();
        lemma_flat_bytes(init);
        let f = flat_bytes(vals);
        let fi = flat_bytes(init);
        let lb = le_bytes(vals.last());
        assert(f == fi + lb);
        lemma_le_roundtrip(vals.last());
        assert forall|t: int| 0 <= t < vals.len() implies #[trigger] le_value(f, 4 * t) == vals[t] by {
            if t < init.len() {
                assert(le_value(fi, 4 * t) == init[t]);
                assert(f[4 * t] == fi[4 * t]);
                assert(f[4 * t + 1] == fi[4 * t + 1]);
                assert(f[4 * t + 2] == fi[4 * t + 2]);
                assert(f[4 * t + 3] == fi[4 * t + 3]);
            } else {
                assert(f[4 * t] == lb[0]);
                assert(f[4 * t + 1] == lb[1]);
                assert(f[4 * t + 2] == lb[2]);
                assert(f[4 * t + 3] == lb[3]);
            }
        }
    }
}

proof fn lemma_concat_rows(embs: Seq<Seq<u32>>, dim: nat)
    requires
        forall|r: int| 0 <= r < embs.len() ==> #[trigger] embs[r].len() == dim,
    ensures
        concat_rows(embs).len() == embs.len() * dim,
        forall|r: int|
            0 <= r < embs.len() ==> #[trigger] concat_rows(embs).subrange(r * dim, r * dim + dim)
                == embs[r],
    decreases embs.len(),
{
    if embs.len() > 0 {
        let init = embs.drop_last();
        lemma_concat_rows(init, dim);
        let c = concat_rows(embs);
        let ci = concat_rows(init);
        let n1 = init.len();
        assert(c == ci + embs.last());
        assert(n1 * dim + dim == embs.len() * dim) by (nonlinear_arith)
            requires
                embs.len() == n1 + 1,
        ;
        assert forall|r: int| 0 <= r < embs.len() implies #[trigger] c.subrange(
            r * dim,
            r * dim + dim,
        ) == embs[r] by {
            if r < n1 {
                lemma_rows_fit(r, dim as int, n1 as int);
                assert(c.subrange(r * dim, r * dim + dim) =~= ci.subrange(r * dim, r * dim + dim));
            } else {
                assert(c.subrange(r * dim, r * dim + dim) =~= embs.last());
            }
        }
    }
}

/// Law: reading back a serialised blob gives the embeddings back, when there
/// is at least one embedding, all of one non-zero dimension, and their number
/// fits the count field.
pub proof fn lemma_embeddings_roundtrip(embs: Seq<Seq<u32>>, dim: nat)
    requires
        0 < embs.len() <= u32::MAX,
        dim > 0,
        forall|r: int| 0 <= r < embs.len() ==> #[trigger] embs[r].len() == dim,
    ensures
        parsed_embeddings(embeddings_blob(embs)) == Some(embs),
{
    let n = embs.len();
    let vals = concat_rows(embs);
    let blob = embeddings_blob(embs);
    let head = le_bytes(n as u32);
    let flat = flat_bytes(vals);
    lemma_concat_rows(embs, dim);
    lemma_flat_bytes(vals);
    lemma_le_roundtrip(n as u32);
    assert(blob == head + flat);
    assert(le_value(blob, 0) == le_value(head, 0));
    assert(le_value(blob, 0) == n);
    let total = n * dim;
    assert(blob.len() - 4 == 4 * total);
    assert((4 * total) % 4 == 0);
    assert((4 * total) / 4 == total);
    assert(total % n == 0 && total / n == dim) by (nonlinear_arith)
        requires
            total == n * dim,
            n > 0,
    ;
    let vs = Seq::new(total as nat, |t: int| le_value(blob, 4 + 4 * t));
    assert forall|t: int| 0 <= t < total implies #[trigger] vs[t] == vals[t] by {
        assert(le_value(flat, 4 * t) == vals[t]);
        assert(blob[4 + 4 * t] == flat[4 * t]);
        assert(blob[4 + 4 * t + 1] == flat[4 * t + 1]);
        assert(blob[4 + 4 * t + 2] == flat[4 * t + 2]);
        assert(blob[4 + 4 * t + 3] == flat[4 * t + 3]);
    }
    assert(vs =~= vals);
    let parsed = Seq::new(n as nat, |r: int| vs.subrange(r * dim, r * dim + dim));
    assert(parsed =~= embs);
}

} // verus!
