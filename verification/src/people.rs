//! Exporting the people recognised in an album to folders: one folder per
//! person, named after the person, and each photo copied once.
use vstd::prelude::*;

use crate::catalog::{folder_name, sanitize_folder_name};
use crate::grouping::strs;
use crate::naming::lemma_decimal_value;
use crate::text::{decimal, push_decimal, push_i64, signed_decimal, lower_case, str_eq, to_lowercase, trim, trim_str};

verus! {

/// A person of an album: its id and the name it was given.
pub struct PersonEntry {
    pub id: i64,
    pub name: String,
}

/// The folder name a person's photos go to before collisions are resolved:
/// its name made safe, or `Grupo <id>` when nothing is left of it.
pub open spec fn person_base_name(p: PersonEntry) -> Seq<char> {
    folder_name(p.name@, "Grupo "@ + signed_decimal(p.id as int))
}

/// How many of `keys` equal `key`.
pub open spec fn count_of(keys: Seq<Seq<char>>, key: Seq<char>) -> nat
    decreases keys.len(),
{
    if keys.len() == 0 {
        0
    } else {
        count_of(keys.drop_last(), key) + if keys.last() == key {
            1nat
        } else {
            0
        }
    }
}

/// The collision keys of the people: their base names, lower-cased.
pub open spec fn folder_keys(people: Seq<PersonEntry>) -> Seq<Seq<char>> {
    people.map_values(|p: PersonEntry| lower_case(person_base_name(p)))
}

/// The folder of the `k`-th person: its base name, with `-<n + 1>` when `n`
/// earlier people had the same base name (ignoring case).
pub open spec fn person_folder(people: Seq<PersonEntry>, k: int) -> Seq<char> {
    let base = person_base_name(people[k]);
    let n = count_of(folder_keys(people).take(k), folder_keys(people)[k]);
    if n == 0 {
        base
    } else {
        base + "-"@ + decimal(n + 1)
    }
}

/// The folders of the people, in order.
pub fn people_folders(people: &Vec<PersonEntry>) -> (r: Vec<String>)
    requires
        people@.len() < u32::MAX,
    ensures
        r@.len() == people@.len(),
        forall|k: int| 0 <= k < people@.len() ==> (#[trigger] r@[k])@ == person_folder(people@, k),
{
    let mut keys: Vec<String> = Vec::new();
    let mut out: Vec<String> = Vec::new();
    let mut k: usize = 0;
    while k < people.len()
        invariant
            k <= people@.len() < u32::MAX,
            out@.len() == k,
            keys@.len() == k,
            strs(keys@) == folder_keys(people@).take(k as int),
            forall|m: int| 0 <= m < k ==> (#[trigger] out@[m])@ == person_folder(people@, m),
        decreases people@.len() - k,
    {
        let p = &people[k];
        let mut fb = "Grupo ".to_owned();
        push_i64(&mut fb, p.id);
        let base = sanitize_folder_name(p.name.as_str(), fb.as_str());
        let key = to_lowercase(base.as_str());
        assert(key@ == folder_keys(people@)[k as int]);
        let mut n: u64 = 0;
        let mut j: usize = 0;
        while j < keys.len()
            invariant
                j <= keys@.len() == k,
                n <= j,
                n == count_of(strs(keys@).take(j as int), key@),
            decreases keys@.len() - j,
        {
            assert(strs(keys@).take(j + 1).drop_last() == strs(keys@).take(j as int));
            assert(strs(keys@).take(j + 1).last() == keys@[j as int]@);
            if str_eq(keys[j].as_str(), key.as_str()) {
                n = n + 1;
            }
            j = j + 1;
        }
        assert(strs(keys@).take(keys@.len() as int) == strs(keys@));
        let folder = if n == 0 {
            base
        } else {
            let mut f = base;
            f.append("-");
            push_decimal(&mut f, n + 1);
            f
        };
        out.push(folder);
        let ghost before = keys@;
        let ghost kv = key@;
        keys.push(key);
        assert(strs(keys@) =~= strs(before).push(kv));
        assert(folder_keys(people@).take(k + 1) =~= folder_keys(people@).take(k as int).push(kv));
        k = k + 1;
    }
    out
}

/// The ids of `ids`, each once, in order of first appearance.
pub open spec fn distinct_ids(ids: Seq<i64>) -> Seq<i64>
    decreases ids.len(),
{
    if ids.len() == 0 {
        seq![]
    } else {
        let prev = distinct_ids(ids.drop_last());
        if prev.contains(ids.last()) {
            prev
        } else {
            prev.push(ids.last())
        }
    }
}

/// The photos of a person's faces, each once, in order of first appearance.
pub fn unique_photo_ids(ids: &Vec<i64>) -> (r: Vec<i64>)
    ensures
        r@ == distinct_ids(ids@),
{
    let mut out: Vec<i64> = Vec::new();
    let mut k: usize = 0;
    while k < ids.len()
        invariant
            k <= ids@.len(),
            out@ == distinct_ids(ids@.take(k as int)),
        decreases ids@.len() - k,
    {
        assert(ids@.take(k + 1).drop_last() == ids@.take(k as int));
        let id = ids[k];
        let mut found = false;
        let mut j: usize = 0;
        while j < out.len() && !found
            invariant
                j <= out@.len(),
                !found ==> forall|m: int| 0 <= m < j ==> out@[m] != id,
                found ==> out@.contains(id),
            decreases out@.len() - j,
        {
            if out[j] == id {
                found = true;
            }
            j = j + 1;
        }
        if !found {
            out.push(id);
        }
        k = k + 1;
    }
    assert(ids@.take(ids@.len() as int) == ids@);
    out
}

/// The position of the last `.` in `s`, if any.
pub open spec fn last_dot(s: Seq<char>, i: int) -> Option<int>
    decreases i,
{
    if i <= 0 || i > s.len() {
        None
    } else if s[i - 1] == '.' {
        Some(i - 1)
    } else {
        last_dot(s, i - 1)
    }
}

/// The name tried, with suffix `n`, when a copy's file name is taken:
/// `<stem>-<n><.ext>`, splitting at the last dot.
pub open spec fn copy_name_spec(name: Seq<char>, n: nat) -> Seq<char> {
    match last_dot(name, name.len() as int) {
        Some(d) => name.subrange(0, d) + "-"@ + decimal(n) + name.subrange(d, name.len() as int),
        None => name + "-"@ + decimal(n),
    }
}

/// The name tried, with suffix `n`, when a copy's file name is taken (see
/// `copy_name_spec`).
pub fn copy_name(name: &str, n: u32) -> (r: String)
    ensures
        r@ == copy_name_spec(name@, n as nat),
{
    let v = crate::text::chars_of(name);
    let mut i = v.len();
    while i > 0 && v[i - 1] != '.'
        invariant
            i <= v@.len(),
            v@ == name@,
            last_dot(v@, v@.len() as int) == last_dot(v@, i as int),
        decreases i,
    {
        i = i - 1;
    }
    if i == 0 {
        let mut r = name.to_owned();
        r.append("-");
        push_decimal(&mut r, n as u64);
        r
    } else {
        let mut r = crate::text::string_from_range(&v, 0, i - 1);
        r.append("-");
        push_decimal(&mut r, n as u64);
        let ext = crate::text::string_from_range(&v, i - 1, v.len());
        r.append(ext.as_str());
        r
    }
}

/// The file name a photo is copied under: its own, or `foto_<id>.jpg`.
pub fn copy_file_name(file_name: Option<String>, photo_id: i64) -> (r: String)
    ensures
        match file_name {
            Some(n) => r@ == n@,
            None => r@ == "foto_"@ + signed_decimal(photo_id as int) + ".jpg"@,
        },
{
    match file_name {
        Some(n) => n,
        None => {
            let mut s = "foto_".to_owned();
            push_i64(&mut s, photo_id);
            s.append(".jpg");
            s
        },
    }
}

/// A person's new name: the given name, trimmed; refused when blank.
pub fn person_group_name(new_name: &str) -> (r: Result<String, String>)
    ensures
        trim(new_name@).len() == 0 ==> (r matches Err(e) && e@ == "nome do grupo não pode ser vazio"@),
        trim(new_name@).len() > 0 ==> (r matches Ok(n) && n@ == trim(new_name@)),
{
    let t = trim_str(new_name);
    if t.as_str().is_empty() {
        Err("nome do grupo não pode ser vazio".to_owned())
    } else {
        Ok(t)
    }
}

/// The folder of the `k`-th person found by a face grouping: `Pessoa <k + 1>`.
pub fn grouped_person_folder(k: u32) -> (r: String)
    ensures
        r@ == "Pessoa "@ + decimal(k as nat + 1),
{
    let mut s = "Pessoa ".to_owned();
    push_decimal(&mut s, k as u64 + 1);
    s
}

proof fn lemma_count_grows(keys: Seq<Seq<char>>, k1: int, k2: int)
    requires
        0 <= k1 < k2 <= keys.len(),
    ensures
        count_of(keys.take(k2), keys[k1]) >= count_of(keys.take(k1), keys[k1]) + 1,
    decreases k2 - k1,
{
    let key = keys[k1];
    assert(keys.take(k2).drop_last() == keys.take(k2 - 1));
    if k2 == k1 + 1 {
        assert(keys.take(k2).last() == key);
    } else {
        lemma_count_grows(keys, k1, k2 - 1);
    }
}

/// Law: two people whose names make the same folder name get different
/// folders, so no person's photos land in another person's folder.
pub proof fn lemma_people_folders_distinct(people: Seq<PersonEntry>, k1: int, k2: int)
    requires
        0 <= k1 < k2 < people.len(),
        person_base_name(people[k1]) == person_base_name(people[k2]),
    ensures
        person_folder(people, k1) != person_folder(people, k2),
{
    let keys = folder_keys(people);
    let base = person_base_name(people[k1]);
    assert(keys[k1] == keys[k2]);
    lemma_count_grows(keys, k1, k2);
    let n1 = count_of(keys.take(k1), keys[k1]);
    let n2 = count_of(keys.take(k2), keys[k2]);
    reveal_strlit("-");
    if n1 == 0 {
        assert(person_folder(people, k1).len() < person_folder(people, k2).len());
    } else {
        let f1 = person_folder(people, k1);
        let f2 = person_folder(people, k2);
        if f1 == f2 {
            let l = base.len() + 1;
            assert(f1.subrange(l as int, f1.len() as int) =~= decimal(n1 + 1));
            assert(f2.subrange(l as int, f2.len() as int) =~= decimal(n2 + 1));
            lemma_decimal_value(n1 + 1);
            lemma_decimal_value(n2 + 1);
        }
    }
}

} // verus!
