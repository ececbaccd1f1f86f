//! Output file names for batch exports: each photo is written under its own
//! stem, and a stem already used in the batch gets the first free numeric
//! suffix (`stem_1`, `stem_2`, ...). All names of a batch share one
//! extension, so comparing names is comparing file names.
use vstd::prelude::*;
use vstd::set_lib::{lemma_int_range, lemma_len_subset, lemma_map_size, set_int_range};

use crate::grouping::strs;
use crate::text::{chars_of, decimal, digit_char, push_char, push_decimal, str_eq};

verus! {

/// The `k`-th candidate name for `stem`: the stem itself, then `stem_k`.
pub open spec fn suffixed(stem: Seq<char>, k: nat) -> Seq<char> {
    if k == 0 {
        stem
    } else {
        stem + "_"@ + decimal(k)
    }
}

/// The first candidate, from the `k`-th on, that `chosen` does not hold.
pub open spec fn first_free(chosen: Seq<Seq<char>>, stem: Seq<char>, k: nat) -> nat
    decreases chosen.len() + 1 - k,
{
    if k > chosen.len() {
        k
    } else if chosen.contains(suffixed(stem, k)) {
        first_free(chosen, stem, k + 1)
    } else {
        k
    }
}

/// The name a stem gets after the names `chosen` earlier in the batch.
pub open spec fn batch_name(chosen: Seq<Seq<char>>, stem: Seq<char>) -> Seq<char> {
    suffixed(stem, first_free(chosen, stem, 0))
}

/// The names of a batch, stem by stem.
pub open spec fn batch_names_spec(stems: Seq<Seq<char>>) -> Seq<Seq<char>>
    decreases stems.len(),
{
    if stems.len() == 0 {
        seq![]
    } else {
        let prev = batch_names_spec(stems.drop_last());
        prev.push(batch_name(prev, stems.last()))
    }
}

/// The value of a string of decimal digits.
pub open spec fn decimal_value(s: Seq<char>) -> nat
    decreases s.len(),
{
    if s.len() == 0 {
        0
    } else {
        decimal_value(s.drop_last()) * 10 + (s.last() as nat - '0' as nat) as nat
    }
}

proof fn lemma_digit_char(d: nat)
    requires
        d < 10,
    ensures
        digit_char(d) as nat == '0' as nat + d,
{
    assert(('0' as nat + d) as char as nat == '0' as nat + d);
}

/// The digits of `n` read back give `n`.
pub proof fn lemma_decimal_value(n: nat)
    ensures
        decimal_value(decimal(n)) == n,
    decreases n,
{
    lemma_digit_char(n % 10);
    let d = decimal(n);
    if n >= 10 {
        lemma_decimal_value(n / 10);
        assert(d == decimal(n / 10).push(digit_char(n % 10)));
        assert(d.drop_last() == decimal(n / 10));
        assert(d.last() == digit_char(n % 10));
        assert(decimal_value(d) == decimal_value(decimal(n / 10)) * 10 + n % 10);
    } else {
        assert(d == seq![digit_char(n)]);
        assert(d.drop_last() =~= Seq::<char>::empty());
        assert(decimal_value(d) == decimal_value(d.drop_last()) * 10 + (d.last() as nat - '0' as nat) as nat);
    }
}

proof fn lemma_suffixed_injective(stem: Seq<char>, a: nat, b: nat)
    requires
        suffixed(stem, a) == suffixed(stem, b),
    ensures
        a == b,
{
    reveal_strlit("_");
    if a != b {
        if a == 0 || b == 0 {
            assert(suffixed(stem, a).len() != suffixed(stem, b).len());
        } else {
            let sa = suffixed(stem, a);
            let l = stem.len() + 1;
            assert(sa.subrange(l as int, sa.len() as int) =~= decimal(a));
            assert(suffixed(stem, b).subrange(l as int, sa.len() as int) =~= decimal(b));
            lemma_decimal_value(a);
            lemma_decimal_value(b);
        }
    }
}

/// No sequence of `m` names holds `m + 1` distinct candidates.
proof fn lemma_some_candidate_free(chosen: Seq<Seq<char>>, stem: Seq<char>)
    ensures
        exists|k: nat| k <= chosen.len() && !chosen.contains(#[trigger] suffixed(stem, k)),
{
    if forall|k: nat| k <= chosen.len() ==> chosen.contains(#[trigger] suffixed(stem, k)) {
        let m = chosen.len() as int;
        let f = |i: int| suffixed(stem, i as nat);
        let cands = set_int_range(0, m + 1);
        lemma_int_range(0, m + 1);
        assert(vstd::relations::injective_on(f, cands)) by {
            assert forall|x: int, y: int| cands.contains(x) && cands.contains(y) && #[trigger] f(x)
                == #[trigger] f(y) implies x == y by {
                lemma_suffixed_injective(stem, x as nat, y as nat);
            }
        }
        lemma_map_size(cands, cands.map(f), f);
        assert(cands.map(f).subset_of(chosen.to_set())) by {
            assert forall|s: Seq<char>| cands.map(f).contains(s) implies chosen.to_set().contains(s) by {
                let i = choose|i: int| cands.contains(i) && f(i) == s;
                assert(chosen.contains(suffixed(stem, i as nat)));
            }
        }
        chosen.lemma_cardinality_of_set();
        lemma_len_subset(cands.map(f), chosen.to_set());
        assert(false);
    }
}

proof fn lemma_first_free(chosen: Seq<Seq<char>>, stem: Seq<char>, k: nat)
    requires
        forall|j: nat| j < k ==> chosen.contains(#[trigger] suffixed(stem, j)),
    ensures
        first_free(chosen, stem, k) <= chosen.len(),
        !chosen.contains(suffixed(stem, first_free(chosen, stem, k))),
        forall|j: nat|
            j < first_free(chosen, stem, k) ==> chosen.contains(#[trigger] suffixed(stem, j)),
    decreases chosen.len() + 1 - k,
{
    lemma_some_candidate_free(chosen, stem);
    let w = choose|j: nat| j <= chosen.len() && !chosen.contains(#[trigger] suffixed(stem, j));
    if k > chosen.len() {
        assert(chosen.contains(suffixed(stem, w)));
    } else if chosen.contains(suffixed(stem, k)) {
        lemma_first_free(chosen, stem, k + 1);
    }
}

/// Whether `name` is among `chosen`.
fn is_chosen(chosen: &Vec<String>, name: &str) -> (r: bool)
    ensures
        r == strs(chosen@).contains(name@),
{
    let mut k: usize = 0;
    while k < chosen.len()
        invariant
            k <= chosen@.len(),
            forall|m: int| 0 <= m < k ==> chosen@[m]@ != name@,
        decreases chosen@.len() - k,
    {
        if str_eq(chosen[k].as_str(), name) {
            assert(strs(chosen@)[k as int] == name@);
            return true;
        }
        k = k + 1;
    }
    assert forall|m: int| 0 <= m < strs(chosen@).len() implies strs(chosen@)[m] != name@ by {
        assert(strs(chosen@)[m] == chosen@[m]@);
    }
    false
}

/// The `k`-th candidate name for `stem` (see `suffixed`).
pub fn candidate_name(stem: &str, k: u64) -> (r: String)
    ensures
        r@ == suffixed(stem@, k as nat),
{
    let mut s = stem.to_owned();
    if k > 0 {
        s.append("_");
        push_decimal(&mut s, k);
    }
    s
}

/// The name `stem` gets after the names `chosen` earlier in its batch: the
/// first of `stem`, `stem_1`, `stem_2`, ... not chosen yet.
pub fn unique_name(chosen: &Vec<String>, stem: &str) -> (r: String)
    ensures
        r@ == batch_name(strs(chosen@), stem@),
        !strs(chosen@).contains(r@),
{
    let ghost c = strs(chosen@);
    proof {
        lemma_first_free(c, stem@, 0);
    }
    let n = chosen.len();
    let mut k: u64 = 0;
    let mut name = candidate_name(stem, 0);
    while is_chosen(chosen, name.as_str())
        invariant
            c == strs(chosen@),
            c.len() == n,
            k <= first_free(c, stem@, 0) <= c.len(),
            name@ == suffixed(stem@, k as nat),
            first_free(c, stem@, k as nat) == first_free(c, stem@, 0),
            !c.contains(suffixed(stem@, first_free(c, stem@, 0))),
        decreases c.len() - k,
    {
        k = k + 1;
        name = candidate_name(stem, k);
    }
    name
}

/// The names of a batch of photos with the given stems, in order (see
/// `unique_name`).
pub fn batch_names(stems: &Vec<String>) -> (r: Vec<String>)
    ensures
        strs(r@) == batch_names_spec(strs(stems@)),
{
    let mut out: Vec<String> = Vec::new();
    let mut k: usize = 0;
    while k < stems.len()
        invariant
            k <= stems@.len(),
            strs(out@) == batch_names_spec(strs(stems@).take(k as int)),
        decreases stems@.len() - k,
    {
        assert(strs(stems@).take(k + 1).drop_last() == strs(stems@).take(k as int));
        assert(strs(stems@).take(k + 1).last() == stems@[k as int]@);
        let name = unique_name(&out, stems[k].as_str());
        let ghost before = out@;
        let ghost nv = name@;
        out.push(name);
        assert(strs(out@) =~= strs(before).push(nv));
        k = k + 1;
    }
    assert(strs(stems@).take(stems@.len() as int) == strs(stems@));
    out
}

/// Law: the names of a batch are pairwise distinct, so no export in a batch
/// overwrites another.
pub proof fn lemma_batch_names_distinct(stems: Seq<Seq<char>>)
    ensures
        batch_names_spec(stems).len() == stems.len(),
        forall|i: int, j: int|
            0 <= i < j < stems.len() ==> #[trigger] batch_names_spec(stems)[i]
                != #[trigger] batch_names_spec(stems)[j],
    decreases stems.len(),
{
    if stems.len() > 0 {
        let init = stems.drop_last();
        lemma_batch_names_distinct(init);
        let prev = batch_names_spec(init);
        lemma_first_free(prev, stems.last(), 0);
        let names = batch_names_spec(stems);
        assert(names == prev.push(batch_name(prev, stems.last())));
        assert forall|i: int, j: int| 0 <= i < j < stems.len() implies #[trigger] names[i]
            != #[trigger] names[j] by {
            if j == stems.len() - 1 {
                assert(names[i] == prev[i]);
                assert(prev.contains(prev[i]));
            } else {
                assert(names[i] == prev[i] && names[j] == prev[j]);
            }
        }
    }
}

/// The date part of an EXIF capture time ("2024:05:10 14:30:00"): its first
/// ten characters, with `:` written as `-` so the name is valid everywhere.
pub open spec fn date_prefix(taken_at: Seq<char>) -> Seq<char> {
    taken_at.subrange(0, 10).map_values(|c: char| if c == ':' { '-' } else { c })
}

/// The base name (without extension) of the `seq`-th photo of an export,
/// after the naming pattern: "{n}_{original}" puts the sequence number before
/// the stem, "{date}_{original}" the capture date (when the photo has one of
/// at least ten characters); any other pattern keeps the stem.
pub open spec fn export_name_spec(naming: Seq<char>, seq: nat, taken_at: Option<Seq<char>>, stem: Seq<char>) -> Seq<
    char,
> {
    if naming == "{n}_{original}"@ {
        decimal(seq) + seq!['_'] + stem
    } else if naming == "{date}_{original}"@ {
        match taken_at {
            Some(t) => if t.len() >= 10 {
                date_prefix(t) + seq!['_'] + stem
            } else {
                stem
            },
            None => stem,
        }
    } else {
        stem
    }
}

/// The base name of the `seq`-th photo of an export (see `export_name_spec`).
pub fn build_export_name(naming: &str, seq: u64, taken_at: Option<&str>, stem: &str) -> (r: String)
    ensures
        r@ == export_name_spec(
            naming@,
            seq as nat,
            match taken_at {
                Some(t) => Some(t@),
                None => None,
            },
            stem@,
        ),
{
    if str_eq(naming, "{n}_{original}") {
        let mut r = String::new();
        push_decimal(&mut r, seq);
        push_char(&mut r, '_');
        r.append(stem);
        return r;
    }
    if str_eq(naming, "{date}_{original}") {
        if let Some(t) = taken_at {
            let v = chars_of(t);
            if v.len() >= 10 {
                let mut r = String::new();
                let mut k: usize = 0;
                while k < 10
                    invariant
                        k <= 10 <= v@.len(),
                        v@ == t@,
                        r@ == v@.subrange(0, k as int).map_values(|c: char| if c == ':' { '-' } else { c }),
                    decreases 10 - k,
                {
                    let c = v[k];
                    push_char(&mut r, if c == ':' { '-' } else { c });
                    assert(v@.subrange(0, k + 1) == v@.subrange(0, k as int).push(c));
                    k = k + 1;
                }
                push_char(&mut r, '_');
                r.append(stem);
                return r;
            }
        }
    }
    stem.to_owned()
}

/// The `k`-th name tried for an edited export whose base name is taken: each
/// retry appends `_<k>` to the previous try (`b`, `b_1`, `b_1_2`, ...).
pub open spec fn chained(base: Seq<char>, k: nat) -> Seq<char>
    decreases k,
{
    if k == 0 {
        base
    } else {
        chained(base, (k - 1) as nat) + seq!['_'] + decimal(k)
    }
}

/// The first try, from the `k`-th on, that `chosen` does not hold.
pub open spec fn chained_free(chosen: Seq<Seq<char>>, base: Seq<char>, k: nat) -> nat
    decreases chosen.len() + 1 - k,
{
    if k > chosen.len() {
        k
    } else if chosen.contains(chained(base, k)) {
        chained_free(chosen, base, k + 1)
    } else {
        k
    }
}

/// The name an edited export gets after the names `chosen` earlier in the batch.
pub open spec fn chained_name(chosen: Seq<Seq<char>>, base: Seq<char>) -> Seq<char> {
    chained(base, chained_free(chosen, base, 0))
}

/// The names of a batch of edited exports, base name by base name.
pub open spec fn chained_names_spec(bases: Seq<Seq<char>>) -> Seq<Seq<char>>
    decreases bases.len(),
{
    if bases.len() == 0 {
        seq![]
    } else {
        let prev = chained_names_spec(bases.drop_last());
        prev.push(chained_name(prev, bases.last()))
    }
}

proof fn lemma_chained_grows(base: Seq<char>, a: nat, b: nat)
    requires
        a < b,
    ensures
        chained(base, a).len() < chained(base, b).len(),
    decreases b,
{
    assert(decimal(b).len() >= 1);
    if a + 1 < b {
        lemma_chained_grows(base, a, (b - 1) as nat);
    }
}

proof fn lemma_some_chained_free(chosen: Seq<Seq<char>>, base: Seq<char>)
    ensures
        exists|k: nat| k <= chosen.len() && !chosen.contains(#[trigger] chained(base, k)),
{
    if forall|k: nat| k <= chosen.len() ==> chosen.contains(#[trigger] chained(base, k)) {
        let m = chosen.len() as int;
        let f = |i: int| chained(base, i as nat);
        let cands = set_int_range(0, m + 1);
        lemma_int_range(0, m + 1);
        assert(vstd::relations::injective_on(f, cands)) by {
            assert forall|x: int, y: int| cands.contains(x) && cands.contains(y) && #[trigger] f(x)
                == #[trigger] f(y) implies x == y by {
                if x < y {
                    lemma_chained_grows(base, x as nat, y as nat);
                } else if y < x {
                    lemma_chained_grows(base, y as nat, x as nat);
                }
            }
        }
        lemma_map_size(cands, cands.map(f), f);
        assert(cands.map(f).subset_of(chosen.to_set())) by {
            assert forall|s: Seq<char>| cands.map(f).contains(s) implies chosen.to_set().contains(s) by {
                let i = choose|i: int| cands.contains(i) && f(i) == s;
                assert(chosen.contains(chained(base, i as nat)));
            }
        }
        chosen.lemma_cardinality_of_set();
        lemma_len_subset(cands.map(f), chosen.to_set());
        assert(false);
    }
}

proof fn lemma_chained_free(chosen: Seq<Seq<char>>, base: Seq<char>, k: nat)
    requires
        forall|j: nat| j < k ==> chosen.contains(#[trigger] chained(base, j)),
    ensures
        chained_free(chosen, base, k) <= chosen.len(),
        !chosen.contains(chained(base, chained_free(chosen, base, k))),
    decreases chosen.len() + 1 - k,
{
    lemma_some_chained_free(chosen, base);
    let w = choose|j: nat| j <= chosen.len() && !chosen.contains(#[trigger] chained(base, j));
    if k > chosen.len() {
        assert(chosen.contains(chained(base, w)));
    } else if chosen.contains(chained(base, k)) {
        lemma_chained_free(chosen, base, k + 1);
    }
}

/// The name an edited export with base name `base` gets after the names
/// `chosen` earlier in its batch (see `chained_name`).
pub fn chained_unique_name(chosen: &Vec<String>, base: &str) -> (r: String)
    ensures
        r@ == chained_name(strs(chosen@), base@),
        !strs(chosen@).contains(r@),
{
    let ghost c = strs(chosen@);
    proof {
        lemma_chained_free(c, base@, 0);
    }
    let n = chosen.len();
    let mut k: u64 = 0;
    let mut name = base.to_owned();
    while is_chosen(chosen, name.as_str())
        invariant
            c == strs(chosen@),
            c.len() == n,
            k <= chained_free(c, base@, 0) <= c.len(),
            name@ == chained(base@, k as nat),
            chained_free(c, base@, k as nat) == chained_free(c, base@, 0),
            !c.contains(chained(base@, chained_free(c, base@, 0))),
        decreases c.len() - k,
    {
        k = k + 1;
        push_char(&mut name, '_');
        push_decimal(&mut name, k);
    }
    name
}

/// The names of a batch of edited exports with the given base names, in
/// order (see `chained_unique_name`).
pub fn chained_batch_names(bases: &Vec<String>) -> (r: Vec<String>)
    ensures
        strs(r@) == chained_names_spec(strs(bases@)),
{
    let mut out: Vec<String> = Vec::new();
    let mut k: usize = 0;
    while k < bases.len()
        invariant
            k <= bases@.len(),
            strs(out@) == chained_names_spec(strs(bases@).take(k as int)),
        decreases bases@.len() - k,
    {
        assert(strs(bases@).take(k + 1).drop_last() == strs(bases@).take(k as int));
        assert(strs(bases@).take(k + 1).last() == bases@[k as int]@);
        let name = chained_unique_name(&out, bases[k].as_str());
        let ghost before = out@;
        let ghost nv = name@;
        out.push(name);
        assert(strs(out@) =~= strs(before).push(nv));
        k = k + 1;
    }
    assert(strs(bases@).take(bases@.len() as int) == strs(bases@));
    out
}

/// Law: the names of a batch of edited exports are pairwise distinct.
pub proof fn lemma_chained_names_distinct(bases: Seq<Seq<char>>)
    ensures
        chained_names_spec(bases).len() == bases.len(),
        forall|i: int, j: int|
            0 <= i < j < bases.len() ==> #[trigger] chained_names_spec(bases)[i]
                != #[trigger] chained_names_spec(bases)[j],
    decreases bases.len(),
{
    if bases.len() > 0 {
        let init = bases.drop_last();
        lemma_chained_names_distinct(init);
        let prev = chained_names_spec(init);
        lemma_chained_free(prev, bases.last(), 0);
        let names = chained_names_spec(bases);
        assert(names == prev.push(chained_name(prev, bases.last())));
        assert forall|i: int, j: int| 0 <= i < j < bases.len() implies #[trigger] names[i]
            != #[trigger] names[j] by {
            if j == bases.len() - 1 {
                assert(names[i] == prev[i]);
                assert(prev.contains(prev[i]));
            } else {
                assert(names[i] == prev[i] && names[j] == prev[j]);
            }
        }
    }
}

} // verus!
