use std::collections::BTreeMap;
use vstd::laws_cmp::obeys_cmp;
use vstd::prelude::*;
use vstd::std_specs::btree::{increasing_seq, key_obeys_cmp_spec, spec_btree_map_iter};
use vstd::std_specs::cmp::OrdSpec;
use vstd::std_specs::iter::IteratorSpec;

use crate::diet::Diet;
use crate::text::{decimal, push_decimal_usize, push_str};

verus! {

/// Head count of animals by diet.
#[derive(Debug, Clone, Copy, PartialEq, Eq, Structural)]
pub struct AnimalPopulation {
    pub carnivores: usize,
    pub herbivores: usize,
    pub omnivores: usize,
    pub scavengers: usize,
}

impl Default for AnimalPopulation {
    fn default() -> (p: Self)
        ensures
            p == (AnimalPopulation { carnivores: 0, herbivores: 0, omnivores: 0, scavengers: 0 }),
    {
        AnimalPopulation { carnivores: 0, herbivores: 0, omnivores: 0, scavengers: 0 }
    }
}

/// How many of `animals` have diet `d`.
pub open spec fn diet_count(animals: Seq<(Diet, u32)>, d: Diet) -> nat
    decreases animals.len(),
{
    if animals.len() == 0 {
        0
    } else {
        diet_count(animals.drop_last(), d) + if animals.last().0 == d {
            1nat
        } else {
            0nat
        }
    }
}

/// How many of `animals` belong to family `f`.
pub open spec fn family_count(animals: Seq<(Diet, u32)>, f: u32) -> nat
    decreases animals.len(),
{
    if animals.len() == 0 {
        0
    } else {
        family_count(animals.drop_last(), f) + if animals.last().1 == f {
            1nat
        } else {
            0nat
        }
    }
}

/// The head count of `animals` (each given by its diet and family).
pub open spec fn population_of(animals: Seq<(Diet, u32)>) -> AnimalPopulation {
    AnimalPopulation {
        carnivores: diet_count(animals, Diet::Carnivore) as usize,
        herbivores: diet_count(animals, Diet::Herbivore) as usize,
        omnivores: diet_count(animals, Diet::Omnivore) as usize,
        scavengers: diet_count(animals, Diet::Scavenger) as usize,
    }
}

/// Members per family among `animals`, for every family present.
pub open spec fn families_of(animals: Seq<(Diet, u32)>) -> Map<u32, usize> {
    Map::new(
        |f: u32| exists|k: int| 0 <= k < animals.len() && (#[trigger] animals[k]).1 == f,
        |f: u32| family_count(animals, f) as usize,
    )
}

proof fn lemma_counts_bounded(animals: Seq<(Diet, u32)>, d: Diet, f: u32)
    ensures
        diet_count(animals, d) <= animals.len(),
        family_count(animals, f) <= animals.len(),
        family_count(animals, f) > 0 <==> exists|k: int| 0 <= k < animals.len() && (#[trigger] animals[k]).1 == f,
    decreases animals.len(),
{
    if animals.len() > 0 {
        let init = animals.drop_last();
        lemma_counts_bounded(init, d, f);
        if exists|k: int| 0 <= k < init.len() && (#[trigger] init[k]).1 == f {
            let k = choose|k: int| 0 <= k < init.len() && (#[trigger] init[k]).1 == f;
            assert(animals[k] == init[k]);
        }
        if exists|k: int| 0 <= k < animals.len() && (#[trigger] animals[k]).1 == f {
            let k = choose|k: int| 0 <= k < animals.len() && (#[trigger] animals[k]).1 == f;
            if k < init.len() {
                assert(animals[k] == init[k]);
            }
        }
    }
}

/// Counts `animals` by diet and by family.
pub fn census(animals: &[(Diet, u32)]) -> (r: (AnimalPopulation, BTreeMap<u32, usize>))
    ensures
        r.0 == population_of(animals@),
        r.1@ == families_of(animals@),
{
    let mut population = AnimalPopulation { carnivores: 0, herbivores: 0, omnivores: 0, scavengers: 0 };
    let mut families: BTreeMap<u32, usize> = BTreeMap::new();
    let mut i: usize = 0;
    while i < animals.len()
        invariant
            i <= animals@.len(),
            population == population_of(animals@.take(i as int)),
            families@ == families_of(animals@.take(i as int)),
        decreases animals@.len() - i,
    {
        let (diet, family) = animals[i];
        let ghost before = animals@.take(i as int);
        let ghost after = animals@.take(i + 1);
        proof {
            assert(after.drop_last() =~= before);
            assert(after.last() == (diet, family));
            lemma_counts_bounded(before, diet, family);
            lemma_counts_bounded(after, diet, family);
        }
        match diet {
            Diet::Carnivore => population.carnivores = population.carnivores + 1,
            Diet::Herbivore => population.herbivores = population.herbivores + 1,
            Diet::Omnivore => population.omnivores = population.omnivores + 1,
            Diet::Scavenger => population.scavengers = population.scavengers + 1,
        }
        let count: usize = match families.get(&family) {
            Some(c) => *c,
            None => 0,
        };
        proof {
            if families@.contains_key(family) {
                assert(count == family_count(before, family));
            } else {
                assert(family_count(before, family) == 0);
                assert(count == 0);
            }
        }
        families.insert(family, count + 1);
        i = i + 1;
        proof {
            assert forall|f: u32| #[trigger] families@.contains_key(f) == families_of(after).contains_key(f) by {
                lemma_counts_bounded(before, diet, f);
                lemma_counts_bounded(after, diet, f);
            }
            assert forall|f: u32| families@.contains_key(f) implies #[trigger] families@[f] == families_of(after)[f] by {
                lemma_counts_bounded(after, diet, f);
            }
            assert(families@ =~= families_of(after));
        }
    }
    proof {
        assert(animals@.take(i as int) =~= animals@);
    }
    (population, families)
}


/// `v` lists the entries of `m` by strictly increasing key.
pub open spec fn is_key_ordered_listing(v: Seq<(u32, usize)>, m: Map<u32, usize>) -> bool {
    &&& forall|a: int, b: int| 0 <= a < b < v.len() ==> (#[trigger] v[a]).0 < (#[trigger] v[b]).0
    &&& forall|k: int| 0 <= k < v.len() ==> m.contains_key((#[trigger] v[k]).0) && m[v[k].0] == v[k].1
    &&& forall|f: u32| #[trigger] m.contains_key(f) ==> exists|k: int| 0 <= k < v.len() && (#[trigger] v[k]).0 == f
}

/// The entries of `m` listed by increasing key.
pub open spec fn key_ordered_listing(m: Map<u32, usize>) -> Seq<(u32, usize)> {
    choose|v: Seq<(u32, usize)>| is_key_ordered_listing(v, m)
}

/// The entries of `m` listed largest first, ties by increasing key.
pub open spec fn size_ranked_listing(m: Map<u32, usize>) -> Seq<(u32, usize)> {
    choose|r: Seq<(u32, usize)>| is_size_ranked_listing(r, m)
}

/// The entries of `m` by increasing key.
pub fn ordered_entries(m: &BTreeMap<u32, usize>) -> (v: Vec<(u32, usize)>)
    ensures
        is_key_ordered_listing(v@, m@),
        v@ == key_ordered_listing(m@),
{
    let mut v: Vec<(u32, usize)> = Vec::new();
    let ghost spec_entries = spec_btree_map_iter(m).remaining();
    proof {
        assert(obeys_cmp::<u32>());
        assert(key_obeys_cmp_spec::<u32>());
    }
    let iter = m.iter();
    proof {
        assert(iter.remaining() == spec_entries);
        assert(increasing_seq(spec_entries.map_values(|kv: (&u32, &usize)| *kv.0)));
    }
    for (k, c) in it: iter
        invariant
            it.seq() == spec_entries,
            v@.len() == it.index(),
            forall|i: int| 0 <= i < it.index() ==> v@[i] == (*it.seq()[i].0, *it.seq()[i].1),
    {
        v.push((*k, *c));
    }
    proof {
        let keys = spec_entries.map_values(|kv: (&u32, &usize)| *kv.0);
        assert(v@.len() == spec_entries.len());
        assert forall|a: int, b: int| 0 <= a < b < v@.len() implies (#[trigger] v@[a]).0 < (
        #[trigger] v@[b]).0 by {
            assert(keys[a] == v@[a].0 && keys[b] == v@[b].0);
            broadcast use vstd::std_specs::btree::axiom_increasing_seq_meaning;
            assert(increasing_seq(keys));
            assert(keys[a].cmp_spec(&keys[b]) is Less);
        }
        assert forall|k: int| 0 <= k < v@.len() implies m@.contains_key((#[trigger] v@[k]).0)
            && m@[v@[k].0] == v@[k].1 by {
            assert(m@.contains_key(*spec_entries[k].0));
        }
        assert forall|f: u32| #[trigger] m@.contains_key(f) implies exists|k: int|
            0 <= k < v@.len() && (#[trigger] v@[k]).0 == f by {
            assert(spec_entries.contains((&f, &m@[f])));
            let k = choose|k: int| 0 <= k < spec_entries.len() && spec_entries[k] == (&f, &m@[f]);
            assert(v@[k].0 == f);
        }
    }
    proof {
        assert(is_key_ordered_listing(v@, m@));
        assert(exists|w: Seq<(u32, usize)>| is_key_ordered_listing(w, m@));
        lemma_key_ordered_listing_unique(v@, key_ordered_listing(m@), m@);
    }
    v
}

/// Two listings of the same map by increasing key are the same listing.
pub proof fn lemma_key_ordered_listing_unique(v: Seq<(u32, usize)>, w: Seq<(u32, usize)>, m: Map<u32, usize>)
    requires
        is_key_ordered_listing(v, m),
        is_key_ordered_listing(w, m),
    ensures
        v == w,
    decreases v.len(),
{
    if v.len() == 0 {
        if w.len() > 0 {
            assert(m.contains_key(w[0].0));
        }
        assert(v =~= w);
    } else {
        assert(m.contains_key(v[0].0));
        let kw = choose|k: int| 0 <= k < w.len() && (#[trigger] w[k]).0 == v[0].0;
        assert(m.contains_key(w[0].0));
        let kv = choose|k: int| 0 <= k < v.len() && (#[trigger] v[k]).0 == w[0].0;
        if kw > 0 {
            assert(w[0].0 < w[kw].0);
        }
        if kv > 0 {
            assert(v[0].0 < v[kv].0);
        }
        assert(v[0] == w[0]);
        let key = v[0].0;
        let m2 = m.remove(key);
        let v2 = v.drop_first();
        let w2 = w.drop_first();
        assert forall|f: u32| #[trigger] m2.contains_key(f) implies exists|k: int|
            0 <= k < v2.len() && (#[trigger] v2[k]).0 == f by {
            let k = choose|k: int| 0 <= k < v.len() && (#[trigger] v[k]).0 == f;
            assert(v2[k - 1] == v[k]);
        }
        assert forall|f: u32| #[trigger] m2.contains_key(f) implies exists|k: int|
            0 <= k < w2.len() && (#[trigger] w2[k]).0 == f by {
            let k = choose|k: int| 0 <= k < w.len() && (#[trigger] w[k]).0 == f;
            assert(w2[k - 1] == w[k]);
        }
        assert forall|k: int| 0 <= k < v2.len() implies m2.contains_key((#[trigger] v2[k]).0)
            && m2[v2[k].0] == v2[k].1 by {
            assert(v2[k] == v[k + 1]);
            assert(v[0].0 < v[k + 1].0);
        }
        assert forall|k: int| 0 <= k < w2.len() implies m2.contains_key((#[trigger] w2[k]).0)
            && m2[w2[k].0] == w2[k].1 by {
            assert(w2[k] == w[k + 1]);
            assert(w[0].0 < w[k + 1].0);
        }
        assert forall|a: int, b: int| 0 <= a < b < v2.len() implies (#[trigger] v2[a]).0 < (
        #[trigger] v2[b]).0 by {
            assert(v2[a] == v[a + 1] && v2[b] == v[b + 1]);
        }
        assert forall|a: int, b: int| 0 <= a < b < w2.len() implies (#[trigger] w2[a]).0 < (
        #[trigger] w2[b]).0 by {
            assert(w2[a] == w[a + 1] && w2[b] == w[b + 1]);
        }
        lemma_key_ordered_listing_unique(v2, w2, m2);
        assert(v =~= seq![v[0]] + v2);
        assert(w =~= seq![w[0]] + w2);
    }
}

/// Two maps listed by increasing key are equal exactly when their listings are.
proof fn lemma_listing_equal_iff(v: Seq<(u32, usize)>, m: Map<u32, usize>, w: Seq<(u32, usize)>, n: Map<u32, usize>)
    requires
        is_key_ordered_listing(v, m),
        is_key_ordered_listing(w, n),
    ensures
        (v == w) == (m == n),
{
    if m == n {
        lemma_key_ordered_listing_unique(v, w, m);
    }
    if v == w {
        assert forall|f: u32| #[trigger] m.contains_key(f) == n.contains_key(f) by {
            if m.contains_key(f) {
                let k = choose|k: int| 0 <= k < v.len() && (#[trigger] v[k]).0 == f;
            }
            if n.contains_key(f) {
                let k = choose|k: int| 0 <= k < w.len() && (#[trigger] w[k]).0 == f;
            }
        }
        assert forall|f: u32| m.contains_key(f) implies #[trigger] m[f] == n[f] by {
            let k = choose|k: int| 0 <= k < v.len() && (#[trigger] v[k]).0 == f;
        }
        assert(m =~= n);
    }
}

/// Whether two family tallies are equal.
pub fn families_equal(a: &BTreeMap<u32, usize>, b: &BTreeMap<u32, usize>) -> (r: bool)
    ensures
        r == (a@ == b@),
{
    let va = ordered_entries(a);
    let vb = ordered_entries(b);
    proof {
        lemma_listing_equal_iff(va@, a@, vb@, b@);
    }
    if va.len() != vb.len() {
        proof {
            assert(va@.len() != vb@.len());
        }
        return false;
    }
    let mut i: usize = 0;
    while i < va.len()
        invariant
            va@.len() == vb@.len(),
            (va@ == vb@) == (a@ == b@),
            i <= va@.len(),
            forall|k: int| 0 <= k < i ==> va@[k] == vb@[k],
        decreases va@.len() - i,
    {
        if va[i].0 != vb[i].0 || va[i].1 != vb[i].1 {
            proof {
                assert(va@[i as int] != vb@[i as int]);
            }
            return false;
        }
        i = i + 1;
    }
    proof {
        assert(va@ =~= vb@);
    }
    true
}

/// `"family:count"` for one entry of a family tally.
pub open spec fn family_entry_text(e: (u32, usize)) -> Seq<char> {
    decimal(e.0 as nat) + ":"@ + decimal(e.1 as nat)
}

/// The entries of `v` as `"family:count"`, separated by `|`.
pub open spec fn joined_family_entries(v: Seq<(u32, usize)>) -> Seq<char>
    decreases v.len(),
{
    if v.len() == 0 {
        Seq::empty()
    } else if v.len() == 1 {
        family_entry_text(v[0])
    } else {
        joined_family_entries(v.drop_last()) + "|"@ + family_entry_text(v.last())
    }
}

/// The families part of a population report: `none`, or the entries joined by `|`.
pub open spec fn family_report(v: Seq<(u32, usize)>) -> Seq<char> {
    if v.len() == 0 {
        "none"@
    } else {
        joined_family_entries(v)
    }
}

/// The population report line for `plants` plants, head count `p`, and the
/// family tally listed by increasing family as `v`.
pub open spec fn population_report(plants: usize, p: AnimalPopulation, v: Seq<(u32, usize)>) -> Seq<char> {
    "population_size plants="@ + decimal(plants as nat) + " animals={carnivores:"@ + decimal(
        p.carnivores as nat,
    ) + " herbivores:"@ + decimal(p.herbivores as nat) + " omnivores:"@ + decimal(p.omnivores as nat)
        + " scavengers:"@ + decimal(p.scavengers as nat) + "} families="@ + family_report(v)
}

fn push_family_entry(s: &mut String, e: (u32, usize))
    ensures
        final(s)@ == old(s)@ + family_entry_text(e),
{
    crate::text::push_decimal(s, e.0 as u64);
    push_str(s, ":");
    push_decimal_usize(s, e.1);
}

/// Builds the families part of a population report.
fn family_report_text(v: &Vec<(u32, usize)>) -> (s: String)
    ensures
        s@ == family_report(v@),
{
    let mut s = String::new();
    if v.len() == 0 {
        push_str(&mut s, "none");
        return s;
    }
    push_family_entry(&mut s, v[0]);
    let mut i: usize = 1;
    proof {
        assert(v@.take(1).drop_last() =~= Seq::<(u32, usize)>::empty());
        assert(joined_family_entries(v@.take(1)) == family_entry_text(v@[0]));
    }
    while i < v.len()
        invariant
            1 <= i <= v@.len(),
            s@ == joined_prefix(v@, i as int),
        decreases v@.len() - i,
    {
        push_str(&mut s, "|");
        push_family_entry(&mut s, v[i]);
        proof {
            assert(v@.take(i + 1).drop_last() =~= v@.take(i as int));
            assert(v@.take(i + 1).last() == v@[i as int]);
        }
        i = i + 1;
    }
    proof {
        assert(v@.take(i as int) =~= v@);
    }
    s
}

spec fn joined_prefix(v: Seq<(u32, usize)>, i: int) -> Seq<char> {
    joined_family_entries(v.take(i))
}

/// `r` lists the entries of `m`, the largest families first and, among
/// families of equal size, by increasing family.
pub open spec fn is_size_ranked_listing(r: Seq<(u32, usize)>, m: Map<u32, usize>) -> bool {
    &&& forall|a: int, b: int|
        0 <= a < b < r.len() ==> (#[trigger] r[a]).1 > (#[trigger] r[b]).1 || (r[a].1 == r[b].1
            && r[a].0 < r[b].0)
    &&& forall|k: int| 0 <= k < r.len() ==> m.contains_key((#[trigger] r[k]).0) && m[r[k].0] == r[k].1
    &&& forall|f: u32| #[trigger] m.contains_key(f) ==> exists|k: int| 0 <= k < r.len() && (#[trigger] r[k]).0 == f
}

/// Two listings of the same map, largest families first and ties by
/// increasing family, are the same listing.
pub proof fn lemma_size_ranked_listing_unique(v: Seq<(u32, usize)>, w: Seq<(u32, usize)>, m: Map<u32, usize>)
    requires
        is_size_ranked_listing(v, m),
        is_size_ranked_listing(w, m),
    ensures
        v == w,
    decreases v.len(),
{
    if v.len() == 0 {
        if w.len() > 0 {
            assert(m.contains_key(w[0].0));
        }
        assert(v =~= w);
    } else {
        assert(m.contains_key(v[0].0));
        assert(m.contains_key(w[0].0));
        let kw = choose|k: int| 0 <= k < w.len() && (#[trigger] w[k]).0 == v[0].0;
        let kv = choose|k: int| 0 <= k < v.len() && (#[trigger] v[k]).0 == w[0].0;
        assert(w[kw] == v[0]);
        assert(v[kv] == w[0]);
        if kw > 0 && kv > 0 {
            assert(w[0].1 > w[kw].1 || (w[0].1 == w[kw].1 && w[0].0 < w[kw].0));
            assert(v[0].1 > v[kv].1 || (v[0].1 == v[kv].1 && v[0].0 < v[kv].0));
        }
        if kw == 0 {
            assert(v[0] == w[0]);
        } else if kv == 0 {
            assert(v[0] == w[0]);
        }
        let key = v[0].0;
        let m2 = m.remove(key);
        let v2 = v.drop_first();
        let w2 = w.drop_first();
        assert forall|k: int| 0 <= k < v2.len() implies (#[trigger] v2[k]).0 != key by {
            assert(v2[k] == v[k + 1]);
            assert(v[0].1 > v[k + 1].1 || (v[0].1 == v[k + 1].1 && v[0].0 < v[k + 1].0));
        }
        assert forall|k: int| 0 <= k < w2.len() implies (#[trigger] w2[k]).0 != key by {
            assert(w2[k] == w[k + 1]);
            assert(w[0].1 > w[k + 1].1 || (w[0].1 == w[k + 1].1 && w[0].0 < w[k + 1].0));
        }
        assert forall|f: u32| #[trigger] m2.contains_key(f) implies exists|k: int|
            0 <= k < v2.len() && (#[trigger] v2[k]).0 == f by {
            let k = choose|k: int| 0 <= k < v.len() && (#[trigger] v[k]).0 == f;
            assert(v2[k - 1] == v[k]);
        }
        assert forall|f: u32| #[trigger] m2.contains_key(f) implies exists|k: int|
            0 <= k < w2.len() && (#[trigger] w2[k]).0 == f by {
            let k = choose|k: int| 0 <= k < w.len() && (#[trigger] w[k]).0 == f;
            assert(w2[k - 1] == w[k]);
        }
        assert forall|k: int| 0 <= k < v2.len() implies m2.contains_key((#[trigger] v2[k]).0)
            && m2[v2[k].0] == v2[k].1 by {
            assert(v2[k] == v[k + 1]);
        }
        assert forall|k: int| 0 <= k < w2.len() implies m2.contains_key((#[trigger] w2[k]).0)
            && m2[w2[k].0] == w2[k].1 by {
            assert(w2[k] == w[k + 1]);
        }
        assert forall|a: int, b: int| 0 <= a < b < v2.len() implies (#[trigger] v2[a]).1 > (
        #[trigger] v2[b]).1 || (v2[a].1 == v2[b].1 && v2[a].0 < v2[b].0) by {
            assert(v2[a] == v[a + 1] && v2[b] == v[b + 1]);
        }
        assert forall|a: int, b: int| 0 <= a < b < w2.len() implies (#[trigger] w2[a]).1 > (
        #[trigger] w2[b]).1 || (w2[a].1 == w2[b].1 && w2[a].0 < w2[b].0) by {
            assert(w2[a] == w[a + 1] && w2[b] == w[b + 1]);
        }
        lemma_size_ranked_listing_unique(v2, w2, m2);
        assert(v =~= seq![v[0]] + v2);
        assert(w =~= seq![w[0]] + w2);
    }
}

/// `r` is ordered largest families first, ties by increasing family.
spec fn size_ranked(r: Seq<(u32, usize)>) -> bool {
    forall|a: int, b: int|
        0 <= a < b < r.len() ==> (#[trigger] r[a]).1 > (#[trigger] r[b]).1 || (r[a].1 == r[b].1
            && r[a].0 < r[b].0)
}

/// The entries of a family tally, largest families first, ties by
/// increasing family.
pub fn size_ranked_entries(m: &BTreeMap<u32, usize>) -> (r: Vec<(u32, usize)>)
    ensures
        is_size_ranked_listing(r@, m@),
        r@ == size_ranked_listing(m@),
{
    let listing = ordered_entries(m);
    let mut ranked: Vec<(u32, usize)> = Vec::new();
    let mut i: usize = 0;
    while i < listing.len()
        invariant
            i <= listing@.len(),
            is_key_ordered_listing(listing@, m@),
            size_ranked(ranked@),
            ranked@.len() == i,
            forall|k: int| 0 <= k < ranked@.len() ==> exists|j: int| 0 <= j < i && listing@[j] == #[trigger] ranked@[k],
            forall|j: int| 0 <= j < i ==> ranked@.contains(#[trigger] listing@[j]),
        decreases listing@.len() - i,
    {
        let e = listing[i];
        let mut pos: usize = 0;
        while pos < ranked.len() && ranked[pos].1 >= e.1
            invariant
                pos <= ranked@.len(),
                forall|k: int| 0 <= k < pos ==> (#[trigger] ranked@[k]).1 >= e.1,
            decreases ranked@.len() - pos,
        {
            pos = pos + 1;
        }
        let ghost before = ranked@;
        proof {
            assert forall|k: int| 0 <= k < before.len() implies (#[trigger] before[k]).0 < e.0 by {
                let j = choose|j: int| 0 <= j < i && listing@[j] == before[k];
            }
            assert forall|k: int| pos <= k < before.len() implies (#[trigger] before[k]).1 < e.1 by {
                assert(before[pos as int].1 < e.1);
                if k > pos {
                    assert(before[pos as int].1 >= before[k].1);
                }
            }
        }
        ranked.insert(pos, e);
        proof {
            let after = ranked@;
            assert forall|a: int, b: int| 0 <= a < b < after.len() implies (#[trigger] after[a]).1
                > (#[trigger] after[b]).1 || (after[a].1 == after[b].1 && after[a].0 < after[b].0) by {
                if b < pos {
                    assert(after[a] == before[a] && after[b] == before[b]);
                } else if b == pos {
                    assert(after[a] == before[a]);
                } else if a < pos {
                    assert(after[a] == before[a] && after[b] == before[b - 1]);
                } else if a == pos {
                    assert(after[b] == before[b - 1]);
                } else {
                    assert(after[a] == before[a - 1] && after[b] == before[b - 1]);
                }
            }
            assert forall|k: int| 0 <= k < after.len() implies exists|j: int|
                0 <= j < i + 1 && listing@[j] == #[trigger] after[k] by {
                if k < pos {
                    assert(after[k] == before[k]);
                    let j = choose|j: int| 0 <= j < i && listing@[j] == before[k];
                } else if k > pos {
                    assert(after[k] == before[k - 1]);
                    let j = choose|j: int| 0 <= j < i && listing@[j] == before[k - 1];
                } else {
                    assert(listing@[i as int] == after[k]);
                }
            }
            assert forall|j: int| 0 <= j < i + 1 implies after.contains(#[trigger] listing@[j]) by {
                if j == i {
                    assert(after[pos as int] == listing@[j]);
                } else {
                    assert(before.contains(listing@[j]));
                    let k = choose|k: int| 0 <= k < before.len() && before[k] == listing@[j];
                    if k < pos {
                        assert(after[k] == before[k]);
                    } else {
                        assert(after[k + 1] == before[k]);
                    }
                }
            }
        }
        i = i + 1;
    }
    proof {
        assert forall|k: int| 0 <= k < ranked@.len() implies m@.contains_key((#[trigger] ranked@[k]).0)
            && m@[ranked@[k].0] == ranked@[k].1 by {
            let j = choose|j: int| 0 <= j < i && listing@[j] == ranked@[k];
        }
        assert forall|f: u32| #[trigger] m@.contains_key(f) implies exists|k: int|
            0 <= k < ranked@.len() && (#[trigger] ranked@[k]).0 == f by {
            let j = choose|j: int| 0 <= j < listing@.len() && (#[trigger] listing@[j]).0 == f;
            assert(ranked@.contains(listing@[j]));
        }
    }
    proof {
        assert(is_size_ranked_listing(ranked@, m@));
        assert(exists|w: Seq<(u32, usize)>| is_size_ranked_listing(w, m@));
        lemma_size_ranked_listing_unique(ranked@, size_ranked_listing(m@), m@);
    }
    ranked
}

/// One line of the family list in the status text: `"  #family: count"`.
pub open spec fn family_line(e: (u32, usize)) -> Seq<char> {
    "  #"@ + decimal(e.0 as nat) + ": "@ + decimal(e.1 as nat)
}

/// The family lines of `r`, separated by newlines.
pub open spec fn family_lines(r: Seq<(u32, usize)>) -> Seq<char>
    decreases r.len(),
{
    if r.len() == 0 {
        Seq::empty()
    } else if r.len() == 1 {
        family_line(r[0])
    } else {
        family_lines(r.drop_last()) + "\n"@ + family_line(r.last())
    }
}

/// The status text shown on screen at frame `frame`.
pub open spec fn status_text_of(frame: u64, plants: usize, p: AnimalPopulation, r: Seq<(u32, usize)>) -> Seq<char> {
    "Frame: "@ + decimal(frame as nat) + "\nPlants: "@ + decimal(plants as nat) + "\nAnimals: "@
        + decimal((p.herbivores + p.omnivores + p.carnivores + p.scavengers) as nat) + "\n  Herbivore: "@
        + decimal(p.herbivores as nat) + "\n  Omnivore: "@ + decimal(p.omnivores as nat)
        + "\n  Carnivore: "@ + decimal(p.carnivores as nat) + "\n  Scavenger: "@ + decimal(
        p.scavengers as nat,
    ) + "\nFamilies: "@ + decimal(r.len()) + "\n"@ + family_lines(r)
}

fn push_family_line(s: &mut String, e: (u32, usize))
    ensures
        final(s)@ == old(s)@ + family_line(e),
{
    push_str(s, "  #");
    crate::text::push_decimal(s, e.0 as u64);
    push_str(s, ": ");
    push_decimal_usize(s, e.1);
}

spec fn lines_prefix(r: Seq<(u32, usize)>, i: int) -> Seq<char> {
    family_lines(r.take(i))
}

fn push_family_lines(s: &mut String, r: &Vec<(u32, usize)>)
    ensures
        final(s)@ == old(s)@ + family_lines(r@),
{
    if r.len() == 0 {
        proof {
            assert(old(s)@ + family_lines(r@) =~= old(s)@);
        }
        return;
    }
    let ghost start = s@;
    push_family_line(s, r[0]);
    proof {
        assert(r@.take(1).drop_last() =~= Seq::<(u32, usize)>::empty());
        assert(family_lines(r@.take(1)) == family_line(r@[0]));
    }
    let mut i: usize = 1;
    while i < r.len()
        invariant
            1 <= i <= r@.len(),
            s@ == start + lines_prefix(r@, i as int),
        decreases r@.len() - i,
    {
        push_str(s, "\n");
        push_family_line(s, r[i]);
        proof {
            assert(r@.take(i + 1).drop_last() =~= r@.take(i as int));
            assert(r@.take(i + 1).last() == r@[i as int]);
            assert(s@ =~= start + lines_prefix(r@, i + 1));
        }
        i = i + 1;
    }
    proof {
        assert(r@.take(i as int) =~= r@);
    }
}

/// What the population tracker last recorded.
pub struct PopulationSizeTracker {
    pub plants: usize,
    pub animals: AnimalPopulation,
    pub families: BTreeMap<u32, usize>,
    pub initialized: bool,
}

impl Default for PopulationSizeTracker {
    fn default() -> (t: Self)
        ensures
            t.plants == 0,
            t.animals == (AnimalPopulation { carnivores: 0, herbivores: 0, omnivores: 0, scavengers: 0 }),
            t.families@ == Map::<u32, usize>::empty(),
            !t.initialized,
    {
        PopulationSizeTracker {
            plants: 0,
            animals: AnimalPopulation { carnivores: 0, herbivores: 0, omnivores: 0, scavengers: 0 },
            families: BTreeMap::new(),
            initialized: false,
        }
    }
}

impl PopulationSizeTracker {
    /// Whether an observation of `plants` plants and `animals` differs from
    /// what the tracker last recorded.
    pub open spec fn differs(self, plants: usize, animals: Seq<(Diet, u32)>) -> bool {
        self.plants != plants || self.animals != population_of(animals) || self.families@
            != families_of(animals)
    }

    /// Records the current census. Returns the report line to log when the
    /// tracker had already been initialized and the census changed; the first
    /// observation only initializes the tracker.
    pub fn observe(&mut self, plants: usize, animals: &[(Diet, u32)]) -> (report: Option<String>)
        ensures
            final(self).plants == plants,
            final(self).animals == population_of(animals@),
            final(self).families@ == families_of(animals@),
            final(self).initialized,
            report is Some <==> old(self).initialized && old(self).differs(plants, animals@),
            report is Some ==> is_key_ordered_listing(
                key_ordered_listing(families_of(animals@)),
                families_of(animals@),
            ),
            report matches Some(msg) ==> msg@ == population_report(
                plants,
                population_of(animals@),
                key_ordered_listing(families_of(animals@)),
            ),
    {
        let (population, families) = census(animals);
        if !self.initialized {
            self.plants = plants;
            self.animals = population;
            self.families = families;
            self.initialized = true;
            return None;
        }
        let same_families = families_equal(&self.families, &families);
        if self.plants != plants || self.animals != population || !same_families {
            let listing = ordered_entries(&families);
            let mut msg = String::new();
            push_str(&mut msg, "population_size plants=");
            push_decimal_usize(&mut msg, plants);
            push_str(&mut msg, " animals={carnivores:");
            push_decimal_usize(&mut msg, population.carnivores);
            push_str(&mut msg, " herbivores:");
            push_decimal_usize(&mut msg, population.herbivores);
            push_str(&mut msg, " omnivores:");
            push_decimal_usize(&mut msg, population.omnivores);
            push_str(&mut msg, " scavengers:");
            push_decimal_usize(&mut msg, population.scavengers);
            push_str(&mut msg, "} families=");
            let report = family_report_text(&listing);
            push_str(&mut msg, report.as_str());
            self.plants = plants;
            self.animals = population;
            self.families = families;
            proof {
                assert(msg@ =~= population_report(plants, population_of(animals@), listing@));
            }
            Some(msg)
        } else {
            None
        }
    }

    /// The status text shown on screen at frame `frame`: counts by diet and
    /// the families, largest first.
    pub fn status_text(&self, frame: u64) -> (text: String)
        requires
            self.animals.herbivores + self.animals.omnivores + self.animals.carnivores
                + self.animals.scavengers <= usize::MAX,
        ensures
            is_size_ranked_listing(size_ranked_listing(self.families@), self.families@),
            text@ == status_text_of(
                frame,
                self.plants,
                self.animals,
                size_ranked_listing(self.families@),
            ),
    {
        let ranked = size_ranked_entries(&self.families);
        let p = self.animals;
        let total = p.herbivores + p.omnivores + p.carnivores + p.scavengers;
        let mut text = String::new();
        push_str(&mut text, "Frame: ");
        crate::text::push_decimal(&mut text, frame);
        push_str(&mut text, "\nPlants: ");
        push_decimal_usize(&mut text, self.plants);
        push_str(&mut text, "\nAnimals: ");
        push_decimal_usize(&mut text, total);
        push_str(&mut text, "\n  Herbivore: ");
        push_decimal_usize(&mut text, p.herbivores);
        push_str(&mut text, "\n  Omnivore: ");
        push_decimal_usize(&mut text, p.omnivores);
        push_str(&mut text, "\n  Carnivore: ");
        push_decimal_usize(&mut text, p.carnivores);
        push_str(&mut text, "\n  Scavenger: ");
        push_decimal_usize(&mut text, p.scavengers);
        push_str(&mut text, "\nFamilies: ");
        push_decimal_usize(&mut text, ranked.len());
        push_str(&mut text, "\n");
        push_family_lines(&mut text, &ranked);
        proof {
            assert(text@ =~= status_text_of(frame, self.plants, self.animals, ranked@));
        }
        text
    }
}

/// The animals of `animals` whose diet is `d`.
pub open spec fn of_diet(animals: Seq<(Diet, u32)>, d: Diet) -> Seq<(Diet, u32)> {
    animals.filter(|a: (Diet, u32)| a.0 == d)
}

proof fn lemma_diet_count_is_filter(animals: Seq<(Diet, u32)>, d: Diet)
    ensures
        diet_count(animals, d) == of_diet(animals, d).len(),
    decreases animals.len(),
{
    reveal_with_fuel(Seq::filter, 1);
    if animals.len() > 0 {
        lemma_diet_count_is_filter(animals.drop_last(), d);
    }
}

/// Law: the census gives each diet the number of animals of that diet.
pub proof fn lemma_census_counts_each_diet(animals: Seq<(Diet, u32)>)
    requires
        animals.len() <= usize::MAX,
    ensures
        population_of(animals).carnivores == of_diet(animals, Diet::Carnivore).len(),
        population_of(animals).herbivores == of_diet(animals, Diet::Herbivore).len(),
        population_of(animals).omnivores == of_diet(animals, Diet::Omnivore).len(),
        population_of(animals).scavengers == of_diet(animals, Diet::Scavenger).len(),
{
    lemma_diet_count_is_filter(animals, Diet::Carnivore);
    lemma_diet_count_is_filter(animals, Diet::Herbivore);
    lemma_diet_count_is_filter(animals, Diet::Omnivore);
    lemma_diet_count_is_filter(animals, Diet::Scavenger);
    lemma_counts_bounded(animals, Diet::Carnivore, 0);
    lemma_counts_bounded(animals, Diet::Herbivore, 0);
    lemma_counts_bounded(animals, Diet::Omnivore, 0);
    lemma_counts_bounded(animals, Diet::Scavenger, 0);
}

/// The animals of `animals` that belong to family `f`.
pub open spec fn of_family(animals: Seq<(Diet, u32)>, f: u32) -> Seq<(Diet, u32)> {
    animals.filter(|a: (Diet, u32)| a.1 == f)
}

proof fn lemma_family_count_is_filter(animals: Seq<(Diet, u32)>, f: u32)
    ensures
        family_count(animals, f) == of_family(animals, f).len(),
    decreases animals.len(),
{
    reveal_with_fuel(Seq::filter, 1);
    if animals.len() > 0 {
        lemma_family_count_is_filter(animals.drop_last(), f);
    }
}

/// Law: the family tally of a census lists exactly the families that occur
/// among the animals, each with its number of members.
pub proof fn lemma_census_counts_each_family(animals: Seq<(Diet, u32)>, f: u32)
    requires
        animals.len() <= usize::MAX,
    ensures
        families_of(animals).contains_key(f) <==> of_family(animals, f).len() > 0,
        families_of(animals).contains_key(f) ==> families_of(animals)[f] == of_family(animals, f).len(),
{
    lemma_family_count_is_filter(animals, f);
    lemma_counts_bounded(animals, Diet::Herbivore, f);
}

/// Law: the population report of a census names the plant count, then the
/// number of animals of each diet under that diet's own name (carnivores,
/// herbivores, omnivores, scavengers), then the families.
pub proof fn lemma_report_counts_each_diet(plants: usize, animals: Seq<(Diet, u32)>, v: Seq<(u32, usize)>)
    requires
        animals.len() <= usize::MAX,
    ensures
        population_report(plants, population_of(animals), v) == "population_size plants="@
            + decimal(plants as nat)
            + " animals={carnivores:"@ + decimal(of_diet(animals, Diet::Carnivore).len())
            + " herbivores:"@ + decimal(of_diet(animals, Diet::Herbivore).len())
            + " omnivores:"@ + decimal(of_diet(animals, Diet::Omnivore).len())
            + " scavengers:"@ + decimal(of_diet(animals, Diet::Scavenger).len())
            + "} families="@ + family_report(v),
{
    lemma_census_counts_each_diet(animals);
}

/// Law: the status text reads, line by line, the frame, the plants, the
/// number of animals, each diet's own head count under its own name
/// (herbivores, omnivores, carnivores, scavengers), the number of families,
/// and then one line per family.
pub proof fn lemma_status_text_lines(frame: u64, plants: usize, p: AnimalPopulation, r: Seq<(u32, usize)>)
    ensures
        status_text_of(frame, plants, p, r) == "Frame: "@ + decimal(frame as nat)
            + "\n"@ + "Plants: "@ + decimal(plants as nat)
            + "\n"@ + "Animals: "@ + decimal((p.carnivores + p.herbivores + p.omnivores + p.scavengers) as nat)
            + "\n"@ + "  Herbivore: "@ + decimal(p.herbivores as nat)
            + "\n"@ + "  Omnivore: "@ + decimal(p.omnivores as nat)
            + "\n"@ + "  Carnivore: "@ + decimal(p.carnivores as nat)
            + "\n"@ + "  Scavenger: "@ + decimal(p.scavengers as nat)
            + "\n"@ + "Families: "@ + decimal(r.len())
            + "\n"@ + family_lines(r),
{
    reveal_strlit("\n");
    reveal_strlit("Frame: ");
    reveal_strlit("Plants: ");
    reveal_strlit("Animals: ");
    reveal_strlit("  Herbivore: ");
    reveal_strlit("  Omnivore: ");
    reveal_strlit("  Carnivore: ");
    reveal_strlit("  Scavenger: ");
    reveal_strlit("Families: ");
    reveal_strlit("\nPlants: ");
    reveal_strlit("\nAnimals: ");
    reveal_strlit("\n  Herbivore: ");
    reveal_strlit("\n  Omnivore: ");
    reveal_strlit("\n  Carnivore: ");
    reveal_strlit("\n  Scavenger: ");
    reveal_strlit("\nFamilies: ");
    assert(status_text_of(frame, plants, p, r) =~= "Frame: "@ + decimal(frame as nat)
            + "\n"@ + "Plants: "@ + decimal(plants as nat)
            + "\n"@ + "Animals: "@ + decimal((p.carnivores + p.herbivores + p.omnivores + p.scavengers) as nat)
            + "\n"@ + "  Herbivore: "@ + decimal(p.herbivores as nat)
            + "\n"@ + "  Omnivore: "@ + decimal(p.omnivores as nat)
            + "\n"@ + "  Carnivore: "@ + decimal(p.carnivores as nat)
            + "\n"@ + "  Scavenger: "@ + decimal(p.scavengers as nat)
            + "\n"@ + "Families: "@ + decimal(r.len())
            + "\n"@ + family_lines(r));
}

/// Law: the families part of a report is `none` when there are no
/// families, and otherwise each family as `family:count`, in the order
/// given, separated by `|`.
pub proof fn lemma_family_report_layout(v: Seq<(u32, usize)>, e: (u32, usize))
    ensures
        family_report(Seq::empty()) == seq!['n', 'o', 'n', 'e'],
        family_report(seq![e]) == decimal(e.0 as nat) + seq![':'] + decimal(e.1 as nat),
        v.len() > 0 ==> family_report(v.push(e)) == family_report(v) + seq!['|'] + decimal(
            e.0 as nat,
        ) + seq![':'] + decimal(e.1 as nat),
{
    reveal_strlit("none");
    reveal_strlit(":");
    reveal_strlit("|");
    assert("none"@ =~= seq!['n', 'o', 'n', 'e']);
    assert(":"@ =~= seq![':']);
    assert("|"@ =~= seq!['|']);
    assert(seq![e].len() == 1 && seq![e][0] == e);
    if v.len() > 0 {
        assert(v.push(e).drop_last() =~= v);
        assert(v.push(e).last() == e);
    }
}

/// Law: the family lines of the status text are one line `  #family: count`
/// per family, in the order given, separated by newlines.
pub proof fn lemma_family_lines_layout(r: Seq<(u32, usize)>, e: (u32, usize))
    ensures
        family_lines(Seq::empty()) == Seq::<char>::empty(),
        family_lines(seq![e]) == seq![' ', ' ', '#'] + decimal(e.0 as nat) + seq![':', ' ']
            + decimal(e.1 as nat),
        r.len() > 0 ==> family_lines(r.push(e)) == family_lines(r) + seq!['\n'] + seq![' ', ' ', '#']
            + decimal(e.0 as nat) + seq![':', ' '] + decimal(e.1 as nat),
{
    reveal_strlit("  #");
    reveal_strlit(": ");
    reveal_strlit("\n");
    assert("  #"@ =~= seq![' ', ' ', '#']);
    assert(": "@ =~= seq![':', ' ']);
    assert("\n"@ =~= seq!['\n']);
    assert(seq![e].len() == 1 && seq![e][0] == e);
    if r.len() > 0 {
        assert(r.push(e).drop_last() =~= r);
        assert(r.push(e).last() == e);
    }
}

/// Law: the head counts by diet add up to the number of animals counted.
pub proof fn lemma_census_total(animals: Seq<(Diet, u32)>)
    ensures
        diet_count(animals, Diet::Carnivore) + diet_count(animals, Diet::Herbivore) + diet_count(
            animals,
            Diet::Omnivore,
        ) + diet_count(animals, Diet::Scavenger) == animals.len(),
    decreases animals.len(),
{
    if animals.len() > 0 {
        lemma_census_total(animals.drop_last());
    }
}

/// Law: a census counts as a change exactly when the plant count, the count
/// of some diet, or the family tally differs from what the tracker holds.
pub proof fn lemma_change_detection(tracker: PopulationSizeTracker, plants: usize, animals: Seq<(Diet, u32)>)
    requires
        animals.len() <= usize::MAX,
    ensures
        tracker.differs(plants, animals) <==> (tracker.plants != plants || tracker.animals.carnivores
            != of_diet(animals, Diet::Carnivore).len() || tracker.animals.herbivores != of_diet(
            animals,
            Diet::Herbivore,
        ).len() || tracker.animals.omnivores != of_diet(animals, Diet::Omnivore).len()
            || tracker.animals.scavengers != of_diet(animals, Diet::Scavenger).len()
            || tracker.families@ != families_of(animals)),
{
    lemma_census_counts_each_diet(animals);
}

/// Law: once the tracker has recorded a census, observing the same census
/// again reports nothing.
pub proof fn lemma_repeat_observation_is_silent(
    tracker: PopulationSizeTracker,
    plants: usize,
    animals: Seq<(Diet, u32)>,
)
    requires
        tracker.plants == plants,
        tracker.animals == population_of(animals),
        tracker.families@ == families_of(animals),
    ensures
        !tracker.differs(plants, animals),
{
}

} // verus!
