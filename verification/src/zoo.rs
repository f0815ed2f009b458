use vstd::prelude::*;

use crate::diet::Diet;
use crate::rng::draw_below;
use std::collections::HashMap;
use vstd::set_lib::{lemma_int_range, lemma_len_subset, set_int_range};

verus! {

/// How many animals of each diet the zoo keeps.
pub const ZOO_PER_DIET: usize = 6;

/// An animal remembered by the zoo: how long it lived, what it ate, its
/// genome (carried along untouched), its family and its generation.
#[derive(Debug)]
pub struct ZooAnimal<G> {
    pub lifetime_frames: u64,
    pub diet: Diet,
    pub genome: G,
    pub family: u32,
    pub generation: u32,
}

impl<G> ZooAnimal<G> {
    /// The zoo's record of an animal that spawned at frame `spawn_at` and was
    /// despawned at frame `despawn_at`.
    pub fn from_despawn(
        spawn_at: u64,
        despawn_at: u64,
        diet: Diet,
        genome: G,
        family: u32,
        generation: u32,
    ) -> (z: Self)
        requires
            spawn_at <= despawn_at,
        ensures
            z.lifetime_frames == despawn_at - spawn_at,
            z.diet == diet,
            z.genome == genome,
            z.family == family,
            z.generation == generation,
    {
        ZooAnimal { lifetime_frames: despawn_at - spawn_at, diet, genome, family, generation }
    }
}

/// Position of a diet in the zoo's listing: herbivores, omnivores,
/// carnivores, then scavengers.
pub open spec fn diet_rank(d: Diet) -> int {
    match d {
        Diet::Herbivore => 0,
        Diet::Omnivore => 1,
        Diet::Carnivore => 2,
        Diet::Scavenger => 3,
    }
}

/// `s[i]` is the representative of its family in `s`: no member of the
/// family lived longer, and every earlier member lived strictly shorter.
#[verifier::opaque]
pub open spec fn is_family_best<G>(s: Seq<ZooAnimal<G>>, i: int) -> bool {
    &&& 0 <= i < s.len()
    &&& forall|j: int|
        #![trigger s[j]]
        0 <= j < s.len() && s[j].family == s[i].family ==> s[j].lifetime_frames
            <= s[i].lifetime_frames
    &&& forall|j: int|
        #![trigger s[j]]
        0 <= j < i && s[j].family == s[i].family ==> s[j].lifetime_frames
            < s[i].lifetime_frames
}

/// `x` is the representative of some family of `s`.
pub open spec fn is_representative<G>(s: Seq<ZooAnimal<G>>, x: ZooAnimal<G>) -> bool {
    exists|i: int| is_family_best(s, i) && s[i] == x
}

/// No two entries share a family.
pub open spec fn distinct_families<G>(s: Seq<ZooAnimal<G>>) -> bool {
    forall|a: int, b: int| 0 <= a < b < s.len() ==> #[trigger] s[a].family != #[trigger] s[b].family
}

/// Entries are grouped by diet in the zoo's diet order, and within a diet
/// the longer-lived come first.
pub open spec fn ranked<G>(s: Seq<ZooAnimal<G>>) -> bool {
    forall|a: int, b: int|
        0 <= a < b < s.len() ==> {
            &&& diet_rank(#[trigger] s[a].diet) <= diet_rank(#[trigger] s[b].diet)
            &&& (s[a].diet == s[b].diet ==> s[a].lifetime_frames >= s[b].lifetime_frames)
        }
}

/// Entries of the same diet lie fewer than `ZOO_PER_DIET` places apart, so
/// that in a ranked listing no diet occupies more than `ZOO_PER_DIET` places.
pub open spec fn diet_capped<G>(s: Seq<ZooAnimal<G>>) -> bool {
    forall|a: int, b: int|
        0 <= a < b < s.len() && (#[trigger] s[a]).diet == (#[trigger] s[b]).diet ==> b - a
            < ZOO_PER_DIET
}

/// The `ZOO_PER_DIET` entries of `s` from position `lo` on are all of diet
/// `d` and each lived at least `lifetime` frames.
pub open spec fn diet_window<G>(s: Seq<ZooAnimal<G>>, lo: int, d: Diet, lifetime: u64) -> bool {
    &&& 0 <= lo
    &&& lo + ZOO_PER_DIET <= s.len()
    &&& forall|k: int|
        #![trigger s[k]]
        lo <= k < lo + ZOO_PER_DIET ==> s[k].diet == d && s[k].lifetime_frames >= lifetime
}

/// `s` holds `ZOO_PER_DIET` consecutive entries of diet `d`, each of which
/// lived at least `lifetime` frames.
pub open spec fn diet_full_above<G>(s: Seq<ZooAnimal<G>>, d: Diet, lifetime: u64) -> bool {
    exists|lo: int| #[trigger] diet_window(s, lo, d, lifetime)
}

/// A zoo listing as the rules leave it.
pub open spec fn is_curated<G>(s: Seq<ZooAnimal<G>>) -> bool {
    &&& distinct_families(s)
    &&& ranked(s)
    &&& diet_capped(s)
}

/// `out` is what the zoo rules make of `input`: one representative per
/// family (the longest-lived, the earliest among equals), at most
/// `ZOO_PER_DIET` per diet ranked by lifetime, and a family's representative
/// is left out only when its diet is full of animals that lived at least as
/// long.
pub open spec fn zoo_rules_hold<G>(input: Seq<ZooAnimal<G>>, out: Seq<ZooAnimal<G>>) -> bool {
    &&& forall|k: int| 0 <= k < out.len() ==> is_representative(input, #[trigger] out[k])
    &&& is_curated(out)
    &&& forall|i: int|
        is_family_best(input, i) ==> out.contains(input[i]) || diet_full_above(
            out,
            input[i].diet,
            input[i].lifetime_frames,
        )
}

proof fn lemma_family_best_step<G>(orig: Seq<ZooAnimal<G>>, n: int, j: int)
    requires
        0 <= n < orig.len(),
        0 <= j < n,
        orig[j].family != orig[n].family,
    ensures
        is_family_best(orig.take(n + 1), j) == is_family_best(orig.take(n), j),
{
    reveal(is_family_best);
    let p = orig.take(n);
    let q = orig.take(n + 1);
    assert forall|x: int| 0 <= x < n implies #[trigger] q[x] == p[x] by {}
    assert(q[n] == orig[n]);
}

proof fn lemma_family_best_new<G>(orig: Seq<ZooAnimal<G>>, n: int)
    requires
        0 <= n < orig.len(),
        forall|x: int| 0 <= x < n ==> #[trigger] orig[x].family != orig[n].family,
    ensures
        is_family_best(orig.take(n + 1), n),
{
    reveal(is_family_best);
    let q = orig.take(n + 1);
    assert forall|x: int| 0 <= x < n implies #[trigger] q[x] == orig[x] by {}
}

proof fn lemma_family_best_replaced<G>(orig: Seq<ZooAnimal<G>>, n: int, j0: int)
    requires
        0 <= j0 < n < orig.len(),
        is_family_best(orig.take(n), j0),
        orig[j0].family == orig[n].family,
        orig[n].lifetime_frames > orig[j0].lifetime_frames,
    ensures
        is_family_best(orig.take(n + 1), n),
{
    reveal(is_family_best);
    let p = orig.take(n);
    let q = orig.take(n + 1);
    assert forall|x: int| 0 <= x < n implies #[trigger] q[x] == p[x] by {}
    assert(p[j0] == orig[j0]);
}

proof fn lemma_family_best_kept<G>(orig: Seq<ZooAnimal<G>>, n: int, j0: int)
    requires
        0 <= j0 < n < orig.len(),
        is_family_best(orig.take(n), j0),
        orig[j0].family == orig[n].family,
        orig[n].lifetime_frames <= orig[j0].lifetime_frames,
    ensures
        is_family_best(orig.take(n + 1), j0),
{
    reveal(is_family_best);
    let p = orig.take(n);
    let q = orig.take(n + 1);
    assert forall|x: int| 0 <= x < n implies #[trigger] q[x] == p[x] by {}
    assert(p[j0] == orig[j0]);
}

/// A family has at most one representative.
proof fn lemma_family_best_unique<G>(s: Seq<ZooAnimal<G>>, i: int, j: int)
    requires
        is_family_best(s, i),
        is_family_best(s, j),
        s[i].family == s[j].family,
    ensures
        i == j,
{
    reveal(is_family_best);
    assert(s[j].lifetime_frames <= s[i].lifetime_frames);
    assert(s[i].lifetime_frames <= s[j].lifetime_frames);
}

/// Progress of `keep_family_best` after the first `n` entries of `orig`:
/// `bests[k]` is `orig[idx[k]]`, the representative of its family among
/// those entries, and every family seen so far has its place in `bests`.
spec fn keep_progress<G>(orig: Seq<ZooAnimal<G>>, n: int, bests: Seq<ZooAnimal<G>>, idx: Seq<int>) -> bool {
    &&& 0 <= n <= orig.len()
    &&& idx.len() == bests.len()
    &&& distinct_families(bests)
    &&& forall|k: int| 0 <= k < bests.len() ==> #[trigger] best_slot(orig, n, bests, idx, k)
    &&& forall|j: int| 0 <= j < n ==> #[trigger] family_listed(bests, orig[j].family)
}

/// Slot `k` of `bests` holds `orig[idx[k]]`, the representative of its
/// family among the first `n` entries of `orig`.
spec fn best_slot<G>(orig: Seq<ZooAnimal<G>>, n: int, bests: Seq<ZooAnimal<G>>, idx: Seq<int>, k: int) -> bool {
    &&& 0 <= idx[k] < n
    &&& is_family_best(orig.take(n), idx[k])
    &&& bests[k] == orig[idx[k]]
}

/// Some entry of `s` belongs to family `f`.
#[verifier::opaque]
spec fn family_listed<G>(s: Seq<ZooAnimal<G>>, f: u32) -> bool {
    exists|k: int| 0 <= k < s.len() && #[trigger] s[k].family == f
}

proof fn lemma_keep_replaced<G>(orig: Seq<ZooAnimal<G>>, n: int, bests: Seq<ZooAnimal<G>>, idx: Seq<int>, k: int)
    requires
        keep_progress(orig, n, bests, idx),
        n < orig.len(),
        0 <= k < bests.len(),
        bests[k].family == orig[n].family,
        orig[n].lifetime_frames > bests[k].lifetime_frames,
    ensures
        keep_progress(orig, n + 1, bests.update(k, orig[n]), idx.update(k, n)),
{
    let e = orig[n];
    let nb = bests.update(k, e);
    let ni = idx.update(k, n);
    assert(best_slot(orig, n, bests, idx, k));
    lemma_family_best_replaced(orig, n, idx[k]);
    assert forall|w: int| 0 <= w < nb.len() implies #[trigger] best_slot(orig, n + 1, nb, ni, w) by {
        if w != k {
            assert(best_slot(orig, n, bests, idx, w));
            assert(bests[w].family != bests[k].family);
            lemma_family_best_step(orig, n, idx[w]);
        }
    }
    assert forall|j: int| 0 <= j < n + 1 implies #[trigger] family_listed(nb, orig[j].family) by {
        reveal(family_listed);
        if j == n {
            assert(nb[k].family == e.family);
        } else {
            assert(family_listed(bests, orig[j].family));
            let w = choose|w: int| 0 <= w < bests.len() && #[trigger] bests[w].family == orig[j].family;
            assert(nb[w].family == bests[w].family);
        }
    }
    assert forall|a: int, b: int| 0 <= a < b < nb.len() implies #[trigger] nb[a].family != #[trigger] nb[b].family by {
        assert(bests[a].family != bests[b].family);
    }
}

proof fn lemma_keep_kept<G>(orig: Seq<ZooAnimal<G>>, n: int, bests: Seq<ZooAnimal<G>>, idx: Seq<int>, k: int)
    requires
        keep_progress(orig, n, bests, idx),
        n < orig.len(),
        0 <= k < bests.len(),
        bests[k].family == orig[n].family,
        orig[n].lifetime_frames <= bests[k].lifetime_frames,
    ensures
        keep_progress(orig, n + 1, bests, idx),
{
    let e = orig[n];
    assert(best_slot(orig, n, bests, idx, k));
    lemma_family_best_kept(orig, n, idx[k]);
    assert forall|w: int| 0 <= w < bests.len() implies #[trigger] best_slot(orig, n + 1, bests, idx, w) by {
        if w != k {
            assert(best_slot(orig, n, bests, idx, w));
            assert(bests[w].family != bests[k].family);
            lemma_family_best_step(orig, n, idx[w]);
        }
    }
    assert forall|j: int| 0 <= j < n + 1 implies #[trigger] family_listed(bests, orig[j].family) by {
        reveal(family_listed);
        if j == n {
            assert(bests[k].family == e.family);
        } else {
            assert(family_listed(bests, orig[j].family));
        }
    }
}

proof fn lemma_keep_new<G>(orig: Seq<ZooAnimal<G>>, n: int, bests: Seq<ZooAnimal<G>>, idx: Seq<int>)
    requires
        keep_progress(orig, n, bests, idx),
        n < orig.len(),
        forall|x: int| 0 <= x < bests.len() ==> #[trigger] bests[x].family != orig[n].family,
    ensures
        keep_progress(orig, n + 1, bests.push(orig[n]), idx.push(n)),
{
    let e = orig[n];
    let nb = bests.push(e);
    let ni = idx.push(n);
    assert forall|x: int| 0 <= x < n implies #[trigger] orig[x].family != e.family by {
        assert(family_listed(bests, orig[x].family));
        reveal(family_listed);
        let w = choose|w: int| 0 <= w < bests.len() && #[trigger] bests[w].family == orig[x].family;
    }
    lemma_family_best_new(orig, n);
    assert forall|w: int| 0 <= w < nb.len() implies #[trigger] best_slot(orig, n + 1, nb, ni, w) by {
        if w < bests.len() {
            assert(best_slot(orig, n, bests, idx, w));
            lemma_family_best_step(orig, n, idx[w]);
        }
    }
    assert forall|j: int| 0 <= j < n + 1 implies #[trigger] family_listed(nb, orig[j].family) by {
        reveal(family_listed);
        if j == n {
            assert(nb[bests.len() as int] == e);
        } else {
            assert(family_listed(bests, orig[j].family));
            let w = choose|w: int| 0 <= w < bests.len() && #[trigger] bests[w].family == orig[j].family;
            assert(nb[w] == bests[w]);
        }
    }
    assert forall|a: int, b: int| 0 <= a < b < nb.len() implies #[trigger] nb[a].family != #[trigger] nb[b].family by {
        if b < bests.len() {
            assert(bests[a].family != bests[b].family);
        } else {
            assert(nb[a] == bests[a]);
        }
    }
}

proof fn lemma_keep_done<G>(orig: Seq<ZooAnimal<G>>, bests: Seq<ZooAnimal<G>>, idx: Seq<int>)
    requires
        keep_progress(orig, orig.len() as int, bests, idx),
    ensures
        forall|k: int| 0 <= k < bests.len() ==> is_representative(orig, #[trigger] bests[k]),
        forall|i: int| #[trigger] is_family_best(orig, i) ==> bests.contains(orig[i]),
{
    assert(orig.take(orig.len() as int) =~= orig);
    assert forall|k: int| 0 <= k < bests.len() implies is_representative(orig, #[trigger] bests[k]) by {
        assert(best_slot(orig, orig.len() as int, bests, idx, k));
        assert(is_family_best(orig.take(orig.len() as int), idx[k]));
        assert(is_family_best(orig, idx[k]));
    }
    assert forall|i: int| #[trigger] is_family_best(orig, i) implies bests.contains(orig[i]) by {
        reveal(is_family_best);
        assert(family_listed(bests, orig[i].family));
        reveal(family_listed);
        let w = choose|w: int| 0 <= w < bests.len() && #[trigger] bests[w].family == orig[i].family;
        assert(best_slot(orig, orig.len() as int, bests, idx, w));
        lemma_family_best_unique(orig, i, idx[w]);
    }
}

/// Keeps, for each family, its representative in the sense of
/// `is_family_best`, in the order in which families first appear.
fn keep_family_best<G>(entries: Vec<ZooAnimal<G>>) -> (bests: Vec<ZooAnimal<G>>)
    ensures
        distinct_families(bests@),
        forall|k: int| 0 <= k < bests@.len() ==> is_representative(entries@, #[trigger] bests@[k]),
        forall|i: int| #[trigger] is_family_best(entries@, i) ==> bests@.contains(entries@[i]),
{
    broadcast use vstd::std_specs::hash::group_hash_axioms;

    let ghost orig = entries@;
    let mut rest = entries;
    let mut bests: Vec<ZooAnimal<G>> = Vec::new();
    let mut slots: HashMap<u32, usize> = HashMap::new();
    let ghost mut idx: Seq<int> = Seq::empty();
    let ghost mut n: int = 0;
    while rest.len() > 0
        invariant
            keep_progress(orig, n, bests@, idx),
            rest@ == orig.skip(n),
            forall|f: u32| #[trigger] slots@.contains_key(f) ==> slots@[f] < bests@.len()
                && bests@[slots@[f] as int].family == f,
            forall|k: int| 0 <= k < bests@.len() ==> slots@.contains_key(#[trigger] bests@[k].family),
        decreases rest.len(),
    {
        let e = rest.remove(0);
        proof {
            assert(e == orig[n]);
            assert(rest@ =~= orig.skip(n + 1));
        }
        match slots.get(&e.family) {
            Some(slot) => {
                let k = *slot;
                if e.lifetime_frames > bests[k].lifetime_frames {
                    proof {
                        lemma_keep_replaced(orig, n, bests@, idx, k as int);
                        idx = idx.update(k as int, n);
                    }
                    bests.set(k, e);
                } else {
                    proof {
                        lemma_keep_kept(orig, n, bests@, idx, k as int);
                    }
                }
            },
            None => {
                proof {
                    assert forall|x: int| 0 <= x < bests@.len() implies #[trigger] bests@[x].family
                        != e.family by {
                        assert(slots@.contains_key(bests@[x].family));
                    }
                    lemma_keep_new(orig, n, bests@, idx);
                    idx = idx.push(n);
                }
                slots.insert(e.family, bests.len());
                bests.push(e);
            },
        }
        proof {
            n = n + 1;
        }
    }
    proof {
        lemma_keep_done(orig, bests@, idx);
    }
    bests
}

/// `x` occurs in `s`.
#[verifier::opaque]
spec fn listed<G>(s: Seq<ZooAnimal<G>>, x: ZooAnimal<G>) -> bool {
    exists|k: int| 0 <= k < s.len() && s[k] == x
}

/// Lifetimes never increase along `s`.
spec fn lifetimes_descending<G>(s: Seq<ZooAnimal<G>>) -> bool {
    forall|a: int, b: int|
        0 <= a < b < s.len() ==> #[trigger] s[a].lifetime_frames >= #[trigger] s[b].lifetime_frames
}

/// `x` is one of the first `m` entries of `src`.
#[verifier::opaque]
spec fn drawn_from<G>(src: Seq<ZooAnimal<G>>, m: int, x: ZooAnimal<G>) -> bool {
    exists|j: int| 0 <= j < m && src[j] == x
}

/// `b` gathers, ranked by lifetime, the entries of diet `d` among the first
/// `m` entries of `src`.
spec fn bucket_state<G>(b: Seq<ZooAnimal<G>>, d: Diet, src: Seq<ZooAnimal<G>>, m: int) -> bool {
    &&& forall|k: int| 0 <= k < b.len() ==> (#[trigger] b[k]).diet == d
    &&& forall|k: int| 0 <= k < b.len() ==> drawn_from(src, m, #[trigger] b[k])
    &&& forall|j: int| 0 <= j < m && (#[trigger] src[j]).diet == d ==> listed(b, src[j])
    &&& lifetimes_descending(b)
    &&& distinct_families(b)
}

/// Inserts `e` into a list ranked by lifetime, after every entry that lived
/// at least as long; returns the place it took.
fn insert_ranked<G>(bucket: &mut Vec<ZooAnimal<G>>, e: ZooAnimal<G>) -> (pos: usize)
    requires
        lifetimes_descending(old(bucket)@),
    ensures
        pos <= old(bucket)@.len(),
        final(bucket)@ == old(bucket)@.insert(pos as int, e),
        forall|i: int| 0 <= i < pos ==> (#[trigger] old(bucket)@[i]).lifetime_frames >= e.lifetime_frames,
        forall|i: int|
            pos <= i < old(bucket)@.len() ==> (#[trigger] old(bucket)@[i]).lifetime_frames
                < e.lifetime_frames,
        lifetimes_descending(final(bucket)@),
{
    let mut pos: usize = 0;
    while pos < bucket.len() && bucket[pos].lifetime_frames >= e.lifetime_frames
        invariant
            pos <= bucket@.len(),
            forall|i: int| 0 <= i < pos ==> (#[trigger] bucket@[i]).lifetime_frames >= e.lifetime_frames,
        decreases bucket@.len() - pos,
    {
        pos = pos + 1;
    }
    let ghost before = bucket@;
    proof {
        assert forall|i: int| pos <= i < before.len() implies (#[trigger] before[i]).lifetime_frames
            < e.lifetime_frames by {
            assert(before[pos as int].lifetime_frames < e.lifetime_frames);
            if i > pos {
                assert(before[pos as int].lifetime_frames >= before[i].lifetime_frames);
            }
        }
    }
    bucket.insert(pos, e);
    proof {
        let after = bucket@;
        assert forall|a: int, b: int| 0 <= a < b < after.len() implies #[trigger] after[a].lifetime_frames
            >= #[trigger] after[b].lifetime_frames by {
            if b < pos {
                assert(after[a] == before[a] && after[b] == before[b]);
            } else if b == pos {
                assert(after[a] == before[a]);
            } else if a < pos {
                assert(after[a] == before[a] && after[b] == before[b - 1]);
            } else if a == pos {
                assert(after[b] == before[b - 1]);
            } else {
                assert(after[a] == before[a - 1] && after[b] == before[b - 1]);
            }
        }
    }
    pos
}

proof fn lemma_bucket_add<G>(b: Seq<ZooAnimal<G>>, d: Diet, src: Seq<ZooAnimal<G>>, m: int, pos: int)
    requires
        bucket_state(b, d, src, m),
        0 <= m < src.len(),
        src[m].diet == d,
        distinct_families(src),
        0 <= pos <= b.len(),
        lifetimes_descending(b.insert(pos, src[m])),
    ensures
        bucket_state(b.insert(pos, src[m]), d, src, m + 1),
{
    let e = src[m];
    let nb = b.insert(pos, e);
    assert forall|k: int| 0 <= k < nb.len() implies drawn_from(src, m + 1, #[trigger] nb[k]) by {
        reveal(drawn_from);
        if k != pos {
            let kk = if k < pos { k } else { k - 1 };
            assert(nb[k] == b[kk]);
            assert(drawn_from(src, m, b[kk]));
        }
    }
    assert forall|j: int| 0 <= j < m + 1 && (#[trigger] src[j]).diet == d implies listed(nb, src[j]) by {
        reveal(listed);
        if j == m {
            assert(nb[pos] == e);
        } else {
            assert(listed(b, src[j]));
            let kk = choose|kk: int| 0 <= kk < b.len() && b[kk] == src[j];
            if kk < pos {
                assert(nb[kk] == b[kk]);
            } else {
                assert(nb[kk + 1] == b[kk]);
            }
        }
    }
    assert forall|x: int| 0 <= x < b.len() implies (#[trigger] b[x]).family != e.family by {
        assert(drawn_from(src, m, b[x]));
        reveal(drawn_from);
        let j = choose|j: int| 0 <= j < m && src[j] == b[x];
    }
    assert forall|a: int, c: int| 0 <= a < c < nb.len() implies #[trigger] nb[a].family != #[trigger] nb[c].family by {
        let aa = if a < pos { a } else { a - 1 };
        let cc = if c < pos { c } else { c - 1 };
        if a == pos {
            assert(nb[c] == b[cc]);
        } else if c == pos {
            assert(nb[a] == b[aa]);
        } else {
            assert(nb[a] == b[aa] && nb[c] == b[cc]);
        }
    }
    assert forall|k: int| 0 <= k < nb.len() implies (#[trigger] nb[k]).diet == d by {
        if k < pos {
            assert(nb[k] == b[k]);
        } else if k > pos {
            assert(nb[k] == b[k - 1]);
        }
    }
}

/// The first `ZOO_PER_DIET` entries of `b` (all of them when there are fewer).
spec fn capped<G>(b: Seq<ZooAnimal<G>>) -> Seq<ZooAnimal<G>> {
    if b.len() <= ZOO_PER_DIET {
        b
    } else {
        b.take(ZOO_PER_DIET as int)
    }
}

/// `acc` lists the zoo for every diet ranked below `r`, drawing on the
/// family representatives `src`.
spec fn listing_progress<G>(src: Seq<ZooAnimal<G>>, acc: Seq<ZooAnimal<G>>, r: int) -> bool {
    &&& is_curated(acc)
    &&& forall|k: int| 0 <= k < acc.len() ==> diet_rank((#[trigger] acc[k]).diet) < r
    &&& forall|k: int| 0 <= k < acc.len() ==> drawn_from(src, src.len() as int, #[trigger] acc[k])
    &&& forall|j: int|
        0 <= j < src.len() && diet_rank((#[trigger] src[j]).diet) < r ==> listed(acc, src[j])
            || diet_full_above(acc, src[j].diet, src[j].lifetime_frames)
}

proof fn lemma_same_source<G>(src: Seq<ZooAnimal<G>>, x: ZooAnimal<G>, y: ZooAnimal<G>)
    requires
        distinct_families(src),
        drawn_from(src, src.len() as int, x),
        drawn_from(src, src.len() as int, y),
        x.family == y.family,
    ensures
        x == y,
{
    reveal(drawn_from);
    let i = choose|i: int| 0 <= i < src.len() && src[i] == x;
    let j = choose|j: int| 0 <= j < src.len() && src[j] == y;
    if i < j {
        assert(src[i].family != src[j].family);
    } else if j < i {
        assert(src[j].family != src[i].family);
    }
}

proof fn lemma_capped_index<G>(acc: Seq<ZooAnimal<G>>, b: Seq<ZooAnimal<G>>)
    ensures
        capped(b).len() <= ZOO_PER_DIET,
        capped(b).len() <= b.len(),
        b.len() > ZOO_PER_DIET ==> capped(b).len() == ZOO_PER_DIET,
        (acc + capped(b)).len() == acc.len() + capped(b).len(),
        forall|k: int| 0 <= k < acc.len() ==> #[trigger] (acc + capped(b))[k] == acc[k],
        forall|k: int|
            acc.len() <= k < acc.len() + capped(b).len() ==> #[trigger] (acc + capped(b))[k] == b[k
                - acc.len()],
{
}

proof fn lemma_extend_curated<G>(src: Seq<ZooAnimal<G>>, acc: Seq<ZooAnimal<G>>, r: int, b: Seq<ZooAnimal<G>>, d: Diet)
    requires
        listing_progress(src, acc, r),
        diet_rank(d) == r,
        bucket_state(b, d, src, src.len() as int),
        distinct_families(src),
    ensures
        is_curated(acc + capped(b)),
        forall|k: int| 0 <= k < (acc + capped(b)).len() ==> diet_rank((#[trigger] (acc + capped(b))[k]).diet) < r + 1,
        forall|k: int| 0 <= k < (acc + capped(b)).len() ==> drawn_from(src, src.len() as int, #[trigger] (acc + capped(b))[k]),
{
    let out = acc + capped(b);
    let n = acc.len() as int;
    lemma_capped_index(acc, b);
    assert forall|k: int| 0 <= k < out.len() implies diet_rank((#[trigger] out[k]).diet) < r + 1
        && drawn_from(src, src.len() as int, out[k]) by {
        if k >= n {
            assert(out[k] == b[k - n]);
        }
    }
    assert forall|a: int, c: int| 0 <= a < c < out.len() implies #[trigger] out[a].family
        != #[trigger] out[c].family by {
        if c < n {
            assert(out[a] == acc[a] && out[c] == acc[c]);
        } else if a >= n {
            assert(out[a] == b[a - n] && out[c] == b[c - n]);
        } else {
            assert(out[a] == acc[a] && out[c] == b[c - n]);
            if out[a].family == out[c].family {
                lemma_same_source(src, out[a], out[c]);
            }
        }
    }
    assert forall|a: int, c: int| 0 <= a < c < out.len() implies {
        &&& diet_rank(#[trigger] out[a].diet) <= diet_rank(#[trigger] out[c].diet)
        &&& (out[a].diet == out[c].diet ==> out[a].lifetime_frames >= out[c].lifetime_frames)
    } by {
        if c < n {
            assert(out[a] == acc[a] && out[c] == acc[c]);
        } else if a >= n {
            assert(out[a] == b[a - n] && out[c] == b[c - n]);
        } else {
            assert(out[a] == acc[a] && out[c] == b[c - n]);
        }
    }
    assert forall|a: int, c: int|
        0 <= a < c < out.len() && (#[trigger] out[a]).diet == (#[trigger] out[c]).diet implies c - a
            < ZOO_PER_DIET by {
        if c < n {
            assert(out[a] == acc[a] && out[c] == acc[c]);
        } else if a >= n {
            assert(out[a] == b[a - n] && out[c] == b[c - n]);
        } else {
            assert(out[a] == acc[a] && out[c] == b[c - n]);
        }
    }
}

proof fn lemma_extend_complete<G>(src: Seq<ZooAnimal<G>>, acc: Seq<ZooAnimal<G>>, r: int, b: Seq<ZooAnimal<G>>, d: Diet)
    requires
        listing_progress(src, acc, r),
        diet_rank(d) == r,
        bucket_state(b, d, src, src.len() as int),
    ensures
        forall|j: int|
            0 <= j < src.len() && diet_rank((#[trigger] src[j]).diet) < r + 1 ==> listed(acc + capped(b), src[j])
                || diet_full_above(acc + capped(b), src[j].diet, src[j].lifetime_frames),
{
    let out = acc + capped(b);
    let n = acc.len() as int;
    lemma_capped_index(acc, b);
    assert forall|j: int|
        0 <= j < src.len() && diet_rank((#[trigger] src[j]).diet) < r + 1 implies listed(out, src[j])
            || diet_full_above(out, src[j].diet, src[j].lifetime_frames) by {
        reveal(listed);
        if diet_rank(src[j].diet) < r {
            if listed(acc, src[j]) {
                let k = choose|k: int| 0 <= k < acc.len() && acc[k] == src[j];
                assert(out[k] == acc[k]);
            } else {
                let lo = choose|lo: int| #[trigger] diet_window(acc, lo, src[j].diet, src[j].lifetime_frames);
                assert forall|k: int| lo <= k < lo + ZOO_PER_DIET implies #[trigger] out[k] == acc[k] by {}
                assert(diet_window(out, lo, src[j].diet, src[j].lifetime_frames));
            }
        } else {
            assert(src[j].diet == d);
            assert(listed(b, src[j]));
            let p = choose|p: int| 0 <= p < b.len() && b[p] == src[j];
            if p < capped(b).len() {
                assert(out[n + p] == b[p]);
            } else {
                assert forall|k: int| n <= k < n + ZOO_PER_DIET implies (#[trigger] out[k]).diet == d
                    && out[k].lifetime_frames >= src[j].lifetime_frames by {
                    assert(out[k] == b[k - n]);
                    assert(b[k - n].lifetime_frames >= b[p].lifetime_frames);
                }
                assert(diet_window(out, n, src[j].diet, src[j].lifetime_frames));
            }
        }
    }
}

proof fn lemma_listing_extend<G>(src: Seq<ZooAnimal<G>>, acc: Seq<ZooAnimal<G>>, r: int, b: Seq<ZooAnimal<G>>, d: Diet)
    requires
        listing_progress(src, acc, r),
        diet_rank(d) == r,
        bucket_state(b, d, src, src.len() as int),
        distinct_families(src),
    ensures
        listing_progress(src, acc + capped(b), r + 1),
{
    lemma_extend_curated(src, acc, r, b, d);
    lemma_extend_complete(src, acc, r, b, d);
}

/// Truncates `bucket` to `ZOO_PER_DIET` entries and appends them to `out`.
fn append_capped<G>(out: &mut Vec<ZooAnimal<G>>, bucket: Vec<ZooAnimal<G>>)
    ensures
        final(out)@ == old(out)@ + capped(bucket@),
{
    let mut bucket = bucket;
    let ghost full = bucket@;
    bucket.truncate(ZOO_PER_DIET);
    proof {
        if full.len() <= ZOO_PER_DIET {
            assert(bucket@ == full);
        } else {
            assert(bucket@ =~= full.take(ZOO_PER_DIET as int));
        }
    }
    out.append(&mut bucket);
}

proof fn lemma_listing_start<G>(src: Seq<ZooAnimal<G>>)
    ensures
        listing_progress(src, Seq::<ZooAnimal<G>>::empty(), 0),
{
}

proof fn lemma_bucket_start<G>(src: Seq<ZooAnimal<G>>, d: Diet)
    ensures
        bucket_state(Seq::<ZooAnimal<G>>::empty(), d, src, 0),
{
}

proof fn lemma_bucket_other<G>(b: Seq<ZooAnimal<G>>, d: Diet, src: Seq<ZooAnimal<G>>, m: int)
    requires
        bucket_state(b, d, src, m),
        0 <= m < src.len(),
        src[m].diet != d,
    ensures
        bucket_state(b, d, src, m + 1),
{
    assert forall|k: int| 0 <= k < b.len() implies drawn_from(src, m + 1, #[trigger] b[k]) by {
        assert(drawn_from(src, m, b[k]));
        reveal(drawn_from);
    }
}

proof fn lemma_listing_done<G>(input: Seq<ZooAnimal<G>>, src: Seq<ZooAnimal<G>>, out: Seq<ZooAnimal<G>>)
    requires
        listing_progress(src, out, 4),
        forall|k: int| 0 <= k < src.len() ==> is_representative(input, #[trigger] src[k]),
        forall|i: int| #[trigger] is_family_best(input, i) ==> src.contains(input[i]),
    ensures
        zoo_rules_hold(input, out),
{
    assert forall|k: int| 0 <= k < out.len() implies is_representative(input, #[trigger] out[k]) by {
        assert(drawn_from(src, src.len() as int, out[k]));
        reveal(drawn_from);
        let j = choose|j: int| 0 <= j < src.len() && src[j] == out[k];
        assert(is_representative(input, src[j]));
    }
    assert forall|i: int| is_family_best(input, i) implies out.contains(input[i]) || diet_full_above(
        out,
        input[i].diet,
        input[i].lifetime_frames,
    ) by {
        assert(src.contains(input[i]));
        let j = choose|j: int| 0 <= j < src.len() && src[j] == input[i];
        assert(diet_rank(src[j].diet) < 4);
        if listed(out, src[j]) {
            reveal(listed);
        }
    }
}

/// Applies the zoo's rules: one animal per family, the longest-lived (the
/// earliest among equals); then at most `ZOO_PER_DIET` per diet, the
/// longest-lived first, listed herbivores, omnivores, carnivores, scavengers.
pub fn apply_zoo_rules<G>(entries: &mut Vec<ZooAnimal<G>>)
    ensures
        zoo_rules_hold(old(entries)@, final(entries)@),
{
    let mut taken: Vec<ZooAnimal<G>> = Vec::new();
    std::mem::swap(&mut taken, entries);
    let ghost input = taken@;
    let mut rest = keep_family_best(taken);
    let ghost src = rest@;
    let mut herbivores: Vec<ZooAnimal<G>> = Vec::new();
    let mut omnivores: Vec<ZooAnimal<G>> = Vec::new();
    let mut carnivores: Vec<ZooAnimal<G>> = Vec::new();
    let mut scavengers: Vec<ZooAnimal<G>> = Vec::new();
    let ghost mut m: int = 0;
    proof {
        lemma_bucket_start(src, Diet::Herbivore);
        lemma_bucket_start(src, Diet::Omnivore);
        lemma_bucket_start(src, Diet::Carnivore);
        lemma_bucket_start(src, Diet::Scavenger);
    }
    while rest.len() > 0
        invariant
            0 <= m <= src.len(),
            rest@ == src.skip(m),
            distinct_families(src),
            bucket_state(herbivores@, Diet::Herbivore, src, m),
            bucket_state(omnivores@, Diet::Omnivore, src, m),
            bucket_state(carnivores@, Diet::Carnivore, src, m),
            bucket_state(scavengers@, Diet::Scavenger, src, m),
        decreases rest.len(),
    {
        let e = rest.remove(0);
        proof {
            assert(e == src[m]);
            assert(rest@ =~= src.skip(m + 1));
        }
        match e.diet {
            Diet::Herbivore => {
                let ghost b = herbivores@;
                let pos = insert_ranked(&mut herbivores, e);
                proof {
                    lemma_bucket_add(b, Diet::Herbivore, src, m, pos as int);
                    lemma_bucket_other(omnivores@, Diet::Omnivore, src, m);
                    lemma_bucket_other(carnivores@, Diet::Carnivore, src, m);
                    lemma_bucket_other(scavengers@, Diet::Scavenger, src, m);
                }
            },
            Diet::Omnivore => {
                let ghost b = omnivores@;
                let pos = insert_ranked(&mut omnivores, e);
                proof {
                    lemma_bucket_add(b, Diet::Omnivore, src, m, pos as int);
                    lemma_bucket_other(herbivores@, Diet::Herbivore, src, m);
                    lemma_bucket_other(carnivores@, Diet::Carnivore, src, m);
                    lemma_bucket_other(scavengers@, Diet::Scavenger, src, m);
                }
            },
            Diet::Carnivore => {
                let ghost b = carnivores@;
                let pos = insert_ranked(&mut carnivores, e);
                proof {
                    lemma_bucket_add(b, Diet::Carnivore, src, m, pos as int);
                    lemma_bucket_other(herbivores@, Diet::Herbivore, src, m);
                    lemma_bucket_other(omnivores@, Diet::Omnivore, src, m);
                    lemma_bucket_other(scavengers@, Diet::Scavenger, src, m);
                }
            },
            Diet::Scavenger => {
                let ghost b = scavengers@;
                let pos = insert_ranked(&mut scavengers, e);
                proof {
                    lemma_bucket_add(b, Diet::Scavenger, src, m, pos as int);
                    lemma_bucket_other(herbivores@, Diet::Herbivore, src, m);
                    lemma_bucket_other(omnivores@, Diet::Omnivore, src, m);
                    lemma_bucket_other(carnivores@, Diet::Carnivore, src, m);
                }
            },
        }
        proof {
            m = m + 1;
        }
    }
    let mut out: Vec<ZooAnimal<G>> = Vec::new();
    proof {
        lemma_listing_start(src);
        lemma_listing_extend(src, out@, 0, herbivores@, Diet::Herbivore);
    }
    append_capped(&mut out, herbivores);
    proof {
        lemma_listing_extend(src, out@, 1, omnivores@, Diet::Omnivore);
    }
    append_capped(&mut out, omnivores);
    proof {
        lemma_listing_extend(src, out@, 2, carnivores@, Diet::Carnivore);
    }
    append_capped(&mut out, carnivores);
    proof {
        lemma_listing_extend(src, out@, 3, scavengers@, Diet::Scavenger);
    }
    append_capped(&mut out, scavengers);
    proof {
        lemma_listing_done(input, src, out@);
    }
    *entries = out;
}

spec fn seq_min(s: Seq<int>) -> int
    decreases s.len(),
{
    if s.len() <= 1 {
        s[0]
    } else {
        let rest = seq_min(s.drop_first());
        if s[0] <= rest {
            s[0]
        } else {
            rest
        }
    }
}

proof fn lemma_seq_min(s: Seq<int>)
    requires
        s.len() > 0,
    ensures
        forall|k: int| 0 <= k < s.len() ==> seq_min(s) <= #[trigger] s[k],
        s.contains(seq_min(s)),
    decreases s.len(),
{
    if s.len() > 1 {
        let t = s.drop_first();
        lemma_seq_min(t);
        assert forall|k: int| 0 <= k < s.len() implies seq_min(s) <= #[trigger] s[k] by {
            if k > 0 {
                assert(s[k] == t[k - 1]);
            }
        }
        if seq_min(s) != s[0] {
            let w = choose|w: int| 0 <= w < t.len() && t[w] == seq_min(t);
            assert(s[w + 1] == t[w]);
        }
    } else {
        assert(s[0] == seq_min(s));
    }
}

/// Distinct positions that all lie fewer than `ZOO_PER_DIET` apart are at
/// most `ZOO_PER_DIET` in number.
proof fn lemma_crowded_positions(js: Seq<int>)
    requires
        js.len() > 0,
        js.no_duplicates(),
        forall|a: int, b: int| 0 <= a < js.len() && 0 <= b < js.len() ==> #[trigger] js[b] - #[trigger] js[a] < ZOO_PER_DIET,
    ensures
        js.len() <= ZOO_PER_DIET,
{
    lemma_seq_min(js);
    let lo = seq_min(js);
    let w = choose|w: int| 0 <= w < js.len() && js[w] == lo;
    let range = set_int_range(lo, lo + ZOO_PER_DIET);
    lemma_int_range(lo, lo + ZOO_PER_DIET);
    assert forall|v: int| js.to_set().contains(v) implies range.contains(v) by {
        let k = choose|k: int| 0 <= k < js.len() && js[k] == v;
        assert(js[k] - js[w] < ZOO_PER_DIET);
        assert(lo <= js[k]);
    }
    lemma_len_subset(js.to_set(), range);
    js.unique_seq_to_set();
}

/// In a curated listing every entry represents its own family.
proof fn lemma_curated_all_best<G>(y: Seq<ZooAnimal<G>>, i: int)
    requires
        is_curated(y),
        0 <= i < y.len(),
    ensures
        is_family_best(y, i),
{
    reveal(is_family_best);
    assert forall|j: int| 0 <= j < y.len() && #[trigger] y[j].family == y[i].family implies j == i by {
        if j < i {
            assert(y[j].family != y[i].family);
        } else if i < j {
            assert(y[i].family != y[j].family);
        }
    }
}

/// Entries of a listing with distinct families are distinct.
proof fn lemma_distinct_no_duplicates<G>(y: Seq<ZooAnimal<G>>)
    requires
        distinct_families(y),
    ensures
        y.no_duplicates(),
{
    assert forall|a: int, b: int| 0 <= a < y.len() && 0 <= b < y.len() && a != b implies y[a] != y[b] by {
        if a < b {
            assert(y[a].family != y[b].family);
        } else {
            assert(y[b].family != y[a].family);
        }
    }
}

proof fn lemma_curated_member_kept<G>(y: Seq<ZooAnimal<G>>, z: Seq<ZooAnimal<G>>, i: int)
    requires
        is_curated(y),
        zoo_rules_hold(y, z),
        0 <= i < y.len(),
    ensures
        z.contains(y[i]),
{
    lemma_curated_all_best(y, i);
    if !z.contains(y[i]) {
        let d = y[i].diet;
        let lo = choose|lo: int| #[trigger] diet_window(z, lo, d, y[i].lifetime_frames);
        let js = Seq::new(
            (ZOO_PER_DIET + 1) as nat,
            |x: int|
                if x < ZOO_PER_DIET {
                    choose|j: int| is_family_best(y, j) && y[j] == z[lo + x]
                } else {
                    i
                },
        );
        assert forall|x: int| 0 <= x < js.len() implies 0 <= #[trigger] js[x] < y.len() && y[js[x]].diet == d
            && (x < ZOO_PER_DIET ==> y[js[x]] == z[lo + x]) by {
            if x < ZOO_PER_DIET {
                assert(is_representative(y, z[lo + x]));
                reveal(is_family_best);
            }
        }
        assert forall|a: int, b: int| 0 <= a < js.len() && 0 <= b < js.len() && a != b implies js[a] != js[b] by {
            if a < ZOO_PER_DIET && b < ZOO_PER_DIET {
                if lo + a < lo + b {
                    assert(z[lo + a].family != z[lo + b].family);
                } else {
                    assert(z[lo + b].family != z[lo + a].family);
                }
            } else if a < ZOO_PER_DIET {
                assert(z[lo + a] == y[js[a]]);
            } else {
                assert(z[lo + b] == y[js[b]]);
            }
        }
        assert forall|a: int, b: int| 0 <= a < js.len() && 0 <= b < js.len() implies #[trigger] js[b]
            - #[trigger] js[a] < ZOO_PER_DIET by {
            if js[a] < js[b] {
                assert(y[js[a]].diet == y[js[b]].diet);
            }
        }
        lemma_crowded_positions(js);
    }
}

/// `a` and `b` take the same place in a ranked listing: same diet, same
/// lifetime.
pub open spec fn same_rank<G>(a: ZooAnimal<G>, b: ZooAnimal<G>) -> bool {
    a.diet == b.diet && a.lifetime_frames == b.lifetime_frames
}

/// `a` may stand before `b` in a ranked listing.
spec fn ranks_before<G>(a: ZooAnimal<G>, b: ZooAnimal<G>) -> bool {
    diet_rank(a.diet) < diet_rank(b.diet) || (a.diet == b.diet && a.lifetime_frames
        >= b.lifetime_frames)
}

proof fn lemma_ranked_before<G>(s: Seq<ZooAnimal<G>>, a: int, b: int)
    requires
        ranked(s),
        0 <= a < b < s.len(),
    ensures
        ranks_before(s[a], s[b]),
{
}

/// Two ranked listings without repeats that hold the same animals agree,
/// place by place, on diet and lifetime.
proof fn lemma_ranked_listings_agree<G>(y: Seq<ZooAnimal<G>>, z: Seq<ZooAnimal<G>>)
    requires
        ranked(y),
        ranked(z),
        y.no_duplicates(),
        z.no_duplicates(),
        y.to_set() == z.to_set(),
    ensures
        y.len() == z.len(),
        forall|k: int| 0 <= k < y.len() ==> same_rank(#[trigger] y[k], z[k]),
    decreases y.len(),
{
    if y.len() == 0 {
        if z.len() > 0 {
            assert(z.to_set().contains(z[0]));
            assert(y.to_set().contains(z[0]));
        }
    } else {
        let y0 = y[0];
        assert(y.to_set().contains(y0));
        assert(z.to_set().contains(y0));
        let j = choose|j: int| 0 <= j < z.len() && z[j] == y0;
        let y2 = y.drop_first();
        let z2 = z.remove(j);
        z.remove_ensures(j);
        assert forall|a: int, b: int| 0 <= a < y2.len() && 0 <= b < y2.len() && a != b implies y2[a]
            != y2[b] by {
            assert(y2[a] == y[a + 1] && y2[b] == y[b + 1]);
        }
        assert forall|a: int, b: int| 0 <= a < z2.len() && 0 <= b < z2.len() && a != b implies z2[a]
            != z2[b] by {
            let ia = if a < j { a } else { a + 1 };
            let ib = if b < j { b } else { b + 1 };
            assert(z2[a] == z[ia] && z2[b] == z[ib]);
        }
        assert forall|a: int, b: int| 0 <= a < b < y2.len() implies {
            &&& diet_rank(#[trigger] y2[a].diet) <= diet_rank(#[trigger] y2[b].diet)
            &&& (y2[a].diet == y2[b].diet ==> y2[a].lifetime_frames >= y2[b].lifetime_frames)
        } by {
            assert(y2[a] == y[a + 1] && y2[b] == y[b + 1]);
            lemma_ranked_before(y, a + 1, b + 1);
        }
        assert forall|a: int, b: int| 0 <= a < b < z2.len() implies {
            &&& diet_rank(#[trigger] z2[a].diet) <= diet_rank(#[trigger] z2[b].diet)
            &&& (z2[a].diet == z2[b].diet ==> z2[a].lifetime_frames >= z2[b].lifetime_frames)
        } by {
            let ia = if a < j { a } else { a + 1 };
            let ib = if b < j { b } else { b + 1 };
            assert(z2[a] == z[ia] && z2[b] == z[ib]);
            lemma_ranked_before(z, ia, ib);
        }
        assert forall|v: ZooAnimal<G>| y2.to_set().contains(v) implies z2.to_set().contains(v) by {
            let k = choose|k: int| 0 <= k < y2.len() && y2[k] == v;
            assert(y2[k] == y[k + 1]);
            assert(y.to_set().contains(v));
            assert(z.to_set().contains(v));
            let m = choose|m: int| 0 <= m < z.len() && z[m] == v;
            assert(m != j);
            let m2 = if m < j { m } else { m - 1 };
            assert(z2[m2] == z[m]);
        }
        assert forall|v: ZooAnimal<G>| z2.to_set().contains(v) implies y2.to_set().contains(v) by {
            let k = choose|k: int| 0 <= k < z2.len() && z2[k] == v;
            let ik = if k < j { k } else { k + 1 };
            assert(z2[k] == z[ik]);
            assert(z.to_set().contains(v));
            assert(y.to_set().contains(v));
            let m = choose|m: int| 0 <= m < y.len() && y[m] == v;
            assert(m != 0);
            assert(y2[m - 1] == y[m]);
        }
        assert(y2.to_set() =~= z2.to_set());
        lemma_ranked_listings_agree(y2, z2);
        assert forall|k: int| 0 <= k <= j implies same_rank(#[trigger] z[k], y0) by {
            if k < j {
                lemma_ranked_before(z, k, j);
            }
            assert(z.to_set().contains(z[k]));
            assert(y.to_set().contains(z[k]));
            let m = choose|m: int| 0 <= m < y.len() && y[m] == z[k];
            if m > 0 {
                lemma_ranked_before(y, 0, m);
            }
        }
        assert forall|k: int| 0 <= k < y.len() implies same_rank(#[trigger] y[k], z[k]) by {
            if k > j {
                assert(y[k] == y2[k - 1] && z[k] == z2[k - 1]);
                assert(same_rank(y2[k - 1], z2[k - 1]));
            } else if k > 0 {
                assert(y[k] == y2[k - 1] && z[k - 1] == z2[k - 1]);
                assert(same_rank(y2[k - 1], z2[k - 1]));
                assert(same_rank(z[k - 1], y0));
                assert(same_rank(z[k], y0));
            } else {
                assert(same_rank(z[0], y0));
            }
        }
    }
}

/// Law: the zoo rules never lengthen a listing; the result holds at most as
/// many animals as the input.
pub proof fn lemma_zoo_rules_never_grow<G>(x: Seq<ZooAnimal<G>>, y: Seq<ZooAnimal<G>>)
    requires
        zoo_rules_hold(x, y),
    ensures
        y.len() <= x.len(),
{
    broadcast use vstd::seq_lib::seq_to_set_is_finite;

    assert forall|v: ZooAnimal<G>| y.to_set().contains(v) implies x.to_set().contains(v) by {
        let k = choose|k: int| 0 <= k < y.len() && y[k] == v;
        assert(is_representative(x, y[k]));
        let i = choose|i: int| is_family_best(x, i) && x[i] == y[k];
        reveal(is_family_best);
        assert(x[i] == v);
    }
    lemma_len_subset(y.to_set(), x.to_set());
    lemma_distinct_no_duplicates(y);
    y.unique_seq_to_set();
    x.lemma_cardinality_of_set();
}

/// Law: the zoo rules are idempotent. Applying them to a listing they
/// produced keeps exactly the same animals, and place by place the same
/// diets and lifetimes; only the order among animals of one diet with equal
/// lifetimes, which the rules leave open, may change. Neither listing is
/// longer than the input the rules started from.
pub proof fn lemma_zoo_rules_idempotent<G>(x: Seq<ZooAnimal<G>>, y: Seq<ZooAnimal<G>>, z: Seq<ZooAnimal<G>>)
    requires
        zoo_rules_hold(x, y),
        zoo_rules_hold(y, z),
    ensures
        z.len() == y.len(),
        y.len() <= x.len(),
        z.to_set() == y.to_set(),
        forall|k: int| 0 <= k < z.len() ==> same_rank(#[trigger] z[k], y[k]),
{
    assert forall|v: ZooAnimal<G>| z.to_set().contains(v) implies y.to_set().contains(v) by {
        let k = choose|k: int| 0 <= k < z.len() && z[k] == v;
        assert(is_representative(y, z[k]));
        reveal(is_family_best);
    }
    assert forall|v: ZooAnimal<G>| y.to_set().contains(v) implies z.to_set().contains(v) by {
        let k = choose|k: int| 0 <= k < y.len() && y[k] == v;
        lemma_curated_member_kept(y, z, k);
    }
    assert(z.to_set() =~= y.to_set());
    lemma_distinct_no_duplicates(y);
    lemma_distinct_no_duplicates(z);
    y.unique_seq_to_set();
    z.unique_seq_to_set();
    lemma_ranked_listings_agree(y, z);
    lemma_zoo_rules_never_grow(x, y);
}

/// Law: whatever the rules produce is a curated listing, and a curated
/// listing is a result the rules may give for itself.
pub proof fn lemma_zoo_rules_result_is_fixed<G>(x: Seq<ZooAnimal<G>>, y: Seq<ZooAnimal<G>>)
    requires
        zoo_rules_hold(x, y),
    ensures
        is_curated(y),
        zoo_rules_hold(y, y),
{
    assert forall|k: int| 0 <= k < y.len() implies is_representative(y, #[trigger] y[k]) by {
        lemma_curated_all_best(y, k);
    }
    assert forall|i: int| is_family_best(y, i) implies y.contains(y[i]) || diet_full_above(
        y,
        y[i].diet,
        y[i].lifetime_frames,
    ) by {
        reveal(is_family_best);
        assert(y[i] == y[i]);
    }
}

/// Law: admitting a candidate to a curated zoo keeps every animal that the
/// candidate does not outlive within its own family, unless that animal's
/// diet ends up full of animals that lived at least as long.
pub proof fn lemma_consider_keeps_members<G>(
    zoo: Seq<ZooAnimal<G>>,
    candidate: ZooAnimal<G>,
    out: Seq<ZooAnimal<G>>,
    i: int,
)
    requires
        is_curated(zoo),
        zoo_rules_hold(zoo.push(candidate), out),
        0 <= i < zoo.len(),
        !(candidate.family == zoo[i].family && candidate.lifetime_frames > zoo[i].lifetime_frames),
    ensures
        out.contains(zoo[i]) || diet_full_above(out, zoo[i].diet, zoo[i].lifetime_frames),
{
    let s = zoo.push(candidate);
    assert(s[i] == zoo[i]);
    assert(is_family_best(s, i)) by {
        reveal(is_family_best);
        assert forall|j: int| 0 <= j < s.len() && #[trigger] s[j].family == s[i].family implies s[j].lifetime_frames
            <= s[i].lifetime_frames by {
            if j < zoo.len() && j != i {
                assert(s[j] == zoo[j]);
                if j < i {
                    assert(zoo[j].family != zoo[i].family);
                } else {
                    assert(zoo[i].family != zoo[j].family);
                }
            }
        }
        assert forall|j: int| 0 <= j < i && #[trigger] s[j].family == s[i].family implies s[j].lifetime_frames
            < s[i].lifetime_frames by {
            assert(s[j] == zoo[j]);
            assert(zoo[j].family != zoo[i].family);
        }
    }
}

/// Law: a candidate that outlives its family's member in the zoo, or whose
/// family is not in the zoo, is admitted unless its diet ends up full of
/// animals that lived at least as long.
pub proof fn lemma_consider_admits_candidate<G>(
    zoo: Seq<ZooAnimal<G>>,
    candidate: ZooAnimal<G>,
    out: Seq<ZooAnimal<G>>,
)
    requires
        is_curated(zoo),
        zoo_rules_hold(zoo.push(candidate), out),
        forall|j: int|
            0 <= j < zoo.len() && (#[trigger] zoo[j]).family == candidate.family ==> zoo[j].lifetime_frames
                < candidate.lifetime_frames,
    ensures
        out.contains(candidate) || diet_full_above(out, candidate.diet, candidate.lifetime_frames),
{
    let s = zoo.push(candidate);
    let n = zoo.len() as int;
    assert(s[n] == candidate);
    assert(is_family_best(s, n)) by {
        reveal(is_family_best);
        assert forall|j: int| 0 <= j < s.len() && #[trigger] s[j].family == s[n].family implies s[j].lifetime_frames
            <= s[n].lifetime_frames by {
            if j < n {
                assert(s[j] == zoo[j]);
            }
        }
        assert forall|j: int| 0 <= j < n && #[trigger] s[j].family == s[n].family implies s[j].lifetime_frames
            < s[n].lifetime_frames by {
            assert(s[j] == zoo[j]);
        }
    }
}

/// The hall of fame of long-lived animals, kept curated by the zoo rules.
pub struct Zoo<G> {
    entries: Vec<ZooAnimal<G>>,
}

impl<G> View for Zoo<G> {
    type V = Seq<ZooAnimal<G>>;

    closed spec fn view(&self) -> Seq<ZooAnimal<G>> {
        self.entries@
    }
}

impl<G> Zoo<G> {
    #[verifier::type_invariant]
    spec fn curated(self) -> bool {
        is_curated(self.entries@)
    }

    /// An empty zoo.
    pub fn new() -> (zoo: Self)
        ensures
            zoo@ == Seq::<ZooAnimal<G>>::empty(),
    {
        Zoo { entries: Vec::new() }
    }

    /// A zoo holding what the rules keep of `entries`.
    pub fn from_entries(entries: Vec<ZooAnimal<G>>) -> (zoo: Self)
        ensures
            zoo_rules_hold(entries@, zoo@),
    {
        let mut entries = entries;
        apply_zoo_rules(&mut entries);
        Zoo { entries }
    }

    /// The animals in the zoo, herbivores first, the longest-lived first
    /// within a diet.
    pub fn entries(&self) -> (s: &[ZooAnimal<G>])
        ensures
            s@ == self@,
            is_curated(s@),
    {
        proof {
            use_type_invariant(self);
        }
        self.entries.as_slice()
    }

    /// Consumes the zoo, returning its animals.
    pub fn into_entries(self) -> (v: Vec<ZooAnimal<G>>)
        ensures
            v@ == self@,
            is_curated(v@),
    {
        proof {
            use_type_invariant(&self);
        }
        self.entries
    }

    pub fn len(&self) -> (n: usize)
        ensures
            n == self@.len(),
    {
        self.entries.len()
    }

    pub fn is_empty(&self) -> (b: bool)
        ensures
            b == (self@.len() == 0),
    {
        self.entries.len() == 0
    }

    /// The animal at `index`, if any.
    pub fn get(&self, index: usize) -> (r: Option<&ZooAnimal<G>>)
        ensures
            index < self@.len() ==> r == Some(&self@[index as int]),
            index >= self@.len() ==> r is None,
    {
        if index < self.entries.len() {
            Some(&self.entries[index])
        } else {
            None
        }
    }

    /// An animal picked uniformly at random, or `None` for an empty zoo.
    pub fn sample(&self, rng: &mut rand::rngs::StdRng) -> (r: Option<&ZooAnimal<G>>)
        ensures
            r is None <==> self@.len() == 0,
            r matches Some(a) ==> self@.contains(*a),
    {
        if self.entries.len() == 0 {
            return None;
        }
        let index = draw_below(rng, self.entries.len());
        self.get(index)
    }

    /// Admits `candidate` and applies the zoo rules again.
    pub fn consider(&mut self, candidate: ZooAnimal<G>)
        ensures
            zoo_rules_hold(old(self)@.push(candidate), final(self)@),
    {
        let mut entries: Vec<ZooAnimal<G>> = Vec::new();
        std::mem::swap(&mut entries, &mut self.entries);
        entries.push(candidate);
        apply_zoo_rules(&mut entries);
        proof {
            lemma_zoo_rules_result_is_fixed(old(self)@.push(candidate), entries@);
        }
        self.entries = entries;
    }
}

} // verus!
