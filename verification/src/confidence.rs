//! Confidence arithmetic in fixed point.
//!
//! A confidence is a probability in `[0, 1]`, held as a whole number of
//! millionths: `CONFIDENCE_ONE` is certainty. Products are rounded down to the
//! nearest millionth after each factor; noisy-OR takes its factors in
//! ascending order of confidence, so that its result does not depend on the
//! order in which the evidence arrived.
//!
//! - Noisy-OR fusion of independent evidence: `P = 1 - Π(1 - p_i)`.
//! - Chain confidence along a path: `P = Π p_i`.
//! - Multi-path confidence: noisy-OR over the chain confidences of the paths.
use vstd::prelude::*;
use vstd::relations::{sorted_by, total_ordering};
use vstd::seq_lib::lemma_sorted_unique;

verus! {

/// Certainty, in millionths.
pub const CONFIDENCE_ONE: u32 = 1_000_000;

/// A confidence clamped into `[0, 1]`.
pub open spec fn clamp(c: u32) -> nat {
    if c > CONFIDENCE_ONE { CONFIDENCE_ONE as nat } else { c as nat }
}

/// One step of a fixed-point product: `a × b`, rounded down to a millionth.
pub open spec fn mul_conf(a: nat, b: nat) -> nat {
    (a * b) / (CONFIDENCE_ONE as nat)
}

/// `Π (1 - p_i)` over the confidences, left to right.
pub open spec fn complement_product(cs: Seq<u32>) -> nat
    decreases cs.len(),
{
    if cs.len() == 0 {
        CONFIDENCE_ONE as nat
    } else {
        mul_conf(
            complement_product(cs.drop_last()),
            (CONFIDENCE_ONE - clamp(cs.last())) as nat,
        )
    }
}

/// The order on confidences: ascending.
pub open spec fn conf_leq() -> spec_fn(u32, u32) -> bool {
    |a: u32, b: u32| a <= b
}

/// The confidences in the order in which noisy-OR fuses them: ascending.
pub open spec fn fusion_order(cs: Seq<u32>) -> Seq<u32> {
    cs.sort_by(conf_leq())
}

/// Noisy-OR: `1 - Π(1 - p_i)` over the confidences in ascending order, and 0
/// for no evidence.
pub open spec fn noisy_or_spec(cs: Seq<u32>) -> nat {
    if cs.len() == 0 {
        0
    } else {
        (CONFIDENCE_ONE - complement_product(fusion_order(cs))) as nat
    }
}

/// Ascending order is a total order.
proof fn lemma_conf_leq_total()
    ensures
        total_ordering(conf_leq()),
{
}

/// What sorting into fusion order gives: the same confidences, ascending.
proof fn lemma_fusion_order(cs: Seq<u32>)
    ensures
        fusion_order(cs).to_multiset() == cs.to_multiset(),
        sorted_by(fusion_order(cs), conf_leq()),
        fusion_order(cs).len() == cs.len(),
{
    broadcast use vstd::seq_lib::group_to_multiset_ensures;

    lemma_conf_leq_total();
    cs.lemma_sort_by_ensures(conf_leq());
    assert(fusion_order(cs).to_multiset().len() == cs.to_multiset().len());
}

/// The fusion order of some confidences is the one ascending sequence with
/// the same confidences.
proof fn lemma_fusion_order_unique(cs: Seq<u32>, s: Seq<u32>)
    requires
        sorted_by(s, conf_leq()),
        s.to_multiset() == cs.to_multiset(),
    ensures
        fusion_order(cs) == s,
{
    lemma_fusion_order(cs);
    lemma_conf_leq_total();
    lemma_sorted_unique(fusion_order(cs), s, conf_leq());
}

/// Noisy-OR does not depend on the order of the evidence: any reordering of
/// the same confidences fuses to the same value.
pub proof fn fusion_ignores_order(cs1: Seq<u32>, cs2: Seq<u32>)
    requires
        cs1.to_multiset() == cs2.to_multiset(),
    ensures
        noisy_or_spec(cs1) == noisy_or_spec(cs2),
{
    broadcast use vstd::seq_lib::group_to_multiset_ensures;

    lemma_fusion_order(cs1);
    lemma_fusion_order(cs2);
    lemma_fusion_order_unique(cs2, fusion_order(cs1));
    assert(cs1.len() == cs1.to_multiset().len());
    assert(cs2.len() == cs2.to_multiset().len());
}

/// Where a confidence goes in an ascending sequence: after every confidence
/// at most it, from position `i` on.
pub open spec fn insert_pos(s: Seq<u32>, c: u32, i: int) -> int
    decreases s.len() - i,
{
    if 0 <= i < s.len() && s[i] <= c {
        insert_pos(s, c, i + 1)
    } else {
        i
    }
}

/// Inserting a confidence at its place keeps an ascending sequence ascending.
proof fn lemma_insert_sorted(s: Seq<u32>, c: u32)
    requires
        sorted_by(s, conf_leq()),
    ensures
        0 <= insert_pos(s, c, 0) <= s.len(),
        sorted_by(s.insert(insert_pos(s, c, 0), c), conf_leq()),
{
    let k = insert_pos(s, c, 0);
    lemma_insert_pos(s, c, 0);
    let t = s.insert(k, c);
    s.insert_ensures(k, c);
    assert forall|i: int, j: int| 0 <= i < j < t.len() implies #[trigger] (conf_leq())(t[i], t[j]) by {
        if j < k {
            assert(t[i] == s[i] && t[j] == s[j]);
            assert((conf_leq())(s[i], s[j]));
        } else if j == k {
            assert(t[i] == s[i]);
        } else if i < k {
            assert(t[j] == s[j - 1]);
            assert(s[i] <= c);
        } else if i == k {
            assert(t[j] == s[j - 1]);
        } else {
            assert(t[i] == s[i - 1] && t[j] == s[j - 1]);
            assert((conf_leq())(s[i - 1], s[j - 1]));
        }
    }
}

/// Before `insert_pos` every confidence is at most `c`; from it on, above.
proof fn lemma_insert_pos(s: Seq<u32>, c: u32, i: int)
    requires
        sorted_by(s, conf_leq()),
        0 <= i <= s.len(),
        forall|j: int| 0 <= j < i ==> s[j] <= c,
    ensures
        i <= insert_pos(s, c, i) <= s.len(),
        forall|j: int| 0 <= j < insert_pos(s, c, i) ==> s[j] <= c,
        forall|j: int| insert_pos(s, c, i) <= j < s.len() ==> s[j] > c,
    decreases s.len() - i,
{
    if i < s.len() && s[i] <= c {
        lemma_insert_pos(s, c, i + 1);
    } else if i < s.len() {
        assert forall|j: int| i <= j < s.len() implies s[j] > c by {
            if j > i {
                assert((conf_leq())(s[i], s[j]));
            }
        }
    }
}

/// `a × b` rounded down grows with `a`.
pub proof fn lemma_mul_conf_monotone(a: nat, a2: nat, b: nat)
    requires
        a <= a2,
    ensures
        mul_conf(a, b) <= mul_conf(a2, b),
{
    assert(a * b <= a2 * b) by (nonlinear_arith)
        requires
            a <= a2,
    ;
    assert((a * b) / (CONFIDENCE_ONE as nat) <= (a2 * b) / (CONFIDENCE_ONE as nat)) by (nonlinear_arith)
        requires
            a * b <= a2 * b,
    ;
}

/// One more factor, wherever it goes, never raises the complement product.
proof fn lemma_complement_insert(s: Seq<u32>, k: int, c: u32)
    requires
        0 <= k <= s.len(),
    ensures
        complement_product(s.insert(k, c)) <= complement_product(s),
    decreases s.len(),
{
    let t = s.insert(k, c);
    lemma_complement_product_bound(s);
    if k == s.len() {
        assert(t.drop_last() =~= s);
        lemma_mul_conf_bound(complement_product(s), (CONFIDENCE_ONE - clamp(c)) as nat);
    } else {
        let s2 = s.drop_last();
        assert(t.drop_last() =~= s2.insert(k, c));
        assert(t.last() == s.last());
        lemma_complement_insert(s2, k, c);
        lemma_mul_conf_monotone(
            complement_product(s2.insert(k, c)),
            complement_product(s2),
            (CONFIDENCE_ONE - clamp(s.last())) as nat,
        );
    }
}

/// `Π p_i` over the confidences, left to right.
pub open spec fn chain_spec(cs: Seq<u32>) -> nat
    decreases cs.len(),
{
    if cs.len() == 0 {
        CONFIDENCE_ONE as nat
    } else {
        mul_conf(chain_spec(cs.drop_last()), cs.last() as nat)
    }
}

/// All confidences lie in `[0, 1]`.
pub open spec fn all_valid(cs: Seq<u32>) -> bool {
    forall|i: int| 0 <= i < cs.len() ==> cs[i] <= CONFIDENCE_ONE
}

/// A fixed-point product of two values in `[0, 1]` stays in `[0, 1]`.
pub proof fn lemma_mul_conf_bound(a: nat, b: nat)
    requires
        a <= CONFIDENCE_ONE,
        b <= CONFIDENCE_ONE,
    ensures
        mul_conf(a, b) <= a,
        mul_conf(a, b) <= b,
{
    assert(a * b <= a * (CONFIDENCE_ONE as nat)) by (nonlinear_arith)
        requires
            b <= CONFIDENCE_ONE,
    ;
    assert(a * b <= (CONFIDENCE_ONE as nat) * b) by (nonlinear_arith)
        requires
            a <= CONFIDENCE_ONE,
    ;
    assert((a * (CONFIDENCE_ONE as nat)) / (CONFIDENCE_ONE as nat) == a) by (nonlinear_arith);
    assert(((CONFIDENCE_ONE as nat) * b) / (CONFIDENCE_ONE as nat) == b) by (nonlinear_arith);
    assert((a * b) / (CONFIDENCE_ONE as nat) <= (a * (CONFIDENCE_ONE as nat)) / (
    CONFIDENCE_ONE as nat)) by (nonlinear_arith)
        requires
            a * b <= a * (CONFIDENCE_ONE as nat),
    ;
    assert((a * b) / (CONFIDENCE_ONE as nat) <= ((CONFIDENCE_ONE as nat) * b) / (
    CONFIDENCE_ONE as nat)) by (nonlinear_arith)
        requires
            a * b <= (CONFIDENCE_ONE as nat) * b,
    ;
}

/// `mul_conf` in executable form.
pub fn mul_conf_exec(a: u32, b: u32) -> (r: u32)
    requires
        a <= CONFIDENCE_ONE,
        b <= CONFIDENCE_ONE,
    ensures
        r == mul_conf(a as nat, b as nat),
        r <= a,
        r <= b,
{
    proof {
        lemma_mul_conf_bound(a as nat, b as nat);
    }
    assert((a as u64) * (b as u64) <= 1_000_000_000_000u64) by (nonlinear_arith)
        requires
            a <= 1_000_000u32,
            b <= 1_000_000u32,
    ;
    let p: u64 = (a as u64) * (b as u64);
    (p / 1_000_000u64) as u32
}

/// The complement product stays in `[0, 1]`.
pub proof fn lemma_complement_product_bound(cs: Seq<u32>)
    ensures
        complement_product(cs) <= CONFIDENCE_ONE,
    decreases cs.len(),
{
    if cs.len() > 0 {
        lemma_complement_product_bound(cs.drop_last());
        lemma_mul_conf_bound(
            complement_product(cs.drop_last()),
            (CONFIDENCE_ONE - clamp(cs.last())) as nat,
        );
    }
}

/// The chain product of valid confidences stays in `[0, 1]`.
pub proof fn lemma_chain_bound(cs: Seq<u32>)
    requires
        all_valid(cs),
    ensures
        chain_spec(cs) <= CONFIDENCE_ONE,
    decreases cs.len(),
{
    if cs.len() > 0 {
        lemma_chain_bound(cs.drop_last());
        lemma_mul_conf_bound(chain_spec(cs.drop_last()), cs.last() as nat);
    }
}

/// The complement product is at most each of its factors.
proof fn lemma_complement_below_factor(cs: Seq<u32>, i: int)
    requires
        0 <= i < cs.len(),
    ensures
        complement_product(cs) <= CONFIDENCE_ONE - clamp(cs[i]),
    decreases cs.len(),
{
    lemma_complement_product_bound(cs.drop_last());
    lemma_mul_conf_bound(complement_product(cs.drop_last()), (CONFIDENCE_ONE - clamp(cs.last())) as nat);
    if i < cs.len() - 1 {
        lemma_complement_below_factor(cs.drop_last(), i);
        assert(cs.drop_last()[i] == cs[i]);
    }
}

/// Fusion never weakens a source: the noisy-OR of some evidence is at least
/// the (clamped) confidence of each piece of it.
pub proof fn fusion_is_at_least_each_source(cs: Seq<u32>, i: int)
    requires
        0 <= i < cs.len(),
    ensures
        clamp(cs[i]) <= noisy_or_spec(cs) <= CONFIDENCE_ONE,
{
    broadcast use vstd::seq_lib::group_to_multiset_ensures;

    let s = fusion_order(cs);
    lemma_fusion_order(cs);
    assert(cs.contains(cs[i]));
    assert(s.to_multiset().count(cs[i]) > 0);
    assert(s.contains(cs[i]));
    let j = choose|j: int| 0 <= j < s.len() && s[j] == cs[i];
    lemma_complement_below_factor(s, j);
}

/// Agreement compounds: adding a piece of evidence never lowers the fused
/// confidence, and it stays within `[0, 1]`.
pub proof fn fusion_grows_with_evidence(cs: Seq<u32>, c: u32)
    ensures
        noisy_or_spec(cs) <= noisy_or_spec(cs.push(c)) <= CONFIDENCE_ONE,
{
    broadcast use vstd::seq_lib::group_to_multiset_ensures;
    broadcast use vstd::seq_lib::to_multiset_insert;

    let s = fusion_order(cs);
    lemma_fusion_order(cs);
    lemma_insert_sorted(s, c);
    let k = insert_pos(s, c, 0);
    assert(s.insert(k, c).to_multiset() == s.to_multiset().insert(c));
    assert(cs.push(c).to_multiset() == cs.to_multiset().insert(c));
    lemma_fusion_order_unique(cs.push(c), s.insert(k, c));
    lemma_complement_insert(s, k, c);
    lemma_complement_product_bound(s.insert(k, c));
    lemma_complement_product_bound(s);
}

/// Each hop of a chain can only lower its confidence: the chain product of
/// valid confidences is at most that of its prefix and at most its last link.
pub proof fn chain_decays_with_each_hop(cs: Seq<u32>, c: u32)
    requires
        all_valid(cs),
        c <= CONFIDENCE_ONE,
    ensures
        chain_spec(cs.push(c)) <= chain_spec(cs),
        chain_spec(cs.push(c)) <= c,
{
    let ext = cs.push(c);
    assert(ext.drop_last() =~= cs);
    lemma_chain_bound(cs);
    lemma_mul_conf_bound(chain_spec(cs), c as nat);
}

/// Noisy-OR model for combining independent evidence sources:
/// `P(edge) = 1 - Π(1 - P(source_i))`, each source clamped into `[0, 1]`; 0 with no source.
///
/// The confidences are fused in ascending order, so the result does not
/// depend on the order of the evidence.
pub fn noisy_or(confidences: &Vec<u32>) -> (r: u32)
    ensures
        r == noisy_or_spec(confidences@),
        r <= CONFIDENCE_ONE,
        forall|other: Seq<u32>| #[trigger] other.to_multiset() == confidences@.to_multiset() ==> r == noisy_or_spec(other),
{
    proof {
        assert forall|other: Seq<u32>| #[trigger] other.to_multiset() == confidences@.to_multiset() implies noisy_or_spec(
            confidences@,
        ) == noisy_or_spec(other) by {
            fusion_ignores_order(confidences@, other);
        }
    }
    if confidences.len() == 0 {
        return 0;
    }
    let ordered = fusion_sorted(confidences);
    let confidences = &ordered;
    let mut prod: u32 = CONFIDENCE_ONE;
    let mut i: usize = 0;
    while i < confidences.len()
        invariant
            i <= confidences.len(),
            prod == complement_product(confidences@.take(i as int)),
            prod <= CONFIDENCE_ONE,
        decreases confidences.len() - i,
    {
        let c = if confidences[i] > CONFIDENCE_ONE {
            CONFIDENCE_ONE
        } else {
            confidences[i]
        };
        assert(confidences@.take(i + 1).drop_last() =~= confidences@.take(i as int));
        prod = mul_conf_exec(prod, CONFIDENCE_ONE - c);
        i += 1;
    }
    assert(confidences@.take(confidences.len() as int) =~= confidences@);
    CONFIDENCE_ONE - prod
}

/// The confidences in fusion order (an insertion sort).
fn fusion_sorted(v: &Vec<u32>) -> (r: Vec<u32>)
    ensures
        r@ == fusion_order(v@),
        r@.len() == v@.len(),
{
    broadcast use vstd::seq_lib::group_to_multiset_ensures;
    broadcast use vstd::seq_lib::to_multiset_insert;

    let mut out: Vec<u32> = Vec::new();
    let mut i: usize = 0;
    while i < v.len()
        invariant
            i <= v.len(),
            sorted_by(out@, conf_leq()),
            out@.to_multiset() == v@.take(i as int).to_multiset(),
        decreases v.len() - i,
    {
        let c = v[i];
        let mut k: usize = 0;
        while k < out.len() && out[k] <= c
            invariant
                k <= out.len(),
                sorted_by(out@, conf_leq()),
                insert_pos(out@, c, 0) == insert_pos(out@, c, k as int),
            decreases out.len() - k,
        {
            k += 1;
        }
        proof {
            lemma_insert_sorted(out@, c);
            assert(v@.take(i + 1) =~= v@.take(i as int).push(c));
        }
        let ghost before = out@;
        out.insert(k, c);
        proof {
            assert(out@ == before.insert(k as int, c));
            vstd::seq_lib::to_multiset_insert(before, k as int, c);
            v@.take(i as int).to_multiset_ensures();
            assert(v@.take(i + 1) =~= v@.take(i as int).push(c));
            assert(v@.take(i + 1).to_multiset() == v@.take(i as int).to_multiset().insert(c));
        }
        i += 1;
    }
    assert(v@.take(v.len() as int) =~= v@);
    proof {
        lemma_fusion_order_unique(v@, out@);
        lemma_fusion_order(v@);
    }
    out
}

/// Propagate confidence through a transitive chain: `P(A→C) = P(A→B) × P(B→C)`.
pub fn chain_confidence(edge_confidences: &Vec<u32>) -> (r: u32)
    requires
        all_valid(edge_confidences@),
    ensures
        r == chain_spec(edge_confidences@),
        r <= CONFIDENCE_ONE,
{
    let mut prod: u32 = CONFIDENCE_ONE;
    let mut i: usize = 0;
    while i < edge_confidences.len()
        invariant
            i <= edge_confidences.len(),
            all_valid(edge_confidences@),
            prod == chain_spec(edge_confidences@.take(i as int)),
            prod <= CONFIDENCE_ONE,
        decreases edge_confidences.len() - i,
    {
        assert(edge_confidences@.take(i + 1).drop_last() =~= edge_confidences@.take(i as int));
        prod = mul_conf_exec(prod, edge_confidences[i]);
        i += 1;
    }
    assert(edge_confidences@.take(edge_confidences.len() as int) =~= edge_confidences@);
    prod
}

/// The chain confidence of each path.
pub open spec fn chains(paths: Seq<Vec<u32>>) -> Seq<u32> {
    paths.map_values(|p: Vec<u32>| chain_spec(p@) as u32)
}

/// Combined multi-path confidence: noisy-OR over each path's chain confidence.
pub fn multi_path_confidence(paths: &Vec<Vec<u32>>) -> (r: u32)
    requires
        forall|i: int| 0 <= i < paths@.len() ==> all_valid(#[trigger] paths@[i]@),
    ensures
        r == noisy_or_spec(chains(paths@)),
{
    let mut path_confidences: Vec<u32> = Vec::new();
    let mut i: usize = 0;
    while i < paths.len()
        invariant
            i <= paths.len(),
            forall|j: int| 0 <= j < paths@.len() ==> all_valid(#[trigger] paths@[j]@),
            path_confidences@ == chains(paths@).take(i as int),
        decreases paths.len() - i,
    {
        let c = chain_confidence(&paths[i]);
        path_confidences.push(c);
        assert(path_confidences@ =~= chains(paths@).take(i + 1));
        i += 1;
    }
    assert(chains(paths@).take(paths.len() as int) =~= chains(paths@));
    noisy_or(&path_confidences)
}

} // verus!
