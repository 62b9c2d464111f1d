//! Confidence scoring and result ordering.
//!
//! Confidence is a fixed-point score in parts per million combining the
//! match count (on a logarithmic scale) with the match density relative to
//! the file size. Results order primarily by match count, descending, and
//! break ties by confidence, descending.

use vstd::arithmetic::power2::{
    lemma2_to64, lemma2_to64_rest, lemma_pow2_strictly_increases, lemma_pow2_unfold, pow2,
};
use vstd::multiset::group_multiset_axioms;
use vstd::prelude::*;
use vstd::seq_lib::group_to_multiset_ensures;

use crate::types::SearchResult;

verus! {

/// One unit of confidence: scores range over `0 ..= CONFIDENCE_SCALE`.
pub const CONFIDENCE_SCALE: u64 = 1_000_000;

/// The natural logarithm of 2, in parts per million.
pub const LN2_SCALED: u64 = 693_147;

/// The floor of the base-2 logarithm; 0 for 0.
pub open spec fn floor_log2(n: nat) -> nat
    decreases n,
{
    if n < 2 {
        0
    } else {
        1 + floor_log2(n / 2)
    }
}

/// The match-count score in parts per million: a fixed-point rendering of
/// `min(ln(count) + 1, 5) / 5`, approximating `ln` as `ln 2 * floor(log2)`.
pub open spec fn match_score_of(count: nat) -> nat {
    let ln_scaled = (LN2_SCALED as nat) * floor_log2(count);
    let capped: nat = if ln_scaled + CONFIDENCE_SCALE > 5 * CONFIDENCE_SCALE {
        5 * (CONFIDENCE_SCALE as nat)
    } else {
        (ln_scaled + CONFIDENCE_SCALE) as nat
    };
    capped / 5
}

/// The density score in parts per million: `min(count / (size/1024), 10) / 10`
/// in fixed point for a file of `size > 0` bytes, and one half for an empty
/// size.
pub open spec fn density_of(count: nat, size: nat) -> nat {
    if size > 0 {
        let per_kib = count * 1024 * (CONFIDENCE_SCALE as nat) / size;
        let capped = if per_kib > 10 * CONFIDENCE_SCALE {
            10 * (CONFIDENCE_SCALE as nat)
        } else {
            per_kib
        };
        capped / 10
    } else {
        (CONFIDENCE_SCALE as nat) / 2
    }
}

/// The confidence score of a file with `count` matches and `size` bytes:
/// zero without matches, else the weighted sum of match score (7/10) and
/// density (3/10), clamped to the unit scale.
pub open spec fn confidence_of(count: nat, size: nat) -> nat {
    if count == 0 {
        0
    } else {
        let combined = (7 * match_score_of(count) + 3 * density_of(count, size)) / 10;
        if combined > CONFIDENCE_SCALE {
            CONFIDENCE_SCALE as nat
        } else {
            combined
        }
    }
}

/// The floor of the base-2 logarithm of `n`.
fn floor_log2_u64(n: u64) -> (r: u64)
    requires
        n >= 1,
    ensures
        r == floor_log2(n as nat),
        r <= 63,
{
    let mut v: u64 = n;
    let mut r: u64 = 0;
    proof {
        assert(pow2(0) == 1) by {
            lemma2_to64();
        }
    }
    while v >= 2
        invariant
            v >= 1,
            floor_log2(n as nat) == r + floor_log2(v as nat),
            pow2(r as nat) * (v as nat) <= n as nat,
            r <= 63,
        decreases v,
    {
        proof {
            assert(r <= 62) by {
                if r >= 63 {
                    lemma2_to64_rest();
                    if r > 63 {
                        lemma_pow2_strictly_increases(63, r as nat);
                    }
                    assert(pow2(r as nat) >= 0x8000000000000000);
                    assert(pow2(r as nat) * (v as nat) >= 0x10000000000000000)
                        by (nonlinear_arith)
                        requires
                            pow2(r as nat) >= 0x8000000000000000,
                            v as nat >= 2,
                    ;
                }
            }
            lemma_pow2_unfold((r + 1) as nat);
            assert(pow2((r + 1) as nat) * ((v / 2) as nat) <= pow2(r as nat) * (v as nat))
                by (nonlinear_arith)
                requires
                    pow2((r + 1) as nat) == 2 * pow2(r as nat),
                    v >= 2,
            ;
        }
        v = v / 2;
        r = r + 1;
    }
    r
}

/// Compute the match-count score, in parts per million.
fn match_score(count: usize) -> (r: u64)
    requires
        count >= 1,
    ensures
        r == match_score_of(count as nat),
        r <= CONFIDENCE_SCALE,
{
    let lg = floor_log2_u64(count as u64);
    let ln_scaled = LN2_SCALED * lg;
    let capped = if ln_scaled + CONFIDENCE_SCALE > 5 * CONFIDENCE_SCALE {
        5 * CONFIDENCE_SCALE
    } else {
        ln_scaled + CONFIDENCE_SCALE
    };
    capped / 5
}

/// Compute the density score, in parts per million.
fn density(count: usize, size: u64) -> (r: u64)
    requires
        count >= 1,
    ensures
        r == density_of(count as nat, size as nat),
        r <= CONFIDENCE_SCALE,
{
    if size > 0 {
        let per_kib_wide: u128 = (count as u128) * 1024 * (CONFIDENCE_SCALE as u128) / (
        size as u128);
        proof {
            assert((count as u128) * 1024 * (CONFIDENCE_SCALE as u128) == (count as nat) * 1024 * (
            CONFIDENCE_SCALE as nat));
        }
        let capped: u64 = if per_kib_wide > 10 * (CONFIDENCE_SCALE as u128) {
            10 * CONFIDENCE_SCALE
        } else {
            per_kib_wide as u64
        };
        capped / 10
    } else {
        CONFIDENCE_SCALE / 2
    }
}

/// Compute the confidence score of a file with `count` matches and `size`
/// bytes, in parts per million.
pub fn calculate_confidence(count: usize, size: u64) -> (r: u64)
    ensures
        r == confidence_of(count as nat, size as nat),
        r <= CONFIDENCE_SCALE,
{
    if count == 0 {
        return 0;
    }
    let ms = match_score(count);
    let d = density(count, size);
    let combined = (7 * ms + 3 * d) / 10;
    if combined > CONFIDENCE_SCALE {
        CONFIDENCE_SCALE
    } else {
        combined
    }
}

/// `a` ranks no lower than `b`: more matches rank first, and among equal
/// match counts the higher confidence ranks first.
pub open spec fn ranks_no_lower(a: SearchResult, b: SearchResult) -> bool {
    ||| a.matches.len() > b.matches.len()
    ||| (a.matches.len() == b.matches.len() && a.confidence >= b.confidence)
}

/// The ranking order is a total pre-order that respects match count first
/// and confidence second: it is reflexive, transitive and total; a result
/// with more matches never ranks below one with fewer, and among equal match
/// counts a higher confidence never ranks below a lower one.
pub proof fn lemma_ranking_total_pre_order(a: SearchResult, b: SearchResult, c: SearchResult)
    ensures
        ranks_no_lower(a, a),
        ranks_no_lower(a, b) && ranks_no_lower(b, c) ==> ranks_no_lower(a, c),
        ranks_no_lower(a, b) || ranks_no_lower(b, a),
        a.matches.len() > b.matches.len() ==> ranks_no_lower(a, b),
        a.matches.len() == b.matches.len() && a.confidence >= b.confidence ==> ranks_no_lower(
            a,
            b,
        ),
{
}

/// Decide [`ranks_no_lower`] for two results.
fn ranks_no_lower_exec(a: &SearchResult, b: &SearchResult) -> (r: bool)
    ensures
        r == ranks_no_lower(*a, *b),
{
    a.matches.len() > b.matches.len() || (a.matches.len() == b.matches.len() && a.confidence
        >= b.confidence)
}

/// Sort results into ranking order: highest match count first, confidence
/// breaking ties. The result holds exactly the same results.
pub fn sort_results(results: &mut Vec<SearchResult>)
    ensures
        final(results)@.to_multiset() == old(results)@.to_multiset(),
        final(results)@.len() == old(results)@.len(),
        forall|i: int, j: int|
            0 <= i < j < final(results)@.len() ==> ranks_no_lower(
                #[trigger] final(results)@[i],
                #[trigger] final(results)@[j],
            ),
{
    broadcast use group_to_multiset_ensures;

    let mut i: usize = 1;
    while i < results.len()
        invariant
            1 <= i,
            results@.len() == old(results)@.len(),
            results@.to_multiset() == old(results)@.to_multiset(),
            forall|k: int, l: int|
                0 <= k < l < i && l < results@.len() ==> ranks_no_lower(
                    #[trigger] results@[k],
                    #[trigger] results@[l],
                ),
        decreases results@.len() - i,
    {
        let mut pos: usize = 0;
        while pos < i && ranks_no_lower_exec(&results[pos], &results[i])
            invariant
                pos <= i < results@.len(),
                forall|k: int| 0 <= k < pos ==> ranks_no_lower(#[trigger] results@[k], results@[i as int]),
            decreases i - pos,
        {
            pos = pos + 1;
        }
        if pos < i {
            let ghost before = results@;
            let x = results.remove(i);
            let ghost removed = results@;
            results.insert(pos, x);
            proof {
                assert(results@.to_multiset() == before.to_multiset()) by {
                    assert(removed == before.remove(i as int));
                    vstd::seq_lib::to_multiset_remove(before, i as int);
                    vstd::seq_lib::to_multiset_insert(removed, pos as int, x);
                    vstd::seq_lib::to_multiset_contains(before, x);
                    assert(before.to_multiset().count(x) > 0) by {
                        assert(before.contains(before[i as int]));
                    }
                    assert(before.to_multiset().remove(x).insert(x) =~= before.to_multiset());
                }
                assert forall|k: int, l: int|
                    0 <= k < l < i + 1 && l < results@.len() implies ranks_no_lower(
                    #[trigger] results@[k],
                    #[trigger] results@[l],
                ) by {
                    lemma_ranking_total_pre_order(before[k], before[l], before[l]);
                    let ak = if k < pos {
                        before[k]
                    } else if k == pos {
                        before[i as int]
                    } else {
                        before[k - 1]
                    };
                    assert(results@[k] == ak);
                    let al = if l < pos {
                        before[l]
                    } else if l == pos {
                        before[i as int]
                    } else {
                        before[l - 1]
                    };
                    assert(results@[l] == al);
                    lemma_ranking_total_pre_order(ak, al, al);
                    if l == pos {
                        // `ak` is an already-sorted element before `pos`.
                        assert(ranks_no_lower(ak, before[i as int]));
                    } else if k == pos {
                        // `al` ranked no lower than the element at `pos - 1`
                        // would contradict the insertion position only if it
                        // ranked above the inserted element.
                        assert(!ranks_no_lower(before[pos as int], before[i as int]));
                        assert(ranks_no_lower(before[i as int], before[pos as int])) by {
                            lemma_ranking_total_pre_order(
                                before[pos as int],
                                before[i as int],
                                before[i as int],
                            );
                        }
                        if l - 1 >= pos {
                            assert(ranks_no_lower(before[pos as int], before[l - 1]));
                            lemma_ranking_total_pre_order(
                                before[i as int],
                                before[pos as int],
                                before[l - 1],
                            );
                        }
                    } else {
                        assert(ranks_no_lower(ak, al));
                    }
                }
            }
        }
        i = i + 1;
    }
}

/// Sort results into ranking order and keep only the first `limit`.
pub fn finalize_results(results: &mut Vec<SearchResult>, limit: usize)
    ensures
        final(results)@.len() == vstd::math::min(old(results)@.len() as int, limit as int),
        forall|i: int, j: int|
            0 <= i < j < final(results)@.len() ==> ranks_no_lower(
                #[trigger] final(results)@[i],
                #[trigger] final(results)@[j],
            ),
        exists|sorted: Seq<SearchResult>|
            sorted.to_multiset() == old(results)@.to_multiset() && final(results)@
                == sorted.take(final(results)@.len() as int),
{
    sort_results(results);
    let ghost sorted = results@;
    if results.len() > limit {
        results.truncate(limit);
    }
    proof {
        assert(results@ == sorted.take(results@.len() as int)) by {
            assert(results@ =~= sorted.take(results@.len() as int));
        }
    }
}

} // verus!
