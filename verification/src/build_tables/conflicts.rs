//! How a choice between actions is settled: a table from the candidates for
//! one lookahead symbol to a decision, with no state of its own.
//!
//! The candidates are ranked by static precedence (first the numeric one,
//! then the rank of the named one) and then by dynamic precedence. The
//! candidate that outranks all others is taken. A tie between shifting and
//! one reduction is settled by the associativity of the reduction: to the
//! left the reduction is taken, to the right the shift. Any other tie stays
//! unresolved, unless the grammar expects the conflict.
use vstd::prelude::*;
use crate::rules::Associativity;

verus! {

/// One action that could be taken: shifting the lookahead symbol (`production`
/// is absent) or reducing by the production numbered `production`.
#[derive(Clone, Copy, Debug, PartialEq, Eq, Structural)]
pub struct Candidate {
    pub production: Option<usize>,
    pub major: i32,
    pub minor: usize,
    pub dynamic: i32,
    pub associativity: Option<Associativity>,
}

/// What is done about the candidates: the candidate at one index is taken,
/// all are kept for the parser to try at run time, or nothing settles it.
#[derive(Clone, Copy, Debug, PartialEq, Eq, Structural)]
pub enum Decision {
    Take(usize),
    KeepAll,
    Unresolved,
}

/// Whether `a` ranks strictly above `b`.
pub open spec fn outranks(a: Candidate, b: Candidate) -> bool {
    a.major > b.major || (a.major == b.major && (a.minor > b.minor || (a.minor == b.minor
        && a.dynamic > b.dynamic)))
}

/// Whether neither of `a` and `b` ranks above the other.
pub open spec fn ties(a: Candidate, b: Candidate) -> bool {
    !outranks(a, b) && !outranks(b, a)
}

/// The ranking is a strict weak order: nothing ranks above itself, ranking
/// above is transitive, and so is ranking level.
pub proof fn ranking_is_a_strict_weak_order(a: Candidate, b: Candidate, c: Candidate)
    ensures
        !outranks(a, a),
        outranks(a, b) && outranks(b, c) ==> outranks(a, c),
        outranks(a, b) ==> !outranks(b, a),
        ties(a, b) && ties(b, c) ==> ties(a, c),
{
}

/// The index of the first among the first `k` candidates that none of them
/// outranks.
pub open spec fn best_index(candidates: Seq<Candidate>, k: int) -> int
    decreases k,
{
    if k <= 1 {
        0
    } else {
        let b = best_index(candidates, k - 1);
        if outranks(candidates[k - 1], candidates[b]) {
            k - 1
        } else {
            b
        }
    }
}

/// How many of the first `k` candidates rank level with `x`.
pub open spec fn tie_count(candidates: Seq<Candidate>, x: Candidate, k: int) -> int
    decreases k,
{
    if k <= 0 {
        0
    } else {
        tie_count(candidates, x, k - 1) + if ties(candidates[k - 1], x) {
            1int
        } else {
            0int
        }
    }
}

/// The index of the last among the first `k` candidates, other than the one
/// at `b`, that ranks level with the one at `b`; `b` where there is none.
pub open spec fn other_tie(candidates: Seq<Candidate>, b: int, k: int) -> int
    decreases k,
{
    if k <= 0 {
        b
    } else if k - 1 != b && ties(candidates[k - 1], candidates[b]) {
        k - 1
    } else {
        other_tie(candidates, b, k - 1)
    }
}

/// How a tie between the candidates at `first` and `second` is settled.
pub open spec fn settled(candidates: Seq<Candidate>, first: int, second: int) -> Decision {
    let a = candidates[first];
    let b = candidates[second];
    if a.production is None && b.production is Some {
        match b.associativity {
            Some(Associativity::Left) => Decision::Take(second as usize),
            Some(Associativity::Right) => Decision::Take(first as usize),
            None => Decision::Unresolved,
        }
    } else if b.production is None && a.production is Some {
        match a.associativity {
            Some(Associativity::Left) => Decision::Take(first as usize),
            Some(Associativity::Right) => Decision::Take(second as usize),
            None => Decision::Unresolved,
        }
    } else {
        Decision::Unresolved
    }
}

/// The decision for the candidates. One candidate alone is taken. Where the
/// grammar expects the conflict, all are kept. Otherwise the one candidate
/// that outranks the others is taken, a tie between a shift and one reduction
/// is settled by associativity, and any other tie is unresolved.
pub open spec fn decided(candidates: Seq<Candidate>, expected: bool) -> Decision {
    if candidates.len() == 0 {
        Decision::Unresolved
    } else if candidates.len() == 1 {
        Decision::Take(0)
    } else if expected {
        Decision::KeepAll
    } else {
        let b = best_index(candidates, candidates.len() as int);
        let n = tie_count(candidates, candidates[b], candidates.len() as int);
        if n == 1 {
            Decision::Take(b as usize)
        } else if n == 2 {
            settled(candidates, b, other_tie(candidates, b, candidates.len() as int))
        } else {
            Decision::Unresolved
        }
    }
}

/// Whether `a` ranks strictly above `b`.
pub fn candidate_outranks(a: &Candidate, b: &Candidate) -> (r: bool)
    ensures
        r == outranks(*a, *b),
{
    a.major > b.major || (a.major == b.major && (a.minor > b.minor || (a.minor == b.minor
        && a.dynamic > b.dynamic)))
}

/// Decides between the candidates for one lookahead symbol.
pub fn decide(candidates: &Vec<Candidate>, expected: bool) -> (d: Decision)
    ensures
        d == decided(candidates@, expected),
{
    let n = candidates.len();
    if n == 0 {
        return Decision::Unresolved;
    }
    if n == 1 {
        return Decision::Take(0);
    }
    if expected {
        return Decision::KeepAll;
    }
    let mut best: usize = 0;
    let mut k: usize = 1;
    while k < n
        invariant
            1 <= k <= n,
            n == candidates@.len(),
            best < k,
            best as int == best_index(candidates@, k as int),
        decreases n - k,
    {
        if candidate_outranks(&candidates[k], &candidates[best]) {
            best = k;
        }
        k += 1;
    }
    let top = candidates[best];
    let mut count: usize = 0;
    let mut other: usize = best;
    let mut j: usize = 0;
    while j < n
        invariant
            j <= n,
            n == candidates@.len(),
            best < n,
            top == candidates@[best as int],
            count <= j,
            count as int == tie_count(candidates@, top, j as int),
            other as int == other_tie(candidates@, best as int, j as int),
            other < n,
        decreases n - j,
    {
        let level = !candidate_outranks(&candidates[j], &top) && !candidate_outranks(
            &top,
            &candidates[j],
        );
        if level {
            count += 1;
            if j != best {
                other = j;
            }
        }
        j += 1;
    }
    if count == 1 {
        Decision::Take(best)
    } else if count == 2 {
        let a = candidates[best];
        let b = candidates[other];
        if a.production.is_none() && b.production.is_some() {
            match b.associativity {
                Some(Associativity::Left) => Decision::Take(other),
                Some(Associativity::Right) => Decision::Take(best),
                None => Decision::Unresolved,
            }
        } else if b.production.is_none() && a.production.is_some() {
            match a.associativity {
                Some(Associativity::Left) => Decision::Take(best),
                Some(Associativity::Right) => Decision::Take(other),
                None => Decision::Unresolved,
            }
        } else {
            Decision::Unresolved
        }
    } else {
        Decision::Unresolved
    }
}

/// The candidates with the dynamic precedence of the one at `i` set to `d`.
pub open spec fn with_dynamic(candidates: Seq<Candidate>, i: int, d: i32) -> Seq<Candidate> {
    candidates.update(i, Candidate { dynamic: d, ..candidates[i] })
}

/// The best candidate is among the candidates, none outranks it, and it
/// outranks those before it.
pub proof fn lemma_best_index(candidates: Seq<Candidate>, k: int)
    requires
        1 <= k <= candidates.len(),
    ensures
        0 <= best_index(candidates, k) < k,
        forall|j: int|
            0 <= j < k ==> !outranks(
                #[trigger] candidates[j],
                candidates[best_index(candidates, k)],
            ),
        forall|j: int|
            0 <= j < best_index(candidates, k) ==> outranks(
                candidates[best_index(candidates, k)],
                #[trigger] candidates[j],
            ),
    decreases k,
{
    if k > 1 {
        lemma_best_index(candidates, k - 1);
    }
}

/// A candidate that outranks all the others is the best.
pub proof fn lemma_dominant_is_best(candidates: Seq<Candidate>, i: int, k: int)
    requires
        0 <= i < candidates.len(),
        1 <= k <= candidates.len(),
        forall|j: int|
            0 <= j < candidates.len() && j != i ==> outranks(candidates[i], #[trigger] candidates[j]),
    ensures
        i < k ==> best_index(candidates, k) == i,
        forall|x: Candidate|
            i < k && ties(x, candidates[i]) ==> #[trigger] tie_count(candidates, x, k) == 1,
        forall|x: Candidate|
            i >= k && ties(x, candidates[i]) ==> #[trigger] tie_count(candidates, x, k) == 0,
    decreases k,
{
    if k > 1 {
        lemma_dominant_is_best(candidates, i, k - 1);
        lemma_best_index(candidates, k - 1);
    }
    assert forall|x: Candidate| i < k && ties(x, candidates[i]) implies #[trigger] tie_count(
        candidates,
        x,
        k,
    ) == 1 by {
        if i < k - 1 {
            assert(tie_count(candidates, x, k - 1) == 1);
            assert(outranks(candidates[i], candidates[k - 1]));
        } else if k > 1 {
            assert(tie_count(candidates, x, k - 1) == 0);
        } else {
            assert(tie_count(candidates, x, 0) == 0);
        }
    }
    assert forall|x: Candidate| i >= k && ties(x, candidates[i]) implies #[trigger] tie_count(
        candidates,
        x,
        k,
    ) == 0 by {
        assert(outranks(candidates[i], candidates[k - 1]));
        if k > 1 {
            assert(tie_count(candidates, x, k - 1) == 0);
        } else {
            assert(tie_count(candidates, x, 0) == 0);
        }
    }
}

/// Where the candidates that rank level with `x` are counted, a count of one
/// that includes the candidate at `i` excludes all the others.
pub proof fn lemma_single_tie(candidates: Seq<Candidate>, x: Candidate, i: int, k: int)
    requires
        0 <= i < k <= candidates.len(),
        ties(candidates[i], x),
        tie_count(candidates, x, k) == 1,
    ensures
        forall|j: int| 0 <= j < k && j != i ==> !ties(#[trigger] candidates[j], x),
    decreases k,
{
    lemma_tie_count_bounds(candidates, x, k - 1);
    if k - 1 == i {
        lemma_no_ties(candidates, x, k - 1);
    } else {
        if ties(candidates[k - 1], x) {
            lemma_tie_count_at_least(candidates, x, i, k - 1);
        } else {
            lemma_single_tie(candidates, x, i, k - 1);
        }
    }
}

pub proof fn lemma_tie_count_bounds(candidates: Seq<Candidate>, x: Candidate, k: int)
    requires
        0 <= k,
    ensures
        0 <= tie_count(candidates, x, k) <= k,
    decreases k,
{
    if k > 0 {
        lemma_tie_count_bounds(candidates, x, k - 1);
    }
}

pub proof fn lemma_no_ties(candidates: Seq<Candidate>, x: Candidate, k: int)
    requires
        0 <= k,
        tie_count(candidates, x, k) == 0,
    ensures
        forall|j: int| 0 <= j < k ==> !ties(#[trigger] candidates[j], x),
    decreases k,
{
    if k > 0 {
        lemma_tie_count_bounds(candidates, x, k - 1);
        lemma_no_ties(candidates, x, k - 1);
    }
}

pub proof fn lemma_tie_count_at_least(candidates: Seq<Candidate>, x: Candidate, i: int, k: int)
    requires
        0 <= i < k,
        ties(candidates[i], x),
    ensures
        tie_count(candidates, x, k) >= 1,
    decreases k,
{
    lemma_tie_count_bounds(candidates, x, k - 1);
    if k - 1 != i {
        lemma_tie_count_at_least(candidates, x, i, k - 1);
    }
}

/// Where two candidates rank level with the one at `b`, itself included, the
/// other one is found, and no third one ranks level.
pub proof fn lemma_two_ties(candidates: Seq<Candidate>, b: int, k: int)
    requires
        0 <= b < candidates.len(),
        0 <= k <= candidates.len(),
    ensures
        ({
            let o = other_tie(candidates, b, k);
            let n = tie_count(candidates, candidates[b], k);
            &&& (o == b || (0 <= o < k && ties(candidates[o], candidates[b])))
            &&& (o == b ==> forall|j: int|
                0 <= j < k && j != b ==> !ties(#[trigger] candidates[j], candidates[b]))
            &&& (n == 2 && b < k ==> o != b && forall|j: int|
                0 <= j < k && j != b && j != o ==> !ties(#[trigger] candidates[j], candidates[b]))
        }),
    decreases k,
{
    if k > 0 {
        lemma_two_ties(candidates, b, k - 1);
        lemma_tie_count_bounds(candidates, candidates[b], k - 1);
        let x = candidates[b];
        if tie_count(candidates, x, k) == 2 && b < k {
            if k - 1 == b {
                // one other tie among the first k - 1
                assert(tie_count(candidates, x, k - 1) == 1);
                if other_tie(candidates, b, k - 1) == b {
                    lemma_no_ties_means_zero(candidates, x, b, k - 1);
                } else {
                    lemma_single_tie(candidates, x, other_tie(candidates, b, k - 1), k - 1);
                }
            } else if ties(candidates[k - 1], x) {
                assert(tie_count(candidates, x, k - 1) == 1);
                lemma_single_tie(candidates, x, b, k - 1);
            } else {
            }
        }
    }
}

pub proof fn lemma_no_ties_means_zero(candidates: Seq<Candidate>, x: Candidate, b: int, k: int)
    requires
        0 <= k,
        forall|j: int| 0 <= j < k && j != b ==> !ties(#[trigger] candidates[j], x),
        !(0 <= b < k),
    ensures
        tie_count(candidates, x, k) == 0,
    decreases k,
{
    if k > 0 {
        lemma_no_ties_means_zero(candidates, x, b, k - 1);
    }
}

/// Raising the dynamic precedence of a reduction never turns a decision for
/// that reduction into another decision: where the candidate at `i` is a
/// reduction and is taken, it is still taken once its dynamic precedence is
/// raised and everything else is as before.
pub proof fn raising_dynamic_precedence_keeps_the_decision(
    candidates: Seq<Candidate>,
    expected: bool,
    i: int,
    d: i32,
)
    requires
        0 <= i < candidates.len(),
        candidates.len() <= usize::MAX,
        candidates[i].production is Some,
        d >= candidates[i].dynamic,
        decided(candidates, expected) == Decision::Take(i as usize),
    ensures
        decided(with_dynamic(candidates, i, d), expected) == Decision::Take(i as usize),
{
    let raised = with_dynamic(candidates, i, d);
    let n = candidates.len() as int;
    if n >= 2 && d > candidates[i].dynamic {
        let b = best_index(candidates, n);
        lemma_best_index(candidates, n);
        lemma_two_ties(candidates, b, n);
        let count = tie_count(candidates, candidates[b], n);
        let o = other_tie(candidates, b, n);
        // The candidate at `i` ranks level with the best one.
        assert(ties(candidates[i], candidates[b])) by {
            if count == 1 {
                assert(b == i);
            } else {
                assert(count == 2);
                assert(i == b || i == o);
            }
        }
        // Every other candidate ranks below the raised one.
        assert forall|j: int| 0 <= j < n && j != i implies outranks(
            raised[i],
            #[trigger] raised[j],
        ) by {
            assert(raised[j] == candidates[j]);
            assert(!outranks(candidates[j], candidates[b]));
        }
        lemma_dominant_is_best(raised, i, n);
        assert(ties(raised[i], raised[i]));
        assert(tie_count(raised, raised[i], n) == 1);
    } else if n >= 2 {
        assert(raised =~= candidates);
    }
}

} // verus!
