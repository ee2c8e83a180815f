use vstd::prelude::*;

verus! {

/// `g` answers `true` for `(a, b)`.
pub open spec fn holds<E, G: Fn(E, E) -> bool>(g: G, a: E, b: E) -> bool {
    call_ensures(g, (a, b), true)
}

/// `g` answers `false` for `(a, b)`.
pub open spec fn fails<E, G: Fn(E, E) -> bool>(g: G, a: E, b: E) -> bool {
    call_ensures(g, (a, b), false)
}

/// The error of a kept candidate.
pub open spec fn error_of<C, E>(o: Option<(C, E)>) -> E {
    match o {
        Some((_, e)) => e,
        None => arbitrary(),
    }
}

/// Candidate `i` holds `r`, and every later candidate's error is not less than `r`'s.
pub open spec fn picked_last<C, E, L: Fn(E, E) -> bool>(cands: Seq<Option<(C, E)>>, i: int, r: (C, E), less: L) -> bool {
    &&& 0 <= i < cands.len()
    &&& cands[i] == Some(r)
    &&& forall|j: int| i < j < cands.len() && #[trigger] cands[j] is Some ==> fails(less, error_of(cands[j]), r.1)
}

/// Accept-if-better for one candidate: keeps `(c, e)` unless its error is
/// greater than the best one.
pub fn keep_if_not_worse<C, E: Copy, G: Fn(E, E) -> bool>(c: C, e: E, best: E, greater: &G) -> (r: Option<(C, E)>)
    requires
        call_requires(*greater, (e, best)),
    ensures
        r is None ==> holds(*greater, e, best),
        r is Some ==> fails(*greater, e, best) && r == Some((c, e)),
{
    if greater(e, best) {
        None
    } else {
        Some((c, e))
    }
}

/// `idx` is a chain of adoptions among the candidates: increasing indices
/// of kept candidates, the first one's error less than `best_error`, each
/// next one's error less than the previous one's.
pub open spec fn adoption_chain<C, E, L: Fn(E, E) -> bool>(cands: Seq<Option<(C, E)>>, best_error: E, idx: Seq<int>, less: L) -> bool {
    &&& idx.len() > 0
    &&& forall|j: int| 0 <= j < idx.len() ==> 0 <= #[trigger] idx[j] < cands.len() && cands[idx[j]] is Some
    &&& forall|j: int| 0 < j < idx.len() ==> idx[j - 1] < #[trigger] idx[j]
    &&& holds(less, error_of(cands[idx[0]]), best_error)
    &&& forall|j: int| 0 < j < idx.len() ==> holds(less, error_of(cands[#[trigger] idx[j]]), error_of(cands[idx[j - 1]]))
}

/// `r` was adopted along the chain `idx`, as its last link, and no later
/// candidate's error is less than `r`'s.
pub open spec fn adopted<C, E, L: Fn(E, E) -> bool>(cands: Seq<Option<(C, E)>>, best_error: E, idx: Seq<int>, r: (C, E), less: L) -> bool {
    &&& adoption_chain(cands, best_error, idx, less)
    &&& picked_last(cands, idx.last(), r, less)
}

/// Adopts, among the candidates in order, each one whose error is less than
/// the running best's, starting from the current best: gives the last one
/// adopted, or the current best if none was.
pub fn adopt_best<C, E: Copy, L: Fn(E, E) -> bool>(best: C, best_error: E, candidates: Vec<Option<(C, E)>>, less: &L)
    -> (r: (C, E))
    requires
        forall|a: E, b: E| call_requires(*less, (a, b)),
    ensures
        (r == (best, best_error) && forall|j: int| 0 <= j < candidates@.len() && #[trigger] candidates@[j] is Some
            ==> fails(*less, error_of(candidates@[j]), best_error))
        || exists|idx: Seq<int>| #[trigger] adopted(candidates@, best_error, idx, r, *less),
{
    let ghost orig = candidates@;
    let mut rest = candidates;
    let mut cur: (C, E) = (best, best_error);
    let ghost mut chain: Seq<int> = Seq::empty();
    let mut k: usize = 0;
    let n = rest.len();
    while rest.len() > 0
        invariant
            forall|a: E, b: E| call_requires(*less, (a, b)),
            n == orig.len(),
            k + rest@.len() == n,
            rest@ == orig.subrange(k as int, n as int),
            chain.len() == 0 ==> cur == (best, best_error),
            chain.len() == 0 ==> forall|j: int| 0 <= j < k && #[trigger] orig[j] is Some ==> fails(*less, error_of(orig[j]), best_error),
            chain.len() > 0 ==> adoption_chain(orig, best_error, chain, *less) && chain.last() < k
                && orig[chain.last()] == Some(cur)
                && forall|j: int| chain.last() < j < k && #[trigger] orig[j] is Some ==> fails(*less, error_of(orig[j]), cur.1),
        decreases rest@.len(),
    {
        let item = rest.remove(0);
        proof {
            assert(item == orig[k as int]);
        }
        match item {
            Some(candidate) => {
                if less(candidate.1, cur.1) {
                    proof {
                        let old_chain = chain;
                        chain = chain.push(k as int);
                        assert(error_of(orig[k as int]) == candidate.1);
                        if old_chain.len() > 0 {
                            assert(error_of(orig[old_chain.last()]) == cur.1);
                            assert forall|j: int| 0 < j < chain.len() implies holds(*less, error_of(orig[#[trigger] chain[j]]),
                                error_of(orig[chain[j - 1]])) by {
                                if j < old_chain.len() {
                                    assert(chain[j] == old_chain[j] && chain[j - 1] == old_chain[j - 1]);
                                }
                            }
                            assert(chain[0] == old_chain[0]);
                        }
                        assert(adoption_chain(orig, best_error, chain, *less));
                    }
                    cur = candidate;
                }
            },
            None => {},
        }
        k = k + 1;
        proof {
            assert(rest@ =~= orig.subrange(k as int, n as int));
        }
    }
    proof {
        if chain.len() > 0 {
            assert(adopted(orig, best_error, chain, cur, *less));
        }
    }
    cur
}

/// An adopted candidate's error is below the starting best error by any
/// transitive relation that every `true` answer of `less` implies.
pub proof fn lemma_adopted_is_lower<C, E, L: Fn(E, E) -> bool>(
    cands: Seq<Option<(C, E)>>,
    best_error: E,
    idx: Seq<int>,
    r: (C, E),
    less: L,
    lt: spec_fn(E, E) -> bool,
)
    requires
        adopted(cands, best_error, idx, r, less),
        forall|a: E, b: E| #[trigger] holds(less, a, b) ==> lt(a, b),
        forall|a: E, b: E, c: E| #[trigger] lt(a, b) && #[trigger] lt(b, c) ==> lt(a, c),
    ensures
        lt(r.1, best_error),
{
    lemma_chain_prefix_lower(cands, best_error, idx, less, lt, idx.len() - 1);
    assert(error_of(cands[idx.last()]) == r.1);
}

proof fn lemma_chain_prefix_lower<C, E, L: Fn(E, E) -> bool>(
    cands: Seq<Option<(C, E)>>,
    best_error: E,
    idx: Seq<int>,
    less: L,
    lt: spec_fn(E, E) -> bool,
    j: int,
)
    requires
        adoption_chain(cands, best_error, idx, less),
        forall|a: E, b: E| #[trigger] holds(less, a, b) ==> lt(a, b),
        forall|a: E, b: E, c: E| #[trigger] lt(a, b) && #[trigger] lt(b, c) ==> lt(a, c),
        0 <= j < idx.len(),
    ensures
        lt(error_of(cands[idx[j]]), best_error),
    decreases j,
{
    if j > 0 {
        lemma_chain_prefix_lower(cands, best_error, idx, less, lt, j - 1);
        assert(holds(less, error_of(cands[idx[j]]), error_of(cands[idx[j - 1]])));
    }
}

/// Law: along a search where every step keeps the best error or replaces
/// it by a lower one under a transitive order `lt`, the best error never
/// rises: each later error is the earlier one or lower.
pub proof fn lemma_best_error_never_rises<E>(lt: spec_fn(E, E) -> bool, errors: Seq<E>, a: int, b: int)
    requires
        forall|x: E, y: E, z: E| #[trigger] lt(x, y) && #[trigger] lt(y, z) ==> lt(x, z),
        forall|t: int| 0 <= t < errors.len() - 1 ==> #[trigger] errors[t + 1] == errors[t] || lt(errors[t + 1], errors[t]),
        0 <= a <= b < errors.len(),
    ensures
        errors[b] == errors[a] || lt(errors[b], errors[a]),
    decreases b - a,
{
    if a < b {
        lemma_best_error_never_rises(lt, errors, a, b - 1);
        let t = b - 1;
        assert(errors[t + 1] == errors[t] || lt(errors[t + 1], errors[t]));
    }
}

} // verus!
