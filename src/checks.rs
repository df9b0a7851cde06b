use vstd::prelude::*;

use crate::chains::{draws, effective_length, lemma_shortest_is_min, shortest};
use crate::error::DiagnosticError;

verus! {

/// The least effective length that the effective sample size accepts.
pub const ESS_MIN_DRAWS: usize = 4;

/// The least effective length that the potential scale reduction accepts:
/// each chain needs two draws for its sample variance.
pub const RHAT_MIN_DRAWS: usize = 2;

/// The effective length of a set of chains, checked against the least
/// length `required` that a diagnostic accepts.
pub fn checked_length<T>(chains: &Vec<Vec<T>>, required: usize) -> (r: Result<usize, DiagnosticError>)
    ensures
        r == (if chains.len() == 0 {
            Err(DiagnosticError::EmptyInput)
        } else if shortest(draws(chains)) < required {
            Err(DiagnosticError::InsufficientDraws { required, found: shortest(draws(chains)) as usize })
        } else {
            Ok(shortest(draws(chains)) as usize)
        }),
        shortest(draws(chains)) <= usize::MAX,
{
    if chains.len() > 0 {
        proof {
            let s = draws(chains);
            lemma_shortest_is_min(s);
            let j = choose|j: int| 0 <= j < s.len() && shortest(s) == #[trigger] s[j].len();
            assert(s[j] == chains[j]@);
        }
    }
    match effective_length(chains) {
        None => Err(DiagnosticError::EmptyInput),
        Some(n) => {
            if n < required {
                Err(DiagnosticError::InsufficientDraws { required, found: n })
            } else {
                Ok(n)
            }
        },
    }
}

/// Position `(chain, draw)` precedes `(c, i)` when it lies in an earlier
/// chain, or earlier in the same chain.
pub open spec fn precedes(c2: int, i2: int, c: int, i: int) -> bool {
    c2 < c || (c2 == c && i2 < i)
}

/// The first position `(chain, draw)`, chain after chain and within the
/// first `n` draws of each, whose draw `flagged` accepts; `None` when it
/// accepts none.
pub fn first_draw_where<T: Copy, F: Fn(T) -> bool>(chains: &Vec<Vec<T>>, n: usize, flagged: F) -> (r:
    Option<(usize, usize)>)
    requires
        forall|c: int| 0 <= c < chains.len() ==> n <= #[trigger] chains[c].len(),
        forall|x: T| flagged.requires((x,)),
    ensures
        r is Some ==> {
            let (c, i) = r->0;
            &&& c < chains.len()
            &&& i < n
            &&& flagged.ensures((chains[c as int]@[i as int],), true)
            &&& forall|c2: int, i2: int|
                0 <= c2 && 0 <= i2 < n && precedes(c2, i2, c as int, i as int) ==> flagged.ensures(
                    (#[trigger] chains[c2]@[i2],),
                    false,
                )
        },
        r is None ==> forall|c2: int, i2: int|
            0 <= c2 < chains.len() && 0 <= i2 < n ==> flagged.ensures((#[trigger] chains[c2]@[i2],), false),
{
    let mut c: usize = 0;
    while c < chains.len()
        invariant
            0 <= c <= chains.len(),
            forall|k: int| 0 <= k < chains.len() ==> n <= #[trigger] chains[k].len(),
            forall|x: T| flagged.requires((x,)),
            forall|c2: int, i2: int|
                0 <= c2 < c && 0 <= i2 < n ==> flagged.ensures((#[trigger] chains[c2]@[i2],), false),
        decreases chains.len() - c,
    {
        let chain = &chains[c];
        assert(n <= chain.len());
        let mut i: usize = 0;
        while i < n
            invariant
                0 <= i <= n <= chain.len(),
                c < chains.len(),
                chain == &chains[c as int],
                forall|x: T| flagged.requires((x,)),
                forall|c2: int, i2: int|
                    0 <= c2 && 0 <= i2 < n && precedes(c2, i2, c as int, i as int) ==> flagged.ensures(
                        (#[trigger] chains[c2]@[i2],),
                        false,
                    ),
            decreases n - i,
        {
            if flagged(chain[i]) {
                return Some((c, i));
            }
            i = i + 1;
        }
        c = c + 1;
    }
    None
}

/// The checks that run before a diagnostic computes anything, in this
/// order: there is a chain; the effective length `n` is at least
/// `required`; no draw among the first `n` of each chain is `non_finite`
/// (the first such draw is named); and some draw is `apart` from the first
/// draw of the first chain. Returns `n`.
pub fn validate_draws<T: Copy, F: Fn(T) -> bool, G: Fn(T, T) -> bool>(
    chains: &Vec<Vec<T>>,
    required: usize,
    non_finite: F,
    apart: G,
) -> (r: Result<usize, DiagnosticError>)
    requires
        required >= 1,
        forall|x: T| non_finite.requires((x,)),
        forall|x: T, y: T| apart.requires((x, y)),
    ensures
        chains.len() == 0 ==> r == Err::<usize, DiagnosticError>(DiagnosticError::EmptyInput),
        chains.len() > 0 && shortest(draws(chains)) < required ==> r == Err::<
            usize,
            DiagnosticError,
        >(
            DiagnosticError::InsufficientDraws {
                required,
                found: shortest(draws(chains)) as usize,
            },
        ),
        chains.len() > 0 && shortest(draws(chains)) >= required ==> match r {
            Ok(n) => {
                &&& n == shortest(draws(chains))
                &&& forall|c: int, i: int|
                    0 <= c < chains.len() && 0 <= i < n ==> non_finite.ensures(
                        (#[trigger] chains[c]@[i],),
                        false,
                    )
                &&& exists|c: int, i: int|
                    0 <= c < chains.len() && 0 <= i < n && apart.ensures(
                        (chains[0]@[0], #[trigger] chains[c]@[i]),
                        true,
                    )
            },
            Err(DiagnosticError::NonFinite { chain, draw }) => {
                &&& chain < chains.len()
                &&& draw < shortest(draws(chains))
                &&& non_finite.ensures((chains[chain as int]@[draw as int],), true)
                &&& forall|c: int, i: int|
                    0 <= c && 0 <= i < shortest(draws(chains)) && precedes(
                        c,
                        i,
                        chain as int,
                        draw as int,
                    ) ==> non_finite.ensures((#[trigger] chains[c]@[i],), false)
            },
            Err(DiagnosticError::Degenerate) => {
                &&& forall|c: int, i: int|
                    0 <= c < chains.len() && 0 <= i < shortest(draws(chains)) ==> {
                        &&& non_finite.ensures((#[trigger] chains[c]@[i],), false)
                        &&& apart.ensures((chains[0]@[0], chains[c]@[i]), false)
                    }
            },
            Err(_) => false,
        },
{
    let n = match checked_length(chains, required) {
        Err(e) => {
            return Err(e);
        },
        Ok(n) => n,
    };
    proof {
        lemma_shortest_is_min(draws(chains));
        assert forall|c: int| 0 <= c < chains.len() implies n <= #[trigger] chains[c].len() by {
            assert(draws(chains)[c] == chains[c]@);
        }
    }
    let found = first_draw_where(chains, n, non_finite);
    if let Some((chain, draw)) = found {
        return Err(DiagnosticError::NonFinite { chain, draw });
    }
    assert(0 < chains[0].len());
    let x0: T = chains[0][0];
    let apart_ref = &apart;
    let away = |x: T| -> (b: bool)
        ensures
            apart_ref.ensures((x0, x), b),
        { apart_ref(x0, x) };
    match first_draw_where(chains, n, away) {
        Some((c, i)) => {
            assert(apart.ensures((chains[0]@[0], chains[c as int]@[i as int]), true));
            Ok(n)
        },
        None => {
            assert forall|c: int, i: int| 0 <= c < chains.len() && 0 <= i < n implies apart.ensures(
                (chains[0]@[0], #[trigger] chains[c]@[i]),
                false,
            ) by {
                assert(away.ensures((chains[c]@[i],), false));
            }
            Err(DiagnosticError::Degenerate)
        },
    }
}

} // verus!
