use vstd::prelude::*;

use crate::chains::{
    copy_range, draws, effective_length, lemma_shortest_is_min, shortest, trim_of,
};
use crate::error::DiagnosticError;

verus! {

/// The first half of a chain of effective length `n`: draws `0..n/2`.
pub open spec fn first_half<T>(c: Seq<T>, n: nat) -> Seq<T> {
    c.subrange(0, (n / 2) as int)
}

/// The second half of a chain of effective length `n`: the last `n/2` of
/// its first `n` draws. When `n` is odd the middle draw `(n-1)/2` falls
/// between the two halves.
pub open spec fn second_half<T>(c: Seq<T>, n: nat) -> Seq<T> {
    c.subrange(n - n / 2, n as int)
}

/// Each chain replaced by its first half and then its second half, in the
/// order of the chains.
pub open spec fn split_of<T>(s: Seq<Seq<T>>) -> Seq<Seq<T>> {
    Seq::new(
        2 * s.len(),
        |j: int|
            if j % 2 == 0 {
                first_half(s[j / 2], shortest(s))
            } else {
                second_half(s[j / 2], shortest(s))
            },
    )
}

/// Splits each chain into two chains of `n/2` draws, where `n` is the
/// effective length; when `n` is odd the middle draw of each chain is left
/// out. Fails with `EmptyInput` when there is no chain or `n` is zero.
pub fn split_chains<T: Copy>(chains: Vec<Vec<T>>) -> (r: Result<Vec<Vec<T>>, DiagnosticError>)
    ensures
        r is Err <==> chains.len() == 0 || shortest(draws(&chains)) == 0,
        r is Err ==> r->Err_0 == DiagnosticError::EmptyInput,
        r is Ok ==> draws(&r->Ok_0) == split_of(draws(&chains)),
{
    let n = match effective_length(&chains) {
        None => {
            return Err(DiagnosticError::EmptyInput);
        },
        Some(n) => n,
    };
    if n == 0 {
        return Err(DiagnosticError::EmptyInput);
    }
    let ghost s = draws(&chains);
    let half: usize = n / 2;
    let mut out: Vec<Vec<T>> = Vec::new();
    let mut i: usize = 0;
    while i < chains.len()
        invariant
            0 <= i <= chains.len(),
            s == draws(&chains),
            n == shortest(s),
            half == n / 2,
            forall|k: int| 0 <= k < chains.len() ==> n <= #[trigger] chains[k].len(),
            out.len() == 2 * i,
            forall|j: int| 0 <= j < 2 * i ==> #[trigger] out[j]@ == split_of(s)[j],
        decreases chains.len() - i,
    {
        assert(n <= chains[i as int].len());
        let a = copy_range(&chains[i], 0, half);
        let b = copy_range(&chains[i], n - half, n);
        proof {
            assert(s[i as int] == chains[i as int]@);
            assert(split_of(s)[2 * i] == a@);
            assert(split_of(s)[2 * i + 1] == b@);
        }
        out.push(a);
        out.push(b);
        i = i + 1;
    }
    assert(draws(&out) =~= split_of(s));
    Ok(out)
}


proof fn lemma_flatten_uniform_len<T>(s: Seq<Seq<T>>, h: nat)
    requires
        forall|j: int| 0 <= j < s.len() ==> #[trigger] s[j].len() == h,
    ensures
        s.flatten().len() == s.len() * h,
    decreases s.len(),
{
    if s.len() > 0 {
        let rest = s.drop_first();
        assert forall|j: int| 0 <= j < rest.len() implies #[trigger] rest[j].len() == h by {
            assert(rest[j] == s[j + 1]);
        }
        lemma_flatten_uniform_len(rest, h);
        assert(s.flatten() == s.first() + rest.flatten());
        assert(s.len() * h == (rest.len() + 1) * h) by (nonlinear_arith)
            requires
                s.len() == rest.len() + 1,
        ;
        assert((rest.len() + 1) * h == rest.len() * h + h) by (nonlinear_arith);
    }
}

/// Splitting a non-empty set of chains of effective length `n` gives twice
/// as many chains, each of `n/2` draws, so `2 * (n/2)` draws for each input
/// chain in all.
pub proof fn lemma_split_counts<T>(s: Seq<Seq<T>>)
    requires
        s.len() > 0,
        shortest(s) > 0,
    ensures
        split_of(s).len() == 2 * s.len(),
        forall|j: int| 0 <= j < split_of(s).len() ==> #[trigger] split_of(s)[j].len() == shortest(s) / 2,
        split_of(s).flatten().len() == 2 * (shortest(s) / 2) * s.len(),
{
    lemma_shortest_is_min(s);
    let n = shortest(s);
    let t = split_of(s);
    assert forall|j: int| 0 <= j < t.len() implies #[trigger] t[j].len() == n / 2 by {
        assert(n <= s[j / 2].len());
    }
    lemma_flatten_uniform_len(t, n / 2);
    assert(t.len() * (n / 2) == 2 * (n / 2) * s.len()) by (nonlinear_arith)
        requires
            t.len() == 2 * s.len(),
    ;
}

/// The two halves of a chain of effective length `n` put back together give
/// its first `n` draws when `n` is even, and its first `n` draws without the
/// middle one, at position `(n-1)/2`, when `n` is odd.
pub proof fn lemma_split_keeps_order<T>(s: Seq<Seq<T>>, i: int)
    requires
        0 <= i < s.len(),
    ensures
        shortest(s) % 2 == 0 ==> split_of(s)[2 * i] + split_of(s)[2 * i + 1] == s[i].take(
            shortest(s) as int,
        ),
        shortest(s) % 2 == 1 ==> split_of(s)[2 * i] + seq![s[i][(shortest(s) - 1) / 2]]
            + split_of(s)[2 * i + 1] == s[i].take(shortest(s) as int),
{
    lemma_shortest_is_min(s);
    let n = shortest(s);
    assert(n <= s[i].len());
    assert((2 * i) / 2 == i);
    assert((2 * i + 1) / 2 == i);
    assert((2 * i + 1) % 2 == 1);
    assert((2 * i) % 2 == 0);
    if n % 2 == 0 {
        assert(split_of(s)[2 * i] + split_of(s)[2 * i + 1] =~= s[i].take(n as int));
    } else {
        assert(split_of(s)[2 * i] + seq![s[i][(n - 1) / 2]] + split_of(s)[2 * i + 1] =~= s[i].take(
            n as int,
        ));
    }
}

/// Trimming every chain to the effective length first changes nothing in
/// the split.
pub proof fn lemma_split_of_trim<T>(s: Seq<Seq<T>>)
    ensures
        split_of(trim_of(s)) == split_of(s),
{
    let t = trim_of(s);
    let n = shortest(s);
    if s.len() > 0 {
        lemma_shortest_is_min(s);
        lemma_shortest_is_min(t);
        let j = choose|j: int| 0 <= j < t.len() && shortest(t) == #[trigger] t[j].len();
        assert(n <= s[j].len());
        assert(shortest(t) == n);
        assert forall|k: int| 0 <= k < split_of(s).len() implies #[trigger] split_of(t)[k]
            == split_of(s)[k] by {
            assert(n <= s[k / 2].len());
            assert(split_of(t)[k] =~= split_of(s)[k]);
        }
    }
    assert(split_of(t) =~= split_of(s));
}

} // verus!
