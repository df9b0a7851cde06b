use vstd::prelude::*;

verus! {

/// The draws of each chain, as mathematical sequences.
pub open spec fn draws<T>(chains: &Vec<Vec<T>>) -> Seq<Seq<T>> {
    chains@.map_values(|c: Vec<T>| c@)
}

/// The length of the shortest chain; zero when there is no chain.
pub open spec fn shortest<T>(s: Seq<Seq<T>>) -> nat
    decreases s.len(),
{
    if s.len() == 0 {
        0
    } else if s.len() == 1 {
        s[0].len()
    } else {
        let rest = shortest(s.drop_last());
        if s.last().len() < rest {
            s.last().len()
        } else {
            rest
        }
    }
}

/// `shortest` is a length that some chain has and no chain falls below.
pub proof fn lemma_shortest_is_min<T>(s: Seq<Seq<T>>)
    requires
        s.len() > 0,
    ensures
        forall|i: int| 0 <= i < s.len() ==> shortest(s) <= #[trigger] s[i].len(),
        exists|i: int| 0 <= i < s.len() && shortest(s) == #[trigger] s[i].len(),
    decreases s.len(),
{
    if s.len() == 1 {
        assert(shortest(s) == s[0].len());
    } else {
        let p = s.drop_last();
        lemma_shortest_is_min(p);
        assert forall|i: int| 0 <= i < s.len() implies shortest(s) <= #[trigger] s[i].len() by {
            if i < s.len() - 1 {
                assert(s[i] == p[i]);
            }
        }
        if s.last().len() < shortest(p) {
            assert(shortest(s) == s[s.len() - 1].len());
        } else {
            let j = choose|j: int| 0 <= j < p.len() && shortest(p) == #[trigger] p[j].len();
            assert(shortest(s) == s[j].len());
        }
    }
}

/// The effective length of a set of chains: the length of its shortest
/// chain, or `None` when there is no chain.
pub fn effective_length<T>(chains: &Vec<Vec<T>>) -> (r: Option<usize>)
    ensures
        r is None <==> chains.len() == 0,
        r is Some ==> r->0 == shortest(draws(chains)),
        r is Some ==> forall|i: int| 0 <= i < chains.len() ==> r->0 <= #[trigger] chains[i].len(),
        r is Some ==> exists|i: int| 0 <= i < chains.len() && r->0 == #[trigger] chains[i].len(),
{
    if chains.len() == 0 {
        return None;
    }
    let ghost s = draws(chains);
    let mut m: usize = chains[0].len();
    let mut i: usize = 1;
    assert(s.take(1).drop_last().len() == 0);
    while i < chains.len()
        invariant
            1 <= i <= chains.len(),
            s == draws(chains),
            m == shortest(s.take(i as int)),
        decreases chains.len() - i,
    {
        assert(s.take(i as int + 1).drop_last() =~= s.take(i as int));
        if chains[i].len() < m {
            m = chains[i].len();
        }
        i = i + 1;
    }
    assert(s.take(i as int) =~= s);
    proof {
        lemma_shortest_is_min(s);
        assert forall|k: int| 0 <= k < chains.len() implies m <= #[trigger] chains[k].len() by {
            assert(s[k] == chains[k]@);
        }
        let j = choose|j: int| 0 <= j < s.len() && m == #[trigger] s[j].len();
        assert(s[j] == chains[j]@);
        assert(m == chains[j].len());
    }
    Some(m)
}

/// The draws `lo..hi` of one chain, copied into a new chain.
pub fn copy_range<T: Copy>(c: &Vec<T>, lo: usize, hi: usize) -> (r: Vec<T>)
    requires
        lo <= hi <= c.len(),
    ensures
        r@ == c@.subrange(lo as int, hi as int),
{
    let mut r: Vec<T> = Vec::new();
    let mut k: usize = lo;
    while k < hi
        invariant
            lo <= k <= hi <= c.len(),
            r@ == c@.subrange(lo as int, k as int),
        decreases hi - k,
    {
        r.push(c[k]);
        k = k + 1;
        assert(r@ =~= c@.subrange(lo as int, k as int));
    }
    r
}

/// Each chain cut to its first `shortest(s)` draws.
pub open spec fn trim_of<T>(s: Seq<Seq<T>>) -> Seq<Seq<T>> {
    Seq::new(s.len(), |i: int| s[i].subrange(0, shortest(s) as int))
}

/// Every chain cut from the back to the effective length.
pub fn trim_chains<T: Copy>(chains: &Vec<Vec<T>>) -> (r: Vec<Vec<T>>)
    ensures
        draws(&r) == trim_of(draws(chains)),
{
    let ghost s = draws(chains);
    let mut out: Vec<Vec<T>> = Vec::new();
    let n = match effective_length(chains) {
        None => {
            assert(draws(&out) =~= trim_of(s));
            return out;
        },
        Some(n) => n,
    };
    let mut i: usize = 0;
    while i < chains.len()
        invariant
            0 <= i <= chains.len(),
            s == draws(chains),
            n == shortest(s),
            forall|k: int| 0 <= k < chains.len() ==> n <= #[trigger] chains[k].len(),
            out.len() == i,
            forall|j: int| 0 <= j < i ==> #[trigger] out[j]@ == trim_of(s)[j],
        decreases chains.len() - i,
    {
        assert(n <= chains[i as int].len());
        let c = copy_range(&chains[i], 0, n);
        assert(s[i as int] == chains[i as int]@);
        out.push(c);
        i = i + 1;
    }
    assert(draws(&out) =~= trim_of(s));
    out
}

/// The draws of all chains in one sequence, chain after chain.
pub fn pooled_draws<T: Copy>(chains: &Vec<Vec<T>>) -> (r: Vec<T>)
    ensures
        r@ == draws(chains).flatten(),
{
    let ghost s = draws(chains);
    let mut out: Vec<T> = Vec::new();
    let mut i: usize = 0;
    assert(s.take(0).flatten() =~= Seq::<T>::empty());
    while i < chains.len()
        invariant
            0 <= i <= chains.len(),
            s == draws(chains),
            out@ == s.take(i as int).flatten(),
        decreases chains.len() - i,
    {
        let c = &chains[i];
        let mut k: usize = 0;
        let ghost before = out@;
        while k < c.len()
            invariant
                0 <= k <= c.len(),
                out@ == before + c@.take(k as int),
            decreases c.len() - k,
        {
            out.push(c[k]);
            k = k + 1;
            assert(out@ =~= before + c@.take(k as int));
        }
        proof {
            assert(c@.take(k as int) =~= c@);
            assert(s[i as int] == c@);
            assert(s.take(i as int + 1) =~= s.take(i as int).push(s[i as int]));
            s.take(i as int).lemma_flatten_push(s[i as int]);
        }
        i = i + 1;
    }
    assert(s.take(i as int) =~= s);
    out
}

/// The value at one lag of every chain's autocovariance sequence, in the
/// order of the chains.
pub fn lag_column<T: Copy>(acovs: &Vec<Vec<T>>, lag: usize) -> (r: Vec<T>)
    requires
        forall|c: int| 0 <= c < acovs.len() ==> lag < #[trigger] acovs[c].len(),
    ensures
        r@ == Seq::new(acovs.len() as nat, |c: int| acovs[c]@[lag as int]),
{
    let mut out: Vec<T> = Vec::new();
    let mut c: usize = 0;
    while c < acovs.len()
        invariant
            0 <= c <= acovs.len(),
            forall|k: int| 0 <= k < acovs.len() ==> lag < #[trigger] acovs[k].len(),
            out@ == Seq::new(c as nat, |k: int| acovs[k]@[lag as int]),
        decreases acovs.len() - c,
    {
        assert(lag < acovs[c as int].len());
        out.push(acovs[c][lag]);
        c = c + 1;
        assert(out@ =~= Seq::new(c as nat, |k: int| acovs[k]@[lag as int]));
    }
    out
}

} // verus!
