use vstd::prelude::*;
use ndarray_rand::rand::rngs::StdRng;
use ndarray_rand::rand::seq::SliceRandom;
use ndarray_rand::rand::SeedableRng;

verus! {

/// rand's seedable generator, carried through as an opaque value.
#[verifier::external_type_specification]
#[verifier::external_body]
pub struct ExStdRng(StdRng);

/// Relies on rand's `SeedableRng::seed_from_u64` for `StdRng`: a generator
/// whose stream is fixed by the seed.
#[verifier::external_body]
fn std_rng_from_seed(seed: u64) -> StdRng {
    StdRng::seed_from_u64(seed)
}

/// Relies on rand's `SliceRandom::choose_multiple` on a slice: it picks
/// `min(amount, len)` elements at distinct positions of `items`, in random order.
#[verifier::external_body]
fn choose_multiple_from(rng: &mut StdRng, items: &Vec<usize>, amount: usize) -> (r: Vec<usize>)
    ensures
        r@.len() == if amount < items@.len() { amount as int } else { items@.len() as int },
        forall|i: int| 0 <= i < r@.len() ==> items@.contains(#[trigger] r@[i]),
        items@.no_duplicates() ==> r@.no_duplicates(),
{
    items.as_slice().choose_multiple(rng, amount).copied().collect()
}

/// `s` lists every sample index below `n` exactly once.
pub open spec fn is_index_permutation(s: Seq<usize>, n: nat) -> bool {
    &&& s.len() == n
    &&& s.no_duplicates()
    &&& forall|i: int| 0 <= i < s.len() ==> #[trigger] s[i] < n
}

/// `s` cut into consecutive chunks of `k` elements, the last one possibly shorter.
pub open spec fn chunks_of(s: Seq<usize>, k: nat) -> Seq<Seq<usize>>
    recommends
        k > 0,
    decreases s.len(),
{
    if s.len() == 0 || k == 0 {
        Seq::empty()
    } else if s.len() <= k {
        seq![s]
    } else {
        seq![s.take(k as int)] + chunks_of(s.skip(k as int), k)
    }
}

/// What the batches of a plan hold, as sequences of indices.
pub open spec fn batches_view(v: Seq<Vec<usize>>) -> Seq<Seq<usize>> {
    v.map_values(|b: Vec<usize>| b@)
}

/// The indices `0, 1, ..., n - 1` in order.
pub fn ordered_indices(n: usize) -> (r: Vec<usize>)
    ensures
        r@.len() == n,
        forall|i: int| 0 <= i < n ==> #[trigger] r@[i] == i,
{
    let mut v: Vec<usize> = Vec::new();
    let mut i: usize = 0;
    while i < n
        invariant
            i <= n,
            v@.len() == i,
            forall|j: int| 0 <= j < i ==> #[trigger] v@[j] == j,
        decreases n - i,
    {
        v.push(i);
        i = i + 1;
    }
    v
}

/// Cut `order` into consecutive batches of `batch_size` indices; the last
/// batch holds what is left and may be shorter.
pub fn chunk_batches(order: &Vec<usize>, batch_size: usize) -> (r: Vec<Vec<usize>>)
    requires
        batch_size > 0,
    ensures
        batches_view(r@) == chunks_of(order@, batch_size as nat),
{
    let n = order.len();
    let mut out: Vec<Vec<usize>> = Vec::new();
    let mut i: usize = 0;
    assert(order@.skip(0) == order@);
    while i < n
        invariant
            n == order@.len(),
            batch_size > 0,
            i <= n,
            chunks_of(order@, batch_size as nat) == batches_view(out@) + chunks_of(
                order@.skip(i as int),
                batch_size as nat,
            ),
        decreases n - i,
    {
        let end: usize = if n - i <= batch_size { n } else { i + batch_size };
        let mut chunk: Vec<usize> = Vec::new();
        let mut j: usize = i;
        while j < end
            invariant
                i <= j <= end <= n == order@.len(),
                chunk@ == order@.subrange(i as int, j as int),
            decreases end - j,
        {
            chunk.push(order[j]);
            j = j + 1;
        }
        let ghost rem = order@.skip(i as int);
        let ghost before = out@;
        out.push(chunk);
        proof {
            assert(batches_view(out@) == batches_view(before).push(chunk@));
            if rem.len() <= batch_size {
                assert(rem == order@.subrange(i as int, end as int));
                assert(order@.skip(end as int).len() == 0);
                assert(chunks_of(order@.skip(end as int), batch_size as nat) == Seq::<Seq<usize>>::empty());
                assert(chunks_of(rem, batch_size as nat) == seq![chunk@]);
            } else {
                assert(rem.take(batch_size as int) == order@.subrange(i as int, end as int));
                assert(rem.skip(batch_size as int) == order@.skip(end as int));
            }
            assert(batches_view(before) + chunks_of(rem, batch_size as nat) == batches_view(out@)
                + chunks_of(order@.skip(end as int), batch_size as nat));
        }
        i = end;
    }
    assert(order@.skip(n as int).len() == 0);
    assert(batches_view(out@) + Seq::<Seq<usize>>::empty() == batches_view(out@));
    out
}

/// Concatenating the batches gives back the order they were cut from.
pub proof fn lemma_chunks_flatten(s: Seq<usize>, k: nat)
    requires
        k > 0,
    ensures
        chunks_of(s, k).flatten() == s,
    decreases s.len(),
{
    if s.len() == 0 {
    } else if s.len() <= k {
        seq![s].lemma_flatten_one_element();
    } else {
        let rest = chunks_of(s.skip(k as int), k);
        lemma_chunks_flatten(s.skip(k as int), k);
        let c = seq![s.take(k as int)] + rest;
        assert(c.first() == s.take(k as int));
        assert(c.drop_first() == rest);
        assert(s.take(k as int) + s.skip(k as int) == s);
    }
}

/// Every batch is non-empty and holds at most `k` indices, and every batch
/// but the last holds exactly `k`.
pub proof fn lemma_chunks_sizes(s: Seq<usize>, k: nat)
    requires
        k > 0,
    ensures
        forall|b: int| 0 <= b < chunks_of(s, k).len() ==> 0 < #[trigger] chunks_of(s, k)[b].len() <= k,
        forall|b: int| 0 <= b < chunks_of(s, k).len() - 1 ==> #[trigger] chunks_of(s, k)[b].len() == k,
    decreases s.len(),
{
    if s.len() > k {
        lemma_chunks_sizes(s.skip(k as int), k);
        let rest = chunks_of(s.skip(k as int), k);
        assert forall|b: int| 0 < b < chunks_of(s, k).len() implies #[trigger] chunks_of(s, k)[b]
            == rest[b - 1] by {}
    }
}

/// Batch completeness: for any shuffled order of the indices `0..n` and any
/// positive batch size, the batches together hold every index exactly once,
/// with no duplicates and no omissions.
pub proof fn lemma_batch_completeness(order: Seq<usize>, n: nat, k: nat)
    requires
        is_index_permutation(order, n),
        k > 0,
    ensures
        chunks_of(order, k).flatten() == order,
        chunks_of(order, k).flatten().len() == n,
        chunks_of(order, k).flatten().no_duplicates(),
        forall|i: usize| i < n ==> #[trigger] chunks_of(order, k).flatten().contains(i),
        forall|b: int, j: int|
            0 <= b < chunks_of(order, k).len() && 0 <= j < chunks_of(order, k)[b].len() ==> #[trigger] chunks_of(
                order,
                k,
            )[b][j] < n,
{
    lemma_chunks_flatten(order, k);
    lemma_permutation_covers(order, n);
    lemma_chunks_members(order, k);
}

/// Each index held by a batch is an element of the order it was cut from.
proof fn lemma_chunks_members(s: Seq<usize>, k: nat)
    requires
        k > 0,
    ensures
        forall|b: int, j: int|
            0 <= b < chunks_of(s, k).len() && 0 <= j < chunks_of(s, k)[b].len() ==> s.contains(
                #[trigger] chunks_of(s, k)[b][j],
            ),
    decreases s.len(),
{
    if s.len() > k {
        lemma_chunks_members(s.skip(k as int), k);
        let rest = chunks_of(s.skip(k as int), k);
        assert forall|b: int, j: int|
            0 <= b < chunks_of(s, k).len() && 0 <= j < chunks_of(s, k)[b].len() implies s.contains(
                #[trigger] chunks_of(s, k)[b][j],
            ) by {
            if b == 0 {
                assert(s[j] == chunks_of(s, k)[b][j]);
            } else {
                assert(chunks_of(s, k)[b] == rest[b - 1]);
                let x = chunks_of(s, k)[b][j];
                assert(s.skip(k as int).contains(x));
                let i = choose|i: int| 0 <= i < s.skip(k as int).len() && s.skip(k as int)[i] == x;
                assert(s[i + k] == x);
            }
        }
    } else if s.len() > 0 {
        assert forall|b: int, j: int|
            0 <= b < chunks_of(s, k).len() && 0 <= j < chunks_of(s, k)[b].len() implies s.contains(
                #[trigger] chunks_of(s, k)[b][j],
            ) by {
            assert(s[j] == chunks_of(s, k)[b][j]);
        }
    }
}

/// A finite set of values below `n` has at most `n` elements.
proof fn lemma_bounded_set_len(s: Set<usize>, n: nat)
    requires
        s.finite(),
        forall|x: usize| #[trigger] s.contains(x) ==> x < n,
    ensures
        s.len() <= n,
    decreases n,
{
    if n > 0 {
        let top = (n - 1) as usize;
        let rest = s.remove(top);
        lemma_bounded_set_len(rest, (n - 1) as nat);
    } else {
        if s.len() > 0 {
            let x = s.choose();
            assert(s.contains(x));
        }
    }
}

/// A finite set of values below `n` that misses some `k < n` has fewer than `n` elements.
proof fn lemma_set_with_gap_len(s: Set<usize>, n: nat, k: usize)
    requires
        s.finite(),
        forall|x: usize| #[trigger] s.contains(x) ==> x < n,
        k < n,
        !s.contains(k),
    ensures
        s.len() < n,
    decreases n,
{
    let top = (n - 1) as usize;
    if k == top {
        assert forall|x: usize| #[trigger] s.contains(x) implies x < (n - 1) as nat by {
            assert(x != k);
        }
        lemma_bounded_set_len(s, (n - 1) as nat);
    } else {
        let rest = s.remove(top);
        lemma_set_with_gap_len(rest, (n - 1) as nat, k);
    }
}

/// An index permutation leaves no index out.
pub proof fn lemma_permutation_covers(s: Seq<usize>, n: nat)
    requires
        is_index_permutation(s, n),
    ensures
        forall|k: usize| k < n ==> #[trigger] s.contains(k),
{
    assert forall|k: usize| k < n implies #[trigger] s.contains(k) by {
        if !s.contains(k) {
            s.unique_seq_to_set();
            let st = s.to_set();
            assert forall|x: usize| #[trigger] st.contains(x) implies x < n by {
                let i = choose|i: int| 0 <= i < s.len() && s[i] == x;
            }
            lemma_set_with_gap_len(st, n, k);
        }
    }
}

/// A source of shuffles, fixed by its seed so that training can be replayed.
pub struct Shuffler {
    rng: StdRng,
}

impl Shuffler {
    /// A shuffler whose sequence of permutations is fixed by `seed`.
    pub fn from_seed(seed: u64) -> Shuffler {
        Shuffler { rng: std_rng_from_seed(seed) }
    }

    /// A uniformly random order of the sample indices `0..n`.
    pub fn permutation(&mut self, n: usize) -> (r: Vec<usize>)
        ensures
            is_index_permutation(r@, n as nat),
            forall|k: usize| k < n ==> #[trigger] r@.contains(k),
    {
        let indices = ordered_indices(n);
        assert(indices@.no_duplicates());
        let r = choose_multiple_from(&mut self.rng, &indices, n);
        assert forall|i: int| 0 <= i < r@.len() implies #[trigger] r@[i] < n by {
            assert(indices@.contains(r@[i]));
        }
        proof {
            lemma_permutation_covers(r@, n as nat);
        }
        r
    }

    /// The mini-batches of one training epoch over `n` samples: a fresh
    /// random order of all sample indices, cut into batches of `batch_size`
    /// (the last one possibly shorter). Every index appears exactly once.
    pub fn epoch_batches(&mut self, n: usize, batch_size: usize) -> (r: Vec<Vec<usize>>)
        requires
            batch_size > 0,
        ensures
            is_index_permutation(batches_view(r@).flatten(), n as nat),
            batches_view(r@) == chunks_of(batches_view(r@).flatten(), batch_size as nat),
            forall|i: usize| i < n ==> #[trigger] batches_view(r@).flatten().contains(i),
            forall|b: int| 0 <= b < r@.len() ==> 0 < #[trigger] r@[b]@.len() <= batch_size,
            forall|b: int| 0 <= b < r@.len() - 1 ==> #[trigger] r@[b]@.len() == batch_size,
    {
        let order = self.permutation(n);
        let r = chunk_batches(&order, batch_size);
        proof {
            lemma_batch_completeness(order@, n as nat, batch_size as nat);
            lemma_chunks_sizes(order@, batch_size as nat);
            assert forall|b: int| 0 <= b < r@.len() implies #[trigger] r@[b]@ == batches_view(r@)[b] by {}
        }
        r
    }
}

} // verus!
