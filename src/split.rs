use vstd::prelude::*;

verus! {

/// An axis along which a hierarchy may be split.
#[derive(Clone, Copy, Debug, PartialEq, Eq, Structural)]
pub enum SplitDim {
    X,
    Y,
    Z,
}

/// Number of sort keys: the lower and the upper bound on each of three axes.
pub const N_KEYS: usize = 6;

impl SplitDim {
    pub open spec fn spec_axis(self) -> nat {
        match self {
            SplitDim::X => 0,
            SplitDim::Y => 1,
            SplitDim::Z => 2,
        }
    }

    /// Index of the axis: 0 for x, 1 for y, 2 for z.
    pub fn axis(&self) -> (r: usize)
        ensures
            r == self.spec_axis(),
    {
        match self {
            SplitDim::X => 0,
            SplitDim::Y => 1,
            SplitDim::Z => 2,
        }
    }
}

/// Sort key `k` orders by the lower bound on axis `k / 2` when `k` is even,
/// by the upper bound when `k` is odd.
pub open spec fn key_axis(k: nat) -> nat {
    k / 2
}

/// Whether `dims` names the axis of key `k`.
pub open spec fn key_allowed(dims: Seq<SplitDim>, k: nat) -> bool {
    k < N_KEYS && exists|i: int| 0 <= i < dims.len() && dims[i].spec_axis() == key_axis(k)
}

fn names_axis(dims: &[SplitDim], axis: usize) -> (r: bool)
    ensures
        r == exists|i: int| 0 <= i < dims@.len() && dims@[i].spec_axis() == axis,
{
    let mut i: usize = 0;
    while i < dims.len()
        invariant
            i <= dims@.len(),
            forall|j: int| 0 <= j < i ==> dims@[j].spec_axis() != axis,
        decreases dims@.len() - i,
    {
        if dims[i].axis() == axis {
            return true;
        }
        i += 1;
    }
    false
}

/// The sort keys that a split restricted to the axes `dims` may use, each
/// once, in increasing order.
pub fn split_keys(dims: &[SplitDim]) -> (r: Vec<usize>)
    ensures
        forall|i: int, j: int| 0 <= i < j < r@.len() ==> r@[i] < r@[j],
        forall|k: usize| r@.contains(k) <==> key_allowed(dims@, k as nat),
{
    let mut r: Vec<usize> = Vec::new();
    let mut k: usize = 0;
    while k < N_KEYS
        invariant
            k <= N_KEYS,
            forall|i: int, j: int| 0 <= i < j < r@.len() ==> r@[i] < r@[j],
            forall|i: int| 0 <= i < r@.len() ==> r@[i] < k,
            forall|q: usize| q < k ==> (r@.contains(q) <==> key_allowed(dims@, q as nat)),
            forall|q: usize| q >= k ==> !r@.contains(q),
        decreases N_KEYS - k,
    {
        let ghost before = r@;
        if names_axis(dims, k / 2) {
            r.push(k);
            assert(r@[r@.len() - 1] == k);
        }
        assert forall|q: usize| q != k implies (r@.contains(q) <==> before.contains(q)) by {
            if r@.contains(q) {
                let i = choose|i: int| 0 <= i < r@.len() && r@[i] == q;
                assert(before[i] == q);
            }
            if before.contains(q) {
                let i = choose|i: int| 0 <= i < before.len() && before[i] == q;
                assert(r@[i] == q);
            }
        }
        k += 1;
    }
    r
}

} // verus!
