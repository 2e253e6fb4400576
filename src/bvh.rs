use rand::Rng;
use vstd::prelude::*;

use crate::bounds::Bounds;
use crate::split::{split_keys, SplitDim, N_KEYS};

verus! {

broadcast use vstd::seq_lib::group_to_multiset_ensures;

/// A thing that rays can be tested against: one entity of the scene, named by
/// its index, or an inner node of a hierarchy.
#[derive(Debug)]
pub enum Model {
    Entity { id: usize, bounds: Option<Bounds> },
    Node(Box<Tree>),
}

/// An inner node of a bounding volume hierarchy: two children and, where both
/// are bounded, the box that holds them both.
#[derive(Debug)]
pub struct Tree {
    pub bounds: Option<Bounds>,
    pub left: Model,
    pub right: Model,
}

/// The box of a node over children with boxes `l` and `r`: their union, or
/// none when either child is unbounded.
pub open spec fn joined(l: Option<Bounds>, r: Option<Bounds>) -> Option<Bounds> {
    match (l, r) {
        (Some(a), Some(b)) => Some(Bounds::spec_union(b, a)),
        _ => None,
    }
}

impl Tree {
    pub open spec fn spec_bounds(&self) -> Option<Bounds> {
        self.bounds
    }

    /// A node over two children; its box is the union of theirs.
    pub fn new(left: Model, right: Model) -> (r: Tree)
        ensures
            r.left == left,
            r.right == right,
            r.spec_bounds() == joined(left.spec_bounds(), right.spec_bounds()),
    {
        let mut bounds: Option<Bounds> = None;
        if let Some(l) = left.bounds() {
            if let Some(r) = right.bounds() {
                bounds = Some(Bounds::surrounding_box(r, l));
            }
        }
        Tree { bounds, left, right }
    }

    pub fn bounds(&self) -> (r: Option<Bounds>)
        ensures
            r == self.spec_bounds(),
    {
        self.bounds
    }
}

impl Model {
    pub open spec fn spec_bounds(&self) -> Option<Bounds> {
        match self {
            Model::Entity { bounds, .. } => *bounds,
            Model::Node(t) => t.spec_bounds(),
        }
    }

    /// The box of the model; none for an unbounded one.
    pub fn bounds(&self) -> (r: Option<Bounds>)
        ensures
            r == self.spec_bounds(),
    {
        match self {
            Model::Entity { bounds, .. } => *bounds,
            Model::Node(t) => t.bounds(),
        }
    }

    /// Sort key `k` of a bounded model (see `key_allowed`).
    pub open spec fn spec_key(&self, k: nat) -> i64 {
        let b = self.spec_bounds().unwrap();
        if k % 2 == 0 {
            b.min.at(k / 2)
        } else {
            b.max.at(k / 2)
        }
    }

    pub fn sort_key(&self, k: usize) -> (r: i64)
        requires
            self.spec_bounds() is Some,
            k < N_KEYS,
        ensures
            r == self.spec_key(k as nat),
    {
        let b = self.bounds().unwrap();
        if k % 2 == 0 {
            b.min.coord(k / 2)
        } else {
            b.max.coord(k / 2)
        }
    }

    /// The entities below this model, left to right.
    pub open spec fn entities(&self) -> Seq<usize>
        decreases self,
    {
        match self {
            Model::Entity { id, .. } => seq![*id],
            Model::Node(t) => t.left.entities() + t.right.entities(),
        }
    }
}

/// The `n` models that a hierarchy built from `n` models was built over, left
/// to right: each half of a list goes to one side.
pub open spec fn parts(m: Model, n: nat) -> Seq<Model>
    decreases n,
{
    if n <= 1 {
        seq![m]
    } else {
        match m {
            Model::Node(t) => parts(t.left, n / 2) + parts(t.right, (n - n / 2) as nat),
            Model::Entity { .. } => seq![m],
        }
    }
}

/// Every model of `a` comes no later than every model of `b` in sort key `k`.
pub open spec fn keys_ordered(a: Seq<Model>, b: Seq<Model>, k: nat) -> bool {
    forall|i: int, j: int|
        0 <= i < a.len() && 0 <= j < b.len() ==> #[trigger] a[i].spec_key(k) <= #[trigger] b[j].spec_key(k)
}

/// `m` is a hierarchy over `n` models, split at the median: each node has the
/// union of its children's boxes, halves of `n / 2` and `n - n / 2` models,
/// and, from three models up, halves ordered by a key that `dims` allows.
pub open spec fn median_split(m: Model, n: nat, dims: Seq<SplitDim>) -> bool
    decreases n,
{
    if n <= 1 {
        true
    } else {
        match m {
            Model::Node(t) => {
                &&& t.spec_bounds() == joined(t.left.spec_bounds(), t.right.spec_bounds())
                &&& median_split(t.left, n / 2, dims)
                &&& median_split(t.right, (n - n / 2) as nat, dims)
                &&& n >= 3 ==> exists|k: nat|
                    crate::split::key_allowed(dims, k) && keys_ordered(
                        parts(t.left, n / 2),
                        parts(t.right, (n - n / 2) as nat),
                        k,
                    )
            },
            Model::Entity { .. } => false,
        }
    }
}

impl Tree {
    /// Builds a hierarchy over all the models of `list`, splitting on any axis.
    pub fn from_list(list: &mut Vec<Model>) -> (r: Model)
        requires
            old(list)@.len() > 0,
            old(list)@.len() >= 3 ==> forall|i: int|
                0 <= i < old(list)@.len() ==> (#[trigger] old(list)@[i]).spec_bounds() is Some,
        ensures
            parts(r, old(list)@.len() as nat).to_multiset() == old(list)@.to_multiset(),
            old(list)@.len() <= 2 ==> parts(r, old(list)@.len() as nat) == old(list)@,
            median_split(r, old(list)@.len() as nat, seq![SplitDim::X, SplitDim::Y, SplitDim::Z]),
            final(list)@.len() == 0,
    {
        let dims = [SplitDim::X, SplitDim::Y, SplitDim::Z];
        let r = Tree::from_list_on_dimensions(list, &dims);
        assert(dims@ == seq![SplitDim::X, SplitDim::Y, SplitDim::Z]);
        r
    }

    /// Builds a hierarchy over all the models of `list`, which it empties. One
    /// model is returned as it is; two become the children of one node; from
    /// three up the list is sorted by a key picked at random among those on
    /// the axes `dims`, and each half becomes a child, built the same way.
    pub fn from_list_on_dimensions(list: &mut Vec<Model>, dims: &[SplitDim]) -> (r: Model)
        requires
            old(list)@.len() > 0,
            old(list)@.len() >= 3 ==> dims@.len() > 0,
            old(list)@.len() >= 3 ==> forall|i: int|
                0 <= i < old(list)@.len() ==> (#[trigger] old(list)@[i]).spec_bounds() is Some,
        ensures
            parts(r, old(list)@.len() as nat).to_multiset() == old(list)@.to_multiset(),
            old(list)@.len() <= 2 ==> parts(r, old(list)@.len() as nat) == old(list)@,
            median_split(r, old(list)@.len() as nat, dims@),
            final(list)@.len() == 0,
        decreases old(list)@.len(),
    {
        let n = list.len();
        if n == 1 {
            let m = list.remove(0);
            assert(parts(m, 1) =~= old(list)@);
            assert(median_split(m, 1, dims@));
            m
        } else if n == 2 {
            let l = list.remove(0);
            let r = list.remove(0);
            let m = Model::Node(Box::new(Tree::new(l, r)));
            assert(parts(m, 2) =~= parts(l, 1) + parts(r, 1));
            assert(parts(m, 2) =~= old(list)@);
            assert(median_split(l, 1, dims@));
            assert(median_split(r, 1, dims@));
            m
        } else {
            let keys = split_keys(dims);
            let ghost first = (2 * dims@[0].spec_axis()) as usize;
            assert(crate::split::key_allowed(dims@, first as nat));
            assert(keys@.contains(first));
            let k = choose_key(&keys).unwrap();
            assert(crate::split::key_allowed(dims@, k as nat));
            sort_by_key(list, k);
            let ghost sorted = list@;
            assert(sorted.len() == sorted.to_multiset().len());
            assert(old(list)@.len() == old(list)@.to_multiset().len());
            assert(sorted.len() == n);
            assert forall|i: int| 0 <= i < sorted.len() implies (#[trigger] sorted[i]).spec_bounds() is Some by {
                assert(sorted.to_multiset().contains(sorted[i]));
                assert(old(list)@.contains(sorted[i]));
            }
            let half = n / 2;
            let mut list_b = list.split_off(half);
            let ghost left_in = list@;
            let ghost right_in = list_b@;
            assert(sorted =~= left_in + right_in);
            let left = Tree::from_list_on_dimensions(list, dims);
            let right = Tree::from_list_on_dimensions(&mut list_b, dims);
            let ghost pl = parts(left, half as nat);
            let ghost pr = parts(right, (n - half) as nat);
            let m = Model::Node(Box::new(Tree::new(left, right)));
            assert(parts(m, n as nat) == pl + pr);
            proof {
                vstd::seq_lib::lemma_multiset_commutative(pl, pr);
                vstd::seq_lib::lemma_multiset_commutative(left_in, right_in);
            }
            assert forall|i: int, j: int| 0 <= i < pl.len() && 0 <= j < pr.len() implies
                #[trigger] pl[i].spec_key(k as nat) <= #[trigger] pr[j].spec_key(k as nat) by {
                assert(pl.to_multiset().contains(pl[i]));
                assert(left_in.contains(pl[i]));
                let a = choose|a: int| 0 <= a < left_in.len() && left_in[a] == pl[i];
                assert(pr.to_multiset().contains(pr[j]));
                assert(right_in.contains(pr[j]));
                let b = choose|b: int| 0 <= b < right_in.len() && right_in[b] == pr[j];
                assert(sorted[a] == pl[i]);
                assert(sorted[half as int + b] == pr[j]);
            }
            assert(keys_ordered(pl, pr, k as nat));
            assert(median_split(m, n as nat, dims@)) by {
                assert(n as nat / 2 == half as nat);
            }
            m
        }
    }
}

/// Relies on `slice::sort_unstable_by_key`: afterwards the list holds the
/// same models, in non-decreasing order of the key.
#[verifier::external_body]
fn sort_by_key(list: &mut Vec<Model>, k: usize)
    requires
        k < N_KEYS,
        forall|i: int| 0 <= i < old(list)@.len() ==> (#[trigger] old(list)@[i]).spec_bounds() is Some,
    ensures
        final(list)@.to_multiset() == old(list)@.to_multiset(),
        forall|i: int, j: int|
            0 <= i < j < final(list)@.len() ==> (#[trigger] final(list)@[i]).spec_key(k as nat)
                <= (#[trigger] final(list)@[j]).spec_key(k as nat),
{
    list.sort_unstable_by_key(|m| m.sort_key(k));
}

/// Relies on rand's `Rng::choose` with the thread-local generator: none for an
/// empty list, else one of its elements.
#[verifier::external_body]
fn choose_key(keys: &Vec<usize>) -> (r: Option<usize>)
    ensures
        keys@.len() == 0 <==> r is None,
        r is Some ==> keys@.contains(r->0),
{
    rand::thread_rng().choose(keys.as_slice()).map(|k| *k)
}

} // verus!
