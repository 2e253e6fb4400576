use vstd::prelude::*;

use crate::bounds::Bounds;
use crate::bvh::{Model, Tree};
use crate::split::SplitDim;

verus! {

broadcast use vstd::seq_lib::group_to_multiset_ensures;

/// The entity index attached to an entity's hit.
pub open spec fn tagged<T, H>(id: usize, h: Option<(T, H)>) -> Option<(usize, T, H)> {
    match h {
        Some((t, x)) => Some((id, t, x)),
        None => None,
    }
}

/// The far end of the interval after a first hit: that hit's parameter, or
/// the old end when there was none.
pub open spec fn shrunk<T, H>(r: Option<(usize, T, H)>, hi: T) -> T {
    match r {
        Some((_, t, _)) => t,
        None => hi,
    }
}

/// What `hit_entity` answers for entity `id` between `lo` and `hi`.
pub open spec fn entity_answer<T, H, FE>(hit_entity: FE, id: usize, lo: T, hi: T) -> Option<(T, H)>
    where
        FE: Fn(usize, T, T) -> Option<(T, H)>,
{
    choose|h: Option<(T, H)>| hit_entity.ensures((id, lo, hi), h)
}

/// `hit_entity` gives one answer for each entity and interval.
pub open spec fn entity_answers_once<T, H, FE>(hit_entity: FE) -> bool
    where
        FE: Fn(usize, T, T) -> Option<(T, H)>,
{
    forall|e: usize, lo: T, hi: T, h1: Option<(T, H)>, h2: Option<(T, H)>|
        hit_entity.ensures((e, lo, hi), h1) && hit_entity.ensures((e, lo, hi), h2) ==> h1 == h2
}

/// `hit_bounds` gives one answer for each box and interval.
pub open spec fn bounds_answer_once<T, FB>(hit_bounds: FB) -> bool
    where
        FB: Fn(Bounds, T, T) -> bool,
{
    forall|b: Bounds, lo: T, hi: T, x: bool, y: bool|
        hit_bounds.ensures((b, lo, hi), x) && hit_bounds.ensures((b, lo, hi), y) ==> x == y
}

/// What a query of `m` for the nearest hit with parameter between `lo` and
/// `hi` yields, where `hit_entity` answers for one entity and `hit_bounds`
/// says whether a ray can meet a box. An entity answers for itself. A node
/// whose box the ray misses yields nothing. Otherwise its left child is asked,
/// then its right child up to the left child's hit, and a hit on the right,
/// being nearer, wins over one on the left.
pub open spec fn traversal<T, H, FE, FB>(m: Model, lo: T, hi: T, hit_entity: FE, hit_bounds: FB) -> Option<(usize, T, H)>
    where
        FE: Fn(usize, T, T) -> Option<(T, H)>,
        FB: Fn(Bounds, T, T) -> bool,
    decreases m,
{
    match m {
        Model::Entity { id, .. } => tagged(id, entity_answer(hit_entity, id, lo, hi)),
        Model::Node(t) => if t.bounds is Some && !hit_bounds.ensures((t.bounds->0, lo, hi), true) {
            None
        } else {
            let rl = traversal(t.left, lo, hi, hit_entity, hit_bounds);
            let rr = traversal(t.right, lo, shrunk(rl, hi), hit_entity, hit_bounds);
            if rr is Some {
                rr
            } else {
                rl
            }
        },
    }
}

impl Model {
    /// The nearest hit on an entity below this model between `t_min` and
    /// `t_max`, as `traversal` describes it, with the entity's index.
    pub fn hit_model<T: Copy, H, FE, FB>(&self, t_min: T, t_max: T, hit_entity: &FE, hit_bounds: &FB) -> (r: Option<(usize, T, H)>)
        where
            FE: Fn(usize, T, T) -> Option<(T, H)>,
            FB: Fn(Bounds, T, T) -> bool,
        requires
            forall|e: usize, lo: T, hi: T| hit_entity.requires((e, lo, hi)),
            forall|b: Bounds, lo: T, hi: T| hit_bounds.requires((b, lo, hi)),
            entity_answers_once(*hit_entity),
            bounds_answer_once(*hit_bounds),
        ensures
            r == traversal(*self, t_min, t_max, *hit_entity, *hit_bounds),
        decreases self,
    {
        match self {
            Model::Entity { id, .. } => {
                let h = hit_entity(*id, t_min, t_max);
                assert(h == entity_answer(*hit_entity, *id, t_min, t_max));
                match h {
                    Some((t, x)) => Some((*id, t, x)),
                    None => None,
                }
            },
            Model::Node(tree) => tree.hit_model(t_min, t_max, hit_entity, hit_bounds),
        }
    }
}

impl Tree {
    /// The nearest hit below this node; see `traversal`.
    pub fn hit_model<T: Copy, H, FE, FB>(&self, t_min: T, t_max: T, hit_entity: &FE, hit_bounds: &FB) -> (r: Option<(usize, T, H)>)
        where
            FE: Fn(usize, T, T) -> Option<(T, H)>,
            FB: Fn(Bounds, T, T) -> bool,
        requires
            forall|e: usize, lo: T, hi: T| hit_entity.requires((e, lo, hi)),
            forall|b: Bounds, lo: T, hi: T| hit_bounds.requires((b, lo, hi)),
            entity_answers_once(*hit_entity),
            bounds_answer_once(*hit_bounds),
        ensures
            r == traversal(Model::Node(Box::new(*self)), t_min, t_max, *hit_entity, *hit_bounds),
        decreases self,
    {
        if let Some(b) = self.bounds {
            let meets = hit_bounds(b, t_min, t_max);
            if !meets {
                return None;
            }
        }
        let left = self.left.hit_model(t_min, t_max, hit_entity, hit_bounds);
        let new_max_t = match &left {
            Some((_, t, _)) => *t,
            None => t_max,
        };
        let right = self.right.hit_model(t_min, new_max_t, hit_entity, hit_bounds);
        if right.is_some() {
            right
        } else {
            left
        }
    }
}

/// `lt` is a strict total order.
pub open spec fn strict_total<T>(lt: spec_fn(T, T) -> bool) -> bool {
    &&& forall|a: T| !#[trigger] lt(a, a)
    &&& forall|a: T, b: T, c: T| #[trigger] lt(a, b) && #[trigger] lt(b, c) ==> lt(a, c)
    &&& forall|a: T, b: T| a != b ==> #[trigger] lt(a, b) || #[trigger] lt(b, a)
}

/// Each entity answers with its first hit after `lo` and before `hi`, in the
/// order `lt`: the hit lies before `hi`; with an end `hi2` no later than
/// `hi`, the same hit is found if it lies before `hi2` and none otherwise; and
/// where nothing is found before `hi`, nothing is found before `hi2`.
pub open spec fn first_hits<T, H, FE>(hit_entity: FE, lt: spec_fn(T, T) -> bool) -> bool
    where
        FE: Fn(usize, T, T) -> Option<(T, H)>,
{
    forall|e: usize, lo: T, hi: T, hi2: T|
        !lt(hi, hi2) ==> match #[trigger] entity_answer(hit_entity, e, lo, hi) {
            Some((t, x)) => {
                &&& lt(t, hi)
                &&& lt(t, hi2) ==> #[trigger] entity_answer(hit_entity, e, lo, hi2) == Some((t, x))
                &&& !lt(t, hi2) ==> entity_answer(hit_entity, e, lo, hi2) is None
            },
            None => entity_answer(hit_entity, e, lo, hi2) is None,
        }
}

/// Below every node with a box, `hit_bounds` tells a miss of the box only
/// where no entity below the node has a hit in the interval.
pub open spec fn prunes_soundly<T, H, FE, FB>(m: Model, hit_entity: FE, hit_bounds: FB) -> bool
    where
        FE: Fn(usize, T, T) -> Option<(T, H)>,
        FB: Fn(Bounds, T, T) -> bool,
    decreases m,
{
    match m {
        Model::Entity { .. } => true,
        Model::Node(t) => {
            &&& prunes_soundly(t.left, hit_entity, hit_bounds)
            &&& prunes_soundly(t.right, hit_entity, hit_bounds)
            &&& t.bounds is Some ==> forall|lo: T, hi: T|
                !hit_bounds.ensures((t.bounds->0, lo, hi), true) ==> forall|i: int|
                    0 <= i < m.entities().len() ==> (#[trigger] entity_answer(
                        hit_entity,
                        m.entities()[i],
                        lo,
                        hi,
                    )) is None
        },
    }
}

/// `r` is the nearest hit among the entities `ents` between `lo` and `hi`:
/// none when no entity has a hit there; else a hit of one of them, before
/// which no entity has a hit.
pub open spec fn nearest<T, H, FE>(ents: Seq<usize>, lo: T, hi: T, hit_entity: FE, r: Option<(usize, T, H)>) -> bool
    where
        FE: Fn(usize, T, T) -> Option<(T, H)>,
{
    match r {
        None => forall|i: int|
            0 <= i < ents.len() ==> (#[trigger] entity_answer(hit_entity, ents[i], lo, hi)) is None,
        Some((e, t, x)) => {
            &&& ents.contains(e)
            &&& entity_answer(hit_entity, e, lo, hi) == Some((t, x))
            &&& forall|i: int|
                0 <= i < ents.len() ==> (#[trigger] entity_answer(hit_entity, ents[i], lo, t)) is None
        },
    }
}

/// The nearest hit among `a + b`: take the nearest among `a`, then ask `b` up
/// to it; a hit found in `b` wins.
proof fn lemma_extend_nearest<T, H, FE>(
    a: Seq<usize>,
    b: Seq<usize>,
    lo: T,
    hi: T,
    hit_entity: FE,
    lt: spec_fn(T, T) -> bool,
    ra: Option<(usize, T, H)>,
    rb: Option<(usize, T, H)>,
)
    where
        FE: Fn(usize, T, T) -> Option<(T, H)>,
    requires
        strict_total(lt),
        first_hits(hit_entity, lt),
        nearest(a, lo, hi, hit_entity, ra),
        nearest(b, lo, shrunk(ra, hi), hit_entity, rb),
    ensures
        nearest(a + b, lo, hi, hit_entity, if rb is Some { rb } else { ra }),
{
    let hi2 = shrunk(ra, hi);
    let ab = a + b;
    assert(!lt(hi, hi2));
    assert forall|i: int| 0 <= i < ab.len() implies {
        let e = #[trigger] ab[i];
        (i < a.len() ==> e == a[i]) && (i >= a.len() ==> e == b[i - a.len()])
    } by {}
    match rb {
        Some((e, t, x)) => {
            // The hit found in `b` is also the first one of its entity before `hi`.
            let h = entity_answer(hit_entity, e, lo, hi);
            match h {
                Some((t2, x2)) => {
                    if !lt(t2, hi2) {
                        assert(entity_answer(hit_entity, e, lo, hi2) is None);
                    }
                },
                None => {
                    assert(entity_answer(hit_entity, e, lo, hi2) is None);
                },
            }
            assert(ab.contains(e)) by {
                let j = choose|j: int| 0 <= j < b.len() && b[j] == e;
                assert(ab[a.len() + j] == e);
            }
            assert forall|i: int| 0 <= i < a.len() implies (#[trigger] entity_answer(hit_entity, a[i], lo, t)) is None by {
                if let Some((_, ta, _)) = ra {
                    assert(entity_answer(hit_entity, a[i], lo, ta) is None);
                    assert(!lt(ta, t));
                } else {
                    assert(entity_answer(hit_entity, a[i], lo, hi) is None);
                }
            }
        },
        None => {
            if let Some((e, t, x)) = ra {
                assert(ab.contains(e)) by {
                    let j = choose|j: int| 0 <= j < a.len() && a[j] == e;
                    assert(ab[j] == e);
                }
            }
        },
    }
}

/// Traversing a hierarchy yields the nearest hit among its entities, as long
/// as each entity reports its first hit in an interval and a box is reported
/// missed only when nothing inside it is hit.
pub proof fn lemma_traversal_finds_nearest<T, H, FE, FB>(
    m: Model,
    lo: T,
    hi: T,
    hit_entity: FE,
    hit_bounds: FB,
    lt: spec_fn(T, T) -> bool,
)
    where
        FE: Fn(usize, T, T) -> Option<(T, H)>,
        FB: Fn(Bounds, T, T) -> bool,
    requires
        strict_total(lt),
        first_hits(hit_entity, lt),
        prunes_soundly(m, hit_entity, hit_bounds),
    ensures
        nearest(m.entities(), lo, hi, hit_entity, traversal(m, lo, hi, hit_entity, hit_bounds)),
    decreases m,
{
    match m {
        Model::Entity { id, .. } => {
            assert(m.entities() =~= seq![id]);
            if let Some((t, x)) = entity_answer(hit_entity, id, lo, hi) {
                assert(!lt(hi, hi) && !lt(t, t));
                assert(entity_answer(hit_entity, id, lo, t) is None);
                assert(m.entities()[0] == id);
            }
        },
        Model::Node(tree) => {
            // A pruned node yields nothing, which `prunes_soundly` covers.
            if !(tree.bounds is Some && !hit_bounds.ensures((tree.bounds->0, lo, hi), true)) {
                let rl = traversal(tree.left, lo, hi, hit_entity, hit_bounds);
                let hi2 = shrunk(rl, hi);
                lemma_traversal_finds_nearest(tree.left, lo, hi, hit_entity, hit_bounds, lt);
                lemma_traversal_finds_nearest(tree.right, lo, hi2, hit_entity, hit_bounds, lt);
                lemma_extend_nearest(
                    tree.left.entities(),
                    tree.right.entities(),
                    lo,
                    hi,
                    hit_entity,
                    lt,
                    rl,
                    traversal(tree.right, lo, hi2, hit_entity, hit_bounds),
                );
            }
        },
    }
}

/// The entities below the first `n` models of `list`, in order.
pub open spec fn list_entities(list: Seq<Model>, n: nat) -> Seq<usize>
    decreases n,
{
    if n == 0 {
        seq![]
    } else {
        list_entities(list, (n - 1) as nat) + list[n - 1].entities()
    }
}

/// What a scan of the first `n` models of `list` yields: each model is asked
/// in turn up to the nearest hit found so far, and a hit found replaces it.
pub open spec fn scan<T, H, FE, FB>(list: Seq<Model>, n: nat, lo: T, hi: T, hit_entity: FE, hit_bounds: FB) -> Option<(usize, T, H)>
    where
        FE: Fn(usize, T, T) -> Option<(T, H)>,
        FB: Fn(Bounds, T, T) -> bool,
    decreases n,
{
    if n == 0 {
        None
    } else {
        let acc = scan(list, (n - 1) as nat, lo, hi, hit_entity, hit_bounds);
        let r = traversal(list[n - 1], lo, shrunk(acc, hi), hit_entity, hit_bounds);
        if r is Some {
            r
        } else {
            acc
        }
    }
}

/// The nearest hit between `t_min` and `t_max` on an entity below any model
/// of `list`, found by asking every model in turn; see `scan`.
pub fn hit_list<T: Copy, H, FE, FB>(list: &[Model], t_min: T, t_max: T, hit_entity: &FE, hit_bounds: &FB) -> (r: Option<(usize, T, H)>)
    where
        FE: Fn(usize, T, T) -> Option<(T, H)>,
        FB: Fn(Bounds, T, T) -> bool,
    requires
        forall|e: usize, lo: T, hi: T| hit_entity.requires((e, lo, hi)),
        forall|b: Bounds, lo: T, hi: T| hit_bounds.requires((b, lo, hi)),
        entity_answers_once(*hit_entity),
        bounds_answer_once(*hit_bounds),
    ensures
        r == scan(list@, list@.len() as nat, t_min, t_max, *hit_entity, *hit_bounds),
{
    let mut closest_t = t_max;
    let mut closest: Option<(usize, T, H)> = None;
    let mut i: usize = 0;
    while i < list.len()
        invariant
            i <= list@.len(),
            forall|e: usize, lo: T, hi: T| hit_entity.requires((e, lo, hi)),
            forall|b: Bounds, lo: T, hi: T| hit_bounds.requires((b, lo, hi)),
            entity_answers_once(*hit_entity),
            bounds_answer_once(*hit_bounds),
            closest == scan(list@, i as nat, t_min, t_max, *hit_entity, *hit_bounds),
            closest_t == shrunk(closest, t_max),
        decreases list@.len() - i,
    {
        let hit = list[i].hit_model(t_min, closest_t, hit_entity, hit_bounds);
        if let Some((e, t, x)) = hit {
            closest_t = t;
            closest = Some((e, t, x));
        }
        i += 1;
    }
    closest
}

/// A scan yields the nearest hit among the entities of the models scanned.
pub proof fn lemma_scan_finds_nearest<T, H, FE, FB>(
    list: Seq<Model>,
    n: nat,
    lo: T,
    hi: T,
    hit_entity: FE,
    hit_bounds: FB,
    lt: spec_fn(T, T) -> bool,
)
    where
        FE: Fn(usize, T, T) -> Option<(T, H)>,
        FB: Fn(Bounds, T, T) -> bool,
    requires
        n <= list.len(),
        strict_total(lt),
        first_hits(hit_entity, lt),
        forall|j: int| 0 <= j < list.len() ==> prunes_soundly(#[trigger] list[j], hit_entity, hit_bounds),
    ensures
        nearest(list_entities(list, n), lo, hi, hit_entity, scan(list, n, lo, hi, hit_entity, hit_bounds)),
    decreases n,
{
    if n > 0 {
        let acc = scan(list, (n - 1) as nat, lo, hi, hit_entity, hit_bounds);
        lemma_scan_finds_nearest(list, (n - 1) as nat, lo, hi, hit_entity, hit_bounds, lt);
        lemma_traversal_finds_nearest(list[n - 1], lo, shrunk(acc, hi), hit_entity, hit_bounds, lt);
        lemma_extend_nearest(
            list_entities(list, (n - 1) as nat),
            list[n - 1].entities(),
            lo,
            hi,
            hit_entity,
            lt,
            acc,
            traversal(list[n - 1], lo, shrunk(acc, hi), hit_entity, hit_bounds),
        );
    } else {
        assert(list_entities(list, 0) =~= seq![]);
    }
}

/// The parameter of a hit.
pub open spec fn hit_param<T, H>(h: Option<(T, H)>) -> T {
    let (t, _) = h.unwrap();
    t
}

/// No two of the entities `ents` have their first hits between `lo` and `hi`
/// at the same parameter, as with disjoint solid shapes.
pub open spec fn distinct_hits<T, H, FE>(ents: Seq<usize>, lo: T, hi: T, hit_entity: FE) -> bool
    where
        FE: Fn(usize, T, T) -> Option<(T, H)>,
{
    forall|i: int, j: int|
        0 <= i < ents.len() && 0 <= j < ents.len() && ents[i] != ents[j]
            && (#[trigger] entity_answer(hit_entity, ents[i], lo, hi)) is Some
            && (#[trigger] entity_answer(hit_entity, ents[j], lo, hi)) is Some
            ==> hit_param(entity_answer(hit_entity, ents[i], lo, hi)) != hit_param(
            entity_answer(hit_entity, ents[j], lo, hi),
        )
}

/// Over the same entities, with no two first hits at one parameter, there is
/// only one nearest hit.
proof fn lemma_nearest_unique<T, H, FE>(
    a: Seq<usize>,
    b: Seq<usize>,
    lo: T,
    hi: T,
    hit_entity: FE,
    lt: spec_fn(T, T) -> bool,
    ra: Option<(usize, T, H)>,
    rb: Option<(usize, T, H)>,
)
    where
        FE: Fn(usize, T, T) -> Option<(T, H)>,
    requires
        strict_total(lt),
        first_hits(hit_entity, lt),
        forall|e: usize| a.contains(e) <==> b.contains(e),
        distinct_hits(a, lo, hi, hit_entity),
        nearest(a, lo, hi, hit_entity, ra),
        nearest(b, lo, hi, hit_entity, rb),
    ensures
        ra == rb,
{
    match (ra, rb) {
        (Some((ea, ta, xa)), Some((eb, tb, xb))) => {
            let ia = choose|i: int| 0 <= i < a.len() && a[i] == ea;
            let ib = choose|i: int| 0 <= i < a.len() && a[i] == eb;
            let jb = choose|j: int| 0 <= j < b.len() && b[j] == eb;
            let ja = choose|j: int| 0 <= j < b.len() && b[j] == ea;
            assert(entity_answer(hit_entity, a[ib], lo, ta) is None);
            assert(entity_answer(hit_entity, b[ja], lo, tb) is None);
            assert(!lt(tb, ta));
            assert(!lt(ta, tb));
            assert(ta == tb);
            if ea != eb {
                assert(hit_param(entity_answer(hit_entity, a[ia], lo, hi)) != hit_param(
                    entity_answer(hit_entity, a[ib], lo, hi),
                ));
            }
        },
        (Some((ea, ta, xa)), None) => {
            let j = choose|j: int| 0 <= j < b.len() && b[j] == ea;
            assert(entity_answer(hit_entity, b[j], lo, hi) is None);
        },
        (None, Some((eb, tb, xb))) => {
            let i = choose|i: int| 0 <= i < a.len() && a[i] == eb;
            assert(entity_answer(hit_entity, a[i], lo, hi) is None);
        },
        (None, None) => {},
    }
}

/// Traversing a hierarchy finds the same hit as scanning a list of models
/// over the same entities, whatever the shape of the tree: where each entity
/// reports its first hit in an interval, no two entities are first hit at
/// one parameter, and a box is reported missed only when nothing inside it is
/// hit.
pub proof fn lemma_traversal_matches_scan<T, H, FE, FB>(
    m: Model,
    list: Seq<Model>,
    lo: T,
    hi: T,
    hit_entity: FE,
    hit_bounds: FB,
    lt: spec_fn(T, T) -> bool,
)
    where
        FE: Fn(usize, T, T) -> Option<(T, H)>,
        FB: Fn(Bounds, T, T) -> bool,
    requires
        strict_total(lt),
        first_hits(hit_entity, lt),
        prunes_soundly(m, hit_entity, hit_bounds),
        forall|j: int| 0 <= j < list.len() ==> prunes_soundly(#[trigger] list[j], hit_entity, hit_bounds),
        forall|e: usize| m.entities().contains(e) <==> list_entities(list, list.len()).contains(e),
        distinct_hits(m.entities(), lo, hi, hit_entity),
    ensures
        traversal(m, lo, hi, hit_entity, hit_bounds) == scan(list, list.len(), lo, hi, hit_entity, hit_bounds),
{
    lemma_traversal_finds_nearest(m, lo, hi, hit_entity, hit_bounds, lt);
    lemma_scan_finds_nearest(list, list.len(), lo, hi, hit_entity, hit_bounds, lt);
    lemma_nearest_unique(
        m.entities(),
        list_entities(list, list.len()),
        lo,
        hi,
        hit_entity,
        lt,
        traversal(m, lo, hi, hit_entity, hit_bounds),
        scan(list, list.len(), lo, hi, hit_entity, hit_bounds),
    );
}

/// Some model among the first `n` of `list` has entity `e` below it.
pub open spec fn some_model_has(list: Seq<Model>, n: nat, e: usize) -> bool {
    exists|j: int| 0 <= j < n && (#[trigger] list[j]).entities().contains(e)
}

proof fn lemma_list_entities_contains(list: Seq<Model>, n: nat, e: usize)
    requires
        n <= list.len(),
    ensures
        list_entities(list, n).contains(e) <==> some_model_has(list, n, e),
    decreases n,
{
    if n > 0 {
        let a = list_entities(list, (n - 1) as nat);
        let b = list[n - 1].entities();
        lemma_list_entities_contains(list, (n - 1) as nat, e);
        if (a + b).contains(e) {
            let i = choose|i: int| 0 <= i < (a + b).len() && (a + b)[i] == e;
            if i < a.len() {
                assert(a[i] == e);
                let j = choose|j: int| 0 <= j < n - 1 && (#[trigger] list[j]).entities().contains(e);
                assert(0 <= j < n && list[j].entities().contains(e));
            } else {
                assert(b[i - a.len()] == e);
                assert(list[n - 1].entities().contains(e));
            }
        }
        if some_model_has(list, n, e) {
            let j = choose|j: int| 0 <= j < n && (#[trigger] list[j]).entities().contains(e);
            if j < n - 1 {
                assert(some_model_has(list, (n - 1) as nat, e));
                let i = choose|i: int| 0 <= i < a.len() && a[i] == e;
                assert((a + b)[i] == e);
            } else {
                let i = choose|i: int| 0 <= i < b.len() && b[i] == e;
                assert((a + b)[a.len() + i] == e);
            }
        }
    } else {
        assert(list_entities(list, 0) =~= seq![]);
    }
}

/// A hierarchy split at the median over `n` models holds exactly the
/// entities of those models.
proof fn lemma_parts_entities(m: Model, n: nat, dims: Seq<SplitDim>, e: usize)
    requires
        n >= 1,
        crate::bvh::median_split(m, n, dims),
    ensures
        crate::bvh::parts(m, n).len() == n,
        m.entities().contains(e) <==> some_model_has(crate::bvh::parts(m, n), n, e),
    decreases n,
{
    if n == 1 {
        assert(crate::bvh::parts(m, n)[0] == m);
    } else {
        let t = m->Node_0;
        let h = n / 2;
        let pl = crate::bvh::parts(t.left, h);
        let pr = crate::bvh::parts(t.right, (n - h) as nat);
        lemma_parts_entities(t.left, h, dims, e);
        lemma_parts_entities(t.right, (n - h) as nat, dims, e);
        let p = crate::bvh::parts(m, n);
        assert(p == pl + pr);
        let le = t.left.entities();
        let re = t.right.entities();
        assert(m.entities() == le + re);
        if m.entities().contains(e) {
            let i = choose|i: int| 0 <= i < (le + re).len() && (le + re)[i] == e;
            if i < le.len() {
                assert(le[i] == e);
                let j = choose|j: int| 0 <= j < h && (#[trigger] pl[j]).entities().contains(e);
                assert(p[j] == pl[j]);
            } else {
                assert(re[i - le.len()] == e);
                let j = choose|j: int| 0 <= j < n - h && (#[trigger] pr[j]).entities().contains(e);
                assert(p[h + j] == pr[j]);
            }
        }
        if some_model_has(p, n, e) {
            let j = choose|j: int| 0 <= j < n && (#[trigger] p[j]).entities().contains(e);
            if j < h {
                assert(pl[j] == p[j]);
                assert(some_model_has(pl, h, e));
                let i = choose|i: int| 0 <= i < le.len() && le[i] == e;
                assert((le + re)[i] == e);
            } else {
                assert(pr[j - h] == p[j]);
                assert(some_model_has(pr, (n - h) as nat, e));
                let i = choose|i: int| 0 <= i < re.len() && re[i] == e;
                assert((le + re)[le.len() + i] == e);
            }
        }
    }
}

/// A hierarchy built from a list finds the same hit as a scan of that list:
/// where each entity reports its first hit in an interval, no two entities
/// are first hit at one parameter, and a box is reported missed only when
/// nothing inside it is hit.
pub proof fn lemma_built_tree_matches_scan<T, H, FE, FB>(
    list: Seq<Model>,
    m: Model,
    dims: Seq<SplitDim>,
    lo: T,
    hi: T,
    hit_entity: FE,
    hit_bounds: FB,
    lt: spec_fn(T, T) -> bool,
)
    where
        FE: Fn(usize, T, T) -> Option<(T, H)>,
        FB: Fn(Bounds, T, T) -> bool,
    requires
        list.len() > 0,
        crate::bvh::parts(m, list.len()).to_multiset() == list.to_multiset(),
        crate::bvh::median_split(m, list.len(), dims),
        strict_total(lt),
        first_hits(hit_entity, lt),
        prunes_soundly(m, hit_entity, hit_bounds),
        forall|j: int| 0 <= j < list.len() ==> prunes_soundly(#[trigger] list[j], hit_entity, hit_bounds),
        distinct_hits(m.entities(), lo, hi, hit_entity),
    ensures
        traversal(m, lo, hi, hit_entity, hit_bounds) == scan(list, list.len(), lo, hi, hit_entity, hit_bounds),
{
    let n = list.len();
    let p = crate::bvh::parts(m, n);
    assert forall|e: usize| m.entities().contains(e) <==> list_entities(list, n).contains(e) by {
        lemma_parts_entities(m, n, dims, e);
        lemma_list_entities_contains(list, n, e);
        if some_model_has(p, n, e) {
            let j = choose|j: int| 0 <= j < n && (#[trigger] p[j]).entities().contains(e);
            assert(p.to_multiset().contains(p[j]));
            assert(list.contains(p[j]));
            let k = choose|k: int| 0 <= k < n && list[k] == p[j];
            assert(some_model_has(list, n, e));
        }
        if some_model_has(list, n, e) {
            let k = choose|k: int| 0 <= k < n && (#[trigger] list[k]).entities().contains(e);
            assert(list.to_multiset().contains(list[k]));
            assert(p.contains(list[k]));
            let j = choose|j: int| 0 <= j < p.len() && p[j] == list[k];
            assert(some_model_has(p, n, e));
        }
    }
    lemma_traversal_matches_scan(m, list, lo, hi, hit_entity, hit_bounds, lt);
}

} // verus!
