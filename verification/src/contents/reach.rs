//! Descendants in the parent-child relation: a search as many generations deep as there are
//! parents recorded finds every descendant, when no entity is its own descendant.

use vstd::prelude::*;

use crate::contents::storage::{any_descends, children_from, descends};
use crate::contents::Entity;

verus! {

/// `c` is among the children of `p`.
pub open spec fn child_in(ch: Seq<(Entity, Vec<Entity>)>, p: Entity, c: Entity) -> bool {
    children_from(ch, p, 0) matches Some(kids) && kids.contains(c)
}

/// Step `i` of `path` goes from a parent to one of its children.
pub open spec fn step(ch: Seq<(Entity, Vec<Entity>)>, path: Seq<Entity>, i: int) -> bool {
    child_in(ch, path[i], path[i + 1])
}

/// `path` goes down the parent-child relation, one generation per step, in at least one step.
pub open spec fn is_path(ch: Seq<(Entity, Vec<Entity>)>, path: Seq<Entity>) -> bool {
    &&& path.len() >= 2
    &&& forall|i: int| 0 <= i < path.len() - 1 ==> #[trigger] step(ch, path, i)
}

/// `b` is a descendant of `a` at some depth.
pub open spec fn reachable(ch: Seq<(Entity, Vec<Entity>)>, a: Entity, b: Entity) -> bool {
    exists|d: nat| #[trigger] descends(ch, a, b, d)
}

/// No entity is its own descendant.
pub open spec fn acyclic(ch: Seq<(Entity, Vec<Entity>)>) -> bool {
    forall|e: Entity, d: nat| !#[trigger] descends(ch, e, e, d)
}

/// A descendant within `depth` generations is the end of a path from `a` of at most `depth`
/// steps.
proof fn lemma_descends_path(ch: Seq<(Entity, Vec<Entity>)>, a: Entity, b: Entity, depth: nat) -> (p: Seq<
    Entity,
>)
    requires
        descends(ch, a, b, depth),
    ensures
        is_path(ch, p),
        p[0] == a,
        p.last() == b,
        p.len() - 1 <= depth,
    decreases depth, 0int,
{
    let kids = children_from(ch, a, 0)->0;
    lemma_any_path(ch, kids, 0, a, b, (depth - 1) as nat)
}

/// A descendant found among `kids[j..]` (the children of `a`) within `depth` generations is the
/// end of a path from `a` of at most `depth + 1` steps.
proof fn lemma_any_path(
    ch: Seq<(Entity, Vec<Entity>)>,
    kids: Seq<Entity>,
    j: int,
    a: Entity,
    b: Entity,
    depth: nat,
) -> (p: Seq<Entity>)
    requires
        children_from(ch, a, 0) == Some(kids),
        any_descends(ch, kids, j, b, depth),
    ensures
        is_path(ch, p),
        p[0] == a,
        p.last() == b,
        p.len() - 1 <= depth + 1,
    decreases depth, kids.len() - j + 1,
{
    assert(kids.contains(kids[j]));
    if kids[j] == b {
        let p = seq![a, b];
        assert(step(ch, p, 0));
        p
    } else if descends(ch, kids[j], b, depth) {
        let q = lemma_descends_path(ch, kids[j], b, depth);
        let p = seq![a] + q;
        assert forall|i: int| 0 <= i < p.len() - 1 implies #[trigger] step(ch, p, i) by {
            if i > 0 {
                assert(step(ch, q, i - 1));
                assert(p[i] == q[i - 1] && p[i + 1] == q[i]);
            }
        }
        p
    } else {
        lemma_any_path(ch, kids, j + 1, a, b, depth)
    }
}

/// One of `kids[i..]` leads to `b` when `kids[j]`, for some `j >= i`, does.
proof fn lemma_any_from(ch: Seq<(Entity, Vec<Entity>)>, kids: Seq<Entity>, i: int, j: int, b: Entity, depth: nat)
    requires
        0 <= i <= j < kids.len(),
        kids[j] == b || descends(ch, kids[j], b, depth),
    ensures
        any_descends(ch, kids, i, b, depth),
    decreases j - i,
{
    if i < j {
        lemma_any_from(ch, kids, i + 1, j, b, depth);
    }
}

/// The end of a path of at most `depth` steps is a descendant of its start within `depth`
/// generations.
proof fn lemma_path_descends(ch: Seq<(Entity, Vec<Entity>)>, p: Seq<Entity>, depth: nat)
    requires
        is_path(ch, p),
        p.len() - 1 <= depth,
    ensures
        descends(ch, p[0], p.last(), depth),
    decreases p.len(),
{
    assert(step(ch, p, 0));
    let kids = children_from(ch, p[0], 0)->0;
    let j = choose|j: int| 0 <= j < kids.len() && kids[j] == p[1];
    if p.len() > 2 {
        let q = p.drop_first();
        assert forall|i: int| 0 <= i < q.len() - 1 implies #[trigger] step(ch, q, i) by {
            assert(step(ch, p, i + 1));
        }
        lemma_path_descends(ch, q, (depth - 1) as nat);
    }
    lemma_any_from(ch, kids, 0, j, p.last(), (depth - 1) as nat);
}

/// A part of a path of at least one step is a path.
proof fn lemma_sub_path(ch: Seq<(Entity, Vec<Entity>)>, p: Seq<Entity>, i: int, k: int)
    requires
        is_path(ch, p),
        0 <= i < k < p.len(),
    ensures
        is_path(ch, p.subrange(i, k + 1)),
{
    let q = p.subrange(i, k + 1);
    assert forall|t: int| 0 <= t < q.len() - 1 implies #[trigger] step(ch, q, t) by {
        assert(step(ch, p, i + t));
    }
}

/// Without an entity that is its own descendant, a path never visits an entity twice.
proof fn lemma_path_distinct(ch: Seq<(Entity, Vec<Entity>)>, p: Seq<Entity>)
    requires
        acyclic(ch),
        is_path(ch, p),
    ensures
        p.no_duplicates(),
{
    assert forall|i: int, k: int| 0 <= i < p.len() && 0 <= k < p.len() && i != k implies p[i] != p[k] by {
        if p[i] == p[k] {
            let (lo, hi) = if i < k {
                (i, k)
            } else {
                (k, i)
            };
            lemma_sub_path(ch, p, lo, hi);
            let q = p.subrange(lo, hi + 1);
            lemma_path_descends(ch, q, (hi - lo) as nat);
            assert(q[0] == p[lo] && q.last() == p[hi]);
            assert(!descends(ch, p[lo], p[lo], (hi - lo) as nat));
        }
    }
}

/// `e` has an entry in the relation.
spec fn has_entry(ch: Seq<(Entity, Vec<Entity>)>, e: Entity) -> bool {
    exists|k: int| 0 <= k < ch.len() && (#[trigger] ch[k]).0 == e
}

/// An entity with children has an entry in the relation.
proof fn lemma_children_entry(ch: Seq<(Entity, Vec<Entity>)>, e: Entity, i: int)
    requires
        0 <= i,
        children_from(ch, e, i) is Some,
    ensures
        exists|k: int| i <= k < ch.len() && (#[trigger] ch[k]).0 == e,
    decreases ch.len() - i,
{
    if ch[i].0 != e {
        lemma_children_entry(ch, e, i + 1);
    } else {
        assert(ch[i].0 == e);
    }
}

/// A path of distinct entities has no more steps than there are entries in the relation: each
/// step leaves a different parent, and each parent has its own entry.
proof fn lemma_path_len(ch: Seq<(Entity, Vec<Entity>)>, p: Seq<Entity>)
    requires
        is_path(ch, p),
        p.no_duplicates(),
    ensures
        p.len() - 1 <= ch.len(),
{
    let n = ch.len() as int;
    let m = p.len() - 1;
    assert forall|t: int| 0 <= t < m implies #[trigger] has_entry(ch, p[t]) by {
        assert(step(ch, p, t));
        lemma_children_entry(ch, p[t], 0);
    }
    let q = Seq::new(m as nat, |t: int| choose|k: int| 0 <= k < n && (#[trigger] ch[k]).0 == p[t]);
    assert forall|t: int| 0 <= t < m implies 0 <= #[trigger] q[t] < n && ch[q[t]].0 == p[t] by {
        assert(has_entry(ch, p[t]));
    }
    assert forall|t1: int, t2: int| 0 <= t1 < q.len() && 0 <= t2 < q.len() && t1 != t2 implies q[t1]
        != q[t2] by {
        assert(ch[q[t1]].0 == p[t1] && ch[q[t2]].0 == p[t2]);
    }
    assert(q.no_duplicates());
    q.unique_seq_to_set();
    vstd::set_lib::lemma_int_range(0, n);
    assert(q.to_set().subset_of(vstd::set_lib::set_int_range(0, n))) by {
        assert forall|x: int| q.to_set().contains(x) implies vstd::set_lib::set_int_range(0, n).contains(x) by {
            let t = choose|t: int| 0 <= t < q.len() && q[t] == x;
        }
    }
    vstd::set_lib::lemma_len_subset(q.to_set(), vstd::set_lib::set_int_range(0, n));
}

/// When no entity is its own descendant, searching as many generations deep as there are
/// entries in the relation finds exactly the descendants at any depth: `contains` is
/// reachability.
pub proof fn law_contains_is_reachability(ch: Seq<(Entity, Vec<Entity>)>, a: Entity, b: Entity)
    requires
        acyclic(ch),
    ensures
        descends(ch, a, b, ch.len() as nat) <==> reachable(ch, a, b),
{
    if reachable(ch, a, b) {
        let d = choose|d: nat| #[trigger] descends(ch, a, b, d);
        let p = lemma_descends_path(ch, a, b, d);
        lemma_path_distinct(ch, p);
        lemma_path_len(ch, p);
        lemma_path_descends(ch, p, ch.len() as nat);
    }
    if descends(ch, a, b, ch.len() as nat) {
        assert(reachable(ch, a, b));
    }
}

} // verus!
