use vstd::prelude::*;

use crate::call_graph::{
    CachingMode, CallGraph, as_ended, children_flushed, continues_loop, is_new_call, same_but_children,
    spine_flushed, with_last_child_repeat_count, with_repeat_count, with_ret_val,
};
use crate::call_tree::{CallNode, ItemKind, Notification, forest_flushed, tree_flushed, trees_equal};
use crate::repeat_count::RepeatCount;

verus! {

/// The same item: calls of the same name and parameter values, or loop bodies that both end
/// their loop or both do not.
pub open spec fn same_kind(a: ItemKind, b: ItemKind) -> bool {
    match a {
        ItemKind::Call { name: a_name, param_vals: a_params } => match b {
            ItemKind::Call { name: b_name, param_vals: b_params } => a_name@ == b_name@ && a_params == b_params,
            ItemKind::Loopbody { .. } => false,
        },
        ItemKind::Loopbody { ends_the_loop: a_ends } => match b {
            ItemKind::Call { .. } => false,
            ItemKind::Loopbody { ends_the_loop: b_ends } => a_ends == b_ends,
        },
    }
}

/// The two subtrees are the same but for the flushed parts of their repeat counts (which only
/// tell what has been logged).
pub open spec fn alike(a: CallNode, b: CallNode) -> bool
    decreases a,
{
    &&& same_kind(a.kind, b.kind)
    &&& a.ret_val == b.ret_val
    &&& a.has_ended == b.has_ended
    &&& a.repeat_count.overall() == b.repeat_count.overall()
    &&& forests_alike(a.children@, b.children@)
}

/// Pairwise `alike`.
pub open spec fn forests_alike(a: Seq<CallNode>, b: Seq<CallNode>) -> bool
    decreases a,
{
    &&& a.len() == b.len()
    &&& a.len() > 0 ==> {
        &&& forests_alike(a.drop_last(), b.drop_last())
        &&& alike(a.last(), b.last())
    }
}

/// Pairwise `alike` holds exactly when it holds at each index.
pub proof fn lemma_forests_alike_all(a: Seq<CallNode>, b: Seq<CallNode>)
    requires
        a.len() == b.len(),
    ensures
        forests_alike(a, b) <==> forall|i: int| 0 <= i < a.len() ==> alike(#[trigger] a[i], b[i]),
    decreases a.len(),
{
    if a.len() > 0 {
        lemma_forests_alike_all(a.drop_last(), b.drop_last());
        if forests_alike(a, b) {
            assert forall|i: int| 0 <= i < a.len() implies alike(#[trigger] a[i], b[i]) by {
                if i < a.len() - 1 {
                    assert(a.drop_last()[i] == a[i]);
                    assert(b.drop_last()[i] == b[i]);
                }
            }
        }
        if forall|i: int| 0 <= i < a.len() ==> alike(#[trigger] a[i], b[i]) {
            assert forall|i: int| 0 <= i < a.len() - 1 implies alike(#[trigger] a.drop_last()[i], b.drop_last()[i]) by {
                assert(a.drop_last()[i] == a[i]);
                assert(b.drop_last()[i] == b[i]);
            }
            assert(alike(a[a.len() - 1], b[b.len() - 1]));
        }
    }
}

/// Every subtree is alike itself.
pub proof fn lemma_alike_reflexive(a: CallNode)
    ensures
        alike(a, a),
    decreases a,
{
    lemma_forests_alike_reflexive(a.children@);
}

/// Every sequence of subtrees is pairwise alike itself.
pub proof fn lemma_forests_alike_reflexive(s: Seq<CallNode>)
    ensures
        forests_alike(s, s),
    decreases s,
{
    if s.len() > 0 {
        lemma_forests_alike_reflexive(s.drop_last());
        lemma_alike_reflexive(s.last());
    }
}

/// `alike` is symmetric.
pub proof fn lemma_alike_symmetric(a: CallNode, b: CallNode)
    requires
        alike(a, b),
    ensures
        alike(b, a),
    decreases a,
{
    lemma_forests_alike_symmetric(a.children@, b.children@);
}

/// Pairwise `alike` is symmetric.
pub proof fn lemma_forests_alike_symmetric(a: Seq<CallNode>, b: Seq<CallNode>)
    requires
        forests_alike(a, b),
    ensures
        forests_alike(b, a),
    decreases a,
{
    if a.len() > 0 {
        lemma_forests_alike_symmetric(a.drop_last(), b.drop_last());
        lemma_alike_symmetric(a.last(), b.last());
    }
}

/// `alike` is transitive.
pub proof fn lemma_alike_transitive(a: CallNode, b: CallNode, c: CallNode)
    requires
        alike(a, b),
        alike(b, c),
    ensures
        alike(a, c),
    decreases a,
{
    lemma_forests_alike_transitive(a.children@, b.children@, c.children@);
}

/// Pairwise `alike` is transitive.
pub proof fn lemma_forests_alike_transitive(a: Seq<CallNode>, b: Seq<CallNode>, c: Seq<CallNode>)
    requires
        forests_alike(a, b),
        forests_alike(b, c),
    ensures
        forests_alike(a, c),
    decreases a,
{
    if a.len() > 0 {
        lemma_forests_alike_transitive(a.drop_last(), b.drop_last(), c.drop_last());
        lemma_alike_transitive(a.last(), b.last(), c.last());
    }
}

/// Logging a subtree leaves it alike what it was.
pub proof fn lemma_flushed_alike(a: CallNode, b: CallNode)
    requires
        tree_flushed(a, b),
    ensures
        alike(a, b),
    decreases a,
{
    a.repeat_count.lemma_marked_and_incremented();
    lemma_flushed_forests_alike(a.children@, b.children@);
}

/// Logging a sequence of subtrees leaves it pairwise alike what it was.
pub proof fn lemma_flushed_forests_alike(a: Seq<CallNode>, b: Seq<CallNode>)
    requires
        forest_flushed(a, b),
    ensures
        forests_alike(a, b),
    decreases a,
{
    if a.len() > 0 {
        lemma_flushed_forests_alike(a.drop_last(), b.drop_last());
        lemma_flushed_alike(a.last(), b.last());
    }
}

/// Subtrees alike are equal for subtree comparison.
pub proof fn lemma_alike_equal(a: CallNode, b: CallNode)
    requires
        alike(a, b),
    ensures
        trees_equal(a, b, true),
    decreases a,
{
    lemma_forests_alike_equal(a.children@, b.children@);
}

/// Sequences of subtrees pairwise alike are pairwise equal for subtree comparison.
pub proof fn lemma_forests_alike_equal(a: Seq<CallNode>, b: Seq<CallNode>)
    requires
        forests_alike(a, b),
    ensures
        crate::call_tree::forests_equal(a, b),
    decreases a,
{
    if a.len() > 0 {
        lemma_forests_alike_equal(a.drop_last(), b.drop_last());
        lemma_alike_equal(a.last(), b.last());
    }
}

/// Subtree comparison gives the same answer on subtrees alike.
pub proof fn lemma_compare_alike(a: CallNode, a2: CallNode, b: CallNode, b2: CallNode, compare_root_repeat_count: bool)
    requires
        alike(a, a2),
        alike(b, b2),
    ensures
        trees_equal(a, b, compare_root_repeat_count) == trees_equal(a2, b2, compare_root_repeat_count),
{
    lemma_alike_equal(a, a2);
    lemma_alike_equal(b, b2);
    lemma_alike_symmetric(a, a2);
    lemma_alike_symmetric(b, b2);
    lemma_alike_equal(a2, a);
    lemma_alike_equal(b2, b);
    if trees_equal(a, b, compare_root_repeat_count) {
        crate::call_tree::lemma_trees_equal_transitive(a2, a, b, compare_root_repeat_count);
        crate::call_tree::lemma_trees_equal_transitive(a2, b, b2, compare_root_repeat_count);
    }
    if trees_equal(a2, b2, compare_root_repeat_count) {
        crate::call_tree::lemma_trees_equal_transitive(a, a2, b2, compare_root_repeat_count);
        crate::call_tree::lemma_trees_equal_transitive(a, b2, b, compare_root_repeat_count);
    }
}

/// Replacing an element by one alike keeps two sequences pairwise alike.
pub proof fn lemma_forests_alike_update(a: Seq<CallNode>, b: Seq<CallNode>, k: int, x: CallNode, y: CallNode)
    requires
        forests_alike(a, b),
        0 <= k < a.len(),
        alike(x, y),
    ensures
        forests_alike(a.update(k, x), b.update(k, y)),
{
    lemma_forests_alike_all(a, b);
    let a2 = a.update(k, x);
    let b2 = b.update(k, y);
    assert forall|i: int| 0 <= i < a2.len() implies alike(#[trigger] a2[i], b2[i]) by {
        if i != k {
            assert(a2[i] == a[i]);
            assert(b2[i] == b[i]);
        }
    }
    lemma_forests_alike_all(a2, b2);
}

/// Appending elements alike keeps two sequences pairwise alike.
pub proof fn lemma_forests_alike_push(a: Seq<CallNode>, b: Seq<CallNode>, x: CallNode, y: CallNode)
    requires
        forests_alike(a, b),
        alike(x, y),
    ensures
        forests_alike(a.push(x), b.push(y)),
{
    assert(a.push(x).drop_last() =~= a);
    assert(b.push(y).drop_last() =~= b);
}

/// Giving subtrees alike repeat counts with the same overall count keeps them alike.
pub proof fn lemma_with_repeat_count_alike(a: CallNode, b: CallNode, rc1: RepeatCount, rc2: RepeatCount)
    requires
        alike(a, b),
        rc1.overall() == rc2.overall(),
    ensures
        alike(with_repeat_count(a, rc1), with_repeat_count(b, rc2)),
{
}

/// Marking the repeat count of a node's last nested item as flushed leaves the node alike.
pub proof fn lemma_marked_last_child_alike(a: CallNode, b: CallNode)
    requires
        with_last_child_repeat_count(a, b, a.children@.last().repeat_count.marked()),
    ensures
        alike(a, b),
{
    let k = a.children@.len() - 1;
    let last = a.children@.last();
    last.repeat_count.lemma_marked_and_incremented();
    lemma_alike_reflexive(last);
    lemma_with_repeat_count_alike(last, last, last.repeat_count, last.repeat_count.marked());
    assert(with_repeat_count(last, last.repeat_count) == last);
    lemma_forests_alike_reflexive(a.children@);
    lemma_forests_alike_update(a.children@, a.children@, k, last, with_repeat_count(last, last.repeat_count.marked()));
    assert(a.children@.update(k, last) =~= a.children@);
}

/// Two call stacks whose nodes are alike, level by level.
pub open spec fn stacks_alike(a: Seq<CallNode>, b: Seq<CallNode>) -> bool {
    &&& a.len() == b.len()
    &&& forall|l: int| 0 <= l < a.len() ==> alike(#[trigger] a[l], b[l])
}

/// Every call stack is alike itself.
pub proof fn lemma_stacks_alike_reflexive(a: Seq<CallNode>)
    ensures
        stacks_alike(a, a),
{
    assert forall|l: int| 0 <= l < a.len() implies alike(#[trigger] a[l], a[l]) by {
        lemma_alike_reflexive(a[l]);
    }
}

/// `stacks_alike` is symmetric.
pub proof fn lemma_stacks_alike_symmetric(a: Seq<CallNode>, b: Seq<CallNode>)
    requires
        stacks_alike(a, b),
    ensures
        stacks_alike(b, a),
{
    assert forall|l: int| 0 <= l < b.len() implies alike(#[trigger] b[l], a[l]) by {
        lemma_alike_symmetric(a[l], b[l]);
    }
}

/// `stacks_alike` is transitive.
pub proof fn lemma_stacks_alike_transitive(a: Seq<CallNode>, b: Seq<CallNode>, c: Seq<CallNode>)
    requires
        stacks_alike(a, b),
        stacks_alike(b, c),
    ensures
        stacks_alike(a, c),
{
    assert forall|l: int| 0 <= l < a.len() implies alike(#[trigger] a[l], c[l]) by {
        lemma_alike_transitive(a[l], b[l], c[l]);
    }
}

/// Where a node keeps its item and its nested items are logged, it stays alike.
pub proof fn lemma_children_flushed_alike(a: CallNode, b: CallNode)
    requires
        children_flushed(a, b),
    ensures
        alike(a, b),
{
    lemma_flushed_forests_alike(a.children@, b.children@);
}

/// Flushing the repeat count of a level's last nested item leaves the stack alike.
pub proof fn lemma_last_child_flushed_alike(a: Seq<CallNode>, b: Seq<CallNode>, level: int)
    requires
        0 <= level < a.len(),
        CallGraph::last_child_flushed(a, b, level),
    ensures
        stacks_alike(a, b),
{
    assert forall|l: int| 0 <= l < a.len() implies alike(#[trigger] a[l], b[l]) by {
        if l == level {
            lemma_marked_last_child_alike(a[l], b[l]);
        } else {
            assert(b[l] == a[l]);
            lemma_alike_reflexive(a[l]);
        }
    }
}

/// Logging the spine of a stack leaves it alike.
pub proof fn lemma_spine_flushed_alike(a: Seq<CallNode>, b: Seq<CallNode>, from: int)
    requires
        0 <= from <= a.len(),
        spine_flushed(a, b, from),
    ensures
        stacks_alike(a, b),
{
    assert forall|l: int| 0 <= l < a.len() implies alike(#[trigger] a[l], b[l]) by {
        if l < from {
            assert(b.take(from)[l] == a.take(from)[l]);
            lemma_alike_reflexive(a[l]);
        } else {
            lemma_children_flushed_alike(a[l], b[l]);
        }
    }
}

/// A node that keeps its item and repeat count, and whose nested items stay alike, stays
/// alike.
proof fn lemma_alike_with_children(a: CallNode, b: CallNode, a2: CallNode, b2: CallNode)
    requires
        alike(a, b),
        same_but_children(a, a2),
        same_but_children(b, b2),
        forests_alike(a2.children@, b2.children@),
    ensures
        alike(a2, b2),
{
}

/// Ending (and giving a returned value to) subtrees alike keeps them alike.
proof fn lemma_ended_alike(a: CallNode, b: CallNode, ret_val: Option<String>)
    requires
        alike(a, b),
    ensures
        alike(as_ended(a), as_ended(b)),
        alike(as_ended(with_ret_val(a, ret_val)), as_ended(with_ret_val(b, ret_val))),
{
}

/// Giving the element at `k` two repeat counts with the same overall count gives sequences
/// alike.
proof fn lemma_recounted_alike(ps: Seq<CallNode>, k: int, rc1: RepeatCount, rc2: RepeatCount)
    requires
        0 <= k < ps.len(),
        rc1.overall() == rc2.overall(),
    ensures
        forests_alike(ps.update(k, with_repeat_count(ps[k], rc1)), ps.update(k, with_repeat_count(ps[k], rc2))),
{
    lemma_alike_reflexive(ps[k]);
    lemma_with_repeat_count_alike(ps[k], ps[k], rc1, rc2);
    lemma_forests_alike_reflexive(ps);
    lemma_forests_alike_update(ps, ps, k, with_repeat_count(ps[k], rc1), with_repeat_count(ps[k], rc2));
}

/// Marking the repeat count of the element at `k` as flushed leaves a sequence alike.
proof fn lemma_marked_at_alike(ps: Seq<CallNode>, k: int)
    requires
        0 <= k < ps.len(),
    ensures
        forests_alike(ps.update(k, with_repeat_count(ps[k], ps[k].repeat_count.marked())), ps),
{
    ps[k].repeat_count.lemma_marked_and_incremented();
    lemma_recounted_alike(ps, k, ps[k].repeat_count.marked(), ps[k].repeat_count);
    assert(ps.update(k, with_repeat_count(ps[k], ps[k].repeat_count)) =~= ps);
}

/// What a return makes of the nested items of the call's parent, up to what has been logged:
/// if the call's subtree equals that of its previous sibling, the sibling's repeat count
/// grows; otherwise the call is appended, ended, with its returned value.
pub open spec fn returned_children(siblings: Seq<CallNode>, cur: CallNode, ret_val: Option<String>) -> Seq<CallNode> {
    let k = siblings.len() - 1;
    if siblings.len() > 0 && trees_equal(siblings.last(), cur, false) {
        siblings.update(k, with_repeat_count(siblings[k], siblings[k].repeat_count.incremented()))
    } else {
        siblings.push(as_ended(with_ret_val(cur, ret_val)))
    }
}

/// Whatever is cached, a return leaves the parent's nested items alike `returned_children`.
proof fn lemma_ret_children(s: CallGraph, t: CallGraph, ret_val: Option<String>, events: Seq<Notification>)
    requires
        s.wf(),
        s.depth() >= 1,
        CallGraph::ret_post(s, t, ret_val, events),
    ensures
        forests_alike(
            t.stack()[s.depth() - 1].children@,
            returned_children(s.stack()[s.depth() - 1].children@, s.current(), ret_val),
        ),
{
    let st = s.stack();
    let tt = t.stack();
    let d = s.depth();
    let cur = s.current();
    let ps = st[d - 1].children@;
    let ns = tt[d - 1].children@;
    let k = ps.len() - 1;
    let returned = as_ended(with_ret_val(cur, ret_val));
    if ps.len() > 0 && trees_equal(ps.last(), cur, false) {
        let rc = ps[k].repeat_count;
        rc.lemma_marked_and_incremented();
        rc.incremented().lemma_marked_and_incremented();
        if s.caching() {
            lemma_recounted_alike(ps, k, rc.incremented(), rc.incremented());
        } else {
            lemma_recounted_alike(ps, k, rc.incremented().marked(), rc.incremented());
        }
    } else if !s.caching() {
        let r = ns.last();
        if cur.children@.len() > 0 {
            lemma_marked_last_child_alike(returned, r);
            lemma_alike_symmetric(returned, r);
        } else {
            lemma_alike_reflexive(r);
        }
        lemma_forests_alike_reflexive(ps);
        assert(ns =~= ps.push(r));
        lemma_forests_alike_push(ps, ps, r, returned);
    } else if s.mode() == CachingMode::Repetition && s.cached_depth() == d - 1 {
        let mid = ps.update(k, with_repeat_count(ps[k], ps[k].repeat_count.marked()));
        lemma_marked_at_alike(ps, k);
        lemma_flushed_alike(returned, ns.last());
        lemma_alike_symmetric(returned, ns.last());
        assert(ns =~= mid.push(ns.last()));
        lemma_forests_alike_push(mid, ps, ns.last(), returned);
    } else {
        lemma_forests_alike_reflexive(ns);
    }
}

/// Parents' nested items alike and returning calls alike give `returned_children` alike.
proof fn lemma_returned_children_alike(
    pa: Seq<CallNode>,
    pb: Seq<CallNode>,
    ca: CallNode,
    cb: CallNode,
    ret_val: Option<String>,
)
    requires
        forests_alike(pa, pb),
        alike(ca, cb),
    ensures
        forests_alike(returned_children(pa, ca, ret_val), returned_children(pb, cb, ret_val)),
{
    lemma_forests_alike_all(pa, pb);
    let k = pa.len() - 1;
    if pa.len() > 0 {
        lemma_compare_alike(pa.last(), pb.last(), ca, cb, false);
        if trees_equal(pa.last(), ca, false) {
            pa[k].repeat_count.lemma_marked_and_incremented();
            pb[k].repeat_count.lemma_marked_and_incremented();
            lemma_with_repeat_count_alike(pa[k], pb[k], pa[k].repeat_count.incremented(), pb[k].repeat_count.incremented());
            lemma_forests_alike_update(pa, pb, k, with_repeat_count(pa[k], pa[k].repeat_count.incremented()),
                with_repeat_count(pb[k], pb[k].repeat_count.incremented()));
            return;
        }
    }
    lemma_ended_alike(ca, cb, ret_val);
    lemma_forests_alike_push(pa, pb, as_ended(with_ret_val(ca, ret_val)), as_ended(with_ret_val(cb, ret_val)));
}

/// What the end of a loop body makes of the nested items of its parent, up to what has been
/// logged: a loop body without nested items leaves no trace; one equal to the previous
/// iteration of its loop makes that iteration's repeat count grow; any other is appended,
/// ended.
pub open spec fn ended_children(siblings: Seq<CallNode>, cur: CallNode) -> Seq<CallNode> {
    let k = siblings.len() - 1;
    if cur.children@.len() == 0 {
        siblings
    } else if siblings.len() > 0 && continues_loop(siblings.last().kind) && trees_equal(cur, siblings.last(), false) {
        siblings.update(k, with_repeat_count(siblings[k], siblings[k].repeat_count.incremented()))
    } else {
        siblings.push(as_ended(cur))
    }
}

/// Whatever is cached, the end of a loop body leaves the parent's nested items alike
/// `ended_children`.
proof fn lemma_loopbody_end_children(s: CallGraph, t: CallGraph, events: Seq<Notification>)
    requires
        s.wf(),
        s.depth() >= 1,
        CallGraph::loopbody_end_post(s, t, events),
    ensures
        forests_alike(t.stack()[s.depth() - 1].children@, ended_children(s.stack()[s.depth() - 1].children@, s.current())),
{
    let st = s.stack();
    let tt = t.stack();
    let d = s.depth();
    let cur = s.current();
    let ps = st[d - 1].children@;
    let ns = tt[d - 1].children@;
    let k = ps.len() - 1;
    let ends_cached = s.caching() && s.cached_depth() + 1 == d;
    let follows_iteration = ps.len() > 0 && continues_loop(ps.last().kind);
    if cur.children@.len() == 0 {
        lemma_forests_alike_reflexive(ps);
    } else if follows_iteration && trees_equal(cur, ps.last(), false) {
        let rc = ps[k].repeat_count;
        rc.lemma_marked_and_incremented();
        rc.incremented().lemma_marked_and_incremented();
        if !s.caching() || (ends_cached && s.in_full()) {
            lemma_recounted_alike(ps, k, rc.incremented().marked(), rc.incremented());
        } else {
            lemma_recounted_alike(ps, k, rc.incremented(), rc.incremented());
        }
    } else if follows_iteration && ends_cached {
        let mid = ps.update(k, with_repeat_count(ps[k], ps[k].repeat_count.marked()));
        lemma_marked_at_alike(ps, k);
        lemma_flushed_alike(as_ended(cur), ns.last());
        lemma_alike_symmetric(as_ended(cur), ns.last());
        assert(ns =~= mid.push(ns.last()));
        lemma_forests_alike_push(mid, ps, ns.last(), as_ended(cur));
    } else {
        let e = ns.last();
        if !s.caching() {
            lemma_marked_last_child_alike(as_ended(cur), e);
            lemma_alike_symmetric(as_ended(cur), e);
        } else {
            lemma_alike_reflexive(e);
        }
        lemma_forests_alike_reflexive(ps);
        assert(ns =~= ps.push(e));
        lemma_forests_alike_push(ps, ps, e, as_ended(cur));
    }
}

/// Items alike either both continue a loop or both do not.
proof fn lemma_continues_loop_alike(a: CallNode, b: CallNode)
    requires
        alike(a, b),
    ensures
        continues_loop(a.kind) == continues_loop(b.kind),
{
}

/// Parents' nested items alike and ending loop bodies alike give `ended_children` alike.
proof fn lemma_ended_children_alike(pa: Seq<CallNode>, pb: Seq<CallNode>, ca: CallNode, cb: CallNode)
    requires
        forests_alike(pa, pb),
        alike(ca, cb),
    ensures
        forests_alike(ended_children(pa, ca), ended_children(pb, cb)),
{
    lemma_forests_alike_all(pa, pb);
    let k = pa.len() - 1;
    if ca.children@.len() == 0 {
        return;
    }
    if pa.len() > 0 {
        lemma_compare_alike(ca, cb, pa.last(), pb.last(), false);
        lemma_continues_loop_alike(pa.last(), pb.last());
        if continues_loop(pa.last().kind) && trees_equal(ca, pa.last(), false) {
            pa[k].repeat_count.lemma_marked_and_incremented();
            pb[k].repeat_count.lemma_marked_and_incremented();
            lemma_with_repeat_count_alike(pa[k], pb[k], pa[k].repeat_count.incremented(), pb[k].repeat_count.incremented());
            lemma_forests_alike_update(pa, pb, k, with_repeat_count(pa[k], pa[k].repeat_count.incremented()),
                with_repeat_count(pb[k], pb[k].repeat_count.incremented()));
            return;
        }
    }
    lemma_ended_alike(ca, cb, None);
    lemma_forests_alike_push(pa, pb, as_ended(ca), as_ended(cb));
}

/// What the end of a loop makes of the running item's nested items, up to what has been
/// logged: its last loop body, if it belongs to the loop, is marked as ending it.
pub open spec fn loop_ended_children(children: Seq<CallNode>) -> Seq<CallNode> {
    let k = children.len() - 1;
    let last = children.last();
    if children.len() > 0 && continues_loop(last.kind) {
        children.update(k, CallNode { kind: ItemKind::Loopbody { ends_the_loop: true }, ..last })
    } else {
        children
    }
}

/// Whatever is cached, the end of a loop changes only the running item's nested items, and
/// leaves them alike `loop_ended_children`.
proof fn lemma_loop_end_children(s: CallGraph, t: CallGraph, events: Seq<Notification>)
    requires
        s.wf(),
        CallGraph::loop_end_post(s, t, events),
    ensures
        t.stack().len() == s.stack().len(),
        forall|l: int| 0 <= l < s.depth() ==> t.stack()[l] == #[trigger] s.stack()[l],
        same_but_children(s.current(), t.current()),
        forests_alike(t.current().children@, loop_ended_children(s.current().children@)),
{
    let st = s.stack();
    let tt = t.stack();
    let d = s.depth();
    let cs = s.current().children@;
    let k = cs.len() - 1;
    let last = cs.last();
    if cs.len() > 0 && continues_loop(last.kind) {
        let x = CallNode { kind: ItemKind::Loopbody { ends_the_loop: true }, ..last };
        let y = CallNode { repeat_count: if s.caching() { last.repeat_count } else { last.repeat_count.marked() }, ..x };
        last.repeat_count.lemma_marked_and_incremented();
        lemma_alike_reflexive(x);
        lemma_with_repeat_count_alike(x, x, y.repeat_count, x.repeat_count);
        assert(with_repeat_count(x, y.repeat_count) == y);
        assert(with_repeat_count(x, x.repeat_count) == x);
        lemma_forests_alike_reflexive(cs);
        lemma_forests_alike_update(cs, cs, k, y, x);
        assert forall|l: int| 0 <= l < d implies tt[l] == #[trigger] st[l] by {
            assert(tt[l] == st.update(d, tt[d])[l]);
        }
    } else {
        lemma_forests_alike_reflexive(cs);
    }
}

/// Nested items alike give `loop_ended_children` alike.
proof fn lemma_loop_ended_children_alike(a: Seq<CallNode>, b: Seq<CallNode>)
    requires
        forests_alike(a, b),
    ensures
        forests_alike(loop_ended_children(a), loop_ended_children(b)),
{
    lemma_forests_alike_all(a, b);
    if a.len() > 0 {
        let k = a.len() - 1;
        lemma_continues_loop_alike(a.last(), b.last());
        if continues_loop(a.last().kind) {
            let x = CallNode { kind: ItemKind::Loopbody { ends_the_loop: true }, ..a.last() };
            let y = CallNode { kind: ItemKind::Loopbody { ends_the_loop: true }, ..b.last() };
            assert(alike(a[k], b[k]));
            assert(alike(x, y));
            lemma_forests_alike_update(a, b, k, x, y);
        }
    }
}

/// Fresh nodes of the same item are alike.
proof fn lemma_fresh_alike(a: CallNode, b: CallNode)
    requires
        a.is_fresh(),
        b.is_fresh(),
        same_kind(a.kind, b.kind),
    ensures
        alike(a, b),
{
}

/// Whatever is cached, a call leaves the stack below the new call alike what it was, and
/// puts the new call on top.
proof fn lemma_call_stack(s: CallGraph, t: CallGraph, name: Seq<char>, param_vals: Option<String>, events: Seq<Notification>)
    requires
        s.wf(),
        CallGraph::call_post(s, t, name, param_vals, events),
    ensures
        t.stack().len() == s.stack().len() + 1,
        stacks_alike(s.stack(), t.stack().drop_last()),
        is_new_call(t.current(), name, param_vals),
{
    let st = s.stack();
    let low = t.stack().drop_last();
    let d = s.depth();
    let cd = s.cached_depth();
    if low == st {
        lemma_stacks_alike_reflexive(st);
    } else if s.mode() == CachingMode::Inactive {
        lemma_last_child_flushed_alike(st, low, d);
    } else if st[cd].children@.len() > 0 {
        let mid = st.update(cd, low[cd]);
        lemma_last_child_flushed_alike(st, mid, cd);
        lemma_spine_flushed_alike(mid, low, cd + 1);
        lemma_stacks_alike_transitive(st, mid, low);
    } else {
        lemma_spine_flushed_alike(st, low, cd + 1);
    }
}

/// A flush leaves the stack alike what it was.
pub proof fn lemma_flush_stack(s: CallGraph, t: CallGraph, flush_notifiable: bool, events: Seq<Notification>)
    requires
        s.wf(),
        CallGraph::flush_post(s, t, flush_notifiable, events),
    ensures
        stacks_alike(s.stack(), t.stack()),
{
    let st = s.stack();
    let tt = t.stack();
    let d = s.depth();
    let cd = s.cached_depth();
    if s.caching() {
        if st[cd].children@.len() > 0 {
            let mid = st.update(cd, tt[cd]);
            lemma_last_child_flushed_alike(st, mid, cd);
            lemma_spine_flushed_alike(mid, tt, cd + 1);
            lemma_stacks_alike_transitive(st, mid, tt);
        } else {
            lemma_spine_flushed_alike(st, tt, cd + 1);
        }
    } else if st[d].children@.len() > 0 {
        lemma_last_child_flushed_alike(st, tt, d);
    } else {
        lemma_stacks_alike_reflexive(st);
    }
}

/// An operation on a call graph: one of its methods, with its arguments.
pub enum GraphOp {
    /// `add_call`.
    Call { name: String, param_vals: Option<String> },
    /// `add_ret`.
    Ret { ret_val: Option<String> },
    /// `add_loopbody_start`.
    LoopbodyStart,
    /// `add_loopbody_end`.
    LoopbodyEnd,
    /// `add_loop_end`.
    LoopEnd,
    /// `flush`.
    Flush { flush_notifiable: bool },
}

/// `t` and `events` are what the operation makes of the graph `s` and tells, as the method's
/// contract states, on a graph that meets the method's precondition.
pub open spec fn step(s: CallGraph, op: GraphOp, t: CallGraph, events: Seq<Notification>) -> bool {
    &&& s.wf()
    &&& t.wf()
    &&& match op {
        GraphOp::Call { name, param_vals } => s.has_room() && CallGraph::call_post(s, t, name@, param_vals, events),
        GraphOp::Ret { ret_val } => {
            &&& s.depth() >= 1
            &&& s.current().kind is Call
            &&& CallGraph::ret_post(s, t, ret_val, events)
        },
        GraphOp::LoopbodyStart => {
            &&& s.has_room()
            &&& CallGraph::loopbody_start_post(s, t)
            &&& events == Seq::<Notification>::empty()
        },
        GraphOp::LoopbodyEnd => {
            &&& s.depth() >= 1
            &&& s.current().kind is Loopbody
            &&& CallGraph::loopbody_end_post(s, t, events)
        },
        GraphOp::LoopEnd => CallGraph::loop_end_post(s, t, events),
        GraphOp::Flush { flush_notifiable } => CallGraph::flush_post(s, t, flush_notifiable, events),
    }
}

/// `states` are the graphs through which the operations `ops` take the first of them, and
/// `events` what each operation tells.
pub open spec fn is_run(ops: Seq<GraphOp>, states: Seq<CallGraph>, events: Seq<Seq<Notification>>) -> bool {
    &&& states.len() == ops.len() + 1
    &&& events.len() == ops.len()
    &&& forall|i: int| #![trigger ops[i]] 0 <= i < ops.len() ==> step(states[i], ops[i], states[i + 1], events[i])
}

/// Stack levels below `top` are unchanged.
proof fn lemma_stacks_alike_below(a: Seq<CallNode>, b: Seq<CallNode>, a2: Seq<CallNode>, b2: Seq<CallNode>, top: int)
    requires
        stacks_alike(a, b),
        0 <= top <= a.len(),
        top <= a2.len(),
        top <= b2.len(),
        a2.take(top) == a.take(top),
        b2.take(top) == b.take(top),
    ensures
        forall|l: int| 0 <= l < top ==> alike(#[trigger] a2[l], b2[l]),
{
    assert forall|l: int| 0 <= l < top implies alike(#[trigger] a2[l], b2[l]) by {
        assert(a2.take(top)[l] == a2[l]);
        assert(b2.take(top)[l] == b2[l]);
        assert(a.take(top)[l] == a[l]);
        assert(b.take(top)[l] == b[l]);
    }
}

/// Three sequences alike in a row, the last two in reverse: the first and the last are alike.
proof fn lemma_forests_alike_chain(x: Seq<CallNode>, y: Seq<CallNode>, z: Seq<CallNode>, w: Seq<CallNode>)
    requires
        forests_alike(x, y),
        forests_alike(y, z),
        forests_alike(w, z),
    ensures
        forests_alike(x, w),
{
    lemma_forests_alike_transitive(x, y, z);
    lemma_forests_alike_symmetric(w, z);
    lemma_forests_alike_transitive(x, z, w);
}

/// The same operation on graphs whose stacks are alike gives graphs whose stacks are alike,
/// whatever each of them caches.
pub proof fn lemma_step_keeps_alike(
    op: GraphOp,
    sa: CallGraph,
    ta: CallGraph,
    ea: Seq<Notification>,
    sb: CallGraph,
    tb: CallGraph,
    eb: Seq<Notification>,
)
    requires
        step(sa, op, ta, ea),
        step(sb, op, tb, eb),
        stacks_alike(sa.stack(), sb.stack()),
    ensures
        stacks_alike(ta.stack(), tb.stack()),
{
    let a = sa.stack();
    let b = sb.stack();
    let a2 = ta.stack();
    let b2 = tb.stack();
    let d = sa.depth();
    match op {
        GraphOp::Call { name, param_vals } => {
            lemma_call_stack(sa, ta, name@, param_vals, ea);
            lemma_call_stack(sb, tb, name@, param_vals, eb);
            lemma_stacks_alike_symmetric(a, a2.drop_last());
            lemma_stacks_alike_transitive(a2.drop_last(), a, b);
            lemma_stacks_alike_transitive(a2.drop_last(), b, b2.drop_last());
            lemma_fresh_alike(ta.current(), tb.current());
            assert forall|l: int| 0 <= l < a2.len() implies alike(#[trigger] a2[l], b2[l]) by {
                if l < a2.len() - 1 {
                    assert(a2.drop_last()[l] == a2[l]);
                    assert(b2.drop_last()[l] == b2[l]);
                }
            }
        },
        GraphOp::Ret { ret_val } => {
            lemma_ret_children(sa, ta, ret_val, ea);
            lemma_ret_children(sb, tb, ret_val, eb);
            assert(alike(a[d - 1], b[d - 1]));
            assert(alike(a[d], b[d]));
            lemma_returned_children_alike(a[d - 1].children@, b[d - 1].children@, a[d], b[d], ret_val);
            lemma_forests_alike_chain(
                a2[d - 1].children@,
                returned_children(a[d - 1].children@, a[d], ret_val),
                returned_children(b[d - 1].children@, b[d], ret_val),
                b2[d - 1].children@,
            );
            lemma_alike_with_children(a[d - 1], b[d - 1], a2[d - 1], b2[d - 1]);
            lemma_stacks_alike_below(a, b, a2, b2, d - 1);
        },
        GraphOp::LoopbodyStart => {
            lemma_fresh_alike(ta.current(), tb.current());
            assert forall|l: int| 0 <= l < a2.len() implies alike(#[trigger] a2[l], b2[l]) by {
                if l < a.len() {
                    assert(a2[l] == a[l]);
                    assert(b2[l] == b[l]);
                }
            }
        },
        GraphOp::LoopbodyEnd => {
            lemma_loopbody_end_children(sa, ta, ea);
            lemma_loopbody_end_children(sb, tb, eb);
            assert(alike(a[d - 1], b[d - 1]));
            assert(alike(a[d], b[d]));
            lemma_ended_children_alike(a[d - 1].children@, b[d - 1].children@, a[d], b[d]);
            lemma_forests_alike_chain(
                a2[d - 1].children@,
                ended_children(a[d - 1].children@, a[d]),
                ended_children(b[d - 1].children@, b[d]),
                b2[d - 1].children@,
            );
            lemma_alike_with_children(a[d - 1], b[d - 1], a2[d - 1], b2[d - 1]);
            lemma_stacks_alike_below(a, b, a2, b2, d - 1);
        },
        GraphOp::LoopEnd => {
            lemma_loop_end_children(sa, ta, ea);
            lemma_loop_end_children(sb, tb, eb);
            assert(alike(a[d], b[d]));
            lemma_loop_ended_children_alike(a[d].children@, b[d].children@);
            lemma_forests_alike_chain(
                a2[d].children@,
                loop_ended_children(a[d].children@),
                loop_ended_children(b[d].children@),
                b2[d].children@,
            );
            lemma_alike_with_children(a[d], b[d], a2[d], b2[d]);
            assert forall|l: int| 0 <= l < a2.len() implies alike(#[trigger] a2[l], b2[l]) by {
                if l < d {
                    assert(a2[l] == a[l]);
                    assert(b2[l] == b[l]);
                }
            }
        },
        GraphOp::Flush { flush_notifiable } => {
            lemma_flush_stack(sa, ta, flush_notifiable, ea);
            lemma_flush_stack(sb, tb, flush_notifiable, eb);
            lemma_stacks_alike_symmetric(a, a2);
            lemma_stacks_alike_transitive(a2, a, b);
            lemma_stacks_alike_transitive(a2, b, b2);
        },
    }
}

/// Two runs of the same operations from graphs whose stacks are alike stay alike at every
/// step.
pub proof fn lemma_runs_stay_alike(
    ops: Seq<GraphOp>,
    run_a: Seq<CallGraph>,
    events_a: Seq<Seq<Notification>>,
    run_b: Seq<CallGraph>,
    events_b: Seq<Seq<Notification>>,
    i: int,
)
    requires
        is_run(ops, run_a, events_a),
        is_run(ops, run_b, events_b),
        stacks_alike(run_a[0].stack(), run_b[0].stack()),
        0 <= i <= ops.len(),
    ensures
        stacks_alike(run_a[i].stack(), run_b[i].stack()),
    decreases i,
{
    if i > 0 {
        lemma_runs_stay_alike(ops, run_a, events_a, run_b, events_b, i - 1);
        assert(step(run_a[i - 1], ops[i - 1], run_a[i], events_a[i - 1]));
        assert(step(run_b[i - 1], ops[i - 1], run_b[i], events_b[i - 1]));
        lemma_step_keeps_alike(ops[i - 1], run_a[i - 1], run_a[i], events_a[i - 1], run_b[i - 1], run_b[i], events_b[i - 1]);
    }
}

} // verus!
