use vstd::prelude::*;

use crate::call_graph::{CachingMode, CallGraph, same_but_children, with_repeat_count, is_call_named};
use crate::call_tree::{
    CallNode, Notification, forests_equal, lemma_flushed_forests_equal, lemma_forest_flushed_index,
    lemma_forests_equal_reflexive, trees_equal,
};
use crate::call_graph::{children_flushed, spine_notices};
use crate::call_tree::{ItemKind, forest_notices, repeat_notices, tree_notices};
use crate::repeat_count::RepeatCount;
use crate::flush_law::{GraphOp, is_run, lemma_flush_stack, lemma_runs_stay_alike, stacks_alike};
use crate::repeat_count::REPEAT_COUNT_MAX;

verus! {

/// A call followed by its return brings the call stack back to its length, with items of the
/// same kinds on it: the caller is the running item again.
pub proof fn law_return_undoes_call(
    g0: CallGraph,
    g1: CallGraph,
    g2: CallGraph,
    name: Seq<char>,
    param_vals: Option<String>,
    ret_val: Option<String>,
    call_events: Seq<Notification>,
    ret_events: Seq<Notification>,
)
    requires
        g0.wf(),
        CallGraph::call_post(g0, g1, name, param_vals, call_events),
        CallGraph::ret_post(g1, g2, ret_val, ret_events),
    ensures
        g2.stack().len() == g0.stack().len(),
        forall|l: int| 0 <= l < g0.stack().len() ==> (#[trigger] g2.stack()[l]).kind == g0.stack()[l].kind,
        g2.current().kind == g0.current().kind,
{
    let st = g0.stack();
    let st1 = g1.stack();
    let st2 = g2.stack();
    let d = g0.depth();
    assert forall|l: int| 0 <= l < st.len() implies (#[trigger] st2[l]).kind == st[l].kind by {
        if l < d {
            assert(st2.take(d)[l] == st1.take(d)[l]);
        }
        assert(st1.drop_last()[l] == st1[l]);
        match g0.mode() {
            CachingMode::Inactive => {
                if !(st[d].children@.len() > 0 && is_call_named(st[d].children@.last().kind, name) && !g0.interrupted())
                    && st[d].children@.len() > 0 {
                    assert(st1.drop_last() == st.update(d, st1.drop_last()[d]));
                    if l != d {
                        assert(st1.drop_last()[l] == st[l]);
                    }
                }
            },
            CachingMode::Repetition => {},
            CachingMode::InitialLoopbody => {
                let cd = g0.cached_depth();
                let flushed = st1.drop_last();
                let mid = if st[cd].children@.len() > 0 { st.update(cd, flushed[cd]) } else { st };
                assert(mid[l].kind == st[l].kind) by {
                    if l != cd {
                        assert(mid[l] == st[l]);
                    }
                }
                if l < cd + 1 {
                    assert(flushed.take(cd + 1)[l] == mid.take(cd + 1)[l]);
                }
            },
        }
    }
    assert(st2[d].kind == st[d].kind);
}

/// A loop body that ends without nested items leaves no trace: the call stack, what is being
/// cached and whether the log counts as interrupted are as before its start, and nothing is
/// logged.
pub proof fn law_empty_loopbody_leaves_no_trace(
    g0: CallGraph,
    g1: CallGraph,
    g2: CallGraph,
    end_events: Seq<Notification>,
)
    requires
        g0.wf(),
        CallGraph::loopbody_start_post(g0, g1),
        CallGraph::loopbody_end_post(g1, g2, end_events),
    ensures
        g2.stack().len() == g0.stack().len(),
        g2.stack().take(g0.depth()) == g0.stack().take(g0.depth()),
        same_but_children(g0.current(), g2.current()),
        g2.current().children@ == g0.current().children@,
        g2.mode() == g0.mode(),
        g0.caching() ==> g2.cached_depth() == g0.cached_depth(),
        g2.interrupted() == g0.interrupted(),
        g2.in_full() == g0.in_full(),
        end_events == Seq::<Notification>::empty(),
{
    let d = g0.depth();
    assert(g1.stack().take(d) =~= g0.stack().take(d));
    assert(g1.stack()[d] == g0.stack()[d]);
}

/// A call that repeats its previous sibling, a call of the same name without nested items,
/// and returns without nested items of its own, is not logged: when nothing is being cached
/// and the log was not interrupted since that sibling, the call and its return only grow the
/// sibling's repeat count, and the graph is otherwise as before.
pub proof fn law_repeated_call_is_counted(
    g0: CallGraph,
    g1: CallGraph,
    g2: CallGraph,
    name: Seq<char>,
    param_vals: Option<String>,
    ret_val: Option<String>,
    call_events: Seq<Notification>,
    ret_events: Seq<Notification>,
)
    requires
        g0.wf(),
        g0.mode() == CachingMode::Inactive,
        !g0.interrupted(),
        g0.current().children@.len() > 0,
        is_call_named(g0.current().children@.last().kind, name),
        g0.current().children@.last().children@.len() == 0,
        CallGraph::call_post(g0, g1, name, param_vals, call_events),
        CallGraph::ret_post(g1, g2, ret_val, ret_events),
    ensures
        call_events == Seq::<Notification>::empty(),
        ret_events == Seq::<Notification>::empty(),
        g2.mode() == CachingMode::Inactive,
        g2.stack().len() == g0.stack().len(),
        g2.stack().take(g0.depth()) == g0.stack().take(g0.depth()),
        same_but_children(g0.current(), g2.current()),
        ({
            let prev = g0.current().children@;
            let k = prev.len() - 1;
            g2.current().children@ == prev.update(k, with_repeat_count(prev[k], prev[k].repeat_count.incremented()))
        }),
{
    let d = g0.depth();
    let st = g0.stack();
    let st1 = g1.stack();
    assert(st1.drop_last()[d] == st[d]);
    assert(st1.take(d) =~= st.take(d)) by {
        assert(st1.drop_last() == st);
    }
    let prev = st[d].children@.last();
    let cur = st1[d + 1];
    assert(crate::call_tree::forests_equal(prev.children@, cur.children@));
    assert(crate::call_tree::trees_equal(prev, cur, false));
}

/// A loop end separates loops: when nothing is being cached, a loop body that starts right
/// after a loop end is taken as the first of a new loop (an initial loop body), not as another
/// iteration of the loop that ended.
pub proof fn law_loop_end_separates_loops(
    g0: CallGraph,
    g1: CallGraph,
    g2: CallGraph,
    end_events: Seq<Notification>,
)
    requires
        g0.wf(),
        !g0.caching(),
        CallGraph::loop_end_post(g0, g1, end_events),
        CallGraph::loopbody_start_post(g1, g2),
    ensures
        g2.mode() == CachingMode::InitialLoopbody,
        g2.cached_depth() == g0.depth(),
{
    let d = g0.depth();
    let cur = g0.current();
    if cur.children@.len() > 0 && crate::call_graph::continues_loop(cur.children@.last().kind) {
        let k = cur.children@.len() - 1;
        assert(g1.stack()[d].children@[k].kind == (crate::call_tree::ItemKind::Loopbody { ends_the_loop: true }));
        assert(g1.stack()[d].children@.last() == g1.stack()[d].children@[k]);
    }
}

/// Two flushes in a row: the second one has nothing left to log but its `Flush` notification
/// (if one is asked for), and leaves the call tree as it is. This holds as long as the repeat
/// count of the running item's last nested item has not saturated: after that, the number of
/// its repeats since a flush is unknown, and every flush tells so.
pub proof fn law_second_flush_logs_nothing(
    g0: CallGraph,
    g1: CallGraph,
    g2: CallGraph,
    first_notifiable: bool,
    second_notifiable: bool,
    first_events: Seq<Notification>,
    second_events: Seq<Notification>,
)
    requires
        g0.wf(),
        g1.wf(),
        CallGraph::flush_post(g0, g1, first_notifiable, first_events),
        CallGraph::flush_post(g1, g2, second_notifiable, second_events),
        g0.current().children@.len() > 0 ==> g0.current().children@.last().repeat_count.overall() < REPEAT_COUNT_MAX,
    ensures
        second_events == if second_notifiable { seq![Notification::Flush] } else { Seq::<Notification>::empty() },
        g2.mode() == g1.mode(),
        g2.stack().len() == g1.stack().len(),
        forall|l: int| 0 <= l < g1.stack().len() ==> same_but_children(#[trigger] g1.stack()[l], g2.stack()[l])
            && g2.stack()[l].children@ == g1.stack()[l].children@,
{
    let st0 = g0.stack();
    let st1 = g1.stack();
    let st2 = g2.stack();
    let d = g0.depth();
    let cd = g0.cached_depth();
    assert(g1.depth() == d);
    if st1[d].children@.len() > 0 {
        let k = st1[d].children@.len() - 1;
        let last0 = st0[d].children@[k];
        let last1 = st1[d].children@[k];
        if g0.caching() {
            let mid = if st0[cd].children@.len() > 0 { st0.update(cd, st1[cd]) } else { st0 };
            assert(cd < d);
            assert(mid[d] == st0[d]);
            lemma_forest_flushed_index(mid[d].children@, st1[d].children@, k);
            assert(st0[d].children@[k].has_ended);
        } else {
            assert(st0[d].children@.len() > 0);
        }
        assert(last1.repeat_count == last0.repeat_count.marked());
        assert(last0 == st0[d].children@.last());
        last0.repeat_count.lemma_marked_tells_nothing();
        last0.repeat_count.lemma_marked_twice();
        assert(with_repeat_count(last1, last1.repeat_count.marked()) == last1);
        assert(st2[d].children@ =~= st1[d].children@);
        assert forall|l: int| 0 <= l < st1.len() implies same_but_children(#[trigger] st1[l], st2[l])
            && st2[l].children@ == st1[l].children@ by {
            if l != d {
                assert(st2[l] == st1[l]);
            }
        }
    }
}

/// Marking the repeat count of the last of a sequence of subtrees as flushed leaves the
/// sequence pairwise equal to what it was.
proof fn lemma_marking_last_keeps_forest(s: Seq<CallNode>, t: Seq<CallNode>)
    requires
        s.len() > 0,
        t == s.update(s.len() - 1, with_repeat_count(s.last(), s.last().repeat_count.marked())),
    ensures
        forests_equal(s, t),
{
    s.last().repeat_count.lemma_marked_and_incremented();
    assert(t.drop_last() =~= s.drop_last());
    lemma_forests_equal_reflexive(s.drop_last());
    lemma_forests_equal_reflexive(s.last().children@);
    assert(t.last() == with_repeat_count(s.last(), s.last().repeat_count.marked()));
    assert(trees_equal(s.last(), t.last(), true));
}

/// Where a level keeps its item and its finished nested items are logged, they stay equal.
proof fn lemma_children_flushed_keep_forest(a: CallNode, b: CallNode)
    requires
        children_flushed(a, b),
    ensures
        same_but_children(a, b),
        forests_equal(a.children@, b.children@),
{
    lemma_flushed_forests_equal(a.children@, b.children@);
}

/// A flush changes what is logged, not the call tree: the call stack keeps its length and its
/// items, and the finished nested items at every level stay equal in names, order and repeat
/// counts, recursively; only the marks of what was logged (the flushed parts of the repeat
/// counts) change.
pub proof fn law_flush_keeps_the_call_tree(
    g0: CallGraph,
    g1: CallGraph,
    flush_notifiable: bool,
    events: Seq<Notification>,
)
    requires
        g0.wf(),
        CallGraph::flush_post(g0, g1, flush_notifiable, events),
    ensures
        g1.stack().len() == g0.stack().len(),
        forall|l: int| 0 <= l < g0.stack().len() ==> same_but_children(#[trigger] g0.stack()[l], g1.stack()[l])
            && forests_equal(g0.stack()[l].children@, g1.stack()[l].children@),
{
    let st = g0.stack();
    let tt = g1.stack();
    let d = g0.depth();
    let cd = g0.cached_depth();
    assert forall|l: int| 0 <= l < st.len() implies same_but_children(#[trigger] st[l], tt[l])
        && forests_equal(st[l].children@, tt[l].children@) by {
        if g0.caching() {
            let mid = if st[cd].children@.len() > 0 { st.update(cd, tt[cd]) } else { st };
            if l < cd + 1 {
                assert(tt.take(cd + 1)[l] == mid.take(cd + 1)[l]);
                if l == cd && st[cd].children@.len() > 0 {
                    lemma_marking_last_keeps_forest(st[cd].children@, tt[cd].children@);
                } else {
                    assert(tt[l] == st[l]);
                    lemma_forests_equal_reflexive(st[l].children@);
                }
            } else {
                assert(mid[l] == st[l]);
                lemma_children_flushed_keep_forest(st[l], tt[l]);
            }
        } else if st[d].children@.len() > 0 {
            if l == d {
                lemma_marking_last_keeps_forest(st[d].children@, tt[d].children@);
            } else {
                assert(tt[l] == st[l]);
                lemma_forests_equal_reflexive(st[l].children@);
            }
        } else {
            lemma_forests_equal_reflexive(st[l].children@);
        }
    }
}

/// A flush changes only the log, not what the call tree becomes: the same operations, run
/// from a graph and from that graph right after a flush, build the same call tree (the same
/// items, nested in the same order, with the same parameter values, returned values and
/// repeat counts, level by level of the call stack), however differently the two graphs cache
/// and log along the way. Only the marks of what was logged (the flushed parts of the repeat
/// counts) may differ.
pub proof fn law_flush_changes_only_the_log(
    ops: Seq<GraphOp>,
    run: Seq<CallGraph>,
    run_events: Seq<Seq<Notification>>,
    flushed_run: Seq<CallGraph>,
    flushed_run_events: Seq<Seq<Notification>>,
    flush_notifiable: bool,
    flush_events: Seq<Notification>,
)
    requires
        is_run(ops, run, run_events),
        is_run(ops, flushed_run, flushed_run_events),
        run[0].wf(),
        CallGraph::flush_post(run[0], flushed_run[0], flush_notifiable, flush_events),
    ensures
        stacks_alike(run.last().stack(), flushed_run.last().stack()),
{
    lemma_flush_stack(run[0], flushed_run[0], flush_notifiable, flush_events);
    lemma_runs_stay_alike(ops, run, run_events, flushed_run, flushed_run_events, ops.len() as int);
}

/// The notifications hold no `Flush`.
pub open spec fn tells_no_flush(s: Seq<Notification>) -> bool {
    forall|i: int| 0 <= i < s.len() ==> !(#[trigger] s[i] is Flush)
}

proof fn lemma_no_flush_concat(a: Seq<Notification>, b: Seq<Notification>)
    requires
        tells_no_flush(a),
        tells_no_flush(b),
    ensures
        tells_no_flush(a + b),
{
    assert forall|i: int| 0 <= i < (a + b).len() implies !(#[trigger] (a + b)[i] is Flush) by {
        if i < a.len() {
            assert((a + b)[i] == a[i]);
        } else {
            assert((a + b)[i] == b[i - a.len()]);
        }
    }
}

proof fn lemma_repeat_notices_no_flush(d: int, kind: ItemKind, rc: RepeatCount)
    ensures
        tells_no_flush(repeat_notices(d, kind, rc)),
{
}

proof fn lemma_tree_notices_no_flush(n: CallNode, d: int)
    ensures
        tells_no_flush(tree_notices(n, d)),
    decreases n, 1int,
{
    lemma_forest_notices_no_flush(n.children@, d + 1);
    let head = seq![crate::call_tree::start_notice(n, d)];
    assert(tells_no_flush(head));
    lemma_no_flush_concat(head, forest_notices(n.children@, d + 1));
    let tail = if n.has_ended {
        seq![crate::call_tree::end_notice(n, d)] + repeat_notices(d, n.kind, n.repeat_count)
    } else {
        Seq::empty()
    };
    if n.has_ended {
        lemma_repeat_notices_no_flush(d, n.kind, n.repeat_count);
        let e = seq![crate::call_tree::end_notice(n, d)];
        assert(tells_no_flush(e));
        lemma_no_flush_concat(e, repeat_notices(d, n.kind, n.repeat_count));
    }
    lemma_no_flush_concat(head + forest_notices(n.children@, d + 1), tail);
}

proof fn lemma_forest_notices_no_flush(s: Seq<CallNode>, d: int)
    ensures
        tells_no_flush(forest_notices(s, d)),
    decreases s, 0int,
{
    if s.len() > 0 {
        assert(s.last() == s[s.len() - 1]);
        lemma_forest_notices_no_flush(s.drop_last(), d);
        lemma_tree_notices_no_flush(s.last(), d);
        lemma_no_flush_concat(forest_notices(s.drop_last(), d), tree_notices(s.last(), d));
    }
}

proof fn lemma_spine_notices_no_flush(st: Seq<CallNode>, from: int)
    ensures
        tells_no_flush(spine_notices(st, from)),
    decreases st.len() - from,
{
    if 0 <= from < st.len() {
        lemma_spine_notices_no_flush(st, from + 1);
        lemma_forest_notices_no_flush(st[from].children@, from);
        let head = seq![crate::call_tree::start_notice(st[from], from - 1)];
        assert(tells_no_flush(head));
        lemma_no_flush_concat(head, forest_notices(st[from].children@, from));
        lemma_no_flush_concat(head + forest_notices(st[from].children@, from), spine_notices(st, from + 1));
    }
}

/// A flush stops caching, keeps the call depth, and tells `Flush` exactly once, as its last
/// notification, if asked to notify, and not at all otherwise.
pub proof fn law_flush_notifies_once(g0: CallGraph, g1: CallGraph, flush_notifiable: bool, events: Seq<Notification>)
    requires
        g0.wf(),
        CallGraph::flush_post(g0, g1, flush_notifiable, events),
    ensures
        !g1.caching(),
        g1.depth() == g0.depth(),
        flush_notifiable ==> {
            &&& events.len() > 0
            &&& events.last() == Notification::Flush
            &&& tells_no_flush(events.drop_last())
        },
        !flush_notifiable ==> tells_no_flush(events),
{
    law_flush_keeps_the_call_tree(g0, g1, flush_notifiable, events);
    let st = g0.stack();
    let d = g0.depth();
    let cd = g0.cached_depth();
    let core = if g0.caching() {
        if st[cd].children@.len() > 0 {
            CallGraph::last_child_repeat_notices(st, cd, cd) + spine_notices(st, cd + 1)
        } else {
            spine_notices(st, cd + 1)
        }
    } else if st[d].children@.len() > 0 {
        CallGraph::last_child_repeat_notices(st, d, d)
    } else {
        Seq::empty()
    };
    lemma_spine_notices_no_flush(st, cd + 1);
    lemma_repeat_notices_no_flush(cd, st[cd].children@.last().kind, st[cd].children@.last().repeat_count);
    lemma_repeat_notices_no_flush(d, st[d].children@.last().kind, st[d].children@.last().repeat_count);
    if g0.caching() && st[cd].children@.len() > 0 {
        lemma_no_flush_concat(CallGraph::last_child_repeat_notices(st, cd, cd), spine_notices(st, cd + 1));
    }
    assert(tells_no_flush(core));
    if flush_notifiable {
        assert(events == core + seq![Notification::Flush]);
        assert(events.drop_last() =~= core);
    } else {
        assert(events =~= core + Seq::<Notification>::empty());
    }
}

/// The end of a loop body is logged whenever its start was: if nothing is cached when it
/// ends (so its start was logged, at the latest by a flush), the notifications end with exactly
/// one loop body end, at the call depth of the loop body, and nothing else ends it; a loop body
/// without nested items tells only that end.
pub proof fn law_logged_loopbody_end_is_logged(s: CallGraph, t: CallGraph, events: Seq<Notification>)
    requires
        s.wf(),
        s.depth() >= 1,
        s.current().kind is Loopbody,
        !s.caching(),
        CallGraph::loopbody_end_post(s, t, events),
    ensures
        events.len() >= 1,
        events.last() == (Notification::LoopbodyEnd { call_depth: (s.depth() - 1) as usize }),
        forall|i: int| 0 <= i < events.len() - 1 ==> !(#[trigger] events[i] is LoopbodyEnd),
        s.current().children@.len() == 0 ==> events == seq![Notification::LoopbodyEnd { call_depth: (s.depth() - 1) as usize }],
{
    let d = s.depth();
    let cur = s.current();
    if cur.children@.len() > 0 {
        let r = repeat_notices(d, cur.children@.last().kind, cur.children@.last().repeat_count);
        let e = seq![Notification::LoopbodyEnd { call_depth: (d - 1) as usize }];
        assert(events =~= r + e) by {
            let parent = s.stack()[d - 1];
            if parent.children@.len() > 0 && crate::call_graph::continues_loop(parent.children@.last().kind)
                && trees_equal(cur, parent.children@.last(), false) {
                assert(events =~= r + e + Seq::<Notification>::empty());
            }
        }
        assert forall|i: int| 0 <= i < events.len() - 1 implies !(#[trigger] events[i] is LoopbodyEnd) by {
            assert(events[i] == r[i]);
        }
    }
}

/// A flush tells a pending repeat count at the call depth of the counted item: with nothing
/// cached, the running item's last nested item is counted at the running item's nesting depth
/// (the stack length minus one); with something cached, the item before the cached one is
/// counted at the depth of the cached item. Either count comes first.
pub proof fn law_flush_counts_at_the_counted_depth(s: CallGraph, t: CallGraph, flush_notifiable: bool, events: Seq<Notification>)
    requires
        s.wf(),
        CallGraph::flush_post(s, t, flush_notifiable, events),
    ensures
        ({
            let last = s.current().children@.last();
            !s.caching() && s.current().children@.len() > 0 && !last.repeat_count.non_flushed_is_empty_spec() ==> {
                &&& events.len() >= 1
                &&& events[0] == (Notification::Repeats {
                    call_depth: s.depth() as usize,
                    kind: last.kind,
                    count: last.repeat_count.non_flushed_spec(),
                })
            }
        }),
        ({
            let cd = s.cached_depth();
            let model = s.stack()[cd].children@.last();
            s.caching() && s.stack()[cd].children@.len() > 0 && !model.repeat_count.non_flushed_is_empty_spec() ==> {
                &&& events.len() >= 1
                &&& events[0] == (Notification::Repeats {
                    call_depth: cd as usize,
                    kind: model.kind,
                    count: model.repeat_count.non_flushed_spec(),
                })
            }
        }),
{
}

} // verus!
