use vstd::prelude::*;

use crate::call_tree::{
    CallNode, ItemKind, Notification, fits, flush_repeat_count, flush_tree, forest_fits,
    forest_flushed, forest_notices, lemma_flushed_fits, lemma_forest_fits_all, lemma_forest_fits_index,
    lemma_forest_flushed_fits, repeat_notices,
    start_notice, tree_flushed, tree_notices, end_notice, end_notification, trees_equal,
    trees_are_equal, lemma_forest_fits_push, lemma_fits_monotonic,
};
use crate::repeat_count::RepeatCount;

verus! {

/// What the call graph is caching (holding back from the log) at the moment.
#[derive(Clone, Copy, PartialEq, Eq, Debug, Structural)]
pub enum CachingMode {
    /// Nothing is cached: every change is logged as it happens.
    Inactive,
    /// An initial loop body (the first of its loop, or the first after the earlier ones turned
    /// out empty) is cached until its first nested call: if it ends up empty, it is removed
    /// without a trace.
    InitialLoopbody,
    /// An item that may repeat its previous sibling (the model) is cached: if it turns out equal
    /// to the model, it is removed and the model's repeat count grows.
    Repetition,
}

/// The call graph of a thread: the tree of its calls and loop bodies, with repeat counts,
/// together with the position of the running item and what is being cached.
///
/// A pseudonode is always the root; the calls of the thread are its children, at call depth 0.
/// The items from the root down to the running item form the call stack. The stack is held
/// here as a sequence of nodes: each node on it holds its finished nested items, while the
/// item running inside it is the next node on the stack (it becomes the last nested item of
/// that node when it returns or ends). An item on the stack at level `l` is logged at call
/// depth `l - 1`.
pub struct CallGraph {
    stack: Vec<CallNode>,
    caching_mode: CachingMode,
    caching_depth: usize,
    /// Tells that the log was flushed (and may have been interrupted, e.g. by another thread's
    /// output) since the running item's last nested item: the next nested item is shown in full.
    log_interrupted: bool,
    /// Tells that the log was interrupted right before the loop body whose start began the
    /// caching: if it is cached as a repetition, it is shown in full when it ends; if it ends
    /// without nested items, the interruption still holds for the next item.
    show_in_full: bool,
}

/// The item kind of the pseudonode at the root.
pub open spec fn is_pseudo_kind(k: ItemKind) -> bool {
    k matches ItemKind::Call { name, param_vals } && name@ == Seq::<char>::empty() && param_vals is None
}

/// `b` is `a` with `has_ended` set.
pub open spec fn as_ended(a: CallNode) -> CallNode {
    CallNode { has_ended: true, ..a }
}

/// `b` is `a` with the returned value replaced.
pub open spec fn with_ret_val(a: CallNode, ret_val: Option<String>) -> CallNode {
    CallNode { ret_val, ..a }
}

/// `b` is `a` with the repeat count replaced.
pub open spec fn with_repeat_count(a: CallNode, rc: RepeatCount) -> CallNode {
    CallNode { repeat_count: rc, ..a }
}

/// `b` and `a` differ at most in their nested items.
pub open spec fn same_but_children(a: CallNode, b: CallNode) -> bool {
    &&& b.kind == a.kind
    &&& b.ret_val == a.ret_val
    &&& b.repeat_count == a.repeat_count
    &&& b.has_ended == a.has_ended
}

/// `b` is `a` with `child` appended to its nested items.
pub open spec fn with_child(a: CallNode, b: CallNode, child: CallNode) -> bool {
    &&& same_but_children(a, b)
    &&& b.children@ == a.children@.push(child)
}

/// `b` is `a` whose last nested item `c` is replaced by `with_repeat_count(c, rc)`.
pub open spec fn with_last_child_repeat_count(a: CallNode, b: CallNode, rc: RepeatCount) -> bool {
    &&& same_but_children(a, b)
    &&& a.children@.len() > 0
    &&& b.children@ == a.children@.update(
        a.children@.len() - 1,
        with_repeat_count(a.children@.last(), rc),
    )
}

/// `b` is `a` after all of `a`'s finished nested items were logged.
pub open spec fn children_flushed(a: CallNode, b: CallNode) -> bool {
    &&& same_but_children(a, b)
    &&& forest_flushed(a.children@, b.children@)
}

/// The stack `b` is `a` after logging the part of the tree from level `from` down: the nodes
/// above `from` are unchanged, and the finished nested items of the nodes from `from` down are
/// logged.
pub open spec fn spine_flushed(a: Seq<CallNode>, b: Seq<CallNode>, from: int) -> bool {
    &&& b.len() == a.len()
    &&& b.take(from) == a.take(from)
    &&& forall|l: int| from <= l < a.len() ==> children_flushed(#[trigger] a[l], b[l])
}

/// What logging the part of the tree from stack level `from` down tells: for each level in
/// turn, the start of its item (at call depth `level - 1`) and its finished nested items.
/// Nothing on the stack has ended, so no end follows.
pub open spec fn spine_notices(st: Seq<CallNode>, from: int) -> Seq<Notification>
    decreases st.len() - from,
{
    if from < 0 || from >= st.len() {
        Seq::empty()
    } else {
        seq![start_notice(st[from], from - 1)] + forest_notices(st[from].children@, from)
            + spine_notices(st, from + 1)
    }
}

/// Every finished nested item of the node has ended.
pub open spec fn children_ended(n: CallNode) -> bool {
    forall|i: int| 0 <= i < n.children@.len() ==> (#[trigger] n.children@[i]).has_ended
}

/// The item is a call with the given name.
pub open spec fn is_call_named(k: ItemKind, name: Seq<char>) -> bool {
    k matches ItemKind::Call { name: n, .. } && n@ == name
}

/// The fresh node that a call adds.
pub open spec fn is_new_call(n: CallNode, name: Seq<char>, param_vals: Option<String>) -> bool {
    &&& n.kind matches ItemKind::Call { name: n_name, param_vals: n_params } && n_name@ == name && n_params == param_vals
    &&& n.is_fresh()
}

/// The fresh node that a loop body start adds.
pub open spec fn is_new_loopbody(n: CallNode) -> bool {
    &&& n.kind == (ItemKind::Loopbody { ends_the_loop: false })
    &&& n.is_fresh()
}

/// The previous item is the last loop body of the loop that is still running, so a loop body
/// after it is another iteration of the same loop.
pub open spec fn continues_loop(k: ItemKind) -> bool {
    k == (ItemKind::Loopbody { ends_the_loop: false })
}

/// Logs the repeat count of the node's last nested item at call depth `d`, if there is
/// anything to tell, and marks it as flushed.
fn flush_last_child_repeat_count_of(node: &mut CallNode, d: usize, out: &mut Vec<Notification>)
    requires
        old(node).children@.len() > 0,
    ensures
        with_last_child_repeat_count(*old(node), *final(node), old(node).children@.last().repeat_count.marked()),
        final(out)@ == old(out)@ + repeat_notices(
            d as int,
            old(node).children@.last().kind,
            old(node).children@.last().repeat_count,
        ),
{
    let last = node.children.len() - 1;
    let kind = node.children[last].kind.duplicate();
    flush_repeat_count(&mut node.children[last].repeat_count, &kind, d, out);
    proof {
        assert(node.children@ =~= old(node).children@.update(
            last as int,
            with_repeat_count(old(node).children@.last(), old(node).children@.last().repeat_count.marked()),
        ));
    }
}

/// The notification of an item's start at depth `d`.
fn start_notification_at(n: &CallNode, d: usize) -> (r: Notification)
    ensures
        r == start_notice(*n, d as int),
{
    match &n.kind {
        ItemKind::Call { name, param_vals } => Notification::Call {
            call_depth: d,
            name: name.clone(),
            param_vals: crate::call_tree::copy_text(param_vals),
        },
        ItemKind::Loopbody { .. } => Notification::LoopbodyStart { call_depth: d },
    }
}

impl CallGraph {
    /// The call stack, from the pseudonode down to the running item.
    pub closed spec fn stack(self) -> Seq<CallNode> {
        self.stack@
    }

    /// What is being cached.
    pub closed spec fn mode(self) -> CachingMode {
        self.caching_mode
    }

    /// The stack level of the parent of the item being cached (the call depth of that item).
    /// Kept after caching stops.
    pub closed spec fn cached_depth(self) -> int {
        self.caching_depth as int
    }

    /// Whether the log was flushed since the running item's last nested item.
    pub closed spec fn interrupted(self) -> bool {
        self.log_interrupted
    }

    /// Whether the log was interrupted right before the loop body whose start began the
    /// caching (so that, if cached as a repetition, it is shown in full when it ends).
    pub closed spec fn in_full(self) -> bool {
        self.show_in_full
    }

    /// The call depth for the nested items of the running item: the stack length minus one.
    pub open spec fn depth(self) -> int {
        self.stack().len() - 1
    }

    /// The running item: the last node on the stack.
    pub open spec fn current(self) -> CallNode {
        self.stack().last()
    }

    /// Whether anything is being cached.
    pub open spec fn caching(self) -> bool {
        self.mode() != CachingMode::Inactive
    }

    /// The graph's invariant.
    pub open spec fn wf(self) -> bool {
        let st = self.stack();
        let cd = self.cached_depth();
        &&& 1 <= st.len() < usize::MAX
        &&& 0 <= cd
        &&& forall|l: int| 0 <= l < st.len() ==> fits(#[trigger] st[l], usize::MAX - l)
        &&& forall|l: int| 0 <= l < st.len() ==> children_ended(#[trigger] st[l])
        &&& self.caching() ==> cd + 1 < st.len()
        &&& self.mode() == CachingMode::InitialLoopbody ==> forall|l: int|
            cd + 1 <= l < st.len() ==> (#[trigger] st[l]).kind is Loopbody && st[l].children@.len() == 0
        &&& self.mode() == CachingMode::Repetition ==> {
            &&& st[cd].children@.len() > 0
            &&& st[cd + 1].kind is Loopbody ==> continues_loop(st[cd].children@.last().kind)
        }
        &&& self.interrupted() ==> self.mode() == CachingMode::Inactive
        &&& self.in_full() ==> self.caching()
    }

    /// After an item is added or ends: the log is no longer taken as interrupted, and the
    /// interruption kept with a cached loop body stays only while something is still cached.
    pub open spec fn flags_after_item(s: Self, t: Self) -> bool {
        &&& !t.interrupted()
        &&& t.in_full() == (s.in_full() && t.caching())
    }

    /// Room for one more level on the call stack.
    pub open spec fn has_room(self) -> bool {
        self.stack().len() + 1 < usize::MAX
    }

    /// Creates a call graph holding only the pseudonode, caching nothing.
    pub fn new() -> (g: Self)
        ensures
            g.wf(),
            g.stack().len() == 1,
            is_pseudo_kind(g.stack()[0].kind),
            g.stack()[0].is_fresh(),
            g.mode() == CachingMode::Inactive,
            g.cached_depth() == 0,
            !g.interrupted(),
            !g.in_full(),
    {
        let pseudo = CallNode::new(ItemKind::Call { name: String::new(), param_vals: None });
        let mut stack = Vec::new();
        stack.push(pseudo);
        let g = CallGraph {
            stack,
            caching_mode: CachingMode::Inactive,
            caching_depth: 0,
            log_interrupted: false,
            show_in_full: false,
        };
        assert(fits(g.stack@[0], usize::MAX as int));
        g
    }

    /// Returns the length of the call stack minus one: the call depth of the running item's
    /// nested items. `0` when only the pseudonode is on the stack.
    pub fn call_depth(&self) -> (d: usize)
        requires
            self.wf(),
        ensures
            d == self.depth(),
    {
        self.stack.len() - 1
    }

    /// Tells if there is room for one more level on the call stack.
    pub fn has_room_for_item(&self) -> (b: bool)
        ensures
            b == self.has_room(),
    {
        self.stack.len() < usize::MAX - 1
    }

    /// Tells if caching is active.
    pub fn caching_is_active(&self) -> (b: bool)
        ensures
            b == self.caching(),
    {
        self.caching_mode != CachingMode::Inactive
    }

    /// Tells if the running item is a call (a function or a closure), as opposed to a loop body.
    pub fn current_is_call(&self) -> (b: bool)
        requires
            self.wf(),
        ensures
            b == (self.current().kind is Call),
    {
        self.stack[self.stack.len() - 1].kind.is_call()
    }

    /// Tells if the running item is a loop body.
    pub fn current_is_loopbody(&self) -> (b: bool)
        requires
            self.wf(),
        ensures
            b == (self.current().kind is Loopbody),
    {
        self.stack[self.stack.len() - 1].kind.is_loopbody()
    }


    /// Logs the repeat count of the last nested item of the node at stack level `level`,
    /// at call depth `d`, if there is anything to tell, and marks it as flushed.
    fn flush_last_child_repeat_count(&mut self, level: usize, d: usize, out: &mut Vec<Notification>)
        requires
            old(self).wf(),
            level < old(self).stack().len(),
            old(self).stack()[level as int].children@.len() > 0,
        ensures
            final(self).stack().len() == old(self).stack().len(),
            final(self).stack() == old(self).stack().update(level as int, final(self).stack()[level as int]),
            with_last_child_repeat_count(
                old(self).stack()[level as int],
                final(self).stack()[level as int],
                old(self).stack()[level as int].children@.last().repeat_count.marked(),
            ),
            final(self).mode() == old(self).mode(),
            final(self).cached_depth() == old(self).cached_depth(),
            final(self).interrupted() == old(self).interrupted(),
            final(self).in_full() == old(self).in_full(),
            final(out)@ == old(out)@ + repeat_notices(
                d as int,
                old(self).stack()[level as int].children@.last().kind,
                old(self).stack()[level as int].children@.last().repeat_count,
            ),
    {
        flush_last_child_repeat_count_of(&mut self.stack[level], d, out);
    }

    /// Logs the part of the tree from stack level `from` down (see `spine_notices`) and marks
    /// the repeat counts of the finished items there as flushed.
    fn flush_spine(&mut self, from: usize, out: &mut Vec<Notification>)
        requires
            old(self).wf(),
            1 <= from <= old(self).stack().len(),
        ensures
            spine_flushed(old(self).stack(), final(self).stack(), from as int),
            final(self).mode() == old(self).mode(),
            final(self).cached_depth() == old(self).cached_depth(),
            final(self).interrupted() == old(self).interrupted(),
            final(self).in_full() == old(self).in_full(),
            final(out)@ == old(out)@ + spine_notices(old(self).stack(), from as int),
    {
        let ghost st0 = self.stack@;
        let ghost out0 = out@;
        let mut l = from;
        while l < self.stack.len()
            invariant
                1 <= from <= l <= self.stack@.len(),
                self.stack@.len() == st0.len(),
                st0 == old(self).stack@,
                old(self).wf(),
                self.caching_mode == old(self).caching_mode,
                self.caching_depth == old(self).caching_depth,
                self.log_interrupted == old(self).log_interrupted,
                self.show_in_full == old(self).show_in_full,
                self.stack@.take(from as int) == st0.take(from as int),
                forall|k: int| from <= k < l ==> children_flushed(#[trigger] st0[k], self.stack@[k]),
                forall|k: int| l <= k < st0.len() ==> self.stack@[k] == st0[k],
                out0 + spine_notices(st0, from as int) == out@ + spine_notices(st0, l as int),
            decreases st0.len() - l,
        {
            let ghost out_l = out@;
            let ghost node0 = st0[l as int];
            out.push(start_notification_at(&self.stack[l], l - 1));
            let mut i: usize = 0;
            while i < self.stack[l].children.len()
                invariant
                    1 <= from <= l < self.stack@.len(),
                    i <= self.stack@[l as int].children@.len(),
                    self.stack@.len() == st0.len(),
                    st0 == old(self).stack@,
                    old(self).wf(),
                    node0 == st0[l as int],
                    self.caching_mode == old(self).caching_mode,
                    self.caching_depth == old(self).caching_depth,
                    self.log_interrupted == old(self).log_interrupted,
                    self.show_in_full == old(self).show_in_full,
                    self.stack@.take(from as int) == st0.take(from as int),
                    forall|k: int| from <= k < l ==> children_flushed(#[trigger] st0[k], self.stack@[k]),
                    forall|k: int| l < k < st0.len() ==> self.stack@[k] == st0[k],
                    same_but_children(node0, self.stack@[l as int]),
                    self.stack@[l as int].children@.len() == node0.children@.len(),
                    forest_flushed(node0.children@.take(i as int), self.stack@[l as int].children@.take(i as int)),
                    forall|j: int| i <= j < node0.children@.len() ==> self.stack@[l as int].children@[j] == node0.children@[j],
                    out@ == out_l + seq![start_notice(node0, l - 1)] + forest_notices(node0.children@.take(i as int), l as int),
                decreases node0.children@.len() - i,
            {
                proof {
                    assert(fits(node0, usize::MAX - l));
                    lemma_forest_fits_index(node0.children@, usize::MAX - l - 1, i as int);
                    crate::call_tree::lemma_fits_monotonic(node0.children@[i as int], usize::MAX - l - 1, usize::MAX - l);
                }
                let ghost before = self.stack@[l as int].children@;
                flush_tree(&mut self.stack[l].children[i], l, out);
                proof {
                    assert(node0.children@.take(i + 1).drop_last() =~= node0.children@.take(i as int));
                    assert(self.stack@[l as int].children@.take(i + 1).drop_last() =~= before.take(i as int));
                    assert(self.stack@[l as int].children@.take(i as int) =~= before.take(i as int));
                }
                i = i + 1;
            }
            proof {
                assert(node0.children@.take(i as int) =~= node0.children@);
                assert(self.stack@[l as int].children@.take(i as int) =~= self.stack@[l as int].children@);
                assert(spine_notices(st0, l as int) == seq![start_notice(node0, l - 1)]
                    + forest_notices(node0.children@, l as int) + spine_notices(st0, l + 1));
            }
            l = l + 1;
        }
    }


    /// The stack after the repeat count of the last nested item of the node at `level` is
    /// flushed, with everything else unchanged.
    pub open spec fn last_child_flushed(a: Seq<CallNode>, b: Seq<CallNode>, level: int) -> bool {
        &&& a[level].children@.len() > 0
        &&& b.len() == a.len()
        &&& b == a.update(level, b[level])
        &&& with_last_child_repeat_count(a[level], b[level], a[level].children@.last().repeat_count.marked())
    }

    /// The notification of the repeat count of the last nested item of the node at `level`,
    /// at call depth `d`.
    pub open spec fn last_child_repeat_notices(a: Seq<CallNode>, level: int, d: int) -> Seq<Notification> {
        repeat_notices(d, a[level].children@.last().kind, a[level].children@.last().repeat_count)
    }

    /// What `flush` does.
    pub open spec fn flush_post(s: Self, t: Self, flush_notifiable: bool, events: Seq<Notification>) -> bool {
        let st = s.stack();
        let tt = t.stack();
        let cd = s.cached_depth();
        let d = s.depth();
        let tail = if flush_notifiable { seq![Notification::Flush] } else { Seq::empty() };
        &&& t.mode() == CachingMode::Inactive
        &&& t.cached_depth() == cd
        &&& t.interrupted() == (s.interrupted() || flush_notifiable)
        &&& !t.in_full()
        &&& if s.caching() {
            if st[cd].children@.len() > 0 {
                &&& Self::last_child_flushed(st, st.update(cd, tt[cd]), cd)
                &&& spine_flushed(st.update(cd, tt[cd]), tt, cd + 1)
                &&& events == Self::last_child_repeat_notices(st, cd, cd) + spine_notices(st, cd + 1) + tail
            } else {
                &&& spine_flushed(st, tt, cd + 1)
                &&& events == spine_notices(st, cd + 1) + tail
            }
        } else {
            if st[d].children@.len() > 0 {
                &&& Self::last_child_flushed(st, tt, d)
                &&& events == Self::last_child_repeat_notices(st, d, d) + tail
            } else {
                &&& tt == st
                &&& events == tail
            }
        }
    }

    proof fn lemma_last_child_flushed_wf(s: Self, t: Self, level: int)
        requires
            s.wf(),
            0 <= level < s.stack().len(),
            Self::last_child_flushed(s.stack(), t.stack(), level),
            t.mode() == s.mode(),
            t.cached_depth() == s.cached_depth(),
            t.interrupted() == s.interrupted(),
            t.in_full() == s.in_full(),
        ensures
            t.wf(),
    {
        let a = s.stack();
        let b = t.stack();
        let h = usize::MAX - level - 1;
        assert(fits(a[level], usize::MAX - level));
        lemma_forest_fits_all(a[level].children@, h);
        lemma_forest_fits_all(b[level].children@, h);
        let k = a[level].children@.len() - 1;
        assert(fits(a[level].children@[k], h));
        assert(b[level].children@[k].children@ == a[level].children@[k].children@);
        assert forall|i: int| 0 <= i < b[level].children@.len() implies fits(#[trigger] b[level].children@[i], h) by {
            if i != k {
                assert(b[level].children@[i] == a[level].children@[i]);
            }
        }
        assert forall|l: int| 0 <= l < b.len() implies fits(#[trigger] b[l], usize::MAX - l) by {
            if l != level {
                assert(b[l] == a[l]);
            }
        }
        if s.mode() == CachingMode::Repetition {
            let cd = s.cached_depth();
            assert(b[cd].children@.len() == a[cd].children@.len());
            if cd == level {
                assert(b[cd].children@.last().kind == a[cd].children@.last().kind);
            }
        }
        if s.mode() == CachingMode::InitialLoopbody {
            let cd = s.cached_depth();
            assert forall|l: int| cd + 1 <= l < b.len() implies (#[trigger] b[l]).kind is Loopbody && b[l].children@.len() == 0 by {
                assert(a[l].kind is Loopbody && a[l].children@.len() == 0);
            }
        }
    }

    proof fn lemma_spine_flushed_wf(s: Self, t: Self, from: int)
        requires
            s.wf(),
            1 <= from <= s.stack().len(),
            spine_flushed(s.stack(), t.stack(), from),
            t.mode() == CachingMode::Inactive,
            !t.in_full(),
        ensures
            t.wf(),
    {
        let a = s.stack();
        let b = t.stack();
        assert forall|l: int| 0 <= l < b.len() implies fits(#[trigger] b[l], usize::MAX - l) by {
            if l < from {
                assert(b.take(from)[l] == a.take(from)[l]);
            } else {
                assert(children_flushed(a[l], b[l]));
                assert(fits(a[l], usize::MAX - l));
                lemma_forest_flushed_fits(a[l].children@, b[l].children@, usize::MAX - l - 1);
            }
        }
        assert forall|l: int| 0 <= l < b.len() implies children_ended(#[trigger] b[l]) by {
            if l < from {
                assert(b.take(from)[l] == a.take(from)[l]);
            } else {
                assert(children_ended(a[l]));
                assert forall|i: int| 0 <= i < b[l].children@.len() implies (#[trigger] b[l].children@[i]).has_ended by {
                    crate::call_tree::lemma_forest_flushed_index(a[l].children@, b[l].children@, i);
                    assert(a[l].children@[i].has_ended);
                }
            }
        }
    }

    /// The notifications of the spine from `from` down depend only on the levels from `from` down.
    proof fn lemma_spine_notices_frame(a: Seq<CallNode>, b: Seq<CallNode>, from: int)
        requires
            a.len() == b.len(),
            forall|l: int| from <= l < a.len() ==> (#[trigger] a[l]).kind == b[l].kind && a[l].children@ == b[l].children@,
        ensures
            spine_notices(a, from) == spine_notices(b, from),
        decreases a.len() - from,
    {
        if 0 <= from < a.len() {
            Self::lemma_spine_notices_frame(a, b, from + 1);
        }
    }

    /// Logs what is cached, stops caching, and, if `flush_notifiable` tells so, tells the
    /// receiver of the notifications to write out what it holds back.
    fn flush_into(&mut self, flush_notifiable: bool, out: &mut Vec<Notification>)
        requires
            old(self).wf(),
        ensures
            final(self).wf(),
            Self::flush_post(*old(self), *final(self), flush_notifiable, final(out)@.skip(old(out)@.len() as int)),
            final(out)@.take(old(out)@.len() as int) == old(out)@,
    {
        let ghost out0 = out@;
        let cd = self.caching_depth;
        let d = self.stack.len() - 1;
        let mode = self.caching_mode;
        self.caching_mode = CachingMode::Inactive;
        self.show_in_full = false;
        self.log_interrupted = self.log_interrupted || flush_notifiable;
        let ghost s0 = *self;
        let ghost core: Seq<Notification>;
        if mode != CachingMode::Inactive && self.stack[cd].children.len() > 0 {
            self.flush_last_child_repeat_count(cd, cd, out);
            let ghost s1 = *self;
            proof { Self::lemma_last_child_flushed_wf(s0, s1, cd as int); }
            self.flush_spine(cd + 1, out);
            proof {
                Self::lemma_spine_notices_frame(s0.stack(), s1.stack(), cd as int + 1);
                Self::lemma_spine_flushed_wf(s1, *self, cd + 1);
                assert(self.stack().take(cd + 1)[cd as int] == s1.stack().take(cd + 1)[cd as int]);
                assert(s1.stack() =~= s0.stack().update(cd as int, self.stack()[cd as int]));
                core = Self::last_child_repeat_notices(s0.stack(), cd as int, cd as int) + spine_notices(s0.stack(), cd + 1);
                assert(out@ == out0 + core);
            }
        } else if mode != CachingMode::Inactive {
            self.flush_spine(cd + 1, out);
            proof {
                Self::lemma_spine_flushed_wf(s0, *self, cd + 1);
                core = spine_notices(s0.stack(), cd + 1);
            }
        } else {
            if self.stack[d].children.len() > 0 {
                self.flush_last_child_repeat_count(d, d, out);
                proof {
                    Self::lemma_last_child_flushed_wf(s0, *self, d as int);
                    core = Self::last_child_repeat_notices(s0.stack(), d as int, d as int);
                }
            } else {
                proof { core = Seq::empty(); }
            }
        }
        assert(out@ == out0 + core);
        if flush_notifiable {
            out.push(Notification::Flush);
        }
        proof {
            let tail = if flush_notifiable { seq![Notification::Flush] } else { Seq::<Notification>::empty() };
            assert(out@ =~= out0 + (core + tail));
            assert(out@.take(out0.len() as int) =~= out0);
            assert(out@.skip(out0.len() as int) =~= core + tail);
        }
    }

    /// Logs what the graph caches and stops caching. A flush happens upon a thread switch
    /// and before the instrumented code's own output (or panic report) is written, so that
    /// the log shows everything up to that moment.
    /// * If something is being cached: the repeat count of the item before the cached one (the
    ///   model, if a repetition is cached), if there is anything to tell, and the cached part
    ///   of the tree.
    /// * Otherwise: the repeat count of the running item's last nested item, if there is
    ///   anything to tell, at that item's call depth (the stack length minus one).
    ///
    /// Then, if `flush_notifiable` is `true`, a `Flush` notification (for instance, a pending
    /// line end after `f() {` must be written before another thread logs). Such a flush
    /// interrupts the log: whatever else is written there may come between the flushed part
    /// and the next item under the running item, so that item is shown in full rather than
    /// only counted as a repeat of its previous sibling.
    pub fn flush(&mut self, flush_notifiable: bool) -> (events: Vec<Notification>)
        requires
            old(self).wf(),
        ensures
            final(self).wf(),
            Self::flush_post(*old(self), *final(self), flush_notifiable, events@),
    {
        let mut out = Vec::new();
        self.flush_into(flush_notifiable, &mut out);
        proof { assert(out@.skip(0) =~= out@); }
        out
    }


    /// Pushes a fresh node on the stack: it becomes the running item.
    fn push_node(&mut self, node: CallNode)
        requires
            old(self).wf(),
            old(self).has_room(),
            node.is_fresh(),
            old(self).mode() == CachingMode::InitialLoopbody ==> node.kind is Loopbody,
        ensures
            final(self).wf(),
            final(self).stack() == old(self).stack().push(node),
            final(self).mode() == old(self).mode(),
            final(self).cached_depth() == old(self).cached_depth(),
            final(self).interrupted() == old(self).interrupted(),
            final(self).in_full() == old(self).in_full(),
    {
        self.stack.push(node);
        proof {
            let st = self.stack@;
            assert forall|l: int| 0 <= l < st.len() implies fits(#[trigger] st[l], usize::MAX - l) by {
                if l < st.len() - 1 {
                    assert(st[l] == old(self).stack@[l]);
                }
            }
            if self.caching_mode == CachingMode::Repetition {
                assert(st[self.caching_depth as int] == old(self).stack@[self.caching_depth as int]);
                assert(st[self.caching_depth + 1] == old(self).stack@[self.caching_depth + 1]);
            }
            if self.caching_mode == CachingMode::InitialLoopbody {
                let cd = self.caching_depth as int;
                assert forall|l: int| cd + 1 <= l < st.len() implies (#[trigger] st[l]).kind is Loopbody && st[l].children@.len() == 0 by {
                    if l < st.len() - 1 {
                        assert(st[l] == old(self).stack@[l]);
                    }
                }
            }
        }
    }

    /// What `add_call` does.
    pub open spec fn call_post(s: Self, t: Self, name: Seq<char>, param_vals: Option<String>, events: Seq<Notification>) -> bool {
        let st = s.stack();
        let tt = t.stack();
        let d = s.depth();
        let cd = s.cached_depth();
        let cur = s.current();
        let new = tt.last();
        let same_name = cur.children@.len() > 0 && is_call_named(cur.children@.last().kind, name);
        &&& tt.len() == st.len() + 1
        &&& is_new_call(new, name, param_vals)
        &&& Self::flags_after_item(s, t)
        &&& match s.mode() {
            CachingMode::Inactive => if same_name && !s.interrupted() {
                &&& tt.drop_last() == st
                &&& t.mode() == CachingMode::Repetition
                &&& t.cached_depth() == d
                &&& events == Seq::<Notification>::empty()
            } else {
                &&& t.mode() == CachingMode::Inactive
                &&& t.cached_depth() == cd
                &&& if cur.children@.len() > 0 {
                    &&& Self::last_child_flushed(st, tt.drop_last(), d)
                    &&& events == Self::last_child_repeat_notices(st, d, d) + seq![start_notice(new, d)]
                } else {
                    &&& tt.drop_last() == st
                    &&& events == seq![start_notice(new, d)]
                }
            },
            CachingMode::Repetition => {
                &&& tt.drop_last() == st
                &&& t.mode() == CachingMode::Repetition
                &&& t.cached_depth() == cd
                &&& events == Seq::<Notification>::empty()
            },
            CachingMode::InitialLoopbody => {
                let flushed = tt.drop_last();
                &&& t.mode() == CachingMode::Inactive
                &&& t.cached_depth() == cd
                &&& if st[cd].children@.len() > 0 {
                    &&& Self::last_child_flushed(st, st.update(cd, flushed[cd]), cd)
                    &&& spine_flushed(st.update(cd, flushed[cd]), flushed, cd + 1)
                    &&& events == Self::last_child_repeat_notices(st, cd, cd) + spine_notices(st, cd + 1)
                        + seq![start_notice(new, d)]
                } else {
                    &&& spine_flushed(st, flushed, cd + 1)
                    &&& events == spine_notices(st, cd + 1) + seq![start_notice(new, d)]
                }
            },
        }
    }

    /// Adds a call (a function or a closure) as a nested item of the running item; the call
    /// becomes the running item.
    /// * If nothing is being cached and the previous item at this level is a call with the
    ///   same name, the new call starts being cached as a possible repetition of it, unless
    ///   the log was interrupted by a notifying flush since that item: then whatever came
    ///   into the log after the flush must be followed by the call itself, so it is logged
    ///   in full (as the `loopbody_after_call` scenario in tests/graph_scenarios.rs shows:
    ///   after a flush, a second top-level call of the same function is logged from its
    ///   start). It still folds into the previous item when it returns, if it is equal.
    /// * Else, if nothing is being cached, the previous item's repeat count (if there is
    ///   anything to tell) and then the call are logged.
    /// * If an initial loop body is being cached, the call ends that caching: the repeat
    ///   count of the item before that loop body (if there is anything to tell), the cached
    ///   loop bodies and the call are logged.
    /// * If a repetition is being cached, the call is cached with it.
    pub fn add_call(&mut self, call_name: &str, param_vals: Option<String>) -> (events: Vec<Notification>)
        requires
            old(self).wf(),
            old(self).has_room(),
        ensures
            final(self).wf(),
            Self::call_post(*old(self), *final(self), call_name@, param_vals, events@),
    {
        let d = self.stack.len() - 1;
        let mut out = Vec::new();
        let new_name = String::from_str(call_name);
        let node = CallNode::new(ItemKind::Call { name: new_name.clone(), param_vals });
        let interrupted = self.log_interrupted;
        self.log_interrupted = false;
        match self.caching_mode {
            CachingMode::Inactive => {
                let parent_len = self.stack[d].children.len();
                let same_name = if parent_len > 0 {
                    match &self.stack[d].children[parent_len - 1].kind {
                        ItemKind::Call { name, .. } => name.eq(&new_name),
                        ItemKind::Loopbody { .. } => false,
                    }
                } else {
                    false
                };
                if same_name && !interrupted {
                    self.push_node(node);
                    self.caching_mode = CachingMode::Repetition;
                    self.caching_depth = d;
                    proof {
                        assert(self.stack@[d as int] == old(self).stack@[d as int]);
                        assert(self.stack@[d + 1].kind is Call);
                        assert(self.stack@.drop_last() =~= old(self).stack@);
                        assert(Self::call_post(*old(self), *self, call_name@, param_vals, out@));
                    }
                } else {
                    let ghost s0 = *self;
                    if parent_len > 0 {
                        self.flush_last_child_repeat_count(d, d, &mut out);
                        proof { Self::lemma_last_child_flushed_wf(s0, *self, d as int); }
                    }
                    out.push(start_notification_at(&node, d));
                    let ghost s1 = *self;
                    self.push_node(node);
                    proof {
                        assert(self.stack@.drop_last() =~= s1.stack@);
                        let st = old(self).stack();
                        let cur = old(self).current();
                        assert(!(cur.children@.len() > 0 && is_call_named(cur.children@.last().kind, call_name@) && !interrupted));
                        if parent_len > 0 {
                            assert(Self::last_child_flushed(st, self.stack().drop_last(), d as int));
                            assert(out@ == Self::last_child_repeat_notices(st, d as int, d as int) + seq![start_notice(self.current(), d as int)]);
                        } else {
                            assert(self.stack().drop_last() == st);
                            assert(out@ == seq![start_notice(self.current(), d as int)]);
                        }
                        assert(Self::call_post(*old(self), *self, call_name@, param_vals, out@));
                    }
                }
            },
            CachingMode::Repetition => {
                self.push_node(node);
                proof {
                    assert(self.stack@.drop_last() =~= old(self).stack@);
                    assert(Self::call_post(*old(self), *self, call_name@, param_vals, out@));
                }
            },
            CachingMode::InitialLoopbody => {
                let ghost s0 = *self;
                self.flush_into(false, &mut out);
                let ghost s1 = *self;
                let ghost flush_events = out@;
                out.push(start_notification_at(&node, d));
                self.push_node(node);
                proof {
                    assert(flush_events.skip(0) =~= flush_events);
                    assert(Self::flush_post(s0, s1, false, flush_events));
                    assert(self.stack@.drop_last() =~= s1.stack@);
                    assert(Self::call_post(*old(self), *self, call_name@, param_vals, out@));
                }
            },
        }
        proof {
            assert(out@ =~= Seq::<Notification>::empty() + out@);
        }
        out
    }


    /// Changing the repeat count of the last nested item keeps the subtree's depth.
    proof fn lemma_fits_last_child_rc(a: CallNode, b: CallNode, rc: RepeatCount, h: int)
        requires
            a.children@.len() > 0,
            b.children@ == a.children@.update(a.children@.len() - 1, with_repeat_count(a.children@.last(), rc)),
            fits(a, h),
        ensures
            fits(b, h),
    {
        let k = a.children@.len() - 1;
        lemma_forest_fits_all(a.children@, h - 1);
        lemma_forest_fits_all(b.children@, h - 1);
        assert(fits(a.children@[k], h - 1));
        assert(b.children@[k].children@ == a.children@[k].children@);
        assert forall|i: int| 0 <= i < b.children@.len() implies fits(#[trigger] b.children@[i], h - 1) by {
            if i != k {
                assert(b.children@[i] == a.children@[i]);
            }
        }
    }


    /// After a return or a loop body end, the graph is well formed again, provided the new
    /// running item keeps its kind and its depth bound and caching is consistent.
    proof fn lemma_return_wf(s: Self, t: Self)
        requires
            s.wf(),
            s.depth() >= 1,
            t.stack().len() == s.stack().len() - 1,
            t.stack().take(s.depth() - 1) == s.stack().take(s.depth() - 1),
            t.stack()[s.depth() - 1].kind == s.stack()[s.depth() - 1].kind,
            t.mode() == CachingMode::InitialLoopbody ==> t.stack()[s.depth() - 1].children@.len() == 0,
            fits(t.stack()[s.depth() - 1], usize::MAX - (s.depth() - 1)),
            children_ended(t.stack()[s.depth() - 1]),
            t.cached_depth() == s.cached_depth(),
            t.mode() == s.mode() || t.mode() == CachingMode::Inactive,
            t.caching() ==> s.cached_depth() + 1 < s.depth(),
            t.interrupted() ==> t.mode() == CachingMode::Inactive,
            t.in_full() ==> t.caching(),
        ensures
            t.wf(),
    {
        let a = s.stack();
        let b = t.stack();
        let p = s.depth() - 1;
        assert forall|l: int| 0 <= l < b.len() implies fits(#[trigger] b[l], usize::MAX - l) by {
            if l < p {
                assert(b.take(p)[l] == a.take(p)[l]);
            }
        }
        assert forall|l: int| 0 <= l < b.len() implies children_ended(#[trigger] b[l]) by {
            if l < p {
                assert(b.take(p)[l] == a.take(p)[l]);
            }
        }
        if t.mode() == CachingMode::Repetition {
            let cd = s.cached_depth();
            assert(b.take(p)[cd] == a.take(p)[cd]);
            if cd + 1 < p {
                assert(b.take(p)[cd + 1] == a.take(p)[cd + 1]);
            }
        }
        if t.mode() == CachingMode::InitialLoopbody {
            let cd = s.cached_depth();
            assert forall|l: int| cd + 1 <= l < b.len() implies (#[trigger] b[l]).kind is Loopbody && b[l].children@.len() == 0 by {
                if l < p {
                    assert(b.take(p)[l] == a.take(p)[l]);
                }
                assert(a[l].kind is Loopbody && a[l].children@.len() == 0);
            }
        }
    }

    /// What `add_ret` does.
    pub open spec fn ret_post(s: Self, t: Self, ret_val: Option<String>, events: Seq<Notification>) -> bool {
        let st = s.stack();
        let tt = t.stack();
        let d = s.depth();
        let cd = s.cached_depth();
        let cur = s.current();
        let parent = st[d - 1];
        let new_parent = tt[d - 1];
        &&& tt.len() == st.len() - 1
        &&& tt.take(d - 1) == st.take(d - 1)
        &&& t.cached_depth() == cd
        &&& same_but_children(parent, new_parent)
        &&& Self::flags_after_item(s, t)
        &&& if !s.caching() {
            let r = new_parent.children@.last();
            let returned = as_ended(with_ret_val(cur, ret_val));
            let k = parent.children@.len() - 1;
            &&& t.mode() == CachingMode::Inactive
            &&& events == if cur.children@.len() > 0 {
                repeat_notices(d, cur.children@.last().kind, cur.children@.last().repeat_count)
                    + seq![end_notice(returned, d - 1)]
            } else {
                seq![end_notice(returned, d - 1)]
            }
            &&& if parent.children@.len() > 0 && trees_equal(parent.children@.last(), cur, false) {
                new_parent.children@ == parent.children@.update(
                    k, with_repeat_count(parent.children@[k], parent.children@[k].repeat_count.incremented().marked()))
            } else {
                &&& new_parent.children@.len() == parent.children@.len() + 1
                &&& new_parent.children@.drop_last() == parent.children@
                &&& if cur.children@.len() > 0 {
                    with_last_child_repeat_count(returned, r, cur.children@.last().repeat_count.marked())
                } else {
                    r == returned
                }
            }
        } else {
            let is_model = s.mode() == CachingMode::Repetition && cd == d - 1;
            let k = parent.children@.len() - 1;
            if parent.children@.len() > 0 && trees_equal(parent.children@.last(), cur, false) {
                &&& new_parent.children@ == parent.children@.update(
                    k, with_repeat_count(parent.children@[k], parent.children@[k].repeat_count.incremented()))
                &&& t.mode() == if is_model { CachingMode::Inactive } else { s.mode() }
                &&& events == Seq::<Notification>::empty()
            } else if is_model {
                &&& new_parent.children@.len() == parent.children@.len() + 1
                &&& new_parent.children@.drop_last() == parent.children@.update(
                    k, with_repeat_count(parent.children@[k], parent.children@[k].repeat_count.marked()))
                &&& tree_flushed(as_ended(with_ret_val(cur, ret_val)), new_parent.children@.last())
                &&& t.mode() == CachingMode::Inactive
                &&& events == repeat_notices(d - 1, parent.children@[k].kind, parent.children@[k].repeat_count)
                    + tree_notices(as_ended(with_ret_val(cur, ret_val)), d - 1)
            } else {
                &&& new_parent.children@ == parent.children@.push(as_ended(with_ret_val(cur, ret_val)))
                &&& t.mode() == s.mode()
                &&& events == Seq::<Notification>::empty()
            }
        }
    }

    /// Adds the return of the running call; its parent becomes the running item.
    /// * If nothing is being cached: the repeat count of the call's last nested item (if
    ///   there is anything to tell) and the return, with the returned value, are logged.
    ///   If the call's subtree equals that of its previous sibling (it was shown in full
    ///   because the log was interrupted), the call is removed all the same and the sibling's
    ///   repeat count grows, with the repeat taken as already shown.
    /// * If something is being cached and the call's subtree equals that of its previous
    ///   sibling, the call is removed and the sibling's repeat count grows; if the sibling
    ///   was the model of the caching, caching stops.
    /// * Else, if the previous sibling is the model of the caching, the model's repeat count
    ///   (if there is anything to tell) and the call's whole subtree are logged, and caching
    ///   stops.
    /// * Otherwise the call stays cached, with its returned value.
    pub fn add_ret(&mut self, ret_val: Option<String>) -> (events: Vec<Notification>)
        requires
            old(self).wf(),
            old(self).depth() >= 1,
            old(self).current().kind is Call,
        ensures
            final(self).wf(),
            Self::ret_post(*old(self), *final(self), ret_val, events@),
    {
        let ghost s0 = *self;
        let ghost st = self.stack@;
        let mut out: Vec<Notification> = Vec::new();
        let d = self.stack.len() - 1;
        let p = d - 1;
        let mut node = self.stack.pop().unwrap();
        proof {
            assert(node == st[d as int]);
            assert(self.stack@ == st.take(d as int));
            assert(fits(st[d as int], usize::MAX - d));
            assert(fits(st[p as int], usize::MAX - p));
        }
        self.log_interrupted = false;
        if self.caching_mode == CachingMode::Inactive {
            let parent_len = self.stack[p].children.len();
            let equal_prev = parent_len > 0 && trees_are_equal(&self.stack[p].children[parent_len - 1], &node, false);
            node.ret_val = ret_val;
            let ghost n1 = node;
            let child_count = node.children.len();
            if child_count > 0 {
                flush_last_child_repeat_count_of(&mut node, d, &mut out);
            }
            node.has_ended = true;
            out.push(end_notification(&node, p));
            let ghost returned = as_ended(with_ret_val(st[d as int], ret_val));
            proof {
                if child_count > 0 {
                    Self::lemma_fits_last_child_rc(st[d as int], node, n1.children@.last().repeat_count.marked(), usize::MAX - d);
                    assert(with_last_child_repeat_count(returned, node, st[d as int].children@.last().repeat_count.marked()));
                    assert(out@ == repeat_notices(d as int, st[d as int].children@.last().kind, st[d as int].children@.last().repeat_count) + seq![end_notice(returned, p as int)]);
                } else {
                    assert(node == returned);
                    assert(out@ == seq![end_notice(returned, p as int)]);
                }
            }
            if equal_prev {
                let ghost prev_rc = st[p as int].children@[parent_len - 1].repeat_count;
                self.stack[p].children[parent_len - 1].repeat_count.inc();
                self.stack[p].children[parent_len - 1].repeat_count.mark_flushed();
                proof {
                    assert(self.stack@[p as int].children@ =~= st[p as int].children@.update(parent_len - 1,
                        with_repeat_count(st[p as int].children@[parent_len - 1], prev_rc.incremented().marked())));
                    Self::lemma_fits_last_child_rc(st[p as int], self.stack@[p as int],
                        prev_rc.incremented().marked(), usize::MAX - p);
                    assert(self.stack@.take(p as int) =~= st.take(p as int));
                    Self::lemma_return_wf(s0, *self);
                    assert(Self::ret_post(s0, *self, ret_val, out@));
                }
            } else {
                let ghost before = self.stack@;
                self.stack[p].children.push(node);
                proof {
                    lemma_forest_fits_push(st[p as int].children@, node, usize::MAX - d);
                    assert(self.stack@ == before.update(p as int, self.stack@[p as int]));
                    assert(self.stack@.take(p as int) =~= st.take(p as int));
                    Self::lemma_return_wf(s0, *self);
                    assert(self.stack@[p as int].children@.drop_last() =~= st[p as int].children@);
                    assert(self.stack@[p as int].children@.last() == node);
                    assert(Self::ret_post(s0, *self, ret_val, out@));
                }
            }
        } else {
            node.ret_val = ret_val;
            node.has_ended = true;
            proof {
                assert(node == as_ended(with_ret_val(st[d as int], ret_val)));
            }
            let parent_len = self.stack[p].children.len();
            let is_model = self.caching_mode == CachingMode::Repetition && self.caching_depth == p;
            if parent_len > 0 && trees_are_equal(&self.stack[p].children[parent_len - 1], &node, false) {
                self.stack[p].children[parent_len - 1].repeat_count.inc();
                if is_model {
                    self.caching_mode = CachingMode::Inactive;
                    self.show_in_full = false;
                }
                proof {
                    assert(self.stack@[p as int].children@ =~= st[p as int].children@.update(parent_len - 1,
                        with_repeat_count(st[p as int].children@[parent_len - 1], st[p as int].children@[parent_len - 1].repeat_count.incremented())));
                    Self::lemma_fits_last_child_rc(st[p as int], self.stack@[p as int],
                        st[p as int].children@[parent_len - 1].repeat_count.incremented(), usize::MAX - p);
                    assert(self.stack@.take(p as int) =~= st.take(p as int));
                    Self::lemma_return_wf(s0, *self);
                    assert(Self::ret_post(s0, *self, ret_val, out@));
                }
            } else if is_model {
                let ghost out0 = out@;
                flush_last_child_repeat_count_of(&mut self.stack[p], p, &mut out);
                let ghost marked_parent = self.stack@[p as int];
                proof {
                    lemma_fits_monotonic(st[d as int], usize::MAX - d, usize::MAX - p);
                    assert(fits(node, usize::MAX - p));
                }
                flush_tree(&mut node, p, &mut out);
                let ghost before = self.stack@;
                self.stack[p].children.push(node);
                self.caching_mode = CachingMode::Inactive;
                self.show_in_full = false;
                proof {
                    Self::lemma_fits_last_child_rc(st[p as int], marked_parent,
                        st[p as int].children@.last().repeat_count.marked(), usize::MAX - p);
                    lemma_flushed_fits(as_ended(with_ret_val(st[d as int], ret_val)), node, usize::MAX - d);
                    lemma_forest_fits_push(marked_parent.children@, node, usize::MAX - d);
                    assert(self.stack@ == before.update(p as int, self.stack@[p as int]));
                    assert(self.stack@.take(p as int) =~= st.take(p as int));
                    Self::lemma_return_wf(s0, *self);
                    assert(self.stack@[p as int].children@.drop_last() =~= marked_parent.children@);
                    assert(marked_parent.children@ =~= st[p as int].children@.update(parent_len - 1,
                        with_repeat_count(st[p as int].children@[parent_len - 1], st[p as int].children@[parent_len - 1].repeat_count.marked())));
                    assert(Self::ret_post(s0, *self, ret_val, out@));
                }
            } else {
                let ghost before = self.stack@;
                self.stack[p].children.push(node);
                proof {
                    lemma_forest_fits_push(st[p as int].children@, node, usize::MAX - d);
                    assert(self.stack@ == before.update(p as int, self.stack@[p as int]));
                    assert(self.stack@.take(p as int) =~= st.take(p as int));
                    Self::lemma_return_wf(s0, *self);
                    assert(Self::ret_post(s0, *self, ret_val, out@));
                }
            }
        }
        proof {
            assert(out@ =~= Seq::<Notification>::empty() + out@);
        }
        out
    }


    /// What `add_loopbody_end` does.
    pub open spec fn loopbody_end_post(s: Self, t: Self, events: Seq<Notification>) -> bool {
        let st = s.stack();
        let tt = t.stack();
        let d = s.depth();
        let cd = s.cached_depth();
        let cur = s.current();
        let parent = st[d - 1];
        let new_parent = tt[d - 1];
        let ends_cached = s.caching() && cd + 1 == d;
        let k = parent.children@.len() - 1;
        let logged = !s.caching();
        let head = if logged {
            repeat_notices(d, cur.children@.last().kind, cur.children@.last().repeat_count)
                + seq![Notification::LoopbodyEnd { call_depth: (d - 1) as usize }]
        } else {
            Seq::empty()
        };
        let e = new_parent.children@.last();
        let e_ok = if logged {
            with_last_child_repeat_count(as_ended(cur), e, cur.children@.last().repeat_count.marked())
        } else {
            e == as_ended(cur)
        };
        let follows_iteration = parent.children@.len() > 0 && continues_loop(parent.children@.last().kind);
        let shown_in_full = ends_cached && s.in_full();
        let rc = parent.children@[k].repeat_count;
        &&& tt.len() == st.len() - 1
        &&& tt.take(d - 1) == st.take(d - 1)
        &&& t.cached_depth() == cd
        &&& same_but_children(parent, new_parent)
        &&& if cur.children@.len() == 0 {
            &&& t.interrupted() == if ends_cached { s.in_full() } else { s.interrupted() }
            &&& t.in_full() == (s.in_full() && !ends_cached)
            &&& new_parent.children@ == parent.children@
            &&& events == if logged {
                seq![Notification::LoopbodyEnd { call_depth: (d - 1) as usize }]
            } else {
                Seq::<Notification>::empty()
            }
            &&& t.mode() == if ends_cached { CachingMode::Inactive } else { s.mode() }
        } else if follows_iteration && trees_equal(cur, parent.children@.last(), false) {
            &&& Self::flags_after_item(s, t)
            &&& new_parent.children@ == parent.children@.update(k, with_repeat_count(
                parent.children@[k],
                if logged || shown_in_full { rc.incremented().marked() } else { rc.incremented() },
            ))
            &&& events == head + if shown_in_full {
                repeat_notices(d - 1, parent.children@[k].kind, rc) + tree_notices(as_ended(cur), d - 1)
            } else {
                Seq::<Notification>::empty()
            }
            &&& t.mode() == if ends_cached { CachingMode::Inactive } else { s.mode() }
        } else if follows_iteration && ends_cached {
            &&& Self::flags_after_item(s, t)
            &&& new_parent.children@.len() == parent.children@.len() + 1
            &&& new_parent.children@.drop_last() == parent.children@.update(
                k, with_repeat_count(parent.children@[k], parent.children@[k].repeat_count.marked()))
            &&& tree_flushed(as_ended(cur), e)
            &&& t.mode() == CachingMode::Inactive
            &&& events == repeat_notices(d - 1, parent.children@[k].kind, parent.children@[k].repeat_count)
                + tree_notices(as_ended(cur), d - 1)
        } else {
            &&& Self::flags_after_item(s, t)
            &&& new_parent.children@.len() == parent.children@.len() + 1
            &&& new_parent.children@.drop_last() == parent.children@
            &&& e_ok
            &&& t.mode() == s.mode()
            &&& events == head
        }
    }

    /// Adds the end of the running loop body; its parent becomes the running item.
    /// * A loop body without nested items is removed without a trace (only its end is logged
    ///   if nothing is being cached, since its start was then logged by an earlier flush); an
    ///   interruption of the log before it still holds for the next item.
    /// * Otherwise, if nothing is being cached, the repeat count of its last nested item (if
    ///   there is anything to tell) and its end are logged.
    /// * If it equals the previous iteration of the same loop, it is removed and that
    ///   iteration's repeat count grows; caching stops if it was the cached item. If it was
    ///   shown in full (logged because caching was not active, or cached as a repetition that
    ///   started right after the log was interrupted, in which case that iteration's repeat
    ///   count and the loop body's whole subtree are logged now), the repeat is taken as
    ///   already shown.
    /// * Else, if it was cached as a repetition of the previous iteration, that iteration's
    ///   repeat count (if there is anything to tell) and the loop body's whole subtree are
    ///   logged, and caching stops.
    pub fn add_loopbody_end(&mut self) -> (events: Vec<Notification>)
        requires
            old(self).wf(),
            old(self).depth() >= 1,
            old(self).current().kind is Loopbody,
        ensures
            final(self).wf(),
            Self::loopbody_end_post(*old(self), *final(self), events@),
    {
        let ghost s0 = *self;
        let ghost st = self.stack@;
        let mut out: Vec<Notification> = Vec::new();
        let d = self.stack.len() - 1;
        let p = d - 1;
        let mut node = self.stack.pop().unwrap();
        let ends_cached = self.caching_mode != CachingMode::Inactive && self.caching_depth + 1 == d;
        proof {
            assert(node == st[d as int]);
            assert(self.stack@ == st.take(d as int));
            assert(fits(st[d as int], usize::MAX - d));
            assert(fits(st[p as int], usize::MAX - p));
            assert(self.stack@.take(p as int) =~= st.take(p as int));
        }
        if node.children.len() == 0 {
            if self.caching_mode == CachingMode::Inactive {
                out.push(Notification::LoopbodyEnd { call_depth: p });
            } else if ends_cached {
                self.caching_mode = CachingMode::Inactive;
                self.log_interrupted = self.show_in_full;
                self.show_in_full = false;
            }
            proof {
                Self::lemma_return_wf(s0, *self);
                assert(out@ =~= Seq::<Notification>::empty() + out@);
            }
            return out;
        }
        self.log_interrupted = false;
        let parent_len = self.stack[p].children.len();
        let follows_iteration = if parent_len > 0 {
            match &self.stack[p].children[parent_len - 1].kind {
                ItemKind::Loopbody { ends_the_loop } => !*ends_the_loop,
                ItemKind::Call { .. } => false,
            }
        } else {
            false
        };
        let equal = follows_iteration && trees_are_equal(&node, &self.stack[p].children[parent_len - 1], false);
        let logged = self.caching_mode == CachingMode::Inactive;
        let ghost out_start = out@;
        if logged {
            flush_last_child_repeat_count_of(&mut node, d, &mut out);
            out.push(Notification::LoopbodyEnd { call_depth: p });
        }
        proof {
            let cur = st[d as int];
            let head = if logged {
                repeat_notices(d as int, cur.children@.last().kind, cur.children@.last().repeat_count)
                    + seq![Notification::LoopbodyEnd { call_depth: (d - 1) as usize }]
            } else {
                Seq::empty()
            };
            assert(out_start.len() == 0);
            assert(out@ =~= head);
        }
        node.has_ended = true;
        proof {
            if logged {
                Self::lemma_fits_last_child_rc(st[d as int], node, st[d as int].children@.last().repeat_count.marked(), usize::MAX - d);
            } else {
                assert(node == as_ended(st[d as int]));
            }
            assert(fits(node, usize::MAX - d));
        }
        if equal {
            let in_full = ends_cached && self.show_in_full;
            let ghost prev_rc = st[p as int].children@[parent_len - 1].repeat_count;
            if in_full {
                flush_last_child_repeat_count_of(&mut self.stack[p], p, &mut out);
                proof {
                    lemma_fits_monotonic(node, usize::MAX - d, usize::MAX - p);
                }
                flush_tree(&mut node, p, &mut out);
            }
            self.stack[p].children[parent_len - 1].repeat_count.inc();
            if logged || in_full {
                self.stack[p].children[parent_len - 1].repeat_count.mark_flushed();
            }
            if ends_cached {
                self.caching_mode = CachingMode::Inactive;
                self.show_in_full = false;
            }
            proof {
                prev_rc.lemma_marked_before_increment();
                let new_rc = if logged || in_full { prev_rc.incremented().marked() } else { prev_rc.incremented() };
                assert(self.stack@[p as int].children@[parent_len - 1].repeat_count == new_rc);
                assert(self.stack@[p as int].children@ =~= st[p as int].children@.update(parent_len - 1,
                    with_repeat_count(st[p as int].children@[parent_len - 1], new_rc)));
                Self::lemma_fits_last_child_rc(st[p as int], self.stack@[p as int], new_rc, usize::MAX - p);
                assert(self.stack@.take(p as int) =~= st.take(p as int));
                Self::lemma_return_wf(s0, *self);
                assert(Self::loopbody_end_post(s0, *self, out@));
            }
        } else if follows_iteration && ends_cached {
            flush_last_child_repeat_count_of(&mut self.stack[p], p, &mut out);
            let ghost marked_parent = self.stack@[p as int];
            proof {
                lemma_fits_monotonic(node, usize::MAX - d, usize::MAX - p);
            }
            let ghost ended = node;
            flush_tree(&mut node, p, &mut out);
            let ghost before = self.stack@;
            self.stack[p].children.push(node);
            self.caching_mode = CachingMode::Inactive;
            self.show_in_full = false;
            proof {
                Self::lemma_fits_last_child_rc(st[p as int], marked_parent,
                    st[p as int].children@.last().repeat_count.marked(), usize::MAX - p);
                lemma_flushed_fits(ended, node, usize::MAX - d);
                lemma_forest_fits_push(marked_parent.children@, node, usize::MAX - d);
                assert(self.stack@ == before.update(p as int, self.stack@[p as int]));
                assert(self.stack@.take(p as int) =~= st.take(p as int));
                Self::lemma_return_wf(s0, *self);
                assert(self.stack@[p as int].children@.drop_last() =~= marked_parent.children@);
                assert(Self::loopbody_end_post(s0, *self, out@));
            }
        } else {
            let ghost before = self.stack@;
            self.stack[p].children.push(node);
            proof {
                lemma_forest_fits_push(st[p as int].children@, node, usize::MAX - d);
                assert(self.stack@ == before.update(p as int, self.stack@[p as int]));
                assert(self.stack@.take(p as int) =~= st.take(p as int));
                Self::lemma_return_wf(s0, *self);
                assert(self.stack@[p as int].children@.drop_last() =~= st[p as int].children@);
                assert(self.stack@[p as int].children@.last() == node);
                assert(Self::loopbody_end_post(s0, *self, out@));
            }
        }
        proof {
            assert(out@ =~= Seq::<Notification>::empty() + out@);
        }
        out
    }

    /// What `add_loop_end` does.
    pub open spec fn loop_end_post(s: Self, t: Self, events: Seq<Notification>) -> bool {
        let st = s.stack();
        let tt = t.stack();
        let d = s.depth();
        let cur = s.current();
        let k = cur.children@.len() - 1;
        let last = cur.children@.last();
        let ending = ItemKind::Loopbody { ends_the_loop: true };
        &&& t.mode() == s.mode()
        &&& t.cached_depth() == s.cached_depth()
        &&& t.interrupted() == s.interrupted()
        &&& t.in_full() == s.in_full()
        &&& if cur.children@.len() > 0 && continues_loop(last.kind) {
            &&& tt == st.update(d, tt[d])
            &&& same_but_children(cur, tt[d])
            &&& tt[d].children@ == cur.children@.update(k, CallNode {
                kind: ending,
                repeat_count: if s.caching() { last.repeat_count } else { last.repeat_count.marked() },
                ..last
            })
            &&& events == if s.caching() { Seq::empty() } else { repeat_notices(d, ending, last.repeat_count) }
        } else {
            &&& tt == st
            &&& events == Seq::<Notification>::empty()
        }
    }

    /// Adds the end of a loop. If the running item's last nested item is a loop body of the
    /// loop that ends, it is marked as ending the loop (so that a loop body that follows is
    /// taken as the first of another loop), and, if nothing is being cached, its repeat count
    /// is logged if there is anything to tell. Otherwise (all the loop bodies had no nested
    /// items and were removed) nothing changes.
    pub fn add_loop_end(&mut self) -> (events: Vec<Notification>)
        requires
            old(self).wf(),
        ensures
            final(self).wf(),
            Self::loop_end_post(*old(self), *final(self), events@),
    {
        let ghost st = self.stack@;
        let mut out: Vec<Notification> = Vec::new();
        let d = self.stack.len() - 1;
        let child_count = self.stack[d].children.len();
        if child_count == 0 {
            return out;
        }
        let k = child_count - 1;
        let continues = match &self.stack[d].children[k].kind {
            ItemKind::Loopbody { ends_the_loop } => !*ends_the_loop,
            ItemKind::Call { .. } => false,
        };
        if !continues {
            return out;
        }
        let ghost last = st[d as int].children@[k as int];
        self.stack[d].children[k].kind = ItemKind::Loopbody { ends_the_loop: true };
        if self.caching_mode == CachingMode::Inactive {
            let kind = ItemKind::Loopbody { ends_the_loop: true };
            flush_repeat_count(&mut self.stack[d].children[k].repeat_count, &kind, d, &mut out);
        }
        proof {
            let ending = ItemKind::Loopbody { ends_the_loop: true };
            let new_last = CallNode {
                kind: ending,
                repeat_count: if self.caching_mode != CachingMode::Inactive { last.repeat_count } else { last.repeat_count.marked() },
                ..last
            };
            assert(self.stack@[d as int].children@ =~= st[d as int].children@.update(k as int, new_last));
            assert(self.stack@ =~= st.update(d as int, self.stack@[d as int]));
            let h = usize::MAX - d - 1;
            lemma_forest_fits_all(st[d as int].children@, h);
            lemma_forest_fits_all(self.stack@[d as int].children@, h);
            assert(fits(st[d as int], usize::MAX - d));
            assert(fits(last, h));
            assert forall|i: int| 0 <= i < self.stack@[d as int].children@.len()
                implies fits(#[trigger] self.stack@[d as int].children@[i], h) by {
                if i != k {
                    assert(self.stack@[d as int].children@[i] == st[d as int].children@[i]);
                }
            }
            assert forall|l: int| 0 <= l < self.stack@.len() implies fits(#[trigger] self.stack@[l], usize::MAX - l) by {
                if l != d {
                    assert(self.stack@[l] == st[l]);
                }
            }
            if self.caching_mode == CachingMode::Repetition {
                assert(self.stack@[self.caching_depth as int] == st[self.caching_depth as int]);
                assert(self.stack@[self.caching_depth + 1].kind == st[self.caching_depth + 1].kind);
            }
            if self.caching_mode == CachingMode::InitialLoopbody {
                assert(st[d as int].children@.len() == 0);
            }
            assert(out@ =~= Seq::<Notification>::empty() + out@);
        }
        out
    }

    /// What `add_loopbody_start` does.
    pub open spec fn loopbody_start_post(s: Self, t: Self) -> bool {
        let d = s.depth();
        let cur = s.current();
        let initial = cur.children@.len() == 0 || !continues_loop(cur.children@.last().kind);
        &&& t.stack() == s.stack().push(t.current())
        &&& is_new_loopbody(t.current())
        &&& !t.interrupted()
        &&& if s.caching() {
            &&& t.mode() == s.mode()
            &&& t.cached_depth() == s.cached_depth()
            &&& t.in_full() == s.in_full()
        } else {
            &&& t.mode() == if initial { CachingMode::InitialLoopbody } else { CachingMode::Repetition }
            &&& t.cached_depth() == d
            &&& t.in_full() == s.interrupted()
        }
    }

    /// Adds a loop body start: a new loop body becomes the running item. Nothing is logged.
    /// If nothing is being cached, the new loop body starts being cached: as an initial loop
    /// body if it starts a loop (there is no previous item, or it is a call, or a loop body
    /// of an ended loop), otherwise as a repetition of the previous iteration; such a
    /// repetition is to be shown in full when it ends if the log was interrupted by a flush
    /// since the previous iteration (the interruption is kept with the caching).
    pub fn add_loopbody_start(&mut self) -> (events: Vec<Notification>)
        requires
            old(self).wf(),
            old(self).has_room(),
        ensures
            final(self).wf(),
            Self::loopbody_start_post(*old(self), *final(self)),
            events@ == Seq::<Notification>::empty(),
    {
        let siblings_call_depth = self.stack.len() - 1;
        let parent_len = self.stack[siblings_call_depth].children.len();
        let initial = if parent_len == 0 {
            true
        } else {
            match &self.stack[siblings_call_depth].children[parent_len - 1].kind {
                ItemKind::Call { .. } => true,
                ItemKind::Loopbody { ends_the_loop } => *ends_the_loop,
            }
        };
        let node = CallNode::new(ItemKind::Loopbody { ends_the_loop: false });
        self.stack.push(node);
        if self.caching_mode == CachingMode::Inactive {
            self.caching_mode = if initial { CachingMode::InitialLoopbody } else { CachingMode::Repetition };
            self.caching_depth = siblings_call_depth;
            self.show_in_full = self.log_interrupted;
        }
        self.log_interrupted = false;
        proof {
            let st = self.stack@;
            assert forall|l: int| 0 <= l < st.len() implies fits(#[trigger] st[l], usize::MAX - l) by {
                if l < st.len() - 1 {
                    assert(st[l] == old(self).stack@[l]);
                }
            }
        }
        Vec::new()
    }
}

} // verus!
