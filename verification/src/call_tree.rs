use vstd::prelude::*;

use crate::repeat_count::{RepeatCount, RepeatCountCategory};

verus! {

/// The kind of a call tree item: a call (a function or a closure) or a loop body.
#[derive(Clone, PartialEq, Eq, Debug)]
pub enum ItemKind {
    /// A function or a closure, with its name and the optional text of its parameter values.
    Call { name: String, param_vals: Option<String> },
    /// A loop body.
    Loopbody {
        /// Tells that the loop body ends its loop: it is the last loop body (with nested calls)
        /// of a loop that has ended. A loop body after it starts another loop.
        ends_the_loop: bool,
    },
}

impl ItemKind {
    /// Tells if the item is a call (a function or a closure), as opposed to a loop body.
    pub fn is_call(&self) -> (b: bool)
        ensures
            b == (*self is Call),
    {
        if let ItemKind::Call { .. } = self {
            true
        } else {
            false
        }
    }

    /// Tells if the item is a loop body.
    pub fn is_loopbody(&self) -> (b: bool)
        ensures
            b == (*self is Loopbody),
    {
        if let ItemKind::Loopbody { .. } = self {
            true
        } else {
            false
        }
    }

    /// Returns an item kind equal to this one.
    pub fn duplicate(&self) -> (k: ItemKind)
        ensures
            k == *self,
    {
        match self {
            ItemKind::Call { name, param_vals } => ItemKind::Call {
                name: name.clone(),
                param_vals: copy_text(param_vals),
            },
            ItemKind::Loopbody { ends_the_loop } => ItemKind::Loopbody { ends_the_loop: *ends_the_loop },
        }
    }
}

/// Returns an optional text equal to the given one.
pub fn copy_text(text: &Option<String>) -> (t: Option<String>)
    ensures
        t == *text,
{
    match text {
        Some(s) => Some(s.clone()),
        None => None,
    }
}

/// A node of the call tree: a call or a loop body, its nested items, and its repeat count.
pub struct CallNode {
    /// What the item is.
    pub kind: ItemKind,
    /// The text of the value returned by the call, if known.
    pub ret_val: Option<String>,
    /// The nested items, in order.
    pub children: Vec<CallNode>,
    /// How many times the item (with all of its nested items) repeats.
    pub repeat_count: RepeatCount,
    /// Tells that the call has returned or the loop body has ended.
    pub has_ended: bool,
}

impl CallNode {
    /// Creates a node of the given kind, with no nested items, not ended, repeating zero times.
    pub fn new(kind: ItemKind) -> (n: Self)
        ensures
            n.kind == kind,
            n.is_fresh(),
    {
        CallNode {
            kind,
            ret_val: None,
            children: Vec::new(),
            repeat_count: RepeatCount::new(),
            has_ended: false,
        }
    }

    /// A node as `new` creates it, whatever its kind.
    pub open spec fn is_fresh(self) -> bool {
        &&& self.ret_val is None
        &&& self.children@.len() == 0
        &&& self.repeat_count.overall() == 0
        &&& self.repeat_count.flushed() == 0
        &&& !self.has_ended
    }
}

/// A notification of a change in the call graph, for whatever logs it.
#[derive(Clone, PartialEq, Eq, Debug)]
pub enum Notification {
    /// A call: its depth, its name and the text of its parameter values.
    Call { call_depth: usize, name: String, param_vals: Option<String> },
    /// A return: the depth and name of the call, whether it had nested items, and the returned value.
    Return { call_depth: usize, name: String, has_nested_calls: bool, ret_val: Option<String> },
    /// The repeat count of an item, at the depth of the item.
    Repeats { call_depth: usize, kind: ItemKind, count: RepeatCountCategory },
    /// Whatever is held back for the log must be written now.
    Flush,
    /// A loop body starts at the given depth.
    LoopbodyStart { call_depth: usize },
    /// A loop body ends at the given depth.
    LoopbodyEnd { call_depth: usize },
}

/// Whether two items match for subtree comparison: calls of the same name, or two loop bodies.
/// Parameters and returned values do not take part.
pub open spec fn kinds_match(a: ItemKind, b: ItemKind) -> bool {
    match a {
        ItemKind::Call { name: a_name, .. } => match b {
            ItemKind::Call { name: b_name, .. } => a_name@ == b_name@,
            ItemKind::Loopbody { .. } => false,
        },
        ItemKind::Loopbody { .. } => b is Loopbody,
    }
}

/// Whether two subtrees are equal: the items match, their nested items are equal in order,
/// with equal repeat counts, recursively. The repeat counts of the two roots take part only
/// if `compare_root_repeat_count` tells so.
pub open spec fn trees_equal(a: CallNode, b: CallNode, compare_root_repeat_count: bool) -> bool
    decreases a,
{
    &&& kinds_match(a.kind, b.kind)
    &&& a.children@.len() == b.children@.len()
    &&& compare_root_repeat_count ==> a.repeat_count.overall() == b.repeat_count.overall()
    &&& forests_equal(a.children@, b.children@)
}

/// Whether two sequences of subtrees are pairwise equal, repeat counts included.
pub open spec fn forests_equal(a: Seq<CallNode>, b: Seq<CallNode>) -> bool
    decreases a,
{
    &&& a.len() == b.len()
    &&& a.len() > 0 ==> {
        &&& forests_equal(a.drop_last(), b.drop_last())
        &&& trees_equal(a.last(), b.last(), true)
    }
}

/// The notification of an item's start (call or loop body start) at the given depth.
pub open spec fn start_notice(n: CallNode, d: int) -> Notification {
    match n.kind {
        ItemKind::Call { name, param_vals } => Notification::Call { call_depth: d as usize, name, param_vals },
        ItemKind::Loopbody { .. } => Notification::LoopbodyStart { call_depth: d as usize },
    }
}

/// The notification of an item's end (return or loop body end) at the given depth.
pub open spec fn end_notice(n: CallNode, d: int) -> Notification {
    match n.kind {
        ItemKind::Call { name, .. } => Notification::Return {
            call_depth: d as usize,
            name,
            has_nested_calls: n.children@.len() > 0,
            ret_val: n.ret_val,
        },
        ItemKind::Loopbody { .. } => Notification::LoopbodyEnd { call_depth: d as usize },
    }
}

/// The notification of a repeat count, if there is anything to tell since the last flush.
pub open spec fn repeat_notices(d: int, kind: ItemKind, rc: RepeatCount) -> Seq<Notification> {
    if rc.non_flushed_is_empty_spec() {
        Seq::empty()
    } else {
        seq![Notification::Repeats { call_depth: d as usize, kind, count: rc.non_flushed_spec() }]
    }
}

/// What logging a subtree whose root is at depth `d` tells: the root's start, its nested
/// items in order, and, if the root has ended, its end and its repeat count.
pub open spec fn tree_notices(n: CallNode, d: int) -> Seq<Notification>
    decreases n,
{
    seq![start_notice(n, d)] + forest_notices(n.children@, d + 1) + if n.has_ended {
        seq![end_notice(n, d)] + repeat_notices(d, n.kind, n.repeat_count)
    } else {
        Seq::empty()
    }
}

/// What logging a sequence of subtrees at depth `d` tells, one after the other.
pub open spec fn forest_notices(s: Seq<CallNode>, d: int) -> Seq<Notification>
    decreases s,
{
    if s.len() == 0 {
        Seq::empty()
    } else {
        forest_notices(s.drop_last(), d) + tree_notices(s.last(), d)
    }
}

/// `b` is `a` after logging: every ended item's repeat count is marked as flushed;
/// nothing else changes.
pub open spec fn tree_flushed(a: CallNode, b: CallNode) -> bool
    decreases a,
{
    &&& b.kind == a.kind
    &&& b.ret_val == a.ret_val
    &&& b.has_ended == a.has_ended
    &&& b.repeat_count == if a.has_ended { a.repeat_count.marked() } else { a.repeat_count }
    &&& forest_flushed(a.children@, b.children@)
}

/// Pairwise `tree_flushed`.
pub open spec fn forest_flushed(a: Seq<CallNode>, b: Seq<CallNode>) -> bool
    decreases a,
{
    &&& a.len() == b.len()
    &&& a.len() > 0 ==> {
        &&& forest_flushed(a.drop_last(), b.drop_last())
        &&& tree_flushed(a.last(), b.last())
    }
}

/// The subtree is at most `h` levels deep below its root.
pub open spec fn fits(n: CallNode, h: int) -> bool
    decreases n,
{
    h >= 0 && forest_fits(n.children@, h - 1)
}

/// Every subtree of the sequence `fits` within `h`.
pub open spec fn forest_fits(s: Seq<CallNode>, h: int) -> bool
    decreases s,
{
    s.len() > 0 ==> {
        &&& forest_fits(s.drop_last(), h)
        &&& fits(s.last(), h)
    }
}

/// Each subtree of a sequence that fits within `h` fits within `h`.
pub proof fn lemma_forest_fits_index(s: Seq<CallNode>, h: int, i: int)
    requires
        forest_fits(s, h),
        0 <= i < s.len(),
    ensures
        fits(s[i], h),
    decreases s.len(),
{
    if i < s.len() - 1 {
        lemma_forest_fits_index(s.drop_last(), h, i);
    }
}

/// A sequence fits exactly when each of its subtrees fits.
pub proof fn lemma_forest_fits_all(s: Seq<CallNode>, h: int)
    ensures
        forest_fits(s, h) <==> forall|i: int| 0 <= i < s.len() ==> fits(#[trigger] s[i], h),
    decreases s.len(),
{
    if s.len() > 0 {
        let p = s.drop_last();
        lemma_forest_fits_all(p, h);
        if forest_fits(s, h) {
            assert forall|i: int| 0 <= i < s.len() implies fits(#[trigger] s[i], h) by {
                if i < s.len() - 1 {
                    assert(p[i] == s[i]);
                }
            }
        }
        if forall|i: int| 0 <= i < s.len() ==> fits(#[trigger] s[i], h) {
            assert forall|i: int| 0 <= i < p.len() implies fits(#[trigger] p[i], h) by {
                assert(p[i] == s[i]);
            }
            assert(fits(s[s.len() - 1], h));
        }
    }
}

/// Appending a subtree that fits keeps the sequence fitting.
pub proof fn lemma_forest_fits_push(s: Seq<CallNode>, n: CallNode, h: int)
    requires
        forest_fits(s, h),
        fits(n, h),
    ensures
        forest_fits(s.push(n), h),
{
    assert(s.push(n).drop_last() =~= s);
}

/// A subtree that fits within `h` fits within any larger bound.
pub proof fn lemma_fits_monotonic(n: CallNode, h: int, g: int)
    requires
        fits(n, h),
        h <= g,
    ensures
        fits(n, g),
    decreases n,
{
    lemma_forest_fits_monotonic(n.children@, h - 1, g - 1);
}

/// A sequence of subtrees that fits within `h` fits within any larger bound.
pub proof fn lemma_forest_fits_monotonic(s: Seq<CallNode>, h: int, g: int)
    requires
        forest_fits(s, h),
        h <= g,
    ensures
        forest_fits(s, g),
    decreases s,
{
    if s.len() > 0 {
        lemma_forest_fits_monotonic(s.drop_last(), h, g);
        lemma_fits_monotonic(s.last(), h, g);
    }
}

/// Logging a subtree does not change its shape: it still fits.
pub proof fn lemma_flushed_fits(a: CallNode, b: CallNode, h: int)
    requires
        tree_flushed(a, b),
        fits(a, h),
    ensures
        fits(b, h),
    decreases a,
{
    lemma_forest_flushed_fits(a.children@, b.children@, h - 1);
}

/// Logging a sequence of subtrees does not change their shapes: they still fit.
pub proof fn lemma_forest_flushed_fits(a: Seq<CallNode>, b: Seq<CallNode>, h: int)
    requires
        forest_flushed(a, b),
        forest_fits(a, h),
    ensures
        forest_fits(b, h),
    decreases a,
{
    if a.len() > 0 {
        lemma_forest_flushed_fits(a.drop_last(), b.drop_last(), h);
        lemma_flushed_fits(a.last(), b.last(), h);
    }
}

/// The notification of an item's start at depth `d`.
pub fn start_notification(n: &CallNode, d: usize) -> (r: Notification)
    ensures
        r == start_notice(*n, d as int),
{
    match &n.kind {
        ItemKind::Call { name, param_vals } => Notification::Call {
            call_depth: d,
            name: name.clone(),
            param_vals: copy_text(param_vals),
        },
        ItemKind::Loopbody { .. } => Notification::LoopbodyStart { call_depth: d },
    }
}

/// The notification of an item's end at depth `d`.
pub fn end_notification(n: &CallNode, d: usize) -> (r: Notification)
    ensures
        r == end_notice(*n, d as int),
{
    match &n.kind {
        ItemKind::Call { name, .. } => Notification::Return {
            call_depth: d,
            name: name.clone(),
            has_nested_calls: n.children.len() > 0,
            ret_val: copy_text(&n.ret_val),
        },
        ItemKind::Loopbody { .. } => Notification::LoopbodyEnd { call_depth: d },
    }
}

/// Appends the notification of `rc`'s repeats since its last flush at depth `d`, if there are
/// any to tell, and marks `rc` as flushed.
pub fn flush_repeat_count(rc: &mut RepeatCount, kind: &ItemKind, d: usize, out: &mut Vec<Notification>)
    ensures
        final(out)@ == old(out)@ + repeat_notices(d as int, *kind, *old(rc)),
        *final(rc) == old(rc).marked(),
{
    if !rc.non_flushed_is_empty() {
        out.push(Notification::Repeats { call_depth: d, kind: kind.duplicate(), count: rc.non_flushed() });
        rc.mark_flushed();
    } else {
        proof {
            old(rc).lemma_marked_and_incremented();
            old(rc).lemma_parts_determine(old(rc).marked());
        }
    }
}

/// Tells if the two subtrees are equal: the items match (calls by name), and their nested
/// items are equal in order, with equal repeat counts, recursively. Parameters and returned
/// values do not take part. The roots' repeat counts take part only if
/// `compare_root_repeat_count` is `true`: typically the first root is the model with a
/// non-zero repeat count, and the second is its repetition with a zero one.
pub fn trees_are_equal(a: &CallNode, b: &CallNode, compare_root_repeat_count: bool) -> (eq: bool)
    ensures
        eq == trees_equal(*a, *b, compare_root_repeat_count),
    decreases *a,
{
    match &a.kind {
        ItemKind::Call { name: a_name, .. } => match &b.kind {
            ItemKind::Call { name: b_name, .. } => {
                if !a_name.eq(b_name) {
                    return false;
                }
            },
            ItemKind::Loopbody { .. } => return false,
        },
        ItemKind::Loopbody { .. } => match &b.kind {
            ItemKind::Call { .. } => return false,
            ItemKind::Loopbody { .. } => {},
        },
    }
    if a.children.len() != b.children.len() {
        return false;
    }
    if compare_root_repeat_count && !a.repeat_count.same_overall(&b.repeat_count) {
        return false;
    }
    let mut index: usize = 0;
    while index < a.children.len()
        invariant
            index <= a.children@.len(),
            a.children@.len() == b.children@.len(),
            forests_equal(a.children@.take(index as int), b.children@.take(index as int)),
        decreases a.children@.len() - index,
    {
        proof {
            assert(decreases_to!(*a => a.children@[index as int]));
        }
        let child_eq = trees_are_equal(&a.children[index], &b.children[index], true);
        proof {
            assert(a.children@.take(index + 1).drop_last() =~= a.children@.take(index as int));
            assert(b.children@.take(index + 1).drop_last() =~= b.children@.take(index as int));
            if !child_eq && forests_equal(a.children@, b.children@) {
                lemma_forests_equal_prefix(a.children@, b.children@, index + 1);
            }
        }
        if !child_eq {
            return false;
        }
        index = index + 1;
    }
    proof {
        assert(a.children@.take(index as int) =~= a.children@);
        assert(b.children@.take(index as int) =~= b.children@);
    }
    true
}

/// Subtree comparison is reflexive: every subtree equals itself.
pub proof fn lemma_trees_equal_reflexive(a: CallNode, compare_root_repeat_count: bool)
    ensures
        trees_equal(a, a, compare_root_repeat_count),
    decreases a,
{
    lemma_forests_equal_reflexive(a.children@);
}

/// Every sequence of subtrees equals itself, pairwise.
pub proof fn lemma_forests_equal_reflexive(s: Seq<CallNode>)
    ensures
        forests_equal(s, s),
    decreases s,
{
    if s.len() > 0 {
        lemma_forests_equal_reflexive(s.drop_last());
        lemma_trees_equal_reflexive(s.last(), true);
    }
}

/// Subtree comparison is symmetric: the order of the two subtrees does not matter.
pub proof fn lemma_trees_equal_symmetric(a: CallNode, b: CallNode, compare_root_repeat_count: bool)
    requires
        trees_equal(a, b, compare_root_repeat_count),
    ensures
        trees_equal(b, a, compare_root_repeat_count),
    decreases a,
{
    lemma_forests_equal_symmetric(a.children@, b.children@);
}

/// Pairwise equality of sequences of subtrees is symmetric.
pub proof fn lemma_forests_equal_symmetric(a: Seq<CallNode>, b: Seq<CallNode>)
    requires
        forests_equal(a, b),
    ensures
        forests_equal(b, a),
    decreases a,
{
    if a.len() > 0 {
        lemma_forests_equal_symmetric(a.drop_last(), b.drop_last());
        lemma_trees_equal_symmetric(a.last(), b.last(), true);
    }
}

/// Subtree comparison is transitive: a subtree equal to a second one that equals a third
/// equals the third.
pub proof fn lemma_trees_equal_transitive(a: CallNode, b: CallNode, c: CallNode, compare_root_repeat_count: bool)
    requires
        trees_equal(a, b, compare_root_repeat_count),
        trees_equal(b, c, compare_root_repeat_count),
    ensures
        trees_equal(a, c, compare_root_repeat_count),
    decreases a,
{
    lemma_forests_equal_transitive(a.children@, b.children@, c.children@);
}

/// Pairwise equality of sequences of subtrees is transitive.
pub proof fn lemma_forests_equal_transitive(a: Seq<CallNode>, b: Seq<CallNode>, c: Seq<CallNode>)
    requires
        forests_equal(a, b),
        forests_equal(b, c),
    ensures
        forests_equal(a, c),
    decreases a,
{
    if a.len() > 0 {
        lemma_forests_equal_transitive(a.drop_last(), b.drop_last(), c.drop_last());
        lemma_trees_equal_transitive(a.last(), b.last(), c.last(), true);
    }
}

/// Logging a subtree changes only the flushed marks of its repeat counts: the subtree stays
/// equal to what it was, repeat counts included.
pub proof fn lemma_flushed_tree_equal(a: CallNode, b: CallNode)
    requires
        tree_flushed(a, b),
    ensures
        trees_equal(a, b, true),
    decreases a,
{
    a.repeat_count.lemma_marked_and_incremented();
    lemma_flushed_forests_equal(a.children@, b.children@);
}

/// Logging a sequence of subtrees leaves it pairwise equal to what it was.
pub proof fn lemma_flushed_forests_equal(a: Seq<CallNode>, b: Seq<CallNode>)
    requires
        forest_flushed(a, b),
    ensures
        forests_equal(a, b),
    decreases a,
{
    if a.len() > 0 {
        lemma_flushed_forests_equal(a.drop_last(), b.drop_last());
        lemma_flushed_tree_equal(a.last(), b.last());
    }
}

/// Pairwise logging relates the subtrees at each index.
pub proof fn lemma_forest_flushed_index(a: Seq<CallNode>, b: Seq<CallNode>, i: int)
    requires
        forest_flushed(a, b),
        0 <= i < a.len(),
    ensures
        tree_flushed(a[i], b[i]),
    decreases a.len(),
{
    if i < a.len() - 1 {
        lemma_forest_flushed_index(a.drop_last(), b.drop_last(), i);
    }
}

/// Pairwise equality of two sequences carries over to their prefixes.
pub proof fn lemma_forests_equal_prefix(a: Seq<CallNode>, b: Seq<CallNode>, k: int)
    requires
        0 <= k <= a.len(),
        a.len() == b.len(),
        forests_equal(a, b),
    ensures
        forests_equal(a.take(k), b.take(k)),
    decreases a.len(),
{
    if k < a.len() {
        assert(a.take(a.len() as int) =~= a);
        lemma_forests_equal_prefix(a.drop_last(), b.drop_last(), k);
        assert(a.drop_last().take(k) =~= a.take(k));
        assert(b.drop_last().take(k) =~= b.take(k));
    } else {
        assert(a.take(k) =~= a);
        assert(b.take(k) =~= b);
    }
}

/// Logs the subtree rooted at `node` at depth `d`: appends its notifications (see
/// `tree_notices`) and marks the repeat counts of its ended items as flushed.
pub fn flush_tree(node: &mut CallNode, d: usize, out: &mut Vec<Notification>)
    requires
        fits(*old(node), usize::MAX - d),
    ensures
        final(out)@ == old(out)@ + tree_notices(*old(node), d as int),
        tree_flushed(*old(node), *final(node)),
    decreases *old(node),
{
    let ghost old_children = node.children@;
    let ghost out0 = out@;
    out.push(start_notification(node, d));
    let mut i: usize = 0;
    while i < node.children.len()
        invariant
            i <= node.children@.len(),
            node.children@.len() == old_children.len(),
            old_children == old(node).children@,
            node.kind == old(node).kind,
            node.ret_val == old(node).ret_val,
            node.has_ended == old(node).has_ended,
            node.repeat_count == old(node).repeat_count,
            fits(*old(node), usize::MAX - d),
            forest_flushed(old_children.take(i as int), node.children@.take(i as int)),
            forall|j: int| i <= j < old_children.len() ==> node.children@[j] == old_children[j],
            out@ == out0 + seq![start_notice(*old(node), d as int)] + forest_notices(old_children.take(i as int), d + 1),
        decreases old_children.len() - i,
    {
        proof {
            assert(node.children@[i as int] == old(node).children@[i as int]);
            assert(decreases_to!(*old(node) => old(node).children@[i as int]));
            lemma_forest_fits_index(old_children, usize::MAX - d - 1, i as int);
        }
        let ghost before = node.children@;
        flush_tree(&mut node.children[i], d + 1, out);
        proof {
            assert(old_children.take(i + 1).drop_last() =~= old_children.take(i as int));
            assert(node.children@.take(i + 1).drop_last() =~= before.take(i as int));
            assert(node.children@.take(i as int) =~= before.take(i as int));
        }
        i = i + 1;
    }
    proof {
        assert(old_children.take(i as int) =~= old_children);
        assert(node.children@.take(i as int) =~= node.children@);
    }
    if node.has_ended {
        out.push(end_notification(node, d));
        let kind = node.kind.duplicate();
        flush_repeat_count(&mut node.repeat_count, &kind, d, out);
    }
}

} // verus!
