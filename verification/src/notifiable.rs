use vstd::prelude::*;

use crate::call_tree::{ItemKind, Notification};
use crate::repeat_count::RepeatCountCategory;

verus! {

/// A trait to be implemented by the instances that need to be notified about the code run
/// events (calls, returns, loop bodies, repeat counts), for instance log decorators.
///
/// What the notifications make of an implementor is described by its model (for a log
/// decorator: the log text written so far, and what it needs to write the next lines) and by
/// what each notification does to the model.
pub trait CoderunNotifiable {
    /// What the notifications have made of the implementor so far.
    type Model;

    /// The implementor's model.
    spec fn model(&self) -> Self::Model;

    /// The model after a call notification.
    spec fn after_call(m: Self::Model, call_depth: usize, name: Seq<char>, param_vals: Option<String>) -> Self::Model;

    /// The model after a return notification.
    spec fn after_return(
        m: Self::Model,
        call_depth: usize,
        name: Seq<char>,
        has_nested_calls: bool,
        ret_val: Option<String>,
    ) -> Self::Model;

    /// The model after a repeat count notification.
    spec fn after_repeat_count(m: Self::Model, call_depth: usize, kind: ItemKind, count: RepeatCountCategory) -> Self::Model;

    /// The model after a flush notification.
    spec fn after_flush(m: Self::Model) -> Self::Model;

    /// The model after a loop body start notification.
    spec fn after_loopbody_start(m: Self::Model, call_depth: usize) -> Self::Model;

    /// The model after a loop body end notification.
    spec fn after_loopbody_end(m: Self::Model, call_depth: usize) -> Self::Model;

    /// Notifies about a function or closure call at the given call depth, with its name and
    /// the optional text of its parameter names and values.
    fn notify_call(&mut self, call_depth: usize, name: &str, param_vals: &Option<String>)
        ensures
            final(self).model() == Self::after_call(old(self).model(), call_depth, name@, *param_vals),
    ;

    /// Notifies about a function or closure return at the given call depth, with its name,
    /// whether it had nested calls, and the optional text of the returned value.
    fn notify_return(
        &mut self,
        call_depth: usize,
        name: &str,
        has_nested_calls: bool,
        ret_val: &Option<String>,
    )
        ensures
            final(self).model() == Self::after_return(old(self).model(), call_depth, name@, has_nested_calls, *ret_val),
    ;

    /// Notifies about the repeat count of an item (a call or a loop body) at the given depth.
    fn notify_repeat_count(&mut self, call_depth: usize, kind: &ItemKind, count: RepeatCountCategory)
        ensures
            final(self).model() == Self::after_repeat_count(old(self).model(), call_depth, *kind, count),
    ;

    /// Notifies about a flush: whatever the implementor holds back must be written now.
    fn notify_flush(&mut self)
        ensures
            final(self).model() == Self::after_flush(old(self).model()),
    ;

    /// Notifies about a loop body start at the given call depth.
    fn notify_loopbody_start(&mut self, call_depth: usize)
        ensures
            final(self).model() == Self::after_loopbody_start(old(self).model(), call_depth),
    ;

    /// Notifies about a loop body end at the given call depth.
    fn notify_loopbody_end(&mut self, call_depth: usize)
        ensures
            final(self).model() == Self::after_loopbody_end(old(self).model(), call_depth),
    ;
}

/// The model of a notifiable instance after the notification.
pub open spec fn after_notice<N: CoderunNotifiable>(m: N::Model, n: Notification) -> N::Model {
    match n {
        Notification::Call { call_depth, name, param_vals } => N::after_call(m, call_depth, name@, param_vals),
        Notification::Return { call_depth, name, has_nested_calls, ret_val } => {
            N::after_return(m, call_depth, name@, has_nested_calls, ret_val)
        },
        Notification::Repeats { call_depth, kind, count } => N::after_repeat_count(m, call_depth, kind, count),
        Notification::Flush => N::after_flush(m),
        Notification::LoopbodyStart { call_depth } => N::after_loopbody_start(m, call_depth),
        Notification::LoopbodyEnd { call_depth } => N::after_loopbody_end(m, call_depth),
    }
}

/// The model of a notifiable instance after the notifications, in order.
pub open spec fn after_notices<N: CoderunNotifiable>(m: N::Model, s: Seq<Notification>) -> N::Model
    decreases s.len(),
{
    if s.len() == 0 {
        m
    } else {
        after_notice::<N>(after_notices::<N>(m, s.drop_last()), s.last())
    }
}

/// Hands a notification to the notifiable instance, by calling the method that matches it.
pub fn notify<N: CoderunNotifiable>(notifiable: &mut N, notification: &Notification)
    ensures
        final(notifiable).model() == after_notice::<N>(old(notifiable).model(), *notification),
{
    match notification {
        Notification::Call { call_depth, name, param_vals } => {
            notifiable.notify_call(*call_depth, name.as_str(), param_vals)
        },
        Notification::Return { call_depth, name, has_nested_calls, ret_val } => {
            notifiable.notify_return(*call_depth, name.as_str(), *has_nested_calls, ret_val)
        },
        Notification::Repeats { call_depth, kind, count } => {
            notifiable.notify_repeat_count(*call_depth, kind, *count)
        },
        Notification::Flush => notifiable.notify_flush(),
        Notification::LoopbodyStart { call_depth } => notifiable.notify_loopbody_start(*call_depth),
        Notification::LoopbodyEnd { call_depth } => notifiable.notify_loopbody_end(*call_depth),
    }
}

/// Hands the notifications to the notifiable instance, in order.
pub fn notify_all<N: CoderunNotifiable>(notifiable: &mut N, notifications: &Vec<Notification>)
    ensures
        final(notifiable).model() == after_notices::<N>(old(notifiable).model(), notifications@),
{
    let ghost m0 = notifiable.model();
    let mut i: usize = 0;
    while i < notifications.len()
        invariant
            i <= notifications@.len(),
            notifiable.model() == after_notices::<N>(m0, notifications@.take(i as int)),
        decreases notifications@.len() - i,
    {
        proof {
            assert(notifications@.take(i + 1).drop_last() =~= notifications@.take(i as int));
        }
        notify(notifiable, &notifications[i]);
        i = i + 1;
    }
    proof {
        assert(notifications@.take(i as int) =~= notifications@);
    }
}

} // verus!
