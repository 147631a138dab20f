use vstd::prelude::*;

use crate::call_graph::CallGraph;
use crate::call_tree::Notification;
use crate::decorators::LogDecorator;
use crate::notifiable::{CoderunNotifiable, after_notices, notify_all};

verus! {

/// A per-thread call logging instance: it has a logging on/off stack, a thread indent, and
/// logs calls, returns and loop bodies.
///
/// The spec functions below say what each method does to the logger. Their default is `true`
/// (nothing is told): an implementor written outside Verus (such as a logger that hands the
/// calls to a shared, locked logger of another thread) cannot state them, since its
/// compiled form would have to define them over Verus's mathematical types. `CallLogInfra`
/// states each of them exactly, so everything said through this trait is proved of it; of a
/// logger that keeps the defaults, nothing is.
pub trait CallLogger {
    /// The logger's invariant, which every method keeps (none, unless an implementor says so).
    open spec fn consistent(&self) -> bool {
        true
    }

    /// What logging a call does to the logger (nothing is told, unless an implementor says so).
    open spec fn called(before: &Self, after: &Self, name: Seq<char>, param_vals: Option<String>) -> bool {
        true
    }

    /// What logging a return does to the logger (nothing is told, unless an implementor says so).
    open spec fn returned(before: &Self, after: &Self, ret_val: Option<String>) -> bool {
        true
    }

    /// What logging a loop body start does to the logger (nothing is told, unless an
    /// implementor says so).
    open spec fn loopbody_started(before: &Self, after: &Self) -> bool {
        true
    }

    /// What logging a loop body end does to the logger (nothing is told, unless an
    /// implementor says so).
    open spec fn loopbody_ended(before: &Self, after: &Self) -> bool {
        true
    }

    /// What pushing a logging state does to the logger (nothing is told, unless an
    /// implementor says so).
    open spec fn pushed(before: &Self, after: &Self, is_on: bool) -> bool {
        true
    }

    /// What popping the logging state does to the logger (nothing is told, unless an
    /// implementor says so).
    open spec fn popped(before: &Self, after: &Self) -> bool {
        true
    }

    /// Whether the logger tells that logging is on (nothing is told, unless an implementor
    /// says so).
    open spec fn tells_logging_is_on(&self, is_on: bool) -> bool {
        true
    }

    /// What setting the logging state does to the logger (nothing is told, unless an
    /// implementor says so).
    open spec fn switched(before: &Self, after: &Self, is_on: bool) -> bool {
        true
    }

    /// What setting the thread indent does to the logger (nothing is told, unless an
    /// implementor says so).
    open spec fn indented(before: &Self, after: &Self, thread_indent: Seq<char>) -> bool {
        true
    }

    /// What a flush does to the logger (nothing is told, unless an implementor says so).
    open spec fn flushed(before: &Self, after: &Self) -> bool {
        true
    }

    /// What a conditional flush does to the logger (nothing is told, unless an implementor
    /// says so).
    open spec fn maybe_flushed(before: &Self, after: &Self) -> bool {
        true
    }

    /// What logging a loop end does to the logger (nothing is told, unless an implementor
    /// says so).
    open spec fn loop_ended(before: &Self, after: &Self) -> bool {
        true
    }

    /// Temporarily switches logging on (`true`) or off (`false`): pushes the state onto the
    /// on/off stack.
    fn push_logging_is_on(&mut self, is_on: bool)
        requires
            old(self).consistent(),
        ensures
            final(self).consistent(),
            Self::pushed(old(self), final(self), is_on),
    ;

    /// Recovers the previous logging state: pops the on/off stack, if it is not empty.
    fn pop_logging_is_on(&mut self)
        requires
            old(self).consistent(),
        ensures
            final(self).consistent(),
            Self::popped(old(self), final(self)),
    ;

    /// Tells if logging is on: the top of the on/off stack, or `true` if it is empty.
    fn logging_is_on(&self) -> (is_on: bool)
        requires
            self.consistent(),
        ensures
            self.tells_logging_is_on(is_on),
    ;

    /// Switches logging on or off: replaces the top of the on/off stack.
    fn set_logging_is_on(&mut self, is_on: bool)
        requires
            old(self).consistent(),
        ensures
            final(self).consistent(),
            Self::switched(old(self), final(self), is_on),
    ;

    /// Sets the indent of the thread's log.
    fn set_thread_indent(&mut self, thread_indent: String)
        requires
            old(self).consistent(),
        ensures
            final(self).consistent(),
            Self::indented(old(self), final(self), thread_indent@),
    ;

    /// Adds a call, with its name and the optional text of its parameter values.
    fn log_call(&mut self, name: &str, param_vals: Option<String>)
        requires
            old(self).consistent(),
        ensures
            final(self).consistent(),
            Self::called(old(self), final(self), name@, param_vals),
    ;

    /// Adds the return of the running call, with the optional text of its returned value.
    fn log_ret(&mut self, ret_val: Option<String>)
        requires
            old(self).consistent(),
        ensures
            final(self).consistent(),
            Self::returned(old(self), final(self), ret_val),
    ;

    /// Flushes what is cached, for instance upon a thread switch.
    fn flush(&mut self)
        requires
            old(self).consistent(),
        ensures
            final(self).consistent(),
            Self::flushed(old(self), final(self)),
    ;

    /// Flushes what is cached if some condition holds, such as output of the instrumented code.
    fn maybe_flush(&mut self)
        requires
            old(self).consistent(),
        ensures
            final(self).consistent(),
            Self::maybe_flushed(old(self), final(self)),
    ;

    /// Adds a loop body start.
    fn log_loopbody_start(&mut self)
        requires
            old(self).consistent(),
        ensures
            final(self).consistent(),
            Self::loopbody_started(old(self), final(self)),
    ;

    /// Adds the end of the running loop body.
    fn log_loopbody_end(&mut self)
        requires
            old(self).consistent(),
        ensures
            final(self).consistent(),
            Self::loopbody_ended(old(self), final(self)),
    ;

    /// Adds the end of a loop, so that adjacent loops are not taken as one.
    fn log_loop_end(&mut self)
        requires
            old(self).consistent(),
        ensures
            final(self).consistent(),
            Self::loop_ended(old(self), final(self)),
    ;
}

/// The logging state that the on/off stack tells: its top, or on if it is empty.
pub open spec fn on_off_state(stack: Seq<bool>) -> bool {
    if stack.len() == 0 { true } else { stack.last() }
}

/// Popping the on/off stack after pushing a state onto it brings back the stack as it was;
/// while the pushed state is on top, it is the logging state.
pub proof fn law_pop_undoes_push(before: Seq<bool>, pushed: Seq<bool>, popped: Seq<bool>, is_on: bool)
    requires
        pushed == before.push(is_on),
        popped == if pushed.len() == 0 { pushed } else { pushed.drop_last() },
    ensures
        on_off_state(pushed) == is_on,
        popped == before,
{
    assert(before.push(is_on).drop_last() =~= before);
}

/// Setting the logging state makes it the logging state, and leaves the states below the top
/// of the on/off stack (to be recovered by pops) as they were.
pub proof fn law_set_state_is_on(before: Seq<bool>, after: Seq<bool>, is_on: bool)
    requires
        after == if before.len() == 0 { seq![is_on] } else { before.drop_last().push(is_on) },
    ensures
        on_off_state(after) == is_on,
        after.len() == if before.len() == 0 { 1 } else { before.len() },
        before.len() > 0 ==> after.drop_last() == before.drop_last(),
{
    if before.len() > 0 {
        assert(before.drop_last().push(is_on).drop_last() =~= before.drop_last());
    }
}

/// The per-thread call logging infrastructure: the logging on/off stack, the thread's call
/// graph, and the decorator that turns the call graph's notifications into log text.
pub struct CallLogInfra<D: LogDecorator> {
    /// The on/off stack: its top tells if logging is on; if it is empty, logging is on.
    logging_is_on: Vec<bool>,
    /// The decorator, which also takes care of the thread specifics.
    decorator: D,
    /// The thread's call graph.
    call_graph: CallGraph,
    /// Every notification handed to the decorator so far, in order.
    notified: Ghost<Seq<Notification>>,
}

impl<D: LogDecorator> CallLogInfra<D> {
    /// The on/off stack.
    pub closed spec fn on_off(self) -> Seq<bool> {
        self.logging_is_on@
    }

    /// The call graph.
    pub closed spec fn graph(self) -> CallGraph {
        self.call_graph
    }

    /// The decorator.
    pub closed spec fn decorator_spec(self) -> D {
        self.decorator
    }

    /// Every notification handed to the decorator so far, in order.
    pub closed spec fn notified(self) -> Seq<Notification> {
        self.notified@
    }

    /// `b` is `a` after more notifications were handed to the decorator: the ones before are
    /// kept, and the decorator's model went through the new ones.
    pub open spec fn decorated(a: Self, b: Self) -> bool {
        &&& a.notified().len() <= b.notified().len()
        &&& b.notified().take(a.notified().len() as int) == a.notified()
        &&& b.decorator_spec().model() == after_notices::<D>(
            a.decorator_spec().model(),
            b.notified().skip(a.notified().len() as int),
        )
    }

    /// `b` is `a` with at most its on/off stack changed.
    pub open spec fn unchanged_but_on_off(a: Self, b: Self) -> bool {
        &&& b.graph() == a.graph()
        &&& b.decorator_spec() == a.decorator_spec()
        &&& b.notified() == a.notified()
    }

    /// The infrastructure's invariant: that of its call graph.
    pub open spec fn wf(self) -> bool {
        self.graph().wf()
    }

    /// Creates the infrastructure with an empty on/off stack (logging on), a new call graph,
    /// and the given decorator.
    pub fn new(decorator: D) -> (infra: Self)
        ensures
            infra.graph().wf(),
            infra.on_off() == Seq::<bool>::empty(),
            infra.decorator_spec() == decorator,
            infra.notified() == Seq::<Notification>::empty(),
            infra.graph().stack().len() == 1,
            crate::call_graph::is_pseudo_kind(infra.graph().stack()[0].kind),
            infra.graph().stack()[0].is_fresh(),
            infra.graph().mode() == crate::call_graph::CachingMode::Inactive,
            infra.graph().cached_depth() == 0,
            !infra.graph().interrupted(),
            !infra.graph().in_full(),
    {
        Self {
            logging_is_on: Vec::new(),
            decorator,
            call_graph: CallGraph::new(),
            notified: Ghost(Seq::empty()),
        }
    }

    /// The decorator.
    pub fn decorator(&self) -> (d: &D)
        ensures
            *d == self.decorator_spec(),
    {
        &self.decorator
    }

    /// Hands over the log text that the decorator has written so far.
    pub fn take_output(&mut self) -> (text: String)
        ensures
            text@ == D::output_of(old(self).decorator_spec().model()),
            final(self).decorator_spec().model() == D::taken(old(self).decorator_spec().model()),
            final(self).on_off() == old(self).on_off(),
            final(self).graph() == old(self).graph(),
            final(self).notified() == old(self).notified(),
    {
        self.decorator.take_output()
    }

    /// The call depth of the running item's nested items.
    pub fn call_depth(&self) -> (d: usize)
        requires
            self.wf(),
        ensures
            d == self.graph().depth(),
    {
        self.call_graph.call_depth()
    }

    fn notify_decorator(&mut self, events: Vec<Notification>)
        ensures
            final(self).on_off() == old(self).on_off(),
            final(self).graph() == old(self).graph(),
            final(self).notified() == old(self).notified() + events@,
            final(self).decorator_spec().model() == after_notices::<D>(old(self).decorator_spec().model(), events@),
    {
        notify_all(&mut self.decorator, &events);
        self.notified = Ghost(self.notified@ + events@);
    }

    /// Pushes the logging state onto the on/off stack.
    pub fn push_logging_is_on(&mut self, is_on: bool)
        ensures
            final(self).on_off() == old(self).on_off().push(is_on),
            final(self).graph() == old(self).graph(),
            final(self).decorator_spec() == old(self).decorator_spec(),
            final(self).notified() == old(self).notified(),
    {
        self.logging_is_on.push(is_on);
    }

    /// Pops the on/off stack, if it is not empty.
    pub fn pop_logging_is_on(&mut self)
        ensures
            final(self).on_off() == if old(self).on_off().len() == 0 {
                old(self).on_off()
            } else {
                old(self).on_off().drop_last()
            },
            final(self).graph() == old(self).graph(),
            final(self).decorator_spec() == old(self).decorator_spec(),
            final(self).notified() == old(self).notified(),
    {
        let _ = self.logging_is_on.pop();
        proof {
            if old(self).on_off().len() == 0 {
                assert(self.on_off() =~= old(self).on_off());
            }
        }
    }

    /// Tells if logging is on: the top of the on/off stack, or `true` if it is empty.
    pub fn logging_is_on(&self) -> (b: bool)
        ensures
            b == on_off_state(self.on_off()),
    {
        let n = self.logging_is_on.len();
        if n == 0 {
            true
        } else {
            self.logging_is_on[n - 1]
        }
    }

    /// Replaces the top of the on/off stack (pushes, if it is empty).
    pub fn set_logging_is_on(&mut self, is_on: bool)
        ensures
            final(self).on_off() == if old(self).on_off().len() == 0 {
                seq![is_on]
            } else {
                old(self).on_off().drop_last().push(is_on)
            },
            final(self).graph() == old(self).graph(),
            final(self).decorator_spec() == old(self).decorator_spec(),
            final(self).notified() == old(self).notified(),
    {
        let _ = self.logging_is_on.pop();
        self.logging_is_on.push(is_on);
        proof {
            if old(self).on_off().len() == 0 {
                assert(self.on_off() =~= seq![is_on]);
            }
        }
    }

    /// Sets the indent of the thread's log in the decorator.
    pub fn set_thread_indent(&mut self, thread_indent: String)
        ensures
            final(self).decorator_spec().thread_indent_of() == thread_indent@,
            final(self).on_off() == old(self).on_off(),
            final(self).graph() == old(self).graph(),
            final(self).notified() == old(self).notified(),
    {
        self.decorator.set_thread_indent(thread_indent);
    }

    /// Adds a call to the call graph and hands what it tells to the decorator.
    pub fn log_call(&mut self, name: &str, param_vals: Option<String>)
        requires
            old(self).wf(),
            old(self).graph().has_room(),
        ensures
            final(self).wf(),
            final(self).on_off() == old(self).on_off(),
            CallGraph::call_post(old(self).graph(), final(self).graph(), name@, param_vals,
                final(self).notified().skip(old(self).notified().len() as int)),
            old(self).notified().len() <= final(self).notified().len(),
            final(self).notified().take(old(self).notified().len() as int) == old(self).notified(),
            final(self).decorator_spec().model() == after_notices::<D>(old(self).decorator_spec().model(),
                final(self).notified().skip(old(self).notified().len() as int)),
    {
        let events = self.call_graph.add_call(name, param_vals);
        let ghost ev = events@;
        self.notify_decorator(events);
        proof { self.lemma_appended(old(self).notified(), ev); }
    }

    /// Adds the return of the running call to the call graph and hands what it tells to the
    /// decorator.
    pub fn log_ret(&mut self, ret_val: Option<String>)
        requires
            old(self).wf(),
            old(self).graph().depth() >= 1,
            old(self).graph().current().kind is Call,
        ensures
            final(self).wf(),
            final(self).on_off() == old(self).on_off(),
            CallGraph::ret_post(old(self).graph(), final(self).graph(), ret_val,
                final(self).notified().skip(old(self).notified().len() as int)),
            old(self).notified().len() <= final(self).notified().len(),
            final(self).notified().take(old(self).notified().len() as int) == old(self).notified(),
            final(self).decorator_spec().model() == after_notices::<D>(old(self).decorator_spec().model(),
                final(self).notified().skip(old(self).notified().len() as int)),
    {
        let events = self.call_graph.add_ret(ret_val);
        let ghost ev = events@;
        self.notify_decorator(events);
        proof { self.lemma_appended(old(self).notified(), ev); }
    }

    /// Flushes the call graph (including the decorator's pending output).
    pub fn flush(&mut self)
        requires
            old(self).wf(),
        ensures
            final(self).wf(),
            final(self).on_off() == old(self).on_off(),
            CallGraph::flush_post(old(self).graph(), final(self).graph(), true,
                final(self).notified().skip(old(self).notified().len() as int)),
            old(self).notified().len() <= final(self).notified().len(),
            final(self).notified().take(old(self).notified().len() as int) == old(self).notified(),
            final(self).decorator_spec().model() == after_notices::<D>(old(self).decorator_spec().model(),
                final(self).notified().skip(old(self).notified().len() as int)),
    {
        let events = self.call_graph.flush(true);
        let ghost ev = events@;
        self.notify_decorator(events);
        proof { self.lemma_appended(old(self).notified(), ev); }
    }

    /// Adds a loop body start to the call graph.
    pub fn log_loopbody_start(&mut self)
        requires
            old(self).wf(),
            old(self).graph().has_room(),
        ensures
            final(self).wf(),
            final(self).on_off() == old(self).on_off(),
            CallGraph::loopbody_start_post(old(self).graph(), final(self).graph()),
            final(self).notified() == old(self).notified(),
            final(self).decorator_spec().model() == old(self).decorator_spec().model(),
    {
        let events = self.call_graph.add_loopbody_start();
        self.notify_decorator(events);
        proof { assert(self.notified() =~= old(self).notified()); }
    }

    /// Adds the end of the running loop body to the call graph and hands what it tells to
    /// the decorator.
    pub fn log_loopbody_end(&mut self)
        requires
            old(self).wf(),
            old(self).graph().depth() >= 1,
            old(self).graph().current().kind is Loopbody,
        ensures
            final(self).wf(),
            final(self).on_off() == old(self).on_off(),
            CallGraph::loopbody_end_post(old(self).graph(), final(self).graph(),
                final(self).notified().skip(old(self).notified().len() as int)),
            old(self).notified().len() <= final(self).notified().len(),
            final(self).notified().take(old(self).notified().len() as int) == old(self).notified(),
            final(self).decorator_spec().model() == after_notices::<D>(old(self).decorator_spec().model(),
                final(self).notified().skip(old(self).notified().len() as int)),
    {
        let events = self.call_graph.add_loopbody_end();
        let ghost ev = events@;
        self.notify_decorator(events);
        proof { self.lemma_appended(old(self).notified(), ev); }
    }

    /// Adds a loop end to the call graph and hands what it tells to the decorator.
    pub fn log_loop_end(&mut self)
        requires
            old(self).wf(),
        ensures
            final(self).wf(),
            final(self).on_off() == old(self).on_off(),
            CallGraph::loop_end_post(old(self).graph(), final(self).graph(),
                final(self).notified().skip(old(self).notified().len() as int)),
            old(self).notified().len() <= final(self).notified().len(),
            final(self).notified().take(old(self).notified().len() as int) == old(self).notified(),
            final(self).decorator_spec().model() == after_notices::<D>(old(self).decorator_spec().model(),
                final(self).notified().skip(old(self).notified().len() as int)),
    {
        let events = self.call_graph.add_loop_end();
        let ghost ev = events@;
        self.notify_decorator(events);
        proof { self.lemma_appended(old(self).notified(), ev); }
    }

    proof fn lemma_nothing_decorated(self)
        ensures
            Self::decorated(self, self),
    {
        assert(self.notified().take(self.notified().len() as int) =~= self.notified());
        assert(self.notified().skip(self.notified().len() as int) =~= Seq::<Notification>::empty());
    }

    proof fn lemma_appended(self, before: Seq<Notification>, ev: Seq<Notification>)
        requires
            self.notified() == before + ev,
        ensures
            self.notified().skip(before.len() as int) == ev,
            self.notified().take(before.len() as int) == before,
            before.len() <= self.notified().len(),
    {
        assert(self.notified().skip(before.len() as int) =~= ev);
        assert(self.notified().take(before.len() as int) =~= before);
    }
}

impl<D: LogDecorator> CallLogger for CallLogInfra<D> {
    open spec fn consistent(&self) -> bool {
        self.wf()
    }

    /// The call is added (see `CallGraph::call_post`) unless the call stack has no room for it,
    /// and what it tells is handed to the decorator.
    open spec fn called(before: &Self, after: &Self, name: Seq<char>, param_vals: Option<String>) -> bool {
        &&& Self::decorated(*before, *after)
        &&& after.on_off() == before.on_off()
        &&& if before.graph().has_room() {
            CallGraph::call_post(before.graph(), after.graph(), name, param_vals,
                after.notified().skip(before.notified().len() as int))
        } else {
            after.graph() == before.graph()
        }
    }

    /// The return is added (see `CallGraph::ret_post`) if the running item is a call, and
    /// what it tells is handed to the decorator.
    open spec fn returned(before: &Self, after: &Self, ret_val: Option<String>) -> bool {
        &&& Self::decorated(*before, *after)
        &&& after.on_off() == before.on_off()
        &&& if before.graph().depth() >= 1 && before.graph().current().kind is Call {
            CallGraph::ret_post(before.graph(), after.graph(), ret_val,
                after.notified().skip(before.notified().len() as int))
        } else {
            after.graph() == before.graph()
        }
    }

    /// The loop body start is added (see `CallGraph::loopbody_start_post`) unless the call
    /// stack has no room for it; nothing is handed to the decorator.
    open spec fn loopbody_started(before: &Self, after: &Self) -> bool {
        &&& Self::decorated(*before, *after)
        &&& after.notified() == before.notified()
        &&& after.on_off() == before.on_off()
        &&& if before.graph().has_room() {
            CallGraph::loopbody_start_post(before.graph(), after.graph())
        } else {
            after.graph() == before.graph()
        }
    }

    /// The loop body end is added (see `CallGraph::loopbody_end_post`) if the running item is
    /// a loop body, and what it tells is handed to the decorator.
    open spec fn loopbody_ended(before: &Self, after: &Self) -> bool {
        &&& Self::decorated(*before, *after)
        &&& after.on_off() == before.on_off()
        &&& if before.graph().depth() >= 1 && before.graph().current().kind is Loopbody {
            CallGraph::loopbody_end_post(before.graph(), after.graph(),
                after.notified().skip(before.notified().len() as int))
        } else {
            after.graph() == before.graph()
        }
    }

    /// The state is pushed onto the on/off stack; nothing else changes.
    open spec fn pushed(before: &Self, after: &Self, is_on: bool) -> bool {
        &&& after.on_off() == before.on_off().push(is_on)
        &&& Self::unchanged_but_on_off(*before, *after)
    }

    /// The top of the on/off stack is popped, if there is one; nothing else changes.
    open spec fn popped(before: &Self, after: &Self) -> bool {
        &&& after.on_off() == if before.on_off().len() == 0 { before.on_off() } else { before.on_off().drop_last() }
        &&& Self::unchanged_but_on_off(*before, *after)
    }

    /// The logging state is the top of the on/off stack, or on if it is empty.
    open spec fn tells_logging_is_on(&self, is_on: bool) -> bool {
        is_on == on_off_state(self.on_off())
    }

    /// The top of the on/off stack is replaced (pushed, if it is empty); nothing else changes.
    open spec fn switched(before: &Self, after: &Self, is_on: bool) -> bool {
        &&& after.on_off() == if before.on_off().len() == 0 {
            seq![is_on]
        } else {
            before.on_off().drop_last().push(is_on)
        }
        &&& Self::unchanged_but_on_off(*before, *after)
    }

    /// The decorator gets the thread indent; the on/off stack, the call graph and the
    /// notifications stay.
    open spec fn indented(before: &Self, after: &Self, thread_indent: Seq<char>) -> bool {
        &&& after.decorator_spec().thread_indent_of() == thread_indent
        &&& after.on_off() == before.on_off()
        &&& after.graph() == before.graph()
        &&& after.notified() == before.notified()
    }

    /// The call graph is flushed (see `CallGraph::flush_post`) and what it tells is handed to
    /// the decorator.
    open spec fn flushed(before: &Self, after: &Self) -> bool {
        &&& Self::decorated(*before, *after)
        &&& after.on_off() == before.on_off()
        &&& CallGraph::flush_post(before.graph(), after.graph(), true,
            after.notified().skip(before.notified().len() as int))
    }

    /// Nothing changes: this logger flushes only when told to.
    open spec fn maybe_flushed(before: &Self, after: &Self) -> bool {
        &&& after.on_off() == before.on_off()
        &&& Self::unchanged_but_on_off(*before, *after)
    }

    /// The loop end is added (see `CallGraph::loop_end_post`) and what it tells is handed to
    /// the decorator.
    open spec fn loop_ended(before: &Self, after: &Self) -> bool {
        &&& Self::decorated(*before, *after)
        &&& after.on_off() == before.on_off()
        &&& CallGraph::loop_end_post(before.graph(), after.graph(),
            after.notified().skip(before.notified().len() as int))
    }

    fn push_logging_is_on(&mut self, is_on: bool) {
        CallLogInfra::push_logging_is_on(self, is_on)
    }

    fn pop_logging_is_on(&mut self) {
        CallLogInfra::pop_logging_is_on(self)
    }

    fn logging_is_on(&self) -> (is_on: bool) {
        CallLogInfra::logging_is_on(self)
    }

    fn set_logging_is_on(&mut self, is_on: bool) {
        CallLogInfra::set_logging_is_on(self, is_on)
    }

    fn set_thread_indent(&mut self, thread_indent: String) {
        CallLogInfra::set_thread_indent(self, thread_indent)
    }

    /// Adds the call, unless the call stack has no room for it.
    fn log_call(&mut self, name: &str, param_vals: Option<String>) {
        if self.call_graph.has_room_for_item() {
            CallLogInfra::log_call(self, name, param_vals)
        } else {
            proof { Self::lemma_nothing_decorated(*self); }
        }
    }

    /// Adds the return, if the running item is a call (and not the pseudonode); a return
    /// without a running call is not taken.
    fn log_ret(&mut self, ret_val: Option<String>) {
        if self.call_graph.call_depth() >= 1 && self.call_graph.current_is_call() {
            CallLogInfra::log_ret(self, ret_val)
        } else {
            proof { Self::lemma_nothing_decorated(*self); }
        }
    }

    fn flush(&mut self) {
        CallLogInfra::flush(self)
    }

    /// Nothing to do: this instance flushes only when told to.
    fn maybe_flush(&mut self) {
    }

    /// Adds the loop body start, unless the call stack has no room for it.
    fn log_loopbody_start(&mut self) {
        if self.call_graph.has_room_for_item() {
            CallLogInfra::log_loopbody_start(self);
            proof { Self::lemma_nothing_decorated(*old(self)); }
        } else {
            proof { Self::lemma_nothing_decorated(*self); }
        }
    }

    /// Adds the loop body end, if the running item is a loop body; an end without a running
    /// loop body is not taken.
    fn log_loopbody_end(&mut self) {
        if self.call_graph.call_depth() >= 1 && self.call_graph.current_is_loopbody() {
            CallLogInfra::log_loopbody_end(self)
        } else {
            proof { Self::lemma_nothing_decorated(*self); }
        }
    }

    fn log_loop_end(&mut self) {
        CallLogInfra::log_loop_end(self)
    }
}

/// At the logger, a loop body that starts and ends without nested items leaves no trace: the
/// log (the decorator's model and the notifications) and the on/off stack are as before, and
/// so are the call stack, what is cached and whether the log counts as interrupted. This holds
/// while the call stack has room for the loop body (a machine limit: without room, its start
/// is not taken).
pub proof fn law_empty_loopbody_logs_nothing<D: LogDecorator>(
    a: CallLogInfra<D>,
    b: CallLogInfra<D>,
    c: CallLogInfra<D>,
)
    requires
        a.wf(),
        a.graph().has_room(),
        CallLogInfra::<D>::loopbody_started(&a, &b),
        CallLogInfra::<D>::loopbody_ended(&b, &c),
    ensures
        c.decorator_spec().model() == a.decorator_spec().model(),
        c.notified() == a.notified(),
        c.on_off() == a.on_off(),
        c.graph().stack().len() == a.graph().stack().len(),
        c.graph().stack().take(a.graph().depth()) == a.graph().stack().take(a.graph().depth()),
        crate::call_graph::same_but_children(a.graph().current(), c.graph().current()),
        c.graph().current().children@ == a.graph().current().children@,
        c.graph().mode() == a.graph().mode(),
        c.graph().interrupted() == a.graph().interrupted(),
{
    let events = c.notified().skip(b.notified().len() as int);
    assert(b.graph().current().kind is Loopbody);
    crate::graph_laws::law_empty_loopbody_leaves_no_trace(a.graph(), b.graph(), c.graph(), events);
    assert(a.notified().skip(a.notified().len() as int) =~= Seq::<Notification>::empty());
    assert(c.notified() =~= c.notified().take(b.notified().len() as int) + events);
}

/// The instrumentation of a function or a closure: creating it logs the call, and finishing
/// it logs the return (with the returned value, if it was set).
pub struct CalleeLogger {
    /// The text of the value returned by the instrumented function or closure.
    ret_val_str: Option<String>,
}

impl CalleeLogger {
    /// The text of the returned value, if set.
    pub closed spec fn ret_val(self) -> Option<String> {
        self.ret_val_str
    }

    /// Logs the call with the given name and optional text of the parameter values.
    pub fn new<L: CallLogger>(logger: &mut L, func_name: &str, param_vals: Option<String>) -> (c: Self)
        requires
            old(logger).consistent(),
        ensures
            final(logger).consistent(),
            L::called(old(logger), final(logger), func_name@, param_vals),
            c.ret_val() is None,
    {
        logger.log_call(func_name, param_vals);
        Self { ret_val_str: None }
    }

    /// Sets the text of the value returned by the instrumented function or closure.
    pub fn set_ret_val(&mut self, ret_val_str: String)
        ensures
            final(self).ret_val() == Some(ret_val_str),
    {
        self.ret_val_str = Some(ret_val_str);
    }

    /// Logs the return, with the returned value if it was set.
    pub fn finish<L: CallLogger>(self, logger: &mut L)
        requires
            old(logger).consistent(),
        ensures
            final(logger).consistent(),
            L::returned(old(logger), final(logger), self.ret_val()),
    {
        logger.log_ret(self.ret_val_str);
    }
}

/// The instrumentation of a loop body: creating it logs the loop body start, finishing it
/// logs the loop body end.
pub struct LoopbodyLogger;

impl LoopbodyLogger {
    /// Logs the loop body start.
    pub fn new<L: CallLogger>(logger: &mut L) -> (l: Self)
        requires
            old(logger).consistent(),
        ensures
            final(logger).consistent(),
            L::loopbody_started(old(logger), final(logger)),
    {
        logger.log_loopbody_start();
        LoopbodyLogger
    }

    /// Logs the loop body end.
    pub fn finish<L: CallLogger>(self, logger: &mut L)
        requires
            old(logger).consistent(),
        ensures
            final(logger).consistent(),
            L::loopbody_ended(old(logger), final(logger)),
    {
        logger.log_loopbody_end();
    }
}

/// A value that can tell its text for the log (the parameters and returned values).
pub trait MaybePrint {
    /// Returns the text of the value.
    fn maybe_print(&self) -> String;
}

/// By default the text of a value is `?`.
impl<T> MaybePrint for T {
    fn maybe_print(&self) -> (s: String)
        ensures
            s@ == "?"@,
    {
        String::from_str("?")
    }
}

} // verus!
