use vstd::prelude::*;

use crate::call_tree::ItemKind;
use crate::notifiable::CoderunNotifiable;
use crate::repeat_count::{category_text, RepeatCountCategory};

verus! {

/// Trait to be implemented by the instances that handle thread specifics, e.g. the thread
/// indent: the output of different threads can be shifted by different amounts, so that
/// each thread's log stands in a "column" of its own.
pub trait ThreadSpecific {
    /// The thread's output indentation.
    spec fn thread_indent_of(&self) -> Seq<char>;

    /// Sets the thread's output indentation.
    fn set_thread_indent(&mut self, thread_indent: String)
        ensures
            final(self).thread_indent_of() == thread_indent@,
    ;
}

/// A log decorator: it turns the notifications into log text, which it holds until the
/// writer of the log takes it.
pub trait LogDecorator: CoderunNotifiable + ThreadSpecific {
    /// The log text written so far, as the model tells it.
    spec fn output_of(m: Self::Model) -> Seq<char>;

    /// The model after the log text is handed over.
    spec fn taken(m: Self::Model) -> Self::Model;

    /// Hands over the log text written so far, and starts over with none.
    fn take_output(&mut self) -> (text: String)
        ensures
            text@ == Self::output_of(old(self).model()),
            final(self).model() == Self::taken(old(self).model()),
    ;
}

/// `s` repeated `n` times.
pub open spec fn repeated(s: Seq<char>, n: nat) -> Seq<char>
    decreases n,
{
    if n == 0 {
        Seq::empty()
    } else {
        repeated(s, (n - 1) as nat) + s
    }
}

/// The text of the optional parameter values: the values, or nothing.
pub open spec fn params_text(param_vals: Option<String>) -> Seq<char> {
    match param_vals {
        Some(p) => p@,
        None => Seq::empty(),
    }
}

/// The text of an optional returned value: `" -> value"`, or nothing.
pub open spec fn ret_val_text(ret_val: Option<String>) -> Seq<char> {
    match ret_val {
        Some(v) => " -> "@ + v@,
        None => Seq::empty(),
    }
}

/// The parameter values of a call in a tree-like log: `(values)` after the name when they
/// are given, nothing otherwise (so that a call line reads `+-f`).
pub open spec fn tree_params_text(param_vals: Option<String>) -> Seq<char> {
    match param_vals {
        Some(p) => "("@ + p@ + ")"@,
        None => Seq::empty(),
    }
}

/// The name that loop bodies have in the log.
pub open spec fn loopbody_name() -> Seq<char> {
    "Loop body"@
}

/// Appends `step` to `s` `n` times.
fn append_repeated(s: &mut String, step: &str, n: usize)
    ensures
        final(s)@ == old(s)@ + repeated(step@, n as nat),
{
    let mut i: usize = 0;
    while i < n
        invariant
            i <= n,
            s@ == old(s)@ + repeated(step@, i as nat),
        decreases n - i,
    {
        s.append(step);
        i = i + 1;
        proof {
            assert(repeated(step@, i as nat) == repeated(step@, (i - 1) as nat) + step@);
        }
    }
}

/// The part common to the log decorators: the log text written so far and the thread indent.
struct CommonDecorator {
    /// The log text not yet taken by the writer of the log.
    output: String,
    /// The thread indent, which separates the logs of different threads into "columns".
    thread_indent: String,
}

impl CommonDecorator {
    /// Creates a decorator part with no text and an empty thread indent.
    fn new() -> (c: Self)
        ensures
            c.output@ == Seq::<char>::empty(),
            c.thread_indent@ == Seq::<char>::empty(),
    {
        Self { output: String::new(), thread_indent: String::new() }
    }

    /// Replaces the thread indent.
    fn set_thread_indent(&mut self, thread_indent: String)
        ensures
            final(self).thread_indent == thread_indent,
            final(self).output == old(self).output,
    {
        self.thread_indent = thread_indent;
    }

    /// Returns the thread indent.
    fn get_thread_indent(&self) -> (t: String)
        ensures
            t@ == self.thread_indent@,
    {
        self.thread_indent.clone()
    }

    /// Appends text to the log.
    fn write(&mut self, text: &str)
        ensures
            final(self).output@ == old(self).output@ + text@,
            final(self).thread_indent == old(self).thread_indent,
    {
        self.output.append(text);
    }

    /// Appends the thread indent and `step` repeated `call_depth` times to the log.
    fn write_indents(&mut self, step: &str, call_depth: usize)
        ensures
            final(self).output@ == old(self).output@ + old(self).thread_indent@ + repeated(step@, call_depth as nat),
            final(self).thread_indent == old(self).thread_indent,
    {
        self.output.append(self.thread_indent.as_str());
        append_repeated(&mut self.output, step, call_depth);
    }

    /// Hands over the log text and starts over with none.
    fn take_output(&mut self) -> (text: String)
        ensures
            text@ == old(self).output@,
            final(self).output@ == Seq::<char>::empty(),
            final(self).thread_indent == old(self).thread_indent,
    {
        let mut text = String::new();
        std::mem::swap(&mut text, &mut self.output);
        text
    }
}

/// Appends the optional text (the parameter values) to the log.
fn write_params(common: &mut CommonDecorator, param_vals: &Option<String>)
    ensures
        final(common).output@ == old(common).output@ + params_text(*param_vals),
        final(common).thread_indent == old(common).thread_indent,
{
    match param_vals {
        Some(p) => common.write(p.as_str()),
        None => {},
    }
}

/// Appends the returned value text (`" -> value"`, or nothing) to the log.
fn write_ret_val(common: &mut CommonDecorator, ret_val: &Option<String>)
    ensures
        final(common).output@ == old(common).output@ + ret_val_text(*ret_val),
        final(common).thread_indent == old(common).thread_indent,
{
    match ret_val {
        Some(v) => {
            common.write(" -> ");
            common.write(v.as_str());
        },
        None => {},
    }
}

/// What the notifications have made of a code-like decorator: the log text written so far
/// (and not yet taken), the indents, and whether a line end is pending.
#[verifier::ext_equal]
pub struct CodeLikeModel {
    pub output: Seq<char>,
    pub thread_indent: Seq<char>,
    pub indent_step: Seq<char>,
    pub line_end_pending: bool,
}

impl CodeLikeModel {
    /// The indents of a line at the given call depth.
    pub open spec fn indents(self, call_depth: nat) -> Seq<char> {
        self.thread_indent + repeated(self.indent_step, call_depth)
    }

    /// The pending line end, if there is one.
    pub open spec fn pending_text(self) -> Seq<char> {
        if self.line_end_pending { "\n"@ } else { Seq::empty() }
    }

    /// The model after writing `text`, with the given pending line end.
    pub open spec fn written(self, text: Seq<char>, line_end_pending: bool) -> Self {
        CodeLikeModel { output: self.output + text, line_end_pending, ..self }
    }
}

/// The decorator that logs the calls in a code-like manner. For example,
/// ```txt
/// f() {
///   g() {}
///   // g() repeats 3 time(s).
///   h() {}
/// } // f().
/// ```
pub struct CodeLikeDecorator {
    common: CommonDecorator,
    /// The indent step for each call depth, e.g. two spaces or a tab.
    indent_step: &'static str,
    /// Tells that a line end is pending after `f() {`: it is written before a nested item,
    /// or upon a flush (before another thread's output or the instrumented code's own output).
    line_end_pending: bool,
}

impl CodeLikeDecorator {
    /// The log text written so far and not yet taken.
    pub closed spec fn output(self) -> Seq<char> {
        self.common.output@
    }

    /// The thread indent.
    pub closed spec fn thread_indent(self) -> Seq<char> {
        self.common.thread_indent@
    }

    /// The indent step.
    pub closed spec fn indent_step(self) -> Seq<char> {
        self.indent_step@
    }

    /// Whether a line end is pending.
    pub closed spec fn line_end_pending(self) -> bool {
        self.line_end_pending
    }

    /// The indents of a line at the given call depth: the thread indent, then the indent step
    /// once per level.
    pub open spec fn indents(self, call_depth: nat) -> Seq<char> {
        self.thread_indent() + repeated(self.indent_step(), call_depth)
    }

    /// The pending line end, if there is one.
    pub open spec fn pending_text(self) -> Seq<char> {
        if self.line_end_pending() { "\n"@ } else { Seq::empty() }
    }

    /// Creates a `CodeLikeDecorator` with the given indent step, two spaces if `None`.
    pub fn new(indent_step: Option<&'static str>) -> (d: Self)
        ensures
            d.output() == Seq::<char>::empty(),
            d.thread_indent() == Seq::<char>::empty(),
            d.indent_step() == match indent_step { Some(s) => s@, None => "  "@ },
            !d.line_end_pending(),
    {
        Self { common: CommonDecorator::new(), indent_step: indent_step.unwrap_or("  "), line_end_pending: false }
    }

    /// Returns the indent for the call depth: the indent step repeated `call_depth` times.
    pub fn get_indent_string(&self, call_depth: usize) -> (s: String)
        ensures
            s@ == repeated(self.indent_step(), call_depth as nat),
    {
        let mut indent_string = String::new();
        append_repeated(&mut indent_string, self.indent_step, call_depth);
        indent_string
    }

    /// Returns the thread indent and the indent for the call depth; together they make the
    /// indent of a line logged by the thread.
    pub fn get_indents(&self, call_depth: usize) -> (indents: (String, String))
        ensures
            indents.0@ == self.thread_indent(),
            indents.1@ == repeated(self.indent_step(), call_depth as nat),
    {
        (self.common.get_thread_indent(), self.get_indent_string(call_depth))
    }

    /// The text logged so far and not yet taken.
    pub fn output_text(&self) -> (s: &str)
        ensures
            s@ == self.output(),
    {
        self.common.output.as_str()
    }

    fn write_pending_line_end(&mut self)
        ensures
            final(self).output() == old(self).output() + old(self).pending_text(),
            final(self).thread_indent() == old(self).thread_indent(),
            final(self).indent_step() == old(self).indent_step(),
            final(self).line_end_pending() == old(self).line_end_pending(),
    {
        if self.line_end_pending {
            self.common.write("\n");
        }
    }
}

impl CoderunNotifiable for CodeLikeDecorator {
    type Model = CodeLikeModel;

    open spec fn model(&self) -> CodeLikeModel {
        CodeLikeModel {
            output: self.output(),
            thread_indent: self.thread_indent(),
            indent_step: self.indent_step(),
            line_end_pending: self.line_end_pending(),
        }
    }

    open spec fn after_call(m: CodeLikeModel, call_depth: usize, name: Seq<char>, param_vals: Option<String>) -> CodeLikeModel {
        m.written(m.pending_text() + m.indents(call_depth as nat) + name + "("@ + params_text(param_vals) + ") {"@, true)
    }

    open spec fn after_return(
        m: CodeLikeModel,
        call_depth: usize,
        name: Seq<char>,
        has_nested_calls: bool,
        ret_val: Option<String>,
    ) -> CodeLikeModel {
        m.written(
            if !has_nested_calls && m.line_end_pending {
                "}"@ + ret_val_text(ret_val) + "\n"@
            } else {
                m.indents(call_depth as nat) + "}"@ + ret_val_text(ret_val) + " // "@ + name + "().\n"@
            },
            false,
        )
    }

    open spec fn after_repeat_count(m: CodeLikeModel, call_depth: usize, kind: ItemKind, count: RepeatCountCategory) -> CodeLikeModel {
        m.written(
            m.indents(call_depth as nat) + "// "@ + match kind {
                ItemKind::Call { name, .. } => name@ + "()"@,
                ItemKind::Loopbody { .. } => loopbody_name(),
            } + " repeats "@ + category_text(count) + " time(s).\n"@,
            m.line_end_pending,
        )
    }

    open spec fn after_flush(m: CodeLikeModel) -> CodeLikeModel {
        m.written(m.pending_text(), false)
    }

    open spec fn after_loopbody_start(m: CodeLikeModel, call_depth: usize) -> CodeLikeModel {
        m.written(m.pending_text() + m.indents(call_depth as nat) + "{ // Loop body start.\n"@, false)
    }

    open spec fn after_loopbody_end(m: CodeLikeModel, call_depth: usize) -> CodeLikeModel {
        m.written(m.indents(call_depth as nat) + "} // Loop body end.\n"@, false)
    }

    /// Writes the pending line end, if any.
    fn notify_flush(&mut self)
        ensures
            final(self).output() == old(self).output() + old(self).pending_text(),
            !final(self).line_end_pending(),
            final(self).thread_indent() == old(self).thread_indent(),
            final(self).indent_step() == old(self).indent_step(),
    {
        if self.line_end_pending {
            self.common.write("\n");
            self.line_end_pending = false;
        }
        proof {
            assert(self.model() =~= Self::after_flush(old(self).model()));
        }
    }

    /// Writes `name(params) {`, after the pending line end if any; the line end becomes pending.
    fn notify_call(&mut self, call_depth: usize, name: &str, param_vals: &Option<String>)
        ensures
            final(self).output() == old(self).output() + old(self).pending_text() + old(self).indents(call_depth as nat)
                + name@ + "("@ + params_text(*param_vals) + ") {"@,
            final(self).line_end_pending(),
            final(self).thread_indent() == old(self).thread_indent(),
            final(self).indent_step() == old(self).indent_step(),
    {
        self.write_pending_line_end();
        self.common.write_indents(self.indent_step, call_depth);
        self.common.write(name);
        self.common.write("(");
        write_params(&mut self.common, param_vals);
        self.common.write(") {");
        self.line_end_pending = true;
        proof {
            assert(self.model() =~= Self::after_call(old(self).model(), call_depth, name@, *param_vals));
        }
    }

    /// Writes `}` (with the returned value) right after `name(params) {` if the call had no
    /// nested calls, or `} // name().` on a line of its own otherwise.
    fn notify_return(&mut self, call_depth: usize, name: &str, has_nested_calls: bool, ret_val: &Option<String>)
        ensures
            final(self).output() == old(self).output() + if !has_nested_calls && old(self).line_end_pending() {
                "}"@ + ret_val_text(*ret_val) + "\n"@
            } else {
                old(self).indents(call_depth as nat) + "}"@ + ret_val_text(*ret_val) + " // "@ + name@ + "().\n"@
            },
            !final(self).line_end_pending(),
            final(self).thread_indent() == old(self).thread_indent(),
            final(self).indent_step() == old(self).indent_step(),
    {
        if !has_nested_calls && self.line_end_pending {
            self.common.write("}");
            write_ret_val(&mut self.common, ret_val);
            self.common.write("\n");
        } else {
            self.common.write_indents(self.indent_step, call_depth);
            self.common.write("}");
            write_ret_val(&mut self.common, ret_val);
            self.common.write(" // ");
            self.common.write(name);
            self.common.write("().\n");
        }
        self.line_end_pending = false;
        proof {
            assert(self.model() =~= Self::after_return(old(self).model(), call_depth, name@, has_nested_calls, *ret_val));
        }
    }

    /// Writes `// name() repeats N time(s).` (or `// Loop body repeats N time(s).`).
    fn notify_repeat_count(&mut self, call_depth: usize, kind: &ItemKind, count: RepeatCountCategory)
        ensures
            final(self).output() == old(self).output() + old(self).indents(call_depth as nat) + "// "@
                + match *kind {
                    ItemKind::Call { name, .. } => name@ + "()"@,
                    ItemKind::Loopbody { .. } => loopbody_name(),
                } + " repeats "@ + category_text(count) + " time(s).\n"@,
            final(self).line_end_pending() == old(self).line_end_pending(),
            final(self).thread_indent() == old(self).thread_indent(),
            final(self).indent_step() == old(self).indent_step(),
    {
        self.common.write_indents(self.indent_step, call_depth);
        self.common.write("// ");
        match kind {
            ItemKind::Call { name, .. } => {
                self.common.write(name.as_str());
                self.common.write("()");
            },
            ItemKind::Loopbody { .. } => self.common.write("Loop body"),
        }
        self.common.write(" repeats ");
        let count_text = count.to_string();
        self.common.write(count_text.as_str());
        self.common.write(" time(s).\n");
        proof {
            assert(self.model() =~= Self::after_repeat_count(old(self).model(), call_depth, *kind, count));
        }
    }

    /// Writes `{ // Loop body start.`, after the pending line end if any.
    fn notify_loopbody_start(&mut self, call_depth: usize)
        ensures
            final(self).output() == old(self).output() + old(self).pending_text() + old(self).indents(call_depth as nat)
                + "{ // Loop body start.\n"@,
            !final(self).line_end_pending(),
            final(self).thread_indent() == old(self).thread_indent(),
            final(self).indent_step() == old(self).indent_step(),
    {
        self.write_pending_line_end();
        self.common.write_indents(self.indent_step, call_depth);
        self.common.write("{ // Loop body start.\n");
        self.line_end_pending = false;
        proof {
            assert(self.model() =~= Self::after_loopbody_start(old(self).model(), call_depth));
        }
    }

    /// Writes `} // Loop body end.`.
    fn notify_loopbody_end(&mut self, call_depth: usize)
        ensures
            final(self).output() == old(self).output() + old(self).indents(call_depth as nat)
                + "} // Loop body end.\n"@,
            !final(self).line_end_pending(),
            final(self).thread_indent() == old(self).thread_indent(),
            final(self).indent_step() == old(self).indent_step(),
    {
        self.common.write_indents(self.indent_step, call_depth);
        self.common.write("} // Loop body end.\n");
        self.line_end_pending = false;
        proof {
            assert(self.model() =~= Self::after_loopbody_end(old(self).model(), call_depth));
        }
    }
}

impl ThreadSpecific for CodeLikeDecorator {
    open spec fn thread_indent_of(&self) -> Seq<char> {
        self.thread_indent()
    }

    /// Replaces the thread indent.
    fn set_thread_indent(&mut self, thread_indent: String)
        ensures
            final(self).thread_indent() == thread_indent@,
            final(self).output() == old(self).output(),
            final(self).indent_step() == old(self).indent_step(),
            final(self).line_end_pending() == old(self).line_end_pending(),
    {
        self.common.set_thread_indent(thread_indent);
    }
}

impl LogDecorator for CodeLikeDecorator {
    open spec fn output_of(m: CodeLikeModel) -> Seq<char> {
        m.output
    }

    open spec fn taken(m: CodeLikeModel) -> CodeLikeModel {
        CodeLikeModel { output: Seq::empty(), ..m }
    }

    /// Hands over the log text written so far.
    fn take_output(&mut self) -> (text: String)
        ensures
            text@ == old(self).output(),
            final(self).output() == Seq::<char>::empty(),
            final(self).thread_indent() == old(self).thread_indent(),
            final(self).indent_step() == old(self).indent_step(),
            final(self).line_end_pending() == old(self).line_end_pending(),
    {
        self.common.take_output()
    }
}

/// What the notifications have made of a tree-like decorator: the log text written so far
/// (and not yet taken) and the indents.
#[verifier::ext_equal]
pub struct TreeLikeModel {
    pub output: Seq<char>,
    pub thread_indent: Seq<char>,
    pub step_call: Seq<char>,
    pub step_noncall: Seq<char>,
    pub step_parent: Seq<char>,
}

impl TreeLikeModel {
    /// The indents of a line at the given call depth.
    pub open spec fn indents(self, call_depth: nat) -> Seq<char> {
        self.thread_indent + repeated(self.step_parent, call_depth)
    }

    /// The model after writing `text`.
    pub open spec fn written(self, text: Seq<char>) -> Self {
        TreeLikeModel { output: self.output + text, ..self }
    }
}

/// The decorator that logs the calls in a tree-like manner. For example,
/// ```txt
/// +-f
/// | +-h
/// |   h repeats 99 time(s).
/// | +-i(x: 1)
/// +-Loop body
/// | +-k
///   Loop body repeats 3 time(s).
/// ```
pub struct TreeLikeDecorator {
    common: CommonDecorator,
    /// What precedes an item's name, e.g. `+-` in `+-f`.
    indent_step_call: &'static str,
    /// What precedes a repeat count, e.g. two spaces in `|   j repeats 9 time(s).`.
    indent_step_noncall: &'static str,
    /// What shows each call depth, e.g. each `| ` in `| | +-j`.
    indent_step_parent: &'static str,
}

impl TreeLikeDecorator {
    /// The log text written so far and not yet taken.
    pub closed spec fn output(self) -> Seq<char> {
        self.common.output@
    }

    /// The thread indent.
    pub closed spec fn thread_indent(self) -> Seq<char> {
        self.common.thread_indent@
    }

    /// What precedes an item's name.
    pub closed spec fn step_call(self) -> Seq<char> {
        self.indent_step_call@
    }

    /// What precedes a repeat count.
    pub closed spec fn step_noncall(self) -> Seq<char> {
        self.indent_step_noncall@
    }

    /// What shows each call depth.
    pub closed spec fn step_parent(self) -> Seq<char> {
        self.indent_step_parent@
    }

    /// The indents of a line at the given call depth.
    pub open spec fn indents(self, call_depth: nat) -> Seq<char> {
        self.thread_indent() + repeated(self.step_parent(), call_depth)
    }

    /// Creates a `TreeLikeDecorator` with the given steps: by default `+-`, two spaces and `| `.
    pub fn new(
        indent_step_call: Option<&'static str>,
        indent_step_noncall: Option<&'static str>,
        indent_step_parent: Option<&'static str>,
    ) -> (d: Self)
        ensures
            d.output() == Seq::<char>::empty(),
            d.thread_indent() == Seq::<char>::empty(),
            d.step_call() == match indent_step_call { Some(s) => s@, None => "+-"@ },
            d.step_noncall() == match indent_step_noncall { Some(s) => s@, None => "  "@ },
            d.step_parent() == match indent_step_parent { Some(s) => s@, None => "| "@ },
    {
        Self {
            common: CommonDecorator::new(),
            indent_step_call: indent_step_call.unwrap_or("+-"),
            indent_step_noncall: indent_step_noncall.unwrap_or("  "),
            indent_step_parent: indent_step_parent.unwrap_or("| "),
        }
    }

    /// Returns the indent for the call depth: `indent_step_parent` repeated `call_depth` times.
    pub fn get_indent_string(&self, call_depth: usize) -> (s: String)
        ensures
            s@ == repeated(self.step_parent(), call_depth as nat),
    {
        let mut indent_string = String::new();
        append_repeated(&mut indent_string, self.indent_step_parent, call_depth);
        indent_string
    }

    /// Returns the thread indent and the indent for the call depth.
    pub fn get_indents(&self, call_depth: usize) -> (indents: (String, String))
        ensures
            indents.0@ == self.thread_indent(),
            indents.1@ == repeated(self.step_parent(), call_depth as nat),
    {
        (self.common.get_thread_indent(), self.get_indent_string(call_depth))
    }

    /// The text logged so far and not yet taken.
    pub fn output_text(&self) -> (s: &str)
        ensures
            s@ == self.output(),
    {
        self.common.output.as_str()
    }
}

impl CoderunNotifiable for TreeLikeDecorator {
    type Model = TreeLikeModel;

    open spec fn model(&self) -> TreeLikeModel {
        TreeLikeModel {
            output: self.output(),
            thread_indent: self.thread_indent(),
            step_call: self.step_call(),
            step_noncall: self.step_noncall(),
            step_parent: self.step_parent(),
        }
    }

    open spec fn after_call(m: TreeLikeModel, call_depth: usize, name: Seq<char>, param_vals: Option<String>) -> TreeLikeModel {
        m.written(m.indents(call_depth as nat) + m.step_call + name + tree_params_text(param_vals) + "\n"@)
    }

    open spec fn after_return(
        m: TreeLikeModel,
        call_depth: usize,
        name: Seq<char>,
        has_nested_calls: bool,
        ret_val: Option<String>,
    ) -> TreeLikeModel {
        m
    }

    open spec fn after_repeat_count(m: TreeLikeModel, call_depth: usize, kind: ItemKind, count: RepeatCountCategory) -> TreeLikeModel {
        m.written(
            m.indents(call_depth as nat) + m.step_noncall + match kind {
                ItemKind::Call { name, .. } => name@,
                ItemKind::Loopbody { .. } => loopbody_name(),
            } + " repeats "@ + category_text(count) + " time(s).\n"@,
        )
    }

    open spec fn after_flush(m: TreeLikeModel) -> TreeLikeModel {
        m
    }

    open spec fn after_loopbody_start(m: TreeLikeModel, call_depth: usize) -> TreeLikeModel {
        m.written(m.indents(call_depth as nat) + m.step_call + loopbody_name() + "\n"@)
    }

    open spec fn after_loopbody_end(m: TreeLikeModel, call_depth: usize) -> TreeLikeModel {
        m
    }

    /// The tree shows no returns: nothing is written.
    fn notify_return(&mut self, call_depth: usize, name: &str, has_nested_calls: bool, ret_val: &Option<String>) {
        proof {
            assert(self.model() =~= Self::after_return(old(self).model(), call_depth, name@, has_nested_calls, *ret_val));
        }
    }

    /// Nothing is held back: nothing is written.
    fn notify_flush(&mut self) {
        proof {
            assert(self.model() =~= Self::after_flush(old(self).model()));
        }
    }

    /// The tree shows no loop body ends: nothing is written.
    fn notify_loopbody_end(&mut self, call_depth: usize) {
        proof {
            assert(self.model() =~= Self::after_loopbody_end(old(self).model(), call_depth));
        }
    }

    /// Writes `+-name` on a line of its own, with `(params)` after the name if the parameter
    /// values are given.
    fn notify_call(&mut self, call_depth: usize, name: &str, param_vals: &Option<String>)
        ensures
            final(self).output() == old(self).output() + old(self).indents(call_depth as nat) + old(self).step_call()
                + name@ + tree_params_text(*param_vals) + "\n"@,
            final(self).thread_indent() == old(self).thread_indent(),
            final(self).step_call() == old(self).step_call(),
            final(self).step_noncall() == old(self).step_noncall(),
            final(self).step_parent() == old(self).step_parent(),
    {
        self.common.write_indents(self.indent_step_parent, call_depth);
        self.common.write(self.indent_step_call);
        self.common.write(name);
        match param_vals {
            Some(p) => {
                self.common.write("(");
                self.common.write(p.as_str());
                self.common.write(")");
            },
            None => {},
        }
        self.common.write("\n");
        proof {
            assert(self.model() =~= Self::after_call(old(self).model(), call_depth, name@, *param_vals));
        }
    }

    /// Writes `  name repeats N time(s).` (or `  Loop body repeats N time(s).`).
    fn notify_repeat_count(&mut self, call_depth: usize, kind: &ItemKind, count: RepeatCountCategory)
        ensures
            final(self).output() == old(self).output() + old(self).indents(call_depth as nat) + old(self).step_noncall()
                + match *kind {
                    ItemKind::Call { name, .. } => name@,
                    ItemKind::Loopbody { .. } => loopbody_name(),
                } + " repeats "@ + category_text(count) + " time(s).\n"@,
            final(self).thread_indent() == old(self).thread_indent(),
            final(self).step_call() == old(self).step_call(),
            final(self).step_noncall() == old(self).step_noncall(),
            final(self).step_parent() == old(self).step_parent(),
    {
        self.common.write_indents(self.indent_step_parent, call_depth);
        self.common.write(self.indent_step_noncall);
        match kind {
            ItemKind::Call { name, .. } => self.common.write(name.as_str()),
            ItemKind::Loopbody { .. } => self.common.write("Loop body"),
        }
        self.common.write(" repeats ");
        let count_text = count.to_string();
        self.common.write(count_text.as_str());
        self.common.write(" time(s).\n");
        proof {
            assert(self.model() =~= Self::after_repeat_count(old(self).model(), call_depth, *kind, count));
        }
    }

    /// Writes `+-Loop body` on a line of its own.
    fn notify_loopbody_start(&mut self, call_depth: usize)
        ensures
            final(self).output() == old(self).output() + old(self).indents(call_depth as nat) + old(self).step_call()
                + loopbody_name() + "\n"@,
            final(self).thread_indent() == old(self).thread_indent(),
            final(self).step_call() == old(self).step_call(),
            final(self).step_noncall() == old(self).step_noncall(),
            final(self).step_parent() == old(self).step_parent(),
    {
        self.common.write_indents(self.indent_step_parent, call_depth);
        self.common.write(self.indent_step_call);
        self.common.write("Loop body");
        self.common.write("\n");
        proof {
            assert(self.model() =~= Self::after_loopbody_start(old(self).model(), call_depth));
        }
    }
}

impl ThreadSpecific for TreeLikeDecorator {
    open spec fn thread_indent_of(&self) -> Seq<char> {
        self.thread_indent()
    }

    /// Replaces the thread indent.
    fn set_thread_indent(&mut self, thread_indent: String)
        ensures
            final(self).thread_indent() == thread_indent@,
            final(self).output() == old(self).output(),
            final(self).step_call() == old(self).step_call(),
            final(self).step_noncall() == old(self).step_noncall(),
            final(self).step_parent() == old(self).step_parent(),
    {
        self.common.set_thread_indent(thread_indent);
    }
}

impl LogDecorator for TreeLikeDecorator {
    open spec fn output_of(m: TreeLikeModel) -> Seq<char> {
        m.output
    }

    open spec fn taken(m: TreeLikeModel) -> TreeLikeModel {
        TreeLikeModel { output: Seq::empty(), ..m }
    }

    /// Hands over the log text written so far.
    fn take_output(&mut self) -> (text: String)
        ensures
            text@ == old(self).output(),
            final(self).output() == Seq::<char>::empty(),
            final(self).thread_indent() == old(self).thread_indent(),
            final(self).step_call() == old(self).step_call(),
            final(self).step_noncall() == old(self).step_noncall(),
            final(self).step_parent() == old(self).step_parent(),
    {
        self.common.take_output()
    }
}

/// A tree-like log shows no returns: a return notification, whatever its returned value,
/// leaves the decorator's model (its output included) as it was.
pub proof fn law_tree_like_log_shows_no_returns(
    m: TreeLikeModel,
    call_depth: usize,
    name: Seq<char>,
    has_nested_calls: bool,
    ret_val: Option<String>,
)
    ensures
        TreeLikeDecorator::after_return(m, call_depth, name, has_nested_calls, ret_val) == m,
        TreeLikeDecorator::output_of(TreeLikeDecorator::after_return(m, call_depth, name, has_nested_calls, ret_val))
            == TreeLikeDecorator::output_of(m),
{
}

} // verus!
