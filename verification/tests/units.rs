use fcl::call_graph::CallGraph;
use fcl::call_logger::{CallLogInfra, CallLogger, CalleeLogger, LoopbodyLogger, MaybePrint};
use fcl::call_tree::{trees_are_equal, CallNode, ItemKind, Notification};
use fcl::decorators::{CodeLikeDecorator, LogDecorator, ThreadSpecific, TreeLikeDecorator};
use fcl::notifiable::CoderunNotifiable;
use fcl::repeat_count::{decimal_string, RepeatCount, RepeatCountCategory};
use fcl::threads::{own_flush_needed, SyncStep, ThreadIndents, UpdateTracker};
use fcl::writer::{writer_kind, FclWriter, WriterKind};

type Infra = CallLogInfra<CodeLikeDecorator>;

fn new_infra() -> Infra {
    CallLogInfra::new(CodeLikeDecorator::new(None))
}

fn log_of(infra: &Infra) -> String {
    infra.decorator().output_text().to_string()
}

fn leaf(infra: &mut Infra, name: &str) {
    infra.log_call(name, None);
    infra.log_ret(None);
}

fn call_kind(name: &str) -> ItemKind {
    ItemKind::Call { name: name.to_string(), param_vals: None }
}

fn ended(kind: ItemKind, children: Vec<CallNode>) -> CallNode {
    let mut node = CallNode::new(kind);
    node.children = children;
    node.has_ended = true;
    node
}

#[test]
fn repeat_count_counts_and_flushes() {
    let mut rc = RepeatCount::new();
    assert!(rc.non_flushed_is_empty());
    assert_eq!(rc.non_flushed(), RepeatCountCategory::Exact(0));
    rc.inc();
    rc.inc();
    rc.inc();
    assert!(!rc.non_flushed_is_empty());
    assert_eq!(rc.non_flushed(), RepeatCountCategory::Exact(3));
    rc.mark_flushed();
    assert!(rc.non_flushed_is_empty());
    assert_eq!(rc.non_flushed(), RepeatCountCategory::Exact(0));
    rc.inc();
    assert_eq!(rc.non_flushed(), RepeatCountCategory::Exact(1));
}

#[test]
fn repeat_count_comparison_is_by_overall_count() {
    let mut a = RepeatCount::new();
    let mut b = RepeatCount::new();
    a.inc();
    b.inc();
    a.mark_flushed();
    assert!(a.same_overall(&b));
    b.inc();
    assert!(!a.same_overall(&b));
}

#[test]
fn repeat_count_category_text() {
    assert_eq!(RepeatCountCategory::Exact(5).to_string(), "5");
    assert_eq!(RepeatCountCategory::AtLeast(7).to_string(), "7+");
    assert_eq!(RepeatCountCategory::Unknown.to_string(), "?");
    assert_eq!(RepeatCountCategory::Exact(0).to_string(), "0");
}

#[test]
fn decimal_notation() {
    assert_eq!(decimal_string(0), "0");
    assert_eq!(decimal_string(9), "9");
    assert_eq!(decimal_string(10), "10");
    assert_eq!(decimal_string(1234567), "1234567");
    assert_eq!(decimal_string(usize::MAX), format!("{}", usize::MAX));
}

#[test]
fn item_kinds() {
    let call = call_kind("f");
    let body = ItemKind::Loopbody { ends_the_loop: false };
    assert!(call.is_call());
    assert!(!call.is_loopbody());
    assert!(body.is_loopbody());
    assert!(!body.is_call());
    assert_eq!(call.duplicate(), call);
    assert_eq!(body.duplicate(), body);
}

#[test]
fn subtree_comparison() {
    let a = ended(call_kind("f"), vec![ended(call_kind("g"), vec![])]);
    let b = ended(
        ItemKind::Call { name: "f".to_string(), param_vals: Some("x: 1".to_string()) },
        vec![ended(call_kind("g"), vec![])],
    );
    let c = ended(call_kind("f"), vec![ended(call_kind("h"), vec![])]);
    // Reflexive, symmetric; parameters take no part.
    assert!(trees_are_equal(&a, &a, true));
    assert!(trees_are_equal(&a, &b, true));
    assert!(trees_are_equal(&b, &a, true));
    assert!(!trees_are_equal(&a, &c, true));
    // The repeat counts of nested items take part; that of the roots only when asked.
    let mut d = ended(call_kind("f"), vec![ended(call_kind("g"), vec![])]);
    d.repeat_count.inc();
    assert!(trees_are_equal(&a, &d, false));
    assert!(!trees_are_equal(&a, &d, true));
    let mut e = ended(call_kind("f"), vec![ended(call_kind("g"), vec![])]);
    e.children[0].repeat_count.inc();
    assert!(!trees_are_equal(&a, &e, false));
    // A loop body never equals a call.
    let body = ended(ItemKind::Loopbody { ends_the_loop: false }, vec![]);
    assert!(!trees_are_equal(&a, &body, false));
}

#[test]
fn code_like_decorator_output() {
    let mut d = CodeLikeDecorator::new(None);
    d.notify_call(0, "f", &Some("x: 1".to_string()));
    assert_eq!(d.output_text(), "f(x: 1) {");
    d.notify_call(1, "g", &None);
    d.notify_return(1, "g", false, &Some("5".to_string()));
    d.notify_repeat_count(1, &call_kind("g"), RepeatCountCategory::Exact(2));
    d.notify_loopbody_start(1);
    d.notify_call(2, "h", &None);
    d.notify_return(2, "h", false, &None);
    d.notify_loopbody_end(1);
    d.notify_repeat_count(1, &ItemKind::Loopbody { ends_the_loop: true }, RepeatCountCategory::AtLeast(3));
    d.notify_return(0, "f", true, &None);
    assert_eq!(
        d.take_output(),
        [
            "f(x: 1) {\n",
            "  g() {} -> 5\n",
            "  // g() repeats 2 time(s).\n",
            "  { // Loop body start.\n",
            "    h() {}\n",
            "  } // Loop body end.\n",
            "  // Loop body repeats 3+ time(s).\n",
            "} // f().\n",
        ]
        .concat()
    );
    assert_eq!(d.output_text(), "");
}

#[test]
fn code_like_decorator_flush_ends_the_pending_line() {
    let mut d = CodeLikeDecorator::new(None);
    d.notify_call(0, "f", &None);
    d.notify_flush();
    assert_eq!(d.output_text(), "f() {\n");
    d.notify_flush();
    assert_eq!(d.output_text(), "f() {\n");
    d.notify_return(0, "f", false, &None);
    assert_eq!(d.output_text(), "f() {\n} // f().\n");
}

#[test]
fn code_like_decorator_indents() {
    let mut d = CodeLikeDecorator::new(Some("\t"));
    d.set_thread_indent("    ".to_string());
    assert_eq!(d.get_indent_string(3), "\t\t\t");
    assert_eq!(d.get_indents(2), ("    ".to_string(), "\t\t".to_string()));
    d.notify_call(2, "f", &None);
    d.notify_call(3, "g", &None);
    d.notify_return(3, "g", false, &None);
    d.notify_return(2, "f", true, &None);
    assert_eq!(d.output_text(), "    \t\tf() {\n    \t\t\tg() {}\n    \t\t} // f().\n");
}

#[test]
fn tree_like_decorator_output() {
    let mut d = TreeLikeDecorator::new(None, None, None);
    d.notify_call(0, "f", &None);
    d.notify_call(1, "h", &Some("1".to_string()));
    d.notify_repeat_count(1, &call_kind("h"), RepeatCountCategory::Exact(99));
    d.notify_loopbody_start(0);
    d.notify_call(1, "k", &None);
    d.notify_repeat_count(0, &ItemKind::Loopbody { ends_the_loop: true }, RepeatCountCategory::Unknown);
    assert_eq!(
        d.output_text(),
        [
            "+-f\n",
            "| +-h(1)\n",
            "|   h repeats 99 time(s).\n",
            "+-Loop body\n",
            "| +-k\n",
            "  Loop body repeats ? time(s).\n",
        ]
        .concat()
    );
}

#[test]
fn tree_like_decorator_custom_steps() {
    let mut d = TreeLikeDecorator::new(Some("*"), Some("."), Some("--"));
    d.set_thread_indent(">".to_string());
    assert_eq!(d.get_indent_string(2), "----");
    assert_eq!(d.get_indents(1), (">".to_string(), "--".to_string()));
    d.notify_call(1, "f", &None);
    d.notify_repeat_count(1, &call_kind("f"), RepeatCountCategory::Exact(1));
    assert_eq!(d.take_output(), ">--*f\n>--.f repeats 1 time(s).\n");
}

#[test]
fn thread_indents_check_out_the_lowest_vacant() {
    let mut indents = ThreadIndents::new(Some("..".to_string()));
    let (id0, indent0) = indents.check_out();
    let (id1, indent1) = indents.check_out();
    let (id2, indent2) = indents.check_out();
    assert_eq!((id0, id1, id2), (0, 1, 2));
    assert_eq!(indent0, "");
    assert_eq!(indent1, "..");
    assert_eq!(indent2, "....");
    indents.check_in(1);
    let (reused, indent) = indents.check_out();
    assert_eq!(reused, 1);
    assert_eq!(indent, "..");
    assert_eq!(indents.idx_to_string(3), "......");
}

#[test]
fn thread_indents_grow_beyond_the_initial_four() {
    let mut indents = ThreadIndents::new(None);
    for expected in 0..6 {
        let (id, _) = indents.check_out();
        assert_eq!(id, expected);
    }
    assert_eq!(indents.idx_to_string(1), " ".repeat(50));
}

#[test]
fn update_tracker_tells_what_to_flush() {
    let mut tracker = UpdateTracker::new();
    assert_eq!(tracker.sync_step(7), SyncStep::FirstUpdate);
    tracker.record_update(7);
    assert_eq!(tracker.sync_step(7), SyncStep::SameThread);
    assert_eq!(tracker.sync_step(8), SyncStep::OtherThread(7));
    tracker.thread_removed(8);
    assert_eq!(tracker.sync_step(8), SyncStep::OtherThread(7));
    tracker.thread_removed(7);
    assert_eq!(tracker.sync_step(8), SyncStep::FirstUpdate);
    assert!(!own_flush_needed(false, false, false));
    assert!(own_flush_needed(true, false, false));
    assert!(own_flush_needed(false, true, false));
    assert!(own_flush_needed(false, false, true));
}

#[test]
fn writer_kinds() {
    assert_eq!(writer_kind::<Vec<u8>>(&None), WriterKind::Stdout);
    assert_eq!(writer_kind::<Vec<u8>>(&Some(FclWriter::Stdout)), WriterKind::Stdout);
    assert_eq!(writer_kind::<Vec<u8>>(&Some(FclWriter::Stderr)), WriterKind::Stderr);
    assert_eq!(writer_kind(&Some(FclWriter::Other(Vec::<u8>::new()))), WriterKind::Other);
}

#[test]
fn on_off_stack() {
    let mut infra = new_infra();
    assert!(infra.logging_is_on());
    infra.push_logging_is_on(false);
    assert!(!infra.logging_is_on());
    infra.push_logging_is_on(true);
    assert!(infra.logging_is_on());
    infra.pop_logging_is_on();
    assert!(!infra.logging_is_on());
    infra.set_logging_is_on(true);
    assert!(infra.logging_is_on());
    infra.pop_logging_is_on();
    assert!(infra.logging_is_on());
    // Popping an empty stack changes nothing; setting on an empty stack pushes.
    infra.pop_logging_is_on();
    assert!(infra.logging_is_on());
    infra.set_logging_is_on(false);
    assert!(!infra.logging_is_on());
    infra.pop_logging_is_on();
    assert!(infra.logging_is_on());
}

#[test]
fn logger_ignores_unmatched_ends() {
    let mut infra = new_infra();
    CallLogger::log_ret(&mut infra, None);
    CallLogger::log_loopbody_end(&mut infra);
    assert_eq!(infra.call_depth(), 0);
    assert_eq!(log_of(&infra), "");
    CallLogger::log_call(&mut infra, "f", None);
    CallLogger::log_loopbody_end(&mut infra);
    assert_eq!(infra.call_depth(), 1);
    CallLogger::log_ret(&mut infra, None);
    assert_eq!(infra.call_depth(), 0);
    assert_eq!(log_of(&infra), "f() {}\n");
}

#[test]
fn callee_and_loopbody_loggers() {
    let mut infra = new_infra();
    let mut f = CalleeLogger::new(&mut infra, "f", Some("n: 2".to_string()));
    for _ in 0..2 {
        let body = LoopbodyLogger::new(&mut infra);
        let g = CalleeLogger::new(&mut infra, "g", None);
        g.finish(&mut infra);
        body.finish(&mut infra);
    }
    CallLogger::log_loop_end(&mut infra);
    f.set_ret_val("4".to_string());
    f.finish(&mut infra);
    assert_eq!(
        log_of(&infra),
        [
            "f(n: 2) {\n",
            "  { // Loop body start.\n",
            "    g() {}\n",
            "  } // Loop body end.\n",
            "  // Loop body repeats 1 time(s).\n",
            "} -> 4 // f().\n",
        ]
        .concat()
    );
}

#[test]
fn default_text_of_a_value() {
    assert_eq!(5.maybe_print(), "?");
    assert_eq!("text".maybe_print(), "?");
}

#[test]
fn thread_indent_in_the_log() {
    let mut infra = new_infra();
    infra.set_thread_indent("    ".to_string());
    infra.log_call("f", None);
    infra.log_call("g", None);
    infra.log_ret(None);
    infra.log_ret(None);
    assert_eq!(log_of(&infra), "    f() {\n      g() {}\n    } // f().\n");
    assert_eq!(infra.take_output(), "    f() {\n      g() {}\n    } // f().\n");
    assert_eq!(log_of(&infra), "");
}

#[test]
fn graph_notifications() {
    let mut g = CallGraph::new();
    assert_eq!(g.call_depth(), 0);
    assert!(!g.caching_is_active());
    let events = g.add_call("f", Some("x: 1".to_string()));
    assert_eq!(
        events,
        vec![Notification::Call { call_depth: 0, name: "f".to_string(), param_vals: Some("x: 1".to_string()) }]
    );
    assert_eq!(g.call_depth(), 1);
    assert!(g.current_is_call());
    let events = g.add_ret(Some("2".to_string()));
    assert_eq!(
        events,
        vec![Notification::Return {
            call_depth: 0,
            name: "f".to_string(),
            has_nested_calls: false,
            ret_val: Some("2".to_string()),
        }]
    );
    // A repetition is cached, then counted, and told upon a flush.
    assert!(g.add_call("f", None).is_empty());
    assert!(g.caching_is_active());
    assert!(g.add_ret(None).is_empty());
    assert!(!g.caching_is_active());
    assert_eq!(
        g.flush(true),
        vec![
            Notification::Repeats {
                call_depth: 0,
                kind: ItemKind::Call { name: "f".to_string(), param_vals: Some("x: 1".to_string()) },
                count: RepeatCountCategory::Exact(1),
            },
            Notification::Flush,
        ]
    );
}

#[test]
fn graph_loop_body_start_is_held_back() {
    let mut g = CallGraph::new();
    assert!(g.add_loopbody_start().is_empty());
    assert!(g.current_is_loopbody());
    assert!(g.caching_is_active());
    let events = g.add_call("f", None);
    assert_eq!(
        events,
        vec![
            Notification::LoopbodyStart { call_depth: 0 },
            Notification::Call { call_depth: 1, name: "f".to_string(), param_vals: None },
        ]
    );
    assert!(!g.caching_is_active());
}

// Examples of the laws, on concrete values.

#[test]
fn return_undoes_call_example() {
    let mut infra = new_infra();
    infra.log_call("outer", None);
    let depth = infra.call_depth();
    infra.log_call("inner", None);
    assert_eq!(infra.call_depth(), depth + 1);
    infra.log_ret(None);
    assert_eq!(infra.call_depth(), depth);
}

#[test]
fn empty_loopbody_leaves_no_trace_example() {
    let mut infra = new_infra();
    infra.log_call("f", None);
    let before = log_of(&infra);
    for _ in 0..3 {
        infra.log_loopbody_start();
        infra.log_loopbody_end();
    }
    infra.log_loop_end();
    assert_eq!(log_of(&infra), before);
    assert_eq!(infra.call_depth(), 1);
    infra.log_ret(None);
    assert_eq!(log_of(&infra), "f() {}\n");
}

#[test]
fn repeated_call_is_counted_example() {
    let mut infra = new_infra();
    for _ in 0..4 {
        leaf(&mut infra, "f");
    }
    assert_eq!(log_of(&infra), "f() {}\n");
    leaf(&mut infra, "g");
    assert_eq!(log_of(&infra), "f() {}\n// f() repeats 3 time(s).\ng() {}\n");
}

#[test]
fn loop_end_separates_loops_example() {
    let mut infra = new_infra();
    infra.log_call("f", None);
    infra.log_loopbody_start();
    leaf(&mut infra, "g");
    infra.log_loopbody_end();
    infra.log_loop_end();
    infra.log_loopbody_start();
    leaf(&mut infra, "g");
    infra.log_loopbody_end();
    infra.log_loop_end();
    infra.log_ret(None);
    assert_eq!(
        log_of(&infra),
        [
            "f() {\n",
            "  { // Loop body start.\n",
            "    g() {}\n",
            "  } // Loop body end.\n",
            "  { // Loop body start.\n",
            "    g() {}\n",
            "  } // Loop body end.\n",
            "} // f().\n",
        ]
        .concat()
    );
}

#[test]
fn second_flush_logs_nothing_example() {
    let mut infra = new_infra();
    leaf(&mut infra, "f");
    leaf(&mut infra, "f");
    infra.log_call("f", None);
    infra.flush();
    let after_first = log_of(&infra);
    assert_eq!(after_first, "f() {}\n// f() repeats 1 time(s).\nf() {\n");
    infra.flush();
    assert_eq!(log_of(&infra), after_first);
}

#[test]
fn interrupted_log_shows_the_next_call_in_full() {
    let mut infra = new_infra();
    leaf(&mut infra, "f");
    infra.flush();
    leaf(&mut infra, "f");
    assert_eq!(log_of(&infra), "f() {}\nf() {}\n");
    leaf(&mut infra, "f");
    infra.flush();
    assert_eq!(log_of(&infra), "f() {}\nf() {}\n// f() repeats 1 time(s).\n");
}

#[test]
fn interruption_survives_an_empty_loop_body() {
    let mut infra = new_infra();
    leaf(&mut infra, "f");
    infra.flush();
    infra.log_loopbody_start();
    infra.log_loopbody_end();
    infra.log_loop_end();
    leaf(&mut infra, "f");
    assert_eq!(log_of(&infra), "f() {}\nf() {}\n");
}

#[test]
fn tree_equality_is_an_equivalence_example() {
    let a = ended(call_kind("f"), vec![ended(call_kind("g"), vec![])]);
    let b = ended(call_kind("f"), vec![ended(call_kind("g"), vec![])]);
    let c = ended(call_kind("f"), vec![ended(call_kind("g"), vec![])]);
    assert!(trees_are_equal(&a, &a, true));
    assert!(trees_are_equal(&a, &b, true) && trees_are_equal(&b, &a, true));
    assert!(trees_are_equal(&b, &c, true) && trees_are_equal(&a, &c, true));
}

#[test]
fn marked_count_tells_nothing_example() {
    let mut rc = RepeatCount::new();
    rc.inc();
    rc.inc();
    rc.mark_flushed();
    assert!(rc.non_flushed_is_empty());
    rc.inc();
    assert_eq!(rc.non_flushed(), RepeatCountCategory::Exact(1));
}

#[test]
fn tree_like_log_of_a_call_tree() {
    let mut infra = CallLogInfra::new(TreeLikeDecorator::new(None, None, None));
    infra.log_call("f", None);
    for _ in 0..3 {
        infra.log_call("g", None);
        infra.log_ret(None);
    }
    infra.log_loopbody_start();
    infra.log_call("h", Some("1".to_string()));
    infra.log_ret(None);
    infra.log_loopbody_end();
    infra.log_loop_end();
    infra.log_ret(None);
    assert_eq!(
        infra.decorator().output_text(),
        [
            "+-f\n",
            "| +-g\n",
            "|   g repeats 2 time(s).\n",
            "| +-Loop body\n",
            "| | +-h(1)\n",
        ]
        .concat()
    );
}

#[test]
fn repeat_count_before_a_loop_is_logged() {
    let mut infra = new_infra();
    infra.log_call("f", None);
    leaf(&mut infra, "g");
    leaf(&mut infra, "g");
    infra.log_loopbody_start();
    infra.flush();
    assert_eq!(
        log_of(&infra),
        ["f() {\n", "  g() {}\n", "  // g() repeats 1 time(s).\n", "  { // Loop body start.\n"].concat()
    );
    leaf(&mut infra, "h");
    infra.log_loopbody_end();
    infra.log_loop_end();
    leaf(&mut infra, "g");
    leaf(&mut infra, "g");
    infra.log_loopbody_start();
    leaf(&mut infra, "h");
    infra.log_loopbody_end();
    infra.log_loop_end();
    infra.log_ret(None);
    assert_eq!(
        log_of(&infra),
        [
            "f() {\n",
            "  g() {}\n",
            "  // g() repeats 1 time(s).\n",
            "  { // Loop body start.\n",
            "    h() {}\n",
            "  } // Loop body end.\n",
            "  g() {}\n",
            "  // g() repeats 1 time(s).\n",
            "  { // Loop body start.\n",
            "    h() {}\n",
            "  } // Loop body end.\n",
            "} // f().\n",
        ]
        .concat()
    );
}

#[test]
fn cached_call_keeps_returned_values() {
    let mut infra = new_infra();
    infra.log_call("g", Some("ret_some: true, p: 1".to_string()));
    infra.log_call("g::closure{1,1:1,9}", Some("x: 1".to_string()));
    infra.log_ret(Some("0".to_string()));
    infra.log_ret(Some("Some(0)".to_string()));
    let first = [
        "g(ret_some: true, p: 1) {\n",
        "  g::closure{1,1:1,9}(x: 1) {} -> 0\n",
        "} -> Some(0) // g().\n",
    ]
    .concat();
    assert_eq!(log_of(&infra), first);
    // The same name: cached until its subtree turns out different, then logged with the values.
    infra.log_call("g", Some("..".to_string()));
    infra.log_call("g::closure{..}", Some("..".to_string()));
    infra.log_ret(Some("0".to_string()));
    assert_eq!(log_of(&infra), first);
    infra.log_ret(Some("Some(0)".to_string()));
    assert_eq!(
        log_of(&infra),
        [first.as_str(), "g(..) {\n", "  g::closure{..}(..) {} -> 0\n", "} -> Some(0) // g().\n"].concat()
    );
}

#[test]
fn cached_call_keeps_returned_value_through_a_flush() {
    let mut infra = new_infra();
    leaf(&mut infra, "f");
    infra.log_call("f", None);
    infra.log_call("g", None);
    infra.log_ret(Some("7".to_string()));
    infra.flush();
    assert_eq!(log_of(&infra), "f() {}\nf() {\n  g() {} -> 7\n");
}

fn two_e_calls(infra: &mut Infra, flush_inside: bool) {
    for round in 0..2 {
        infra.log_call("e", None);
        leaf(infra, "g");
        if flush_inside && round == 0 {
            infra.flush();
        }
        leaf(infra, "g");
        infra.log_ret(None);
    }
    infra.flush();
}

#[test]
fn flush_keeps_the_call_tree_example() {
    let mut plain = new_infra();
    two_e_calls(&mut plain, false);
    let mut flushed = new_infra();
    two_e_calls(&mut flushed, true);
    assert_eq!(
        log_of(&plain),
        ["e() {\n", "  g() {}\n", "  // g() repeats 1 time(s).\n", "} // e().\n", "// e() repeats 1 time(s).\n"].concat()
    );
    // The flush shows the second `g()` in full, yet the tree is the same: the second `e()`
    // still folds into the first.
    assert_eq!(
        log_of(&flushed),
        ["e() {\n", "  g() {}\n", "  g() {}\n", "} // e().\n", "// e() repeats 1 time(s).\n"].concat()
    );
}

#[test]
fn same_name_call_after_a_flush_is_logged_in_full() {
    let mut infra = new_infra();
    leaf(&mut infra, "f");
    infra.flush();
    infra.take_output();
    // After the flush, whatever else came into the log must be followed by the call itself.
    infra.log_call("f", None);
    assert_eq!(log_of(&infra), "f() {");
    // It still folds into the first `f()`, with the repeat taken as shown.
    infra.log_ret(None);
    assert_eq!(log_of(&infra), "f() {}\n");
    // The next one is cached and counted as usual.
    leaf(&mut infra, "f");
    assert_eq!(log_of(&infra), "f() {}\n");
    infra.flush();
    assert_eq!(log_of(&infra), "f() {}\n// f() repeats 1 time(s).\n");
}

#[test]
fn flush_notifies_once_example() {
    let mut g = CallGraph::new();
    g.add_call("f", None);
    g.add_ret(None);
    g.add_call("f", None);
    g.add_ret(None);
    let events = g.flush(true);
    assert_eq!(events.iter().filter(|e| matches!(e, Notification::Flush)).count(), 1);
    assert!(matches!(events.last(), Some(Notification::Flush)));
    assert_eq!(events.len(), 2);
    g.add_call("g", None);
    let events = g.flush(false);
    assert!(events.iter().all(|e| !matches!(e, Notification::Flush)));
}
