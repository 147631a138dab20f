use fcl::call_logger::CallLogInfra;
use fcl::decorators::CodeLikeDecorator;

type Infra = CallLogInfra<CodeLikeDecorator>;

fn new_infra() -> Infra {
    CallLogInfra::new(CodeLikeDecorator::new(None))
}

fn log_of(infra: &Infra) -> String {
    infra.decorator().output_text().to_string()
}

fn call(infra: &mut Infra, name: &str, params: Option<&str>) {
    infra.log_call(name, params.map(|p| p.to_string()));
}

fn ret(infra: &mut Infra) {
    infra.log_ret(None);
}

fn leaf(infra: &mut Infra, name: &str, params: Option<&str>) {
    call(infra, name, params);
    ret(infra);
}

/// A loop of `iterations` loop bodies without nested calls.
fn empty_loop(infra: &mut Infra, iterations: usize) {
    for _ in 0..iterations {
        infra.log_loopbody_start();
        infra.log_loopbody_end();
    }
    infra.log_loop_end();
}

enum CallOptions {
    EmptyLoopBodies { one_loop: bool, iter_count: (usize, usize) },
    SingleEmptySibling { iter_count: (usize, usize) },
    SingleNonEmptySiblingWithEmptyChild { sibling_is_call: bool, child_has_loopbody: bool },
    SingleNonEmptySiblingWithNonEmptyChild,
    RepeatingSibling { call_child: bool },
    LoopBodyWithSingleChild { invocation_count: usize, child_repeats: bool },
    LoopBodyWithDiffChildren { same_child: bool, child_repeats: bool, loop_body_count: usize },
}

/// What the instrumented `parent(calls)` logs. `sibling_a_is_call` tells if the
/// `SingleEmptySibling` option calls the nested `sibling_a()` (it does not in one version).
fn parent(infra: &mut Infra, calls: Option<CallOptions>, sibling_a_is_call: bool) {
    call(infra, "parent", Some("calls: ?"));
    match calls {
        None => {},
        Some(CallOptions::EmptyLoopBodies { one_loop, iter_count: (a, b) }) => {
            empty_loop(infra, a);
            if !one_loop {
                empty_loop(infra, b);
            }
        },
        Some(CallOptions::SingleEmptySibling { iter_count: (a, b) }) => {
            if sibling_a_is_call {
                let params = format!("iter_count_a: {}, iter_count_b: {}", a, b);
                call(infra, "parent()::sibling_a", Some(&params));
                empty_loop(infra, a);
                empty_loop(infra, b);
                ret(infra);
            } else {
                empty_loop(infra, a);
                empty_loop(infra, b);
            }
        },
        Some(CallOptions::SingleNonEmptySiblingWithEmptyChild { sibling_is_call, child_has_loopbody }) => {
            let params = format!("child_has_loopbody: {}", child_has_loopbody);
            let child = |infra: &mut Infra| {
                call(infra, "parent()::child", Some(&params));
                if child_has_loopbody {
                    empty_loop(infra, 2);
                }
                ret(infra);
            };
            if sibling_is_call {
                call(infra, "parent()::sibling", Some(&params));
                child(infra);
                ret(infra);
            } else {
                infra.log_loopbody_start();
                child(infra);
                infra.log_loopbody_end();
                infra.log_loop_end();
            }
        },
        Some(CallOptions::SingleNonEmptySiblingWithNonEmptyChild) => {
            call(infra, "parent()::sibling", None);
            call(infra, "parent()::child", None);
            leaf(infra, "parent()::grandchild", None);
            ret(infra);
            ret(infra);
        },
        Some(CallOptions::RepeatingSibling { call_child }) => {
            let params = format!("call_child: {}", call_child);
            for _ in 0..3 {
                call(infra, "parent()::sibling", Some(&params));
                if call_child {
                    leaf(infra, "parent()::child", None);
                }
                ret(infra);
            }
        },
        Some(CallOptions::LoopBodyWithSingleChild { invocation_count, child_repeats }) => {
            for _ in 0..invocation_count {
                infra.log_loopbody_start();
                leaf(infra, "parent()::child", None);
                if child_repeats {
                    leaf(infra, "parent()::child", None);
                }
                infra.log_loopbody_end();
            }
            infra.log_loop_end();
        },
        Some(CallOptions::LoopBodyWithDiffChildren { same_child, child_repeats, loop_body_count }) => {
            let child_a = |infra: &mut Infra, default_grandchild: bool| {
                let params = format!("default_grandchild: {}", default_grandchild);
                call(infra, "parent()::child_a", Some(&params));
                if default_grandchild {
                    leaf(infra, "parent()::grandchild_a", None);
                } else {
                    leaf(infra, "parent()::grandchild_b", None);
                }
                ret(infra);
            };
            for _ in 0..loop_body_count {
                infra.log_loopbody_start();
                child_a(infra, true);
                if child_repeats {
                    child_a(infra, true);
                }
                if same_child {
                    child_a(infra, false);
                } else {
                    leaf(infra, "parent()::child_b", None);
                }
                if child_repeats {
                    if same_child {
                        child_a(infra, false);
                    } else {
                        leaf(infra, "parent()::child_b", None);
                    }
                }
                infra.log_loopbody_end();
            }
            infra.log_loop_end();
        },
    }
    ret(infra);
}

fn loop_body_with_diff_children(infra: &mut Infra, loop_body_count: usize) {
    for (same_child, child_repeats) in [(true, false), (true, true), (false, false), (false, true)] {
        parent(
            infra,
            Some(CallOptions::LoopBodyWithDiffChildren { same_child, child_repeats, loop_body_count }),
            true,
        );
    }
}

/// The calls of `basics`: `f()`, then `g()` calling `f()` in a loop, then `t::g()` calling
/// `t::f()` three times.
fn run_basics() {
    let mut infra = new_infra();
    leaf(&mut infra, "f", None);
    assert_eq!(log_of(&infra), "f() {}\n");

    infra.take_output();
    call(&mut infra, "g", None);
    for _ in 0..3 {
        infra.log_loopbody_start();
        leaf(&mut infra, "f", None);
        infra.log_loopbody_end();
    }
    infra.log_loop_end();
    ret(&mut infra);
    assert_eq!(
        log_of(&infra),
        [
            "g() {\n",
            "  { // Loop body start.\n",
            "    f() {}\n",
            "  } // Loop body end.\n",
            "  // Loop body repeats 2 time(s).\n",
            "} // g().\n",
        ].concat()
    );

    infra.take_output();
    call(&mut infra, "t::g", None);
    for (p1, p2) in [(0, true), (1, true), (2, false)] {
        let params = format!("p1: {}, p2: {}", p1, p2);
        call(&mut infra, "t::f", Some(&params));
        infra.log_ret(Some(format!("{:?}", -1.01f32)));
    }
    ret(&mut infra);
    assert_eq!(
        log_of(&infra),
        [
            "t::g() {\n",
            "  t::f(p1: 0, p2: true) {} -> -1.01\n",
            "  // t::f() repeats 2 time(s).\n",
            "} // t::g().\n",
        ].concat()
    );
}

#[test]
fn tests_basics() {
    run_basics();
}

#[test]
fn tests_algo_basics_basics() {
    run_basics();
}

#[test]
fn tests_single_nonempty_sibling_with_empty_child() {
    let mut infra = new_infra();
    call(&mut infra, "call_all", None);
    for (sibling_is_call, child_has_loopbody) in [(true, false), (true, true), (false, false), (false, true)] {
        parent(
            &mut infra,
            Some(CallOptions::SingleNonEmptySiblingWithEmptyChild { sibling_is_call, child_has_loopbody }),
            false,
        );
    }
    ret(&mut infra);
    assert_eq!(
        log_of(&infra),
        [
            "call_all() {\n",
            "  parent(calls: ?) {\n",
            "    parent()::sibling(child_has_loopbody: false) {\n",
            "      parent()::child(child_has_loopbody: false) {}\n",
            "    } // parent()::sibling().\n",
            "  } // parent().\n",
            "  // parent() repeats 1 time(s).\n",
            "  parent(calls: ?) {\n",
            "    { // Loop body start.\n",
            "      parent()::child(child_has_loopbody: false) {}\n",
            "    } // Loop body end.\n",
            "  } // parent().\n",
            "  // parent() repeats 1 time(s).\n",
            "} // call_all().\n"
        ].concat()
    );
}

#[test]
fn tests_single_empty_sibling() {
    let mut infra = new_infra();
    call(&mut infra, "call_all", None);
    for iter_count in [(0, 0), (1, 0), (3, 2)] {
        parent(&mut infra, Some(CallOptions::SingleEmptySibling { iter_count }), false);
    }
    ret(&mut infra);
    assert_eq!(
        log_of(&infra),
        [
            "call_all() {\n",
            "  parent(calls: ?) {}\n",
            "  // parent() repeats 2 time(s).\n",
            "} // call_all().\n"
        ].concat()
    );
}

fn run_empty_calls(infra: &mut Infra) {
    parent(infra, None, true);
    for (one_loop, iter_count) in [(true, (1, 0)), (true, (3, 0)), (false, (1, 1)), (false, (3, 1)), (false, (1, 2)), (false, (2, 3))] {
        parent(infra, Some(CallOptions::EmptyLoopBodies { one_loop, iter_count }), true);
    }
}

#[test]
fn tests_empty_calls() {
    let mut infra = new_infra();
    call(&mut infra, "call_all", None);
    run_empty_calls(&mut infra);
    ret(&mut infra);
    assert_eq!(
        log_of(&infra),
        [
            "call_all() {\n",
            "  parent(calls: ?) {}\n",
            "  // parent() repeats 6 time(s).\n",
            "} // call_all().\n"
        ].concat()
    );
}

#[test]
fn tests_algo_basics_empty_calls() {
    let mut infra = new_infra();
    run_empty_calls(&mut infra);
    infra.flush();
    assert_eq!(
        log_of(&infra),
        ["parent(calls: ?) {}\n", "// parent() repeats 6 time(s).\n",].concat()
    );
}

#[test]
fn tests_algo_basics_single_empty_sibling() {
    let mut infra = new_infra();
    for iter_count in [(0, 0), (1, 0), (3, 2)] {
        parent(&mut infra, Some(CallOptions::SingleEmptySibling { iter_count }), true);
    }
    infra.flush();
    assert_eq!(
        log_of(&infra),
        [
            "parent(calls: ?) {\n",
            "  parent()::sibling_a(iter_count_a: 0, iter_count_b: 0) {}\n",
            "} // parent().\n",
            "// parent() repeats 2 time(s).\n"
        ].concat()
    );
}

#[test]
fn tests_algo_basics_single_nonempty_sibling_with_empty_child() {
    let mut infra = new_infra();
    for (sibling_is_call, child_has_loopbody) in [(true, false), (true, true), (false, false), (false, true)] {
        parent(
            &mut infra,
            Some(CallOptions::SingleNonEmptySiblingWithEmptyChild { sibling_is_call, child_has_loopbody }),
            true,
        );
    }
    infra.flush();
    assert_eq!(
        log_of(&infra),
        [
            "parent(calls: ?) {\n",
            "  parent()::sibling(child_has_loopbody: false) {\n",
            "    parent()::child(child_has_loopbody: false) {}\n",
            "  } // parent()::sibling().\n",
            "} // parent().\n",
            "// parent() repeats 1 time(s).\n",
            "parent(calls: ?) {\n",
            "  { // Loop body start.\n",
            "    parent()::child(child_has_loopbody: false) {}\n",
            "  } // Loop body end.\n",
            "} // parent().\n",
            "// parent() repeats 1 time(s).\n",
        ].concat()
    );
}

#[test]
fn single_nonempty_sibling_with_nonempty_child() {
    let mut infra = new_infra();
    parent(&mut infra, Some(CallOptions::SingleNonEmptySiblingWithNonEmptyChild), true);
    assert_eq!(
        log_of(&infra),
        [
            "parent(calls: ?) {\n",
            "  parent()::sibling() {\n",
            "    parent()::child() {\n",
            "      parent()::grandchild() {}\n",
            "    } // parent()::child().\n",
            "  } // parent()::sibling().\n",
            "} // parent().\n",
        ].concat()
    );
}

#[test]
fn repeating_sibling() {
    let mut infra = new_infra();
    parent(&mut infra, Some(CallOptions::RepeatingSibling { call_child: false }), true);
    parent(&mut infra, Some(CallOptions::RepeatingSibling { call_child: true }), true);
    assert_eq!(
        log_of(&infra),
        [
            "parent(calls: ?) {\n",
            "  parent()::sibling(call_child: false) {}\n",
            "  // parent()::sibling() repeats 2 time(s).\n",
            "} // parent().\n",
            "parent(calls: ?) {\n",
            "  parent()::sibling(call_child: true) {\n",
            "    parent()::child() {}\n",
            "  } // parent()::sibling().\n",
            "  // parent()::sibling() repeats 2 time(s).\n",
            "} // parent().\n",
        ].concat()
    );
}

#[test]
fn loop_body_with_single_child() {
    let mut infra = new_infra();
    for invocation_count in [1, 3] {
        parent(&mut infra, Some(CallOptions::LoopBodyWithSingleChild { invocation_count, child_repeats: false }), true);
    }
    assert_eq!(
        log_of(&infra),
        [
            "parent(calls: ?) {\n",
            "  { // Loop body start.\n",
            "    parent()::child() {}\n",
            "  } // Loop body end.\n",
            "} // parent().\n",
            "parent(calls: ?) {\n",
            "  { // Loop body start.\n",
            "    parent()::child() {}\n",
            "  } // Loop body end.\n",
            "  // Loop body repeats 2 time(s).\n",
            "} // parent().\n",
        ].concat()
    );
}

#[test]
fn loop_body_with_repeating_child() {
    let mut infra = new_infra();
    for invocation_count in [1, 3] {
        parent(&mut infra, Some(CallOptions::LoopBodyWithSingleChild { invocation_count, child_repeats: true }), true);
    }
    assert_eq!(
        log_of(&infra),
        [
            "parent(calls: ?) {\n",
            "  { // Loop body start.\n",
            "    parent()::child() {}\n",
            "    // parent()::child() repeats 1 time(s).\n",
            "  } // Loop body end.\n",
            "} // parent().\n",
            "parent(calls: ?) {\n",
            "  { // Loop body start.\n",
            "    parent()::child() {}\n",
            "    // parent()::child() repeats 1 time(s).\n",
            "  } // Loop body end.\n",
            "  // Loop body repeats 2 time(s).\n",
            "} // parent().\n",
        ].concat()
    );
}

#[test]
fn single_loop_body_with_diff_children() {
    let mut infra = new_infra();
    loop_body_with_diff_children(&mut infra, 1);
    assert_eq!(
        log_of(&infra),
        [
            "parent(calls: ?) {\n",
            "  { // Loop body start.\n",
            "    parent()::child_a(default_grandchild: true) {\n",
            "      parent()::grandchild_a() {}\n",
            "    } // parent()::child_a().\n",
            "    parent()::child_a(default_grandchild: false) {\n",
            "      parent()::grandchild_b() {}\n",
            "    } // parent()::child_a().\n",
            "  } // Loop body end.\n",
            "} // parent().\n",
            "parent(calls: ?) {\n",
            "  { // Loop body start.\n",
            "    parent()::child_a(default_grandchild: true) {\n",
            "      parent()::grandchild_a() {}\n",
            "    } // parent()::child_a().\n",
            "    // parent()::child_a() repeats 1 time(s).\n",
            "    parent()::child_a(default_grandchild: false) {\n",
            "      parent()::grandchild_b() {}\n",
            "    } // parent()::child_a().\n",
            "    // parent()::child_a() repeats 1 time(s).\n",
            "  } // Loop body end.\n",
            "} // parent().\n",
            "parent(calls: ?) {\n",
            "  { // Loop body start.\n",
            "    parent()::child_a(default_grandchild: true) {\n",
            "      parent()::grandchild_a() {}\n",
            "    } // parent()::child_a().\n",
            "    parent()::child_b() {}\n",
            "  } // Loop body end.\n",
            "} // parent().\n",
            "parent(calls: ?) {\n",
            "  { // Loop body start.\n",
            "    parent()::child_a(default_grandchild: true) {\n",
            "      parent()::grandchild_a() {}\n",
            "    } // parent()::child_a().\n",
            "    // parent()::child_a() repeats 1 time(s).\n",
            "    parent()::child_b() {}\n",
            "    // parent()::child_b() repeats 1 time(s).\n",
            "  } // Loop body end.\n",
            "} // parent().\n"
        ].concat()
    );
}

#[test]
fn repeating_loop_body_with_diff_children() {
    let mut infra = new_infra();
    loop_body_with_diff_children(&mut infra, 3);
    assert_eq!(
        log_of(&infra),
        [
            "parent(calls: ?) {\n",
            "  { // Loop body start.\n",
            "    parent()::child_a(default_grandchild: true) {\n",
            "      parent()::grandchild_a() {}\n",
            "    } // parent()::child_a().\n",
            "    parent()::child_a(default_grandchild: false) {\n",
            "      parent()::grandchild_b() {}\n",
            "    } // parent()::child_a().\n",
            "  } // Loop body end.\n",
            "  // Loop body repeats 2 time(s).\n",
            "} // parent().\n",
            "parent(calls: ?) {\n",
            "  { // Loop body start.\n",
            "    parent()::child_a(default_grandchild: true) {\n",
            "      parent()::grandchild_a() {}\n",
            "    } // parent()::child_a().\n",
            "    // parent()::child_a() repeats 1 time(s).\n",
            "    parent()::child_a(default_grandchild: false) {\n",
            "      parent()::grandchild_b() {}\n",
            "    } // parent()::child_a().\n",
            "    // parent()::child_a() repeats 1 time(s).\n",
            "  } // Loop body end.\n",
            "  // Loop body repeats 2 time(s).\n",
            "} // parent().\n",
            "parent(calls: ?) {\n",
            "  { // Loop body start.\n",
            "    parent()::child_a(default_grandchild: true) {\n",
            "      parent()::grandchild_a() {}\n",
            "    } // parent()::child_a().\n",
            "    parent()::child_b() {}\n",
            "  } // Loop body end.\n",
            "  // Loop body repeats 2 time(s).\n",
            "} // parent().\n",
            "parent(calls: ?) {\n",
            "  { // Loop body start.\n",
            "    parent()::child_a(default_grandchild: true) {\n",
            "      parent()::grandchild_a() {}\n",
            "    } // parent()::child_a().\n",
            "    // parent()::child_a() repeats 1 time(s).\n",
            "    parent()::child_b() {}\n",
            "    // parent()::child_b() repeats 1 time(s).\n",
            "  } // Loop body end.\n",
            "  // Loop body repeats 2 time(s).\n",
            "} // parent().\n"
        ].concat()
    );
}

#[test]
fn tests_algo_add_call_differs_from_prev_sibling() {
    let mut infra = new_infra();
    leaf(&mut infra, "previous_sibling_with_diff_name", None);
    assert_eq!(log_of(&infra), "previous_sibling_with_diff_name() {}\n");
    let len_before = log_of(&infra).len();
    leaf(&mut infra, "previous_sibling_with_diff_name", None);
    assert_eq!(len_before, log_of(&infra).len());
    assert_eq!(log_of(&infra), "previous_sibling_with_diff_name() {}\n");
    leaf(&mut infra, "call_of_interest", None);
    assert_eq!(
        log_of(&infra),
        [
            "previous_sibling_with_diff_name() {}\n",
            "// previous_sibling_with_diff_name() repeats 1 time(s).\n",
            "call_of_interest() {}\n",
        ].concat()
    );
}
