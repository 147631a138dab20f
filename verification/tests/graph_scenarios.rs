use fcl::call_logger::CallLogInfra;
use fcl::decorators::CodeLikeDecorator;

type Infra = CallLogInfra<CodeLikeDecorator>;

fn new_infra() -> Infra {
    CallLogInfra::new(CodeLikeDecorator::new(None))
}

fn log_of(infra: &Infra) -> String {
    infra.decorator().output_text().to_string()
}

fn call(infra: &mut Infra, name: &str, params: Option<&str>) {
    infra.log_call(name, params.map(|p| p.to_string()));
}

fn ret(infra: &mut Infra) {
    infra.log_ret(None);
}

fn leaf(infra: &mut Infra, name: &str, params: Option<&str>) {
    call(infra, name, params);
    ret(infra);
}

/// The parameter text of a `log: Rc<RefCell<Vec<u8>>>` parameter holding the log so far.
fn log_param(infra: &Infra) -> String {
    format!("log: RefCell {{ value: {:?} }}", log_of(infra).as_bytes())
}

#[test]
fn add_call_differs_from_prev_sibling() {
    let mut infra = new_infra();
    leaf(&mut infra, "previous_sibling_with_diff_name", None);
    assert_eq!(log_of(&infra), "previous_sibling_with_diff_name() {}\n");
    leaf(&mut infra, "previous_sibling_with_diff_name", None);
    assert_eq!(log_of(&infra), "previous_sibling_with_diff_name() {}\n");
    leaf(&mut infra, "call_of_interest", None);
    assert_eq!(
        log_of(&infra),
        [
            "previous_sibling_with_diff_name() {}\n",
            "// previous_sibling_with_diff_name() repeats 1 time(s).\n",
            "call_of_interest() {}\n",
        ]
        .concat()
    );
}

#[test]
fn caching_and_flush() {
    let mut infra = new_infra();
    leaf(&mut infra, "call", None);
    assert_eq!(log_of(&infra), "call() {}\n");
    leaf(&mut infra, "call", None);
    assert_eq!(log_of(&infra), "call() {}\n");
    leaf(&mut infra, "call", None);
    assert_eq!(log_of(&infra), "call() {}\n");
    infra.flush();
    assert_eq!(log_of(&infra), ["call() {}\n", "// call() repeats 2 time(s).\n"].concat());
}

#[test]
fn flush_loopbodys_repeat_count() {
    let mut infra = new_infra();
    let params = log_param(&infra);
    call(&mut infra, "instrumented_loopbody_container", Some(&params));
    for _ in 0..3 {
        infra.log_loopbody_start();
        leaf(&mut infra, "some_call", None);
        infra.log_loopbody_end();
    }
    assert_eq!(
        log_of(&infra),
        [
            "instrumented_loopbody_container(log: RefCell { value: [] }) {\n",
            "  { // Loop body start.\n",
            "    some_call() {}\n",
            "  } // Loop body end.\n",
        ]
        .concat()
    );
    leaf(&mut infra, "call", None);
    assert_eq!(
        log_of(&infra),
        [
            "instrumented_loopbody_container(log: RefCell { value: [] }) {\n",
            "  { // Loop body start.\n",
            "    some_call() {}\n",
            "  } // Loop body end.\n",
            "  // Loop body repeats 2 time(s).\n",
            "  call() {}\n",
        ]
        .concat()
    );
    ret(&mut infra);
}

#[test]
fn flush_initial_loopbody() {
    let mut infra = new_infra();
    let params = log_param(&infra);
    call(&mut infra, "instrumented_loopbody_container", Some(&params));
    let mut expected_call = String::new();
    for index0 in 0..2usize {
        infra.log_loopbody_start();
        if index0 == 0 {
            assert_eq!(log_of(&infra), "instrumented_loopbody_container(log: RefCell { value: [] }) {");
        }
        for index1 in 0..3usize {
            infra.log_loopbody_start();
            if index0 == 0 && index1 == 0 {
                assert_eq!(log_of(&infra), "instrumented_loopbody_container(log: RefCell { value: [] }) {");
            }
            let params = format!("{}, indices: {:?}", log_param(&infra), (index0, index1));
            if index0 == 0 && index1 == 0 {
                expected_call = format!("      call({}) {{", params);
            }
            call(&mut infra, "call", Some(&params));
            if index0 == 0 && index1 == 0 {
                assert_eq!(
                    log_of(&infra),
                    [
                        "instrumented_loopbody_container(log: RefCell { value: [] }) {\n",
                        "  { // Loop body start.\n",
                        "    { // Loop body start.\n",
                        "      call(log: RefCell { value: [105, 110, 115, 116, 114, 117, 109, 101, 110, 116, 101, 100, 95, ",
                        "108, 111, 111, 112, 98, 111, 100, 121, 95, 99, 111, 110, 116, 97, ",
                        "105, 110, 101, 114, 40, 108, 111, 103, 58, 32, 82, 101, 102, 67, ",
                        "101, 108, 108, 32, 123, 32, 118, 97, 108, 117, 101, 58, 32, 91, ",
                        "93, 32, 125, 41, 32, 123] }, ",
                        "indices: (0, 0)) {",
                    ]
                    .concat()
                );
            }
            ret(&mut infra);
            infra.log_loopbody_end();
        }
        infra.log_loop_end();
        infra.log_loopbody_end();
    }
    infra.log_loop_end();
    ret(&mut infra);
    assert_eq!(
        log_of(&infra),
        [
            "instrumented_loopbody_container(log: RefCell { value: [] }) {\n",
            "  { // Loop body start.\n",
            "    { // Loop body start.\n",
            &expected_call,
            "}\n",
            "    } // Loop body end.\n",
            "    // Loop body repeats 2 time(s).\n",
            "  } // Loop body end.\n",
            "  // Loop body repeats 1 time(s).\n",
            "} // instrumented_loopbody_container().\n",
        ]
        .concat()
    );
}

#[test]
fn loop_body_end() {
    let mut infra = new_infra();
    let before_iter_1_2 = [
        "loop_instrumenter(..) {\n",
        "  { // Loop body start.\n",
        "    child() {}\n",
        "    // child() repeats 2 time(s).\n",
        "  } // Loop body end.\n",
    ]
    .concat();
    call(&mut infra, "loop_instrumenter", Some(".."));
    for iter_count in 0..4usize {
        match iter_count {
            1 | 2 => assert_eq!(log_of(&infra), before_iter_1_2),
            3 => assert_eq!(
                log_of(&infra),
                [
                    "loop_instrumenter(..) {\n",
                    "  { // Loop body start.\n",
                    "    child() {}\n",
                    "    // child() repeats 2 time(s).\n",
                    "  } // Loop body end.\n",
                    "  // Loop body repeats 1 time(s).\n",
                    "  { // Loop body start.\n",
                    "    child() {}\n",
                    "    // child() repeats 3 time(s).\n",
                    "  } // Loop body end.\n",
                ]
                .concat()
            ),
            _ => {},
        }
        infra.log_loopbody_start();
        for _ in 0..3 {
            leaf(&mut infra, "child", None);
        }
        if iter_count == 2 {
            leaf(&mut infra, "child", None);
        }
        match iter_count {
            0 => assert_eq!(
                log_of(&infra),
                ["loop_instrumenter(..) {\n", "  { // Loop body start.\n", "    child() {}\n"].concat()
            ),
            2 => assert_eq!(log_of(&infra), before_iter_1_2),
            _ => {},
        }
        infra.log_loopbody_end();
    }
    infra.log_loop_end();
    ret(&mut infra);
}

#[test]
fn loop_in_cached_func() {
    let mut infra = new_infra();
    let first = [
        "loop_instrumenter(..) {\n",
        "  { // Loop body start.\n",
        "    f() {}\n",
        "  } // Loop body end.\n",
    ]
    .concat();
    for call_count in 0..3usize {
        call(&mut infra, "loop_instrumenter", Some(".."));
        let mut loop_count = 0;
        loop {
            infra.log_loopbody_start();
            if loop_count == 1 && call_count != 2 {
                leaf(&mut infra, "f", None);
            }
            loop_count += 1;
            infra.log_loopbody_end();
            if loop_count > 4 {
                break;
            }
        }
        infra.log_loop_end();
        match call_count {
            0 => assert_eq!(log_of(&infra), first),
            _ => assert_eq!(log_of(&infra), [first.as_str(), "} // loop_instrumenter().\n"].concat()),
        }
        ret(&mut infra);
    }
    assert_eq!(
        log_of(&infra),
        [
            first.as_str(),
            "} // loop_instrumenter().\n",
            "// loop_instrumenter() repeats 1 time(s).\n",
            "loop_instrumenter(..) {}\n",
        ]
        .concat()
    );
}

#[test]
fn loop_after_loop() {
    let mut infra = new_infra();
    call(&mut infra, "loop_instrumenter", Some(".."));
    for while_count in 0..5 {
        infra.log_loopbody_start();
        if while_count == 1 || while_count == 3 {
            leaf(&mut infra, "f", Some(".."));
        }
        infra.log_loopbody_end();
    }
    infra.log_loop_end();
    assert_eq!(
        log_of(&infra),
        [
            "loop_instrumenter(..) {\n",
            "  { // Loop body start.\n",
            "    f(..) {}\n",
            "  } // Loop body end.\n",
            "  // Loop body repeats 1 time(s).\n",
        ]
        .concat()
    );
    infra.take_output();
    for while_count in 0..6 {
        infra.log_loopbody_start();
        if while_count < 3 {
            assert_eq!(log_of(&infra), "");
        } else {
            call(&mut infra, "f", Some(".."));
            if while_count == 3 {
                assert_eq!(log_of(&infra), ["  { // Loop body start.\n", "    f(..) {"].concat());
            }
            ret(&mut infra);
        }
        infra.log_loopbody_end();
    }
    infra.log_loop_end();
    assert_eq!(
        log_of(&infra),
        [
            "  { // Loop body start.\n",
            "    f(..) {}\n",
            "  } // Loop body end.\n",
            "  // Loop body repeats 2 time(s).\n",
        ]
        .concat()
    );
    ret(&mut infra);
}

fn loopbody_after_call_instrumenter(infra: &mut Infra, test_nested_loop: bool) {
    call(infra, "loop_instrumenter", Some(".."));
    for while_count in 0..7 {
        infra.log_loopbody_start();
        match while_count {
            0..=2 => assert_eq!(log_of(infra), "loop_instrumenter(..) {"),
            3 => {
                if !test_nested_loop {
                    call(infra, "f", Some(".."));
                    assert_eq!(
                        log_of(infra),
                        ["loop_instrumenter(..) {\n", "  { // Loop body start.\n", "    f(..) {"].concat()
                    );
                    ret(infra);
                } else {
                    let mut loop_count = 0;
                    loop {
                        infra.log_loopbody_start();
                        match loop_count {
                            0..=2 => assert_eq!(log_of(infra), "loop_instrumenter(..) {"),
                            3 => {
                                call(infra, "f", Some(".."));
                                assert_eq!(
                                    log_of(infra),
                                    [
                                        "loop_instrumenter(..) {\n",
                                        "  { // Loop body start.\n",
                                        "    { // Loop body start.\n",
                                        "      f(..) {",
                                    ]
                                    .concat()
                                );
                                ret(infra);
                            },
                            _ => assert_eq!(
                                log_of(infra),
                                [
                                    "loop_instrumenter(..) {\n",
                                    "  { // Loop body start.\n",
                                    "    { // Loop body start.\n",
                                    "      f(..) {}\n",
                                    "    } // Loop body end.\n",
                                ]
                                .concat()
                            ),
                        }
                        loop_count += 1;
                        infra.log_loopbody_end();
                        if loop_count > 6 {
                            break;
                        }
                    }
                    infra.log_loop_end();
                }
            },
            _ => {
                let expected = if !test_nested_loop {
                    [
                        "loop_instrumenter(..) {\n",
                        "  { // Loop body start.\n",
                        "    f(..) {}\n",
                        "  } // Loop body end.\n",
                    ]
                    .concat()
                } else {
                    [
                        "loop_instrumenter(..) {\n",
                        "  { // Loop body start.\n",
                        "    { // Loop body start.\n",
                        "      f(..) {}\n",
                        "    } // Loop body end.\n",
                        "  } // Loop body end.\n",
                    ]
                    .concat()
                };
                assert_eq!(log_of(infra), expected);
            },
        }
        infra.log_loopbody_end();
    }
    infra.log_loop_end();
    ret(infra);
}

#[test]
fn loopbody_after_call() {
    let mut infra = new_infra();
    loopbody_after_call_instrumenter(&mut infra, false);
    infra.flush();
    infra.take_output();
    loopbody_after_call_instrumenter(&mut infra, true);
    infra.flush();
}

fn loopbody_after_loopbody_instrumenter(infra: &mut Infra, different_iterations: bool) {
    call(infra, "loop_instrumenter", Some(".."));
    let mut iter_count_sum = 0;
    for iter_count in 0..6 {
        infra.log_loopbody_start();
        iter_count_sum += iter_count;
        if iter_count == 1 {
            leaf(infra, "f", None);
        } else if iter_count == 2 {
            assert_eq!(
                log_of(infra),
                [
                    "loop_instrumenter(..) {\n",
                    "  { // Loop body start.\n",
                    "    f() {}\n",
                    "  } // Loop body end.\n",
                ]
                .concat()
            );
        } else if iter_count == 4 {
            assert_eq!(
                log_of(infra),
                [
                    "loop_instrumenter(..) {\n",
                    "  { // Loop body start.\n",
                    "    f() {}\n",
                    "  } // Loop body end.\n",
                ]
                .concat()
            );
            leaf(infra, "f", None);
            if different_iterations {
                leaf(infra, "f", None);
            }
        }
        infra.log_loopbody_end();
    }
    infra.log_loop_end();
    if different_iterations {
        assert_eq!(
            log_of(infra),
            [
                "loop_instrumenter(..) {\n",
                "  { // Loop body start.\n",
                "    f() {}\n",
                "  } // Loop body end.\n",
                "  { // Loop body start.\n",
                "    f() {}\n",
                "    // f() repeats 1 time(s).\n",
                "  } // Loop body end.\n",
            ]
            .concat()
        );
    } else {
        assert_eq!(
            log_of(infra),
            [
                "loop_instrumenter(..) {\n",
                "  { // Loop body start.\n",
                "    f() {}\n",
                "  } // Loop body end.\n",
                "  // Loop body repeats 1 time(s).\n",
            ]
            .concat()
        );
    }
    assert_eq!(iter_count_sum, 15);
    ret(infra);
}

#[test]
fn loopbody_after_loopbody() {
    let mut infra = new_infra();
    loopbody_after_loopbody_instrumenter(&mut infra, false);
    infra.flush();
    infra.take_output();
    loopbody_after_loopbody_instrumenter(&mut infra, true);
    infra.flush();
}

#[test]
fn adjacent_identical_loops() {
    let mut infra = new_infra();
    call(&mut infra, "loop_instrumenter", None);
    for iterations in [2, 3] {
        for _ in 0..iterations {
            infra.log_loopbody_start();
            leaf(&mut infra, "f", None);
            infra.log_loopbody_end();
        }
        infra.log_loop_end();
    }
    ret(&mut infra);
    assert_eq!(
        log_of(&infra),
        [
            "loop_instrumenter() {\n",
            "  { // Loop body start.\n",
            "    f() {}\n",
            "  } // Loop body end.\n",
            "  // Loop body repeats 1 time(s).\n",
            "  { // Loop body start.\n",
            "    f() {}\n",
            "  } // Loop body end.\n",
            "  // Loop body repeats 2 time(s).\n",
            "} // loop_instrumenter().\n",
        ]
        .concat()
    );
}

#[test]
fn loop_end() {
    let mut infra = new_infra();
    call(&mut infra, "loop_instrumenter", Some(".."));
    for loop_count in 0..2usize {
        for iter_count in 0..3usize {
            if iter_count == 2 {
                if loop_count == 0 {
                    assert_eq!(
                        log_of(&infra),
                        [
                            "loop_instrumenter(..) {\n",
                            "  { // Loop body start.\n",
                            "    g() {}\n",
                            "  } // Loop body end.\n",
                        ]
                        .concat()
                    );
                } else {
                    assert_eq!(
                        log_of(&infra),
                        [
                            "loop_instrumenter(..) {\n",
                            "  { // Loop body start.\n",
                            "    g() {}\n",
                            "  } // Loop body end.\n",
                            "  // Loop body repeats 1 time(s).\n",
                            "  { // Loop body start.\n",
                            "    g() {}\n",
                            "  } // Loop body end.\n",
                        ]
                        .concat()
                    );
                }
                break;
            }
            infra.log_loopbody_start();
            leaf(&mut infra, "g", None);
            infra.log_loopbody_end();
        }
        infra.log_loop_end();
    }
    assert_eq!(
        log_of(&infra),
        [
            "loop_instrumenter(..) {\n",
            "  { // Loop body start.\n",
            "    g() {}\n",
            "  } // Loop body end.\n",
            "  // Loop body repeats 1 time(s).\n",
            "  { // Loop body start.\n",
            "    g() {}\n",
            "  } // Loop body end.\n",
            "  // Loop body repeats 1 time(s).\n",
        ]
        .concat()
    );
    ret(&mut infra);
}

fn ret_from_cached_func_parent(infra: &mut Infra, third_child_call: bool) {
    let params = format!("third_child_call: {}, {}", third_child_call, log_param(infra));
    call(infra, "parent", Some(&params));
    let sibling = |infra: &mut Infra, third_call: bool| {
        let params = format!("third_call: {}", third_call);
        call(infra, "sibling", Some(&params));
        leaf(infra, "child", None);
        leaf(infra, "child", None);
        if third_call {
            leaf(infra, "child", None);
        }
        ret(infra);
    };
    let original = [
        "  sibling(third_call: false) {\n",
        "    child() {}\n",
        "    // child() repeats 1 time(s).\n",
        "  } // sibling().\n",
    ]
    .concat();
    let head = if third_child_call {
        "parent(third_child_call: true, log: RefCell { value: [] }) {\n"
    } else {
        "parent(third_child_call: false, log: RefCell { value: [] }) {\n"
    };
    sibling(infra, false);
    sibling(infra, false);
    assert_eq!(log_of(infra), [head, original.as_str()].concat());
    sibling(infra, third_child_call);
    if !third_child_call {
        assert_eq!(log_of(infra), [head, original.as_str()].concat());
    } else {
        assert_eq!(
            log_of(infra),
            [
                head,
                original.as_str(),
                "  // sibling() repeats 1 time(s).\n",
                "  sibling(third_call: true) {\n",
                "    child() {}\n",
                "    // child() repeats 2 time(s).\n",
                "  } // sibling().\n",
            ]
            .concat()
        );
    }
    ret(infra);
}

#[test]
fn ret_from_cached_func() {
    let mut infra = new_infra();
    ret_from_cached_func_parent(&mut infra, false);
    assert_eq!(
        log_of(&infra),
        [
            "parent(third_child_call: false, log: RefCell { value: [] }) {\n",
            "  sibling(third_call: false) {\n",
            "    child() {}\n",
            "    // child() repeats 1 time(s).\n",
            "  } // sibling().\n",
            "  // sibling() repeats 2 time(s).\n",
            "} // parent().\n",
        ]
        .concat()
    );
    leaf(&mut infra, "dummy", None);
    infra.take_output();
    ret_from_cached_func_parent(&mut infra, true);
    assert_eq!(
        log_of(&infra),
        [
            "parent(third_child_call: true, log: RefCell { value: [] }) {\n",
            "  sibling(third_call: false) {\n",
            "    child() {}\n",
            "    // child() repeats 1 time(s).\n",
            "  } // sibling().\n",
            "  // sibling() repeats 1 time(s).\n",
            "  sibling(third_call: true) {\n",
            "    child() {}\n",
            "    // child() repeats 2 time(s).\n",
            "  } // sibling().\n",
            "} // parent().\n",
        ]
        .concat()
    );
}

fn returning_func(infra: &mut Infra, child_call_count: usize) {
    let params = format!("child_call_count: {}", child_call_count);
    call(infra, "returning_func", Some(&params));
    match child_call_count {
        0 => {},
        1 => leaf(infra, "child", None),
        _ => {
            for _ in 0..3 {
                leaf(infra, "child", None);
            }
        },
    }
    ret(infra);
}

#[test]
fn no_caching_child_repeats() {
    let mut infra = new_infra();
    returning_func(&mut infra, 0);
    assert_eq!(log_of(&infra), "returning_func(child_call_count: 0) {}\n");
    infra.take_output();
    returning_func(&mut infra, 1);
    assert_eq!(
        log_of(&infra),
        ["returning_func(child_call_count: 1) {\n", "  child() {}\n", "} // returning_func().\n"].concat()
    );
    infra.take_output();
    returning_func(&mut infra, 3);
    assert_eq!(
        log_of(&infra),
        [
            "returning_func(child_call_count: 3) {\n",
            "  child() {}\n",
            "  // child() repeats 2 time(s).\n",
            "} // returning_func().\n",
        ]
        .concat()
    );
    infra.take_output();
    leaf(&mut infra, "previous_sibling", None);
    returning_func(&mut infra, 3);
    assert_eq!(
        log_of(&infra),
        [
            "previous_sibling() {}\n",
            "returning_func(child_call_count: 3) {\n",
            "  child() {}\n",
            "  // child() repeats 2 time(s).\n",
            "} // returning_func().\n",
        ]
        .concat()
    );
}

#[test]
fn caching_continues_after_the_only_sibling() {
    let mut infra = new_infra();
    let first = "repeating_parent(calls_child: false, log: RefCell { value: [] }) {}\n";
    let params = format!("calls_child: false, {}", log_param(&infra));
    leaf(&mut infra, "repeating_parent", Some(&params));
    assert_eq!(log_of(&infra), first);
    let params = format!("calls_child: true, {}", log_param(&infra));
    call(&mut infra, "repeating_parent", Some(&params));
    assert_eq!(log_of(&infra), first);
    leaf(&mut infra, "returning_sibling", None);
    assert_eq!(log_of(&infra), first);
    ret(&mut infra);
    assert_eq!(
        log_of(&infra),
        [
            first,
            "repeating_parent(calls_child: true, log: RefCell { value: [",
            "114, 101, 112, 101, 97, 116, 105, 110, 103, 95, 112, 97, 114, 101, 110, 116, ",
            "40, 99, 97, 108, 108, 115, 95, 99, 104, 105, 108, 100, 58, 32, 102, 97, 108, ",
            "115, 101, 44, 32, 108, 111, 103, 58, 32, 82, 101, 102, 67, 101, 108, 108, 32, ",
            "123, 32, 118, 97, 108, 117, 101, 58, 32, 91, 93, 32, 125, 41, 32, 123, 125, 10] }) {\n",
            "  returning_sibling() {}\n",
            "} // repeating_parent().\n",
        ]
        .concat()
    );
}

#[test]
fn repeated_parent() {
    let mut infra = new_infra();
    let expected = [
        "parent(parent_number: 0, log: RefCell { value: [] }) {\n",
        "  sibling() {\n",
        "    child() {}\n",
        "    // child() repeats 1 time(s).\n",
        "  } // sibling().\n",
        "  // sibling() repeats 2 time(s).\n",
        "} // parent().\n",
    ]
    .concat();
    for parent_number in 0..3usize {
        let params = format!("parent_number: {}, {}", parent_number, log_param(&infra));
        call(&mut infra, "parent", Some(&params));
        for sibling_number in 0..3 {
            call(&mut infra, "sibling", None);
            leaf(&mut infra, "child", None);
            leaf(&mut infra, "child", None);
            ret(&mut infra);
            if parent_number == 2 && sibling_number >= 1 {
                assert_eq!(log_of(&infra), expected);
            }
        }
        ret(&mut infra);
    }
    infra.flush();
    assert_eq!(log_of(&infra), [expected.as_str(), "// parent() repeats 2 time(s).\n"].concat());
}

fn flush_between_iters_f(infra: &mut Infra, flush: bool) {
    call(infra, "f", Some(".."));
    let after_first_f = [
        "e(..) {\n",
        "  f(..) {\n",
        "    { // Loop body start.\n",
        "      g() {}\n",
        "    } // Loop body end.\n",
        "    // Loop body repeats 2 time(s).\n",
        "  } // f().\n",
    ]
    .concat();
    let after_flush = [
        after_first_f.as_str(),
        "  f(..) {\n",
        "    { // Loop body start.\n",
        "      g() {}\n",
        "    } // Loop body end.\n",
    ]
    .concat();
    for iter_count in 0..3 {
        if flush && iter_count == 1 {
            assert_eq!(log_of(infra), after_first_f);
            infra.flush();
            assert_eq!(log_of(infra), after_flush);
        } else if flush && iter_count == 2 {
            assert_eq!(
                log_of(infra),
                [
                    after_flush.as_str(),
                    "    { // Loop body start.\n",
                    "      g() {}\n",
                    "    } // Loop body end.\n",
                ]
                .concat()
            );
        }
        infra.log_loopbody_start();
        leaf(infra, "g", None);
        if flush && iter_count == 1 {
            assert_eq!(log_of(infra), after_flush);
        }
        infra.log_loopbody_end();
    }
    infra.log_loop_end();
    ret(infra);
}

#[test]
fn flush_between_iters() {
    let mut infra = new_infra();
    for e_count in 0..2 {
        call(&mut infra, "e", Some(".."));
        flush_between_iters_f(&mut infra, false);
        flush_between_iters_f(&mut infra, e_count == 0);
        ret(&mut infra);
    }
    infra.flush();
    assert_eq!(
        log_of(&infra),
        [
            "e(..) {\n",
            "  f(..) {\n",
            "    { // Loop body start.\n",
            "      g() {}\n",
            "    } // Loop body end.\n",
            "    // Loop body repeats 2 time(s).\n",
            "  } // f().\n",
            "  f(..) {\n",
            "    { // Loop body start.\n",
            "      g() {}\n",
            "    } // Loop body end.\n",
            "    { // Loop body start.\n",
            "      g() {}\n",
            "    } // Loop body end.\n",
            "    // Loop body repeats 1 time(s).\n",
            "  } // f().\n",
            "} // e().\n",
            "// e() repeats 1 time(s).\n",
        ]
        .concat()
    );
}
