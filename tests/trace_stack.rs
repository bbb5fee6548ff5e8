use aptos_tracer::{CallTraces, FrameError, GasInfo, InternalCallTrace, CALL_STACK_SIZE_LIMIT};

fn frame(module_id: &str, func_name: &str) -> InternalCallTrace {
    let mut f = InternalCallTrace::default();
    f.module_id = module_id.to_string();
    f.from_module_id = module_id.to_string();
    f.func_name = func_name.to_string();
    f
}

#[test]
fn pushes_up_to_limit_then_refuses() {
    let mut stack = CallTraces::new();
    for i in 0..CALL_STACK_SIZE_LIMIT {
        assert!(stack.push(frame("0x1::m", &format!("f{}", i))).is_ok());
        assert_eq!(stack.len(), i + 1);
    }
    let extra = frame("0x2::n", "overflow");
    match stack.push(extra) {
        Ok(()) => panic!("push past the limit succeeded"),
        Err(back) => {
            assert_eq!(back.module_id, "0x2::n");
            assert_eq!(back.func_name, "overflow");
        }
    }
    assert_eq!(stack.len(), CALL_STACK_SIZE_LIMIT);
    assert_eq!(stack.1, vec!["0x1".to_string()]);
}

#[test]
fn pop_returns_pushed_frame() {
    let mut stack = CallTraces::new();
    assert!(stack.pop().is_none());
    stack.push(frame("0x1::m", "f")).unwrap();
    let f = stack.pop().unwrap();
    assert_eq!(f.func_name, "f");
    assert!(stack.pop().is_none());
    assert!(stack.root().is_none());
}

#[test]
fn three_level_call_tree() {
    let mut stack = CallTraces::new();
    stack.push(frame("0x1::a", "A")).unwrap();
    stack.push(frame("0x2::b", "B")).unwrap();
    stack.push(frame("0x3::c", "C")).unwrap();
    stack.set_outputs(vec!["5".to_string()]);
    let c = stack.pop().unwrap();
    stack.push_call_trace(c);
    stack.set_outputs(vec!["6".to_string()]);
    let b = stack.pop().unwrap();
    stack.push_call_trace(b);
    stack.set_outputs(vec!["7".to_string()]);
    let a = stack.root().unwrap();
    assert_eq!(stack.len(), 0);
    assert_eq!(a.func_name, "A");
    assert_eq!(a.outputs, vec!["7".to_string()]);
    assert_eq!(a.sub_traces.0.len(), 1);
    let b = &a.sub_traces.0[0];
    assert_eq!(b.func_name, "B");
    assert_eq!(b.outputs, vec!["6".to_string()]);
    assert_eq!(b.sub_traces.0.len(), 1);
    let c = &b.sub_traces.0[0];
    assert_eq!(c.func_name, "C");
    assert_eq!(c.outputs, vec!["5".to_string()]);
    assert!(c.sub_traces.0.is_empty());
    assert_eq!(a.sub_traces.1, vec!["0x2".to_string()]);
}

#[test]
fn touched_accounts_are_distinct() {
    let mut stack = CallTraces::new();
    stack.push(frame("0x1::coin", "balance")).unwrap();
    stack.push(frame("0x1::account", "exists")).unwrap();
    stack.push(frame("0xcafe::pool", "swap")).unwrap();
    stack.push(frame("0x1::coin", "value")).unwrap();
    assert_eq!(stack.1, vec!["0x1".to_string(), "0xcafe".to_string()]);
}

#[test]
fn gas_used_is_start_minus_end() {
    let mut g = GasInfo::make_frame(1000);
    assert_eq!(g.end_balance(), 0);
    g.close_frame(400);
    assert_eq!(g.gas_used(), 600);
    g.close_frame(900);
    assert_eq!(g.end_balance(), 900);
    assert_eq!(g.start_balance(), 1000);
    assert_eq!(g.gas_used(), 100);
}

#[test]
fn gas_and_error_of_innermost_frame() {
    let mut stack = CallTraces::new();
    stack.push(frame("0x1::a", "outer")).unwrap();
    stack.push(frame("0x1::b", "inner")).unwrap();
    stack.set_root_gas(1000, 0);
    stack.set_gas_end(250);
    stack.set_error(FrameError { status_code: 4016, message: "abort".to_string() });
    let inner = stack.pop().unwrap();
    assert_eq!(inner.gas_info.start_balance(), 1000);
    assert_eq!(inner.gas_info.gas_used(), 750);
    assert_eq!(inner.error.unwrap().status_code, 4016);
    let outer = stack.pop().unwrap();
    assert!(outer.error.is_none());
    assert_eq!(outer.gas_info.gas_used(), 0);
}

#[test]
fn merge_over_limit_leaves_stack_unchanged() {
    let mut a = CallTraces::new();
    for _ in 0..1000 {
        a.push(frame("0x1::m", "f")).unwrap();
    }
    let mut b = CallTraces::new();
    for _ in 0..25 {
        b.push(frame("0x2::n", "g")).unwrap();
    }
    assert!(a.merge(b).is_err());
    assert_eq!(a.len(), 1000);
    assert!(a.0.iter().all(|f| f.func_name == "f"));
    assert_eq!(a.1, vec!["0x1".to_string()]);

    let mut c = CallTraces::new();
    for _ in 0..24 {
        c.push(frame("0x2::n", "g")).unwrap();
    }
    assert!(a.merge(c).is_ok());
    assert_eq!(a.len(), CALL_STACK_SIZE_LIMIT);
    assert_eq!(a.0[999].func_name, "f");
    assert_eq!(a.0[1000].func_name, "g");
}

#[test]
fn prepend_inserts_outermost() {
    let mut stack = CallTraces::new();
    stack.push(frame("0x1::a", "user")).unwrap();
    stack.prepend(frame("0x1::pre", "prologue")).unwrap();
    assert_eq!(stack.0[0].func_name, "prologue");
    assert_eq!(stack.0[1].func_name, "user");
    stack.prepend_call_trace(frame("0x1::x", "first_child"));
    stack.prepend_call_trace(frame("0x1::y", "earlier_child"));
    let kids: Vec<&str> = stack.0[0].sub_traces.0.iter().map(|f| f.func_name.as_str()).collect();
    assert_eq!(kids, vec!["earlier_child", "first_child"]);
}

#[test]
fn error_frames_are_appended() {
    let mut stack = CallTraces::new();
    stack.push(frame("0x1::a", "f")).unwrap();
    let err = stack.push_error_frame(FrameError { status_code: 7, message: "boom".to_string() });
    assert_eq!(err.vm_error.status_code, 7);
    assert_eq!(err.call_traces.len(), 2);
    let last = &err.call_traces.0[1];
    assert_eq!(last.error.as_ref().unwrap().message, "boom");
    assert_eq!(last.func_name, "");

    let mut other = CallTraces::new();
    other.push(frame("0x1::z", "z")).unwrap();
    let merged = other.merge_error(err);
    assert_eq!(merged.call_traces.len(), 3);
    assert_eq!(merged.call_traces.0[0].func_name, "z");
    assert_eq!(merged.vm_error.status_code, 7);

    let status = CallTraces::new().push_error_frame_from_vm_status(4001);
    assert_eq!(status.call_traces.len(), 1);
    assert_eq!(status.call_traces.0[0].error.as_ref().unwrap().status_code, 4001);
}
