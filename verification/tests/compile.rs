//! The compiler's error taxonomy, literal grammar, state continuity and
//! garbage collection.

use audio_vm::{compile_program, CompileError, Context, TextOp, SAMPLE_UNIT, VM};

fn tokens(texts: &[&str]) -> Vec<TextOp> {
    texts
        .iter()
        .enumerate()
        .map(|(i, t)| TextOp {
            id: (i + 1) as u64,
            op: t.to_string(),
        })
        .collect()
}

fn first_frame(texts: &[&str]) -> i64 {
    let mut ctx = Context::new();
    let p = compile_program(&tokens(texts), 44100, &mut ctx).expect("should compile");
    let mut vm = VM::new();
    vm.load_program(p);
    let f = vm.next_frame();
    f.samples[0]
}

#[test]
fn unknown_operator_is_reported_with_its_name() {
    let mut ctx = Context::new();
    let r = compile_program(&tokens(&["1.0", "warble", "+"]), 44100, &mut ctx);
    match r {
        Err(CompileError::UnknownOperator { index, id, name }) => {
            assert_eq!(index, 1);
            assert_eq!(id, 2);
            assert_eq!(name, "warble");
        }
        other => panic!("expected an unknown-operator error, got {other:?}"),
    }
}

#[test]
fn unknown_operator_name_stops_before_the_parameter() {
    let mut ctx = Context::new();
    let r = compile_program(&tokens(&["warble:440"]), 44100, &mut ctx);
    match r {
        Err(CompileError::UnknownOperator { name, .. }) => assert_eq!(name, "warble"),
        other => panic!("expected an unknown-operator error, got {other:?}"),
    }
}

#[test]
fn parameter_faults_are_invalid_parameter() {
    for bad in [
        "sine",        // required parameter missing
        "sine:abc",    // not numeric
        "sine:-440",   // negative frequency
        "delay:0",     // delay must be positive
        "delay:-1",    // negative
        "delay:61",    // over the 60-second cap
        "lpf:-0.5",    // negative time constant
        "dup:3",       // a parameter on a parameterless operator
        "1.0:2",       // a parameter on a literal
    ] {
        let mut ctx = Context::new();
        let r = compile_program(&tokens(&[bad]), 44100, &mut ctx);
        assert!(
            matches!(r, Err(CompileError::InvalidParameter { index: 0, id: 1 })),
            "{bad}: {r:?}"
        );
    }
}

#[test]
fn stack_underflow_names_the_offending_token() {
    let mut ctx = Context::new();
    let r = compile_program(&tokens(&["1.0", "+"]), 44100, &mut ctx);
    assert!(matches!(
        r,
        Err(CompileError::StackUnderflow { index: 1, id: 2 })
    ));
}

#[test]
fn stack_overflow_is_detected() {
    let texts: Vec<String> = (0..300).map(|_| "1.0".to_string()).collect();
    let ops: Vec<TextOp> = texts
        .iter()
        .enumerate()
        .map(|(i, t)| TextOp {
            id: (i + 1) as u64,
            op: t.clone(),
        })
        .collect();
    let mut ctx = Context::new();
    let r = compile_program(&ops, 44100, &mut ctx);
    assert!(matches!(
        r,
        Err(CompileError::StackOverflow { index: 256, id: 257 })
    ));
}

#[test]
fn too_few_outputs_is_detected() {
    let mut ctx = Context::new();
    let r = compile_program(&tokens(&[]), 44100, &mut ctx);
    assert!(matches!(
        r,
        Err(CompileError::InsufficientOutputs { depth: 0 })
    ));
    let r = compile_program(&tokens(&["1.0", "drop"]), 44100, &mut ctx);
    assert!(matches!(
        r,
        Err(CompileError::InsufficientOutputs { depth: 0 })
    ));
}

#[test]
fn decimal_literals_scale_to_fixed_point() {
    assert_eq!(first_frame(&["1.5"]), 1_500_000);
    assert_eq!(first_frame(&["-0.25"]), -250_000);
    assert_eq!(first_frame(&["0.000001"]), 1);
    assert_eq!(first_frame(&["440"]), 440 * SAMPLE_UNIT);
    assert_eq!(first_frame(&["-3"]), -3 * SAMPLE_UNIT);
}

#[test]
fn malformed_literals_are_not_operators() {
    for bad in [".5", "1.", "1.2345678", "--1", "1e3", "99999999999999999999"] {
        let mut ctx = Context::new();
        let r = compile_program(&tokens(&[bad]), 44100, &mut ctx);
        assert!(
            matches!(r, Err(CompileError::UnknownOperator { .. })),
            "{bad}: {r:?}"
        );
    }
}

#[test]
fn context_drops_abandoned_identities() {
    let mut ctx = Context::new();
    let osc = vec![TextOp {
        id: 5,
        op: "sine:440".to_string(),
    }];
    compile_program(&osc, 44100, &mut ctx).unwrap();
    assert!(ctx.contains(5));
    // recompile without identity 5: its state is garbage-collected
    let other = vec![TextOp {
        id: 9,
        op: "1.0".to_string(),
    }];
    compile_program(&other, 44100, &mut ctx).unwrap();
    assert!(!ctx.contains(5));
    assert!(!ctx.contains(9)); // a constant holds no state
}

#[test]
fn failed_compile_leaves_the_context_alone() {
    let mut ctx = Context::new();
    let osc = vec![TextOp {
        id: 5,
        op: "sine:440".to_string(),
    }];
    compile_program(&osc, 44100, &mut ctx).unwrap();
    let bad = tokens(&["+"]);
    assert!(compile_program(&bad, 44100, &mut ctx).is_err());
    assert!(ctx.contains(5));
}

#[test]
fn identity_with_changed_operator_kind_starts_fresh() {
    let mut ctx = Context::new();
    let osc = vec![TextOp {
        id: 5,
        op: "sine:440".to_string(),
    }];
    compile_program(&osc, 44100, &mut ctx).unwrap();
    // the same identity now names a delay: the sine phase cannot carry over
    let full = vec![
        TextOp {
            id: 1,
            op: "1.0".to_string(),
        },
        TextOp {
            id: 5,
            op: "delay:0.001".to_string(),
        },
    ];
    let p = compile_program(&full, 44100, &mut ctx).unwrap();
    let mut vm = VM::new();
    vm.load_program(p);
    assert_eq!(vm.next_frame().samples[0], 0); // an empty, fresh buffer
}

#[test]
fn operator_metadata_is_available() {
    let help = audio_vm::get_help();
    assert_eq!(help.len(), 12);
    assert!(help.iter().any(|(name, _)| name == "sine"));
    let groups = audio_vm::get_op_groups();
    assert_eq!(groups.len(), 4);
}
