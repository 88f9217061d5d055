//! The engine end to end: compile token sequences, run the VM, check frames.

use audio_vm::{compile_program, Context, Frame, TextOp, CHANNELS, SAMPLE_UNIT, VM};

fn tokens(texts: &[&str]) -> Vec<TextOp> {
    texts
        .iter()
        .enumerate()
        .map(|(i, t)| TextOp {
            id: (i + 1) as u64,
            op: t.to_string(),
        })
        .collect()
}

fn load(vm: &mut VM, texts: &[&str], sample_rate: u32, ctx: &mut Context) {
    let ops = tokens(texts);
    let program = compile_program(&ops, sample_rate, ctx).expect("program should compile");
    vm.load_program(program);
}

fn one(f: &Frame) -> i64 {
    assert_eq!(f.samples.len(), CHANNELS);
    f.samples[0]
}

#[test]
fn constant_program_emits_constant_frames() {
    let mut vm = VM::new();
    let mut ctx = Context::new();
    load(&mut vm, &["1.0"], 44100, &mut ctx);
    for _ in 0..100 {
        let f = vm.next_frame();
        assert_eq!(one(&f), SAMPLE_UNIT);
    }
}

#[test]
fn empty_vm_emits_silence() {
    let mut vm = VM::new();
    for _ in 0..10 {
        let f = vm.next_frame();
        assert_eq!(one(&f), 0);
    }
}

#[test]
fn sine_440_approximates_one_period() {
    let mut vm = VM::new();
    let mut ctx = Context::new();
    load(&mut vm, &["sine:440"], 44100, &mut ctx);
    let frames: Vec<i64> = (0..44100).map(|_| one(&vm.next_frame())).collect();
    // one period is about 100.2 frames; peaks and zero crossings of the
    // first period sit near frames 25, 50 and 75
    assert_eq!(frames[0], 0);
    assert!(frames[25] > 9 * SAMPLE_UNIT / 10, "peak missing: {}", frames[25]);
    assert!(frames[50].abs() < SAMPLE_UNIT / 50, "zero crossing missing: {}", frames[50]);
    assert!(frames[75] < -9 * SAMPLE_UNIT / 10, "trough missing: {}", frames[75]);
    // 440 Hz for one second gives about 880 sign changes
    let mut crossings = 0;
    for i in 1..frames.len() {
        if (frames[i - 1] >= 0) != (frames[i] >= 0) {
            crossings += 1;
        }
    }
    assert!((870..=890).contains(&crossings), "crossings: {crossings}");
}

#[test]
fn oscillator_phase_survives_recompile() {
    let mut vm = VM::new();
    let mut ctx = Context::new();
    let ops = vec![TextOp {
        id: 7,
        op: "sine:440".to_string(),
    }];
    let program = compile_program(&ops, 44100, &mut ctx).unwrap();
    vm.load_program(program);
    for _ in 0..1000 {
        vm.next_frame();
    }
    // pull the advanced states back into the context, then recompile the
    // same identity at a new frequency
    ctx.sync(vm.program());
    let ops2 = vec![TextOp {
        id: 7,
        op: "sine:880".to_string(),
    }];
    let program2 = compile_program(&ops2, 44100, &mut ctx).unwrap();
    vm.load_program(program2);
    // phase after 1000 frames at increment 9977 is 977000 of 1000000;
    // the next frame reads the sine shape there: no reset to phase 0
    let f = one(&vm.next_frame());
    assert_eq!(f, -175_536);
}

#[test]
fn dup_and_add_double_a_constant() {
    let mut vm = VM::new();
    let mut ctx = Context::new();
    load(&mut vm, &["2.0", "dup", "+"], 44100, &mut ctx);
    let f = one(&vm.next_frame());
    assert_eq!(f, 4 * SAMPLE_UNIT);
}

#[test]
fn failed_compile_leaves_program_playing() {
    let mut vm = VM::new();
    let mut ctx = Context::new();
    load(&mut vm, &["1.0"], 44100, &mut ctx);
    assert_eq!(one(&vm.next_frame()), SAMPLE_UNIT);
    let bad = tokens(&["+"]);
    let r = compile_program(&bad, 44100, &mut ctx);
    assert!(matches!(
        r,
        Err(audio_vm::CompileError::StackUnderflow { index: 0, id: 1 })
    ));
    // the installed program is untouched
    assert_eq!(one(&vm.next_frame()), SAMPLE_UNIT);
}

#[test]
fn same_text_different_identities_are_independent() {
    let mut vm = VM::new();
    let mut ctx = Context::new();
    let ops = vec![TextOp {
        id: 1,
        op: "sine:440".to_string(),
    }];
    let program = compile_program(&ops, 44100, &mut ctx).unwrap();
    vm.load_program(program);
    for _ in 0..100 {
        vm.next_frame();
    }
    ctx.sync(vm.program());
    // identity 1 keeps its phase; identity 2 is brand new despite the
    // identical text
    let ops2 = vec![
        TextOp {
            id: 1,
            op: "sine:440".to_string(),
        },
        TextOp {
            id: 2,
            op: "sine:440".to_string(),
        },
        TextOp {
            id: 3,
            op: "-".to_string(),
        },
    ];
    let program2 = compile_program(&ops2, 44100, &mut ctx).unwrap();
    vm.load_program(program2);
    // phase of id 1 after 100 frames is 997700; id 2 starts at 0, so the
    // difference is the sine shape at 997700, not zero
    let f = one(&vm.next_frame());
    assert_eq!(f, -18_315);
}

#[test]
fn next_frame_sequences_are_deterministic() {
    let run = || {
        let mut vm = VM::new();
        let mut ctx = Context::new();
        load(
            &mut vm,
            &["sine:440", "noise", "+", "lpf:0.001"],
            44100,
            &mut ctx,
        );
        (0..500).map(|_| one(&vm.next_frame())).collect::<Vec<i64>>()
    };
    assert_eq!(run(), run());
}

#[test]
fn extra_stack_depth_takes_the_top() {
    // depth 2 with one channel: the top of the stack is the output
    let mut vm = VM::new();
    let mut ctx = Context::new();
    load(&mut vm, &["1.0", "2.0"], 44100, &mut ctx);
    assert_eq!(one(&vm.next_frame()), 2 * SAMPLE_UNIT);
}

#[test]
fn arithmetic_and_stack_operators() {
    let mut vm = VM::new();
    let mut ctx = Context::new();
    load(&mut vm, &["3.0", "2.0", "swap", "-"], 44100, &mut ctx);
    assert_eq!(one(&vm.next_frame()), -SAMPLE_UNIT);
    load(&mut vm, &["0.5", "0.5", "*"], 44100, &mut ctx);
    assert_eq!(one(&vm.next_frame()), SAMPLE_UNIT / 4);
    load(&mut vm, &["-0.5", "0.5", "*"], 44100, &mut ctx);
    assert_eq!(one(&vm.next_frame()), -SAMPLE_UNIT / 4);
    load(&mut vm, &["1.0", "2.0", "<"], 44100, &mut ctx);
    assert_eq!(one(&vm.next_frame()), SAMPLE_UNIT);
    load(&mut vm, &["2.0", "1.0", "<"], 44100, &mut ctx);
    assert_eq!(one(&vm.next_frame()), 0);
    load(&mut vm, &["1.0", "0.25", "drop"], 44100, &mut ctx);
    assert_eq!(one(&vm.next_frame()), SAMPLE_UNIT);
}

#[test]
fn delay_line_echoes_after_its_length() {
    let mut vm = VM::new();
    let mut ctx = Context::new();
    // 0.0001 s at 44100 Hz is a 4-frame buffer
    load(&mut vm, &["1.0", "delay:0.0001"], 44100, &mut ctx);
    for _ in 0..4 {
        assert_eq!(one(&vm.next_frame()), 0);
    }
    for _ in 0..10 {
        assert_eq!(one(&vm.next_frame()), SAMPLE_UNIT);
    }
}

#[test]
fn smoothing_filter_steps_toward_its_input() {
    let mut vm = VM::new();
    let mut ctx = Context::new();
    // a zero time constant passes the input through
    load(&mut vm, &["1.0", "lpf:0"], 44100, &mut ctx);
    assert_eq!(one(&vm.next_frame()), SAMPLE_UNIT);
    // 0.001 s at 44100 Hz gives 44 steps, coefficient 1000000/45
    load(&mut vm, &["1.0", "lpf:0.001"], 44100, &mut ctx);
    assert_eq!(one(&vm.next_frame()), 22_222);
    let second = one(&vm.next_frame());
    assert!(second > 22_222 && second < SAMPLE_UNIT);
}

#[test]
fn noise_stays_in_range_and_varies() {
    let mut vm = VM::new();
    let mut ctx = Context::new();
    load(&mut vm, &["noise"], 44100, &mut ctx);
    let frames: Vec<i64> = (0..1000).map(|_| one(&vm.next_frame())).collect();
    assert!(frames.iter().all(|v| (-SAMPLE_UNIT..=SAMPLE_UNIT).contains(v)));
    assert!(frames.windows(2).any(|w| w[0] != w[1]));
}
