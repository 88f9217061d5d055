//! Operators: the engine's instruction set.
//!
//! An operator pops its declared input arity from the evaluation stack,
//! optionally reads and updates its own private state, and pushes its
//! declared output arity.  Operators form a closed set of tagged variants,
//! which makes exhaustive compile-time arity checking possible.

use vstd::prelude::*;
use crate::sample::{
    abs_int, add_samples, sat_i64, sample_add, sample_mul, sample_sub, sub_samples, Sample,
    SAMPLE_UNIT,
};
use crate::stack::Stack;

verus! {

/// Phase accumulators count this many steps per cycle (one step is a
/// millionth of a cycle).
pub const PHASE_STEPS: u64 = 1_000_000;

/// Fixed seed for a fresh noise generator; any nonzero value works.
pub const NOISE_SEED: u64 = 0x2545F4914F6CDD1D;

/// The kind of an operator, with its fixed configuration (resolved from the
/// textual parameter at compile time).  Carries no runtime state.
#[derive(Clone, Copy, Debug)]
pub enum OpKind {
    /// Push a constant sample (a numeric literal token).
    Const(Sample),
    /// Pop two, push their saturating sum.
    Add,
    /// Pop two, push their saturating difference.
    Sub,
    /// Pop two, push their fixed-point product.
    Mul,
    /// Pop two, push 1.0 if the lower is less than the upper, else 0.0.
    Less,
    /// Duplicate the top sample.
    Dup,
    /// Exchange the two top samples.
    Swap,
    /// Discard the top sample.
    Discard,
    /// Periodic generator: pushes a sine shape and advances its phase by
    /// `inc` steps (frequency / sample rate, in millionths of a cycle).
    Sine { inc: u64 },
    /// Pseudo-random generator, one fresh sample per frame.
    Noise,
    /// Ring-buffer delay line of `len` frames: pops the input, pushes the
    /// sample heard `len` frames ago.
    Delay { len: usize },
    /// One-pole smoothing filter with coefficient `alpha` (0 .. 1.0 in
    /// fixed point): the memory moves `alpha` of the way to the input.
    Lpf { alpha: Sample },
}

/// The private runtime state of one operator instance.
#[derive(Debug)]
pub enum OpState {
    /// For stateless operators.
    Stateless,
    /// Oscillator phase, in steps (always below `PHASE_STEPS`).
    Phase { phase: u64 },
    /// Pseudo-random generator state.
    Rng { seed: u64 },
    /// Delay-line ring buffer and the index of the oldest entry.
    Memory { buf: Vec<Sample>, ix: usize },
    /// Smoothing filter memory.
    Smooth { y: Sample },
}

/// Mathematical model of an operator state (a delay buffer as a sequence).
pub enum StateView {
    Stateless,
    Phase { phase: u64 },
    Rng { seed: u64 },
    Memory { buf: Seq<Sample>, ix: int },
    Smooth { y: Sample },
}

impl View for OpState {
    type V = StateView;

    open spec fn view(&self) -> StateView {
        match self {
            OpState::Stateless => StateView::Stateless,
            OpState::Phase { phase } => StateView::Phase { phase: *phase },
            OpState::Rng { seed } => StateView::Rng { seed: *seed },
            OpState::Memory { buf, ix } => StateView::Memory { buf: buf@, ix: *ix as int },
            OpState::Smooth { y } => StateView::Smooth { y: *y },
        }
    }
}

/// One resolved operator instance: its kind, the identity of the textual
/// token it came from, and its private state.
#[derive(Debug)]
pub struct Op {
    pub kind: OpKind,
    pub id: u64,
    pub state: OpState,
}

/// Mathematical model of an operator instance.
pub struct OpV {
    pub kind: OpKind,
    pub id: u64,
    pub state: StateView,
}

impl View for Op {
    type V = OpV;

    open spec fn view(&self) -> OpV {
        OpV { kind: self.kind, id: self.id, state: self.state@ }
    }
}

/// How many samples the operator pops.
pub open spec fn spec_in_arity(k: OpKind) -> int {
    match k {
        OpKind::Const(_) => 0,
        OpKind::Add => 2,
        OpKind::Sub => 2,
        OpKind::Mul => 2,
        OpKind::Less => 2,
        OpKind::Dup => 1,
        OpKind::Swap => 2,
        OpKind::Discard => 1,
        OpKind::Sine { .. } => 0,
        OpKind::Noise => 0,
        OpKind::Delay { .. } => 1,
        OpKind::Lpf { .. } => 1,
    }
}

/// How many samples the operator pushes.
pub open spec fn spec_out_arity(k: OpKind) -> int {
    match k {
        OpKind::Const(_) => 1,
        OpKind::Add => 1,
        OpKind::Sub => 1,
        OpKind::Mul => 1,
        OpKind::Less => 1,
        OpKind::Dup => 2,
        OpKind::Swap => 2,
        OpKind::Discard => 0,
        OpKind::Sine { .. } => 1,
        OpKind::Noise => 1,
        OpKind::Delay { .. } => 1,
        OpKind::Lpf { .. } => 1,
    }
}

/// Declared input arity.
pub fn in_arity(k: OpKind) -> (n: usize)
    ensures
        n == spec_in_arity(k),
{
    match k {
        OpKind::Const(_) => 0,
        OpKind::Add => 2,
        OpKind::Sub => 2,
        OpKind::Mul => 2,
        OpKind::Less => 2,
        OpKind::Dup => 1,
        OpKind::Swap => 2,
        OpKind::Discard => 1,
        OpKind::Sine { .. } => 0,
        OpKind::Noise => 0,
        OpKind::Delay { .. } => 1,
        OpKind::Lpf { .. } => 1,
    }
}

/// Declared output arity.
pub fn out_arity(k: OpKind) -> (n: usize)
    ensures
        n == spec_out_arity(k),
{
    match k {
        OpKind::Const(_) => 1,
        OpKind::Add => 1,
        OpKind::Sub => 1,
        OpKind::Mul => 1,
        OpKind::Less => 1,
        OpKind::Dup => 2,
        OpKind::Swap => 2,
        OpKind::Discard => 0,
        OpKind::Sine { .. } => 1,
        OpKind::Noise => 1,
        OpKind::Delay { .. } => 1,
        OpKind::Lpf { .. } => 1,
    }
}

/// Whether instances of this kind carry hidden internal memory.
pub open spec fn spec_stateful(k: OpKind) -> bool {
    match k {
        OpKind::Sine { .. } => true,
        OpKind::Noise => true,
        OpKind::Delay { .. } => true,
        OpKind::Lpf { .. } => true,
        _ => false,
    }
}

/// Executable twin of [`spec_stateful`].
pub fn stateful(k: OpKind) -> (r: bool)
    ensures
        r == spec_stateful(k),
{
    match k {
        OpKind::Sine { .. } => true,
        OpKind::Noise => true,
        OpKind::Delay { .. } => true,
        OpKind::Lpf { .. } => true,
        _ => false,
    }
}

/// The state (and configuration) an operator instance must carry to be
/// runnable: the state variant fits the kind and its indices are in bounds.
pub open spec fn op_ok(kind: OpKind, st: StateView) -> bool {
    match kind {
        OpKind::Sine { inc } => {
            &&& inc <= i64::MAX as u64
            &&& match st {
                StateView::Phase { phase } => phase < PHASE_STEPS,
                _ => false,
            }
        },
        OpKind::Noise => st matches StateView::Rng { .. },
        OpKind::Delay { len } => match st {
            StateView::Memory { buf, ix } => buf.len() == len && 1 <= len && 0 <= ix < len,
            _ => false,
        },
        OpKind::Lpf { alpha } => {
            &&& 0 <= alpha <= SAMPLE_UNIT
            &&& st matches StateView::Smooth { .. }
        },
        _ => st matches StateView::Stateless,
    }
}

/// The state a freshly created instance of this kind starts with: phase 0,
/// an all-silent delay buffer, a fixed noise seed, a filter memory at rest.
pub open spec fn fresh_view(kind: OpKind) -> StateView {
    match kind {
        OpKind::Sine { .. } => StateView::Phase { phase: 0 },
        OpKind::Noise => StateView::Rng { seed: NOISE_SEED },
        OpKind::Delay { len } => StateView::Memory {
            buf: Seq::new(len as nat, |i: int| 0i64),
            ix: 0,
        },
        OpKind::Lpf { .. } => StateView::Smooth { y: 0 },
        _ => StateView::Stateless,
    }
}

/// Build the fresh state for a kind.
pub fn fresh_state(kind: OpKind) -> (st: OpState)
    ensures
        st@ == fresh_view(kind),
{
    match kind {
        OpKind::Sine { .. } => OpState::Phase { phase: 0 },
        OpKind::Noise => OpState::Rng { seed: NOISE_SEED },
        OpKind::Delay { len } => {
            let mut buf: Vec<Sample> = Vec::new();
            let mut i: usize = 0;
            while i < len
                invariant
                    i <= len,
                    buf@ =~= Seq::new(i as nat, |j: int| 0i64),
                decreases len - i,
            {
                buf.push(0);
                i = i + 1;
            }
            proof {
                assert(buf@ =~= Seq::new(len as nat, |j: int| 0i64));
            }
            OpState::Memory { buf, ix: 0 }
        },
        OpKind::Lpf { .. } => OpState::Smooth { y: 0 },
        _ => OpState::Stateless,
    }
}

/// Whether a retained state can be taken over by an instance of this kind.
/// Reuse asks for the exact shape (a delay line keeps only a buffer of the
/// same length); anything else starts fresh.
pub fn state_fits(kind: OpKind, st: &OpState) -> (r: bool)
    ensures
        r == op_ok(kind, st@),
{
    match kind {
        OpKind::Sine { inc } => match st {
            OpState::Phase { phase } => inc <= i64::MAX as u64 && *phase < PHASE_STEPS,
            _ => false,
        },
        OpKind::Noise => match st {
            OpState::Rng { .. } => true,
            _ => false,
        },
        OpKind::Delay { len } => match st {
            OpState::Memory { buf, ix } => buf.len() == len && 1 <= len && *ix < len,
            _ => false,
        },
        OpKind::Lpf { alpha } => match st {
            OpState::Smooth { .. } => 0 <= alpha && alpha <= SAMPLE_UNIT,
            _ => false,
        },
        OpKind::Const(_) | OpKind::Add | OpKind::Sub | OpKind::Mul | OpKind::Less
        | OpKind::Dup | OpKind::Swap | OpKind::Discard => match st {
            OpState::Stateless => true,
            _ => false,
        },
    }
}

/// One xorshift step of the noise generator.
pub open spec fn rng_next(s: u64) -> u64 {
    let a = s ^ (s << 13);
    let b = a ^ (a >> 7);
    b ^ (b << 17)
}

/// The sample a noise state emits: its seed folded into [-1.0, 1.0].
pub open spec fn noise_out(s: u64) -> int {
    (s as int) % (2 * SAMPLE_UNIT as int + 1) - SAMPLE_UNIT as int
}

/// The sine shape at a phase (in steps): a symmetric parabolic
/// approximation, exact at the zero crossings and at the peaks.
pub open spec fn sine_wave(phase: int) -> int {
    if phase < 500_000 {
        16 * phase * (500_000 - phase) / 1_000_000
    } else {
        let q = phase - 500_000;
        -(16 * q * (500_000 - q) / 1_000_000)
    }
}

/// Advance a phase accumulator, wrapping modulo one cycle.
pub open spec fn phase_next(phase: u64, inc: u64) -> u64 {
    ((phase as int + inc as int) % (PHASE_STEPS as int)) as u64
}

/// The smoothing filter's next memory: move `alpha` (fixed point) of the
/// way from `y` toward `x`, truncating toward `y`.
pub open spec fn smooth_samples(y: int, x: int, alpha: int) -> int {
    let adj = alpha * abs_int(x - y) / (SAMPLE_UNIT as int);
    if x >= y {
        sat_i64(y + adj)
    } else {
        sat_i64(y - adj)
    }
}

/// Evaluate the sine shape at a phase.
pub fn sine_sample(phase: u64) -> (r: Sample)
    requires
        phase < PHASE_STEPS,
    ensures
        r as int == sine_wave(phase as int),
{
    if phase < 500_000 {
        proof {
            assert(0 <= 16 * (phase as int) * (500_000 - phase as int)
                <= 4_000_000_000_000) by (nonlinear_arith)
                requires
                    0 <= (phase as int) && (phase as int) < 500_000,
            ;
        }
        let m: u64 = 16 * phase * (500_000 - phase) / 1_000_000;
        m as i64
    } else {
        let q: u64 = phase - 500_000;
        proof {
            assert(0 <= 16 * (q as int) * (500_000 - q as int)
                <= 4_000_000_000_000) by (nonlinear_arith)
                requires
                    0 <= (q as int) && (q as int) < 500_000,
            ;
        }
        let m: u64 = 16 * q * (500_000 - q) / 1_000_000;
        -(m as i64)
    }
}

/// One smoothing-filter step.
fn smooth_step(y: Sample, x: Sample, alpha: Sample) -> (r: Sample)
    requires
        0 <= alpha <= SAMPLE_UNIT,
    ensures
        r as int == smooth_samples(y as int, x as int, alpha as int),
{
    let d: i128 = x as i128 - y as i128;
    let mag: u128 = if d >= 0 {
        d as u128
    } else {
        (-d) as u128
    };
    proof {
        assert((alpha as int) * (mag as int) <= 1_000_000int * 0x20000000000000000int)
            by (nonlinear_arith)
            requires
                0 <= alpha as int <= 1_000_000,
                0 <= mag as int <= 0x20000000000000000int,
        ;
    }
    let adj: u128 = (alpha as u128) * mag / (SAMPLE_UNIT as u128);
    let y2: i128 = if d >= 0 {
        y as i128 + adj as i128
    } else {
        y as i128 - adj as i128
    };
    if y2 > i64::MAX as i128 {
        i64::MAX
    } else if y2 < i64::MIN as i128 {
        i64::MIN
    } else {
        y2 as i64
    }
}

/// What one operator does to the stack and to its own state: the complete
/// semantics of a single evaluation step.  (When the stack is too shallow
/// nothing happens; compiled programs never reach that case.)
pub open spec fn step_spec(kind: OpKind, st: StateView, s: Seq<Sample>) -> (StateView, Seq<Sample>) {
    if s.len() < spec_in_arity(kind) {
        (st, s)
    } else {
        match kind {
            OpKind::Const(c) => (st, s.push(c)),
            OpKind::Add => {
                let a = s[s.len() - 2];
                let b = s[s.len() - 1];
                (st, s.drop_last().drop_last().push(add_samples(a as int, b as int) as i64))
            },
            OpKind::Sub => {
                let a = s[s.len() - 2];
                let b = s[s.len() - 1];
                (st, s.drop_last().drop_last().push(sub_samples(a as int, b as int) as i64))
            },
            OpKind::Mul => {
                let a = s[s.len() - 2];
                let b = s[s.len() - 1];
                (st, s.drop_last().drop_last().push(
                    crate::sample::mul_samples(a as int, b as int) as i64,
                ))
            },
            OpKind::Less => {
                let a = s[s.len() - 2];
                let b = s[s.len() - 1];
                (st, s.drop_last().drop_last().push(if a < b { SAMPLE_UNIT } else { 0i64 }))
            },
            OpKind::Dup => (st, s.push(s.last())),
            OpKind::Swap => {
                let a = s[s.len() - 2];
                let b = s[s.len() - 1];
                (st, s.drop_last().drop_last().push(b).push(a))
            },
            OpKind::Discard => (st, s.drop_last()),
            OpKind::Sine { inc } => match st {
                StateView::Phase { phase } => (
                    StateView::Phase { phase: phase_next(phase, inc) },
                    s.push(sine_wave(phase as int) as i64),
                ),
                _ => (st, s),
            },
            OpKind::Noise => match st {
                StateView::Rng { seed } => {
                    let s2 = rng_next(seed);
                    (StateView::Rng { seed: s2 }, s.push(noise_out(s2) as i64))
                },
                _ => (st, s),
            },
            OpKind::Delay { len } => match st {
                StateView::Memory { buf, ix } => {
                    if 0 <= ix < buf.len() {
                        let x = s.last();
                        (
                            StateView::Memory {
                                buf: buf.update(ix, x),
                                ix: (ix + 1) % (len as int),
                            },
                            s.drop_last().push(buf[ix]),
                        )
                    } else {
                        (st, s)
                    }
                },
                _ => (st, s),
            },
            OpKind::Lpf { alpha } => match st {
                StateView::Smooth { y } => {
                    let x = s.last();
                    let y2 = smooth_samples(y as int, x as int, alpha as int) as i64;
                    (StateView::Smooth { y: y2 }, s.drop_last().push(y2))
                },
                _ => (st, s),
            },
        }
    }
}

/// Run one operator against the stack, updating its private state.
pub fn step(op: &mut Op, stack: &mut Stack)
    requires
        op_ok(old(op).kind, old(op).state@),
        old(stack)@.len() >= spec_in_arity(old(op).kind),
    ensures
        final(op).kind == old(op).kind,
        final(op).id == old(op).id,
        (final(op).state@, final(stack)@) == step_spec(
            old(op).kind,
            old(op).state@,
            old(stack)@,
        ),
        op_ok(final(op).kind, final(op).state@),
        final(stack)@.len() == old(stack)@.len() - spec_in_arity(old(op).kind)
            + spec_out_arity(old(op).kind),
{
    match op.kind {
        OpKind::Const(c) => {
            stack.push(c);
        },
        OpKind::Add => {
            let b = stack.pop();
            let a = stack.pop();
            stack.push(sample_add(a, b));
        },
        OpKind::Sub => {
            let b = stack.pop();
            let a = stack.pop();
            stack.push(sample_sub(a, b));
        },
        OpKind::Mul => {
            let b = stack.pop();
            let a = stack.pop();
            stack.push(sample_mul(a, b));
        },
        OpKind::Less => {
            let b = stack.pop();
            let a = stack.pop();
            stack.push(if a < b { SAMPLE_UNIT } else { 0 });
        },
        OpKind::Dup => {
            let a = stack.pop();
            stack.push(a);
            stack.push(a);
        },
        OpKind::Swap => {
            let b = stack.pop();
            let a = stack.pop();
            stack.push(b);
            stack.push(a);
        },
        OpKind::Discard => {
            let _ = stack.pop();
        },
        OpKind::Sine { inc } => match &mut op.state {
            OpState::Phase { phase } => {
                let out = sine_sample(*phase);
                *phase = (*phase + inc) % PHASE_STEPS;
                stack.push(out);
            },
            _ => {
                proof {
                    assert(false);
                }
            },
        },
        OpKind::Noise => match &mut op.state {
            OpState::Rng { seed } => {
                let s2 = rng_step(*seed);
                *seed = s2;
                stack.push(noise_sample(s2));
            },
            _ => {
                proof {
                    assert(false);
                }
            },
        },
        OpKind::Delay { len } => match &mut op.state {
            OpState::Memory { buf, ix } => {
                let x = stack.pop();
                let out = buf[*ix];
                buf[*ix] = x;
                *ix = (*ix + 1) % len;
                stack.push(out);
            },
            _ => {
                proof {
                    assert(false);
                }
            },
        },
        OpKind::Lpf { alpha } => match &mut op.state {
            OpState::Smooth { y } => {
                let x = stack.pop();
                let y2 = smooth_step(*y, x, alpha);
                *y = y2;
                stack.push(y2);
            },
            _ => {
                proof {
                    assert(false);
                }
            },
        },
    }
}

/// One xorshift step.
fn rng_step(s: u64) -> (r: u64)
    ensures
        r == rng_next(s),
{
    let a = s ^ (s << 13u64);
    let b = a ^ (a >> 7u64);
    b ^ (b << 17u64)
}

/// Fold a generator state into a sample in [-1.0, 1.0].
fn noise_sample(s: u64) -> (r: Sample)
    ensures
        r as int == noise_out(s),
{
    let m: u64 = s % (2 * 1_000_000u64 + 1);
    m as i64 - SAMPLE_UNIT
}

} // verus!
