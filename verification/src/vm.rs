//! The program and the virtual machine.
//!
//! A program is an ordered sequence of resolved operator instances.  The VM
//! owns the active program and advances a fresh evaluation stack through it
//! once per output frame.  Replacing the program is the only mutation the
//! real-time path observes: the control thread compiles a complete new
//! program off to the side and installs it between frames.

use vstd::prelude::*;
use crate::op::{
    op_ok, spec_in_arity, spec_out_arity, step, step_spec, Op, OpKind, OpV,
};
use crate::sample::{Frame, Sample, CHANNELS};
use crate::stack::Stack;

verus! {

/// The kinds of a modelled program, in order.
pub open spec fn kinds_of(ps: Seq<OpV>) -> Seq<OpKind> {
    ps.map_values(|o: OpV| o.kind)
}

/// Stack depth before the `i`-th operator runs, by the declared arities,
/// starting from an empty stack.
pub open spec fn depth_at(ks: Seq<OpKind>, i: int) -> int
    decreases i,
{
    if i <= 0 {
        0
    } else {
        depth_at(ks, i - 1) - spec_in_arity(ks[i - 1]) + spec_out_arity(ks[i - 1])
    }
}

/// Every operator finds at least its declared input arity on the stack.
pub open spec fn arity_safe(ks: Seq<OpKind>) -> bool {
    forall|i: int| 0 <= i < ks.len() ==> depth_at(ks, i) >= spec_in_arity(#[trigger] ks[i])
}

/// Every instance carries a state that fits its kind.
pub open spec fn states_ok(ps: Seq<OpV>) -> bool {
    forall|i: int|
        0 <= i < ps.len() ==> op_ok((#[trigger] ps[i]).kind, ps[i].state)
}

/// Two modelled programs with the same operators (kinds and identities) in
/// the same order; only the internal states may differ.
pub open spec fn same_shape(a: Seq<OpV>, b: Seq<OpV>) -> bool {
    &&& a.len() == b.len()
    &&& forall|i: int|
        0 <= i < a.len() ==> (#[trigger] a[i]).kind == b[i].kind && a[i].id == b[i].id
}

/// Evaluating the first `i` operators against an initially empty stack:
/// the updated instances and the stack contents.
pub open spec fn run_to(ps: Seq<OpV>, i: int) -> (Seq<OpV>, Seq<Sample>)
    decreases i,
{
    if i <= 0 {
        (ps, Seq::<Sample>::empty())
    } else {
        let prev = run_to(ps, i - 1);
        let stepped = step_spec(prev.0[i - 1].kind, prev.0[i - 1].state, prev.1);
        (
            prev.0.update(
                i - 1,
                OpV { kind: prev.0[i - 1].kind, id: prev.0[i - 1].id, state: stepped.0 },
            ),
            stepped.1,
        )
    }
}

/// The frame read off a final stack: the top `CHANNELS` samples in stack
/// order; a stack shorter than `CHANNELS` is padded with silence below.
/// Compiled programs always leave at least `CHANNELS` samples.
pub open spec fn frame_of(s: Seq<Sample>) -> Seq<Sample> {
    if s.len() >= CHANNELS {
        s.subrange(s.len() - CHANNELS, s.len() as int)
    } else {
        Seq::new((CHANNELS - s.len()) as nat, |k: int| 0i64) + s
    }
}

/// An ordered sequence of resolved operator instances - the compiled
/// artifact.  Building one never mutates a previously installed one.
#[derive(Debug)]
pub struct Program {
    pub ops: Vec<Op>,
}

impl View for Program {
    type V = Seq<OpV>;

    open spec fn view(&self) -> Seq<OpV> {
        self.ops@.map_values(|o: Op| o@)
    }
}

impl Program {
    /// Safe to evaluate: arities are satisfied throughout and every state
    /// fits its operator.
    pub open spec fn runnable(&self) -> bool {
        &&& arity_safe(kinds_of(self@))
        &&& states_ok(self@)
    }

    /// A complete compiled program: runnable, and the final stack depth
    /// covers every output channel.
    pub open spec fn wf(&self) -> bool {
        &&& self.runnable()
        &&& depth_at(kinds_of(self@), self@.len() as int) >= CHANNELS
    }

    /// The program with no operators (silence).
    pub fn empty() -> (p: Program)
        ensures
            p@ == Seq::<OpV>::empty(),
            p.runnable(),
    {
        let p = Program { ops: Vec::new() };
        proof {
            assert(p@ =~= Seq::<OpV>::empty());
        }
        p
    }

    /// Evaluate the whole program once against a fresh stack, updating the
    /// operator states in place, and read off one frame.
    fn run(&mut self) -> (f: Frame)
        requires
            old(self).runnable(),
        ensures
            final(self)@ == run_to(old(self)@, old(self)@.len() as int).0,
            f.samples@ == frame_of(run_to(old(self)@, old(self)@.len() as int).1),
            f.wf(),
            final(self).runnable(),
            same_shape(old(self)@, final(self)@),
            old(self).wf() ==> final(self).wf(),
    {
        let ghost orig: Seq<OpV> = self@;
        let n = self.ops.len();
        let mut stack = Stack::new();
        let mut i: usize = 0;
        while i < n
            invariant
                n == self.ops@.len(),
                n == orig.len(),
                i <= n,
                arity_safe(kinds_of(orig)),
                states_ok(orig),
                self@ == run_to(orig, i as int).0,
                stack@ == run_to(orig, i as int).1,
                same_shape(orig, self@),
                states_ok(self@),
                stack@.len() == depth_at(kinds_of(orig), i as int),
            decreases n - i,
        {
            proof {
                assert(kinds_of(orig)[i as int] == orig[i as int].kind);
                assert(self@[i as int].kind == orig[i as int].kind);
                assert(op_ok(self@[i as int].kind, self@[i as int].state));
                assert(self@[i as int] == self.ops@[i as int]@);
            }
            let op = &mut self.ops[i];
            step(op, &mut stack);
            proof {
                assert(self@ =~= run_to(orig, i as int + 1).0);
                assert(kinds_of(orig)[i as int] == orig[i as int].kind);
            }
            i = i + 1;
        }
        proof {
            assert(kinds_of(self@) =~= kinds_of(orig));
        }
        let depth = stack.depth();
        let mut samples: Vec<Sample> = Vec::new();
        if depth < CHANNELS {
            let pad = CHANNELS - depth;
            let mut j: usize = 0;
            while j < pad
                invariant
                    j <= pad,
                    samples@.len() == j,
                    forall|m: int| 0 <= m < j ==> samples@[m] == 0i64,
                decreases pad - j,
            {
                samples.push(0);
                j = j + 1;
            }
            let mut k: usize = 0;
            while k < depth
                invariant
                    k <= depth,
                    depth == stack@.len(),
                    pad == CHANNELS - depth,
                    samples@.len() == pad + k,
                    forall|m: int| 0 <= m < pad ==> samples@[m] == 0i64,
                    forall|m: int| 0 <= m < k ==> samples@[pad + m] == stack@[m],
                decreases depth - k,
            {
                samples.push(stack.get(k));
                k = k + 1;
            }
            proof {
                assert(samples@ =~= frame_of(stack@));
            }
        } else {
            let start = depth - CHANNELS;
            let mut k: usize = start;
            while k < depth
                invariant
                    start <= k <= depth,
                    depth == stack@.len(),
                    start == depth - CHANNELS,
                    samples@.len() == k - start,
                    forall|m: int| start <= m < k ==> samples@[m - start] == stack@[m],
                decreases depth - k,
            {
                samples.push(stack.get(k));
                k = k + 1;
            }
            proof {
                assert(samples@ =~= frame_of(stack@));
            }
        }
        Frame { samples }
    }
}

/// The virtual machine: owns exactly one active program at a time.
pub struct VM {
    program: Program,
}

impl View for VM {
    type V = Seq<OpV>;

    closed spec fn view(&self) -> Seq<OpV> {
        self.program@
    }
}

impl VM {
    /// The active program is always safe to evaluate.
    pub closed spec fn inv(&self) -> bool {
        self.program.runnable()
    }

    /// A new machine with the silent (empty) program.
    pub fn new() -> (vm: VM)
        ensures
            vm@ == Seq::<OpV>::empty(),
            vm.inv(),
    {
        VM { program: Program::empty() }
    }

    /// Replace the active program.  The new program is complete before this
    /// call, so the replacement is one handle swap: no frame evaluation is
    /// ever split across the old and the new program.
    pub fn load_program(&mut self, program: Program)
        requires
            program.runnable(),
        ensures
            final(self)@ == program@,
            final(self).inv(),
    {
        self.program = program;
    }

    /// Read access to the active program (for snapshotting operator state
    /// back into a compiler context between edits).
    pub fn program(&self) -> (p: &Program)
        ensures
            p@ == self@,
    {
        &self.program
    }

    /// Produce the next frame: reset the stack, evaluate the active
    /// program's operators strictly in sequence, and map the final stack
    /// to one frame (top `CHANNELS` samples).  Always returns a frame of
    /// exactly `CHANNELS` samples.
    pub fn next_frame(&mut self) -> (f: Frame)
        requires
            old(self).inv(),
        ensures
            final(self).inv(),
            f.wf(),
            final(self)@ == run_to(old(self)@, old(self)@.len() as int).0,
            f.samples@ == frame_of(run_to(old(self)@, old(self)@.len() as int).1),
            same_shape(old(self)@, final(self)@),
    {
        self.program.run()
    }
}

/// One evaluation step follows the declared arities: the stack grows by
/// exactly the output arity minus the input arity, and the state stays fit
/// for its kind.
proof fn lemma_step_shape(kind: OpKind, st: crate::op::StateView, s: Seq<Sample>)
    requires
        op_ok(kind, st),
        s.len() >= spec_in_arity(kind),
    ensures
        step_spec(kind, st, s).1.len() == s.len() - spec_in_arity(kind) + spec_out_arity(kind),
        op_ok(kind, step_spec(kind, st, s).0),
{
}

/// Evaluation tracks the declared arities exactly: after the first `i`
/// operators the stack holds `depth_at` samples, and the program keeps its
/// shape and state validity.  In particular a program whose declared final
/// depth covers every channel always fills a whole frame.
pub proof fn lemma_run_depth(ps: Seq<OpV>, i: int)
    requires
        0 <= i <= ps.len(),
        arity_safe(kinds_of(ps)),
        states_ok(ps),
    ensures
        run_to(ps, i).0.len() == ps.len(),
        same_shape(ps, run_to(ps, i).0),
        states_ok(run_to(ps, i).0),
        run_to(ps, i).1.len() == depth_at(kinds_of(ps), i),
    decreases i,
{
    if i > 0 {
        lemma_run_depth(ps, i - 1);
        let prev = run_to(ps, i - 1);
        assert(kinds_of(ps)[i - 1] == ps[i - 1].kind);
        assert(prev.0[i - 1].kind == ps[i - 1].kind);
        lemma_step_shape(prev.0[i - 1].kind, prev.0[i - 1].state, prev.1);
    }
}

/// The frames a program emits over `n` consecutive evaluations.
pub open spec fn frames_out(ps: Seq<OpV>, n: nat) -> Seq<Seq<Sample>>
    decreases n,
{
    if n == 0 {
        Seq::<Seq<Sample>>::empty()
    } else {
        let now = run_to(ps, ps.len() as int);
        seq![frame_of(now.1)] + frames_out(now.0, (n - 1) as nat)
    }
}

/// Determinism: from identical programs with identical operator-state
/// snapshots, any number of consecutive frame evaluations produces the
/// same sequence of frames, bit for bit.
pub proof fn lemma_deterministic(a: Seq<OpV>, b: Seq<OpV>, n: nat)
    requires
        a == b,
    ensures
        frames_out(a, n) == frames_out(b, n),
{
}

} // verus!
