//! The interpreter: a fetch-decode-execute tape machine over a compiled
//! program, with configurable cell width and tape-growth policy. Input is
//! read from an injected byte buffer and output collected as a sequence of
//! emitted cell values; a host drives the machine and performs the actual
//! device I/O around it.

use vstd::prelude::*;

use crate::types::Bytecode;
use crate::types::CellSize;
use crate::types::ExecutionConfig;
use crate::types::Instr;
use crate::types::TapePolicy;
use crate::types::DEFAULT_TAPE_SIZE;
use crate::types::bytecode_wf;
use crate::types::instr_wf_at;

verus! {

/// The mathematical state of a machine: the program, the configuration, the
/// tape with its data pointer, the instruction pointer, the input bytes not
/// yet consumed, and the cell values emitted so far.
#[verifier::ext_equal]
pub ghost struct MachineView {
    pub prog: Seq<Instr>,
    pub cell: CellSize,
    pub policy: TapePolicy,
    pub tape: Seq<u64>,
    pub dp: int,
    pub ip: int,
    pub input: Seq<u8>,
    pub output: Seq<u64>,
}

/// Execution has ended: the instruction pointer moved past the program.
pub open spec fn machine_halted(v: MachineView) -> bool {
    v.ip >= v.prog.len()
}

/// The machine invariant: a well-formed program and policy, cursors in
/// range, the tape length fixed by or at least the configured size, and
/// every cell already reduced modulo the cell width.
pub open spec fn machine_inv(v: MachineView) -> bool {
    &&& bytecode_wf(v.prog)
    &&& v.policy.wf()
    &&& 0 <= v.ip <= v.prog.len()
    &&& 0 <= v.dp < v.tape.len()
    &&& (v.policy matches TapePolicy::FixedWrap(size) ==> v.tape.len() == size)
    &&& (v.policy matches TapePolicy::GrowOnDemand(initial) ==> v.tape.len() >= initial)
    &&& forall|i: int| 0 <= i < v.tape.len() ==> #[trigger] v.tape[i] <= v.cell.spec_max_value()
}

/// A cell value incremented by one, wrapping modulo `2^width`.
pub open spec fn cell_inc(cell: CellSize, v: u64) -> u64 {
    (((v + 1) as int) % cell.modulus()) as u64
}

/// A cell value decremented by one, wrapping modulo `2^width`.
pub open spec fn cell_dec(cell: CellSize, v: u64) -> u64 {
    (((v - 1) as int) % cell.modulus()) as u64
}

/// The tape after making index `dp` addressable: unchanged if `dp` is
/// already inside, else doubled in length with zero-filled new cells.
pub open spec fn grown_tape(tape: Seq<u64>, dp: int) -> Seq<u64> {
    if dp < tape.len() {
        tape
    } else {
        tape + Seq::new(tape.len(), |i: int| 0u64)
    }
}

/// One fetch-decode-execute step of the machine; the identity on a halted
/// machine.
pub open spec fn machine_step(v: MachineView) -> MachineView {
    if !(0 <= v.ip < v.prog.len()) {
        v
    } else {
        match v.prog[v.ip] {
            Instr::MovePointerForward => match v.policy {
                TapePolicy::FixedWrap(size) => MachineView {
                    dp: (v.dp + 1) % (size as int),
                    ip: v.ip + 1,
                    ..v
                },
                TapePolicy::GrowOnDemand(_) => MachineView {
                    dp: v.dp + 1,
                    tape: grown_tape(v.tape, v.dp + 1),
                    ip: v.ip + 1,
                    ..v
                },
            },
            Instr::MovePointerBackward => MachineView {
                dp: if v.dp == 0 {
                    v.tape.len() - 1
                } else {
                    v.dp - 1
                },
                ip: v.ip + 1,
                ..v
            },
            Instr::IncrementCell => MachineView {
                tape: v.tape.update(v.dp, cell_inc(v.cell, v.tape[v.dp])),
                ip: v.ip + 1,
                ..v
            },
            Instr::DecrementCell => MachineView {
                tape: v.tape.update(v.dp, cell_dec(v.cell, v.tape[v.dp])),
                ip: v.ip + 1,
                ..v
            },
            Instr::OutputCell => MachineView {
                output: v.output.push(v.tape[v.dp]),
                ip: v.ip + 1,
                ..v
            },
            Instr::InputCell => {
                if v.input.len() > 0 {
                    MachineView {
                        tape: v.tape.update(v.dp, v.input[0] as u64),
                        input: v.input.drop_first(),
                        ip: v.ip + 1,
                        ..v
                    }
                } else {
                    MachineView { tape: v.tape.update(v.dp, 0u64), ip: v.ip + 1, ..v }
                }
            },
            Instr::BranchIfZero(t) => MachineView {
                ip: if v.tape[v.dp] == 0 {
                    t + 1
                } else {
                    v.ip + 1
                },
                ..v
            },
            Instr::BranchIfNonZero(t) => MachineView {
                ip: if v.tape[v.dp] != 0 {
                    t as int
                } else {
                    v.ip + 1
                },
                ..v
            },
        }
    }
}

/// The machine after up to `fuel` steps: it stops early only by halting.
pub open spec fn run_bounded(v: MachineView, fuel: nat) -> MachineView
    decreases fuel,
{
    if fuel == 0 || machine_halted(v) {
        v
    } else {
        run_bounded(machine_step(v), (fuel - 1) as nat)
    }
}

/// A step never touches the program or the configuration.
pub proof fn lemma_machine_step_frame(v: MachineView)
    ensures
        machine_step(v).prog == v.prog,
        machine_step(v).cell == v.cell,
        machine_step(v).policy == v.policy,
{
}

/// No number of steps touches the program or the configuration: a program
/// is read-only and can be executed any number of times unchanged.
pub proof fn lemma_run_bounded_frame(v: MachineView, fuel: nat)
    ensures
        run_bounded(v, fuel).prog == v.prog,
        run_bounded(v, fuel).cell == v.cell,
        run_bounded(v, fuel).policy == v.policy,
    decreases fuel,
{
    if fuel > 0 && !machine_halted(v) {
        lemma_machine_step_frame(v);
        lemma_run_bounded_frame(machine_step(v), (fuel - 1) as nat);
    }
}

/// A step preserves the machine invariant.
pub proof fn lemma_machine_step_preserves_inv(v: MachineView)
    requires
        machine_inv(v),
    ensures
        machine_inv(machine_step(v)),
{
    if 0 <= v.ip < v.prog.len() {
        assert(instr_wf_at(v.prog, v.ip));
        match v.prog[v.ip] {
            Instr::MovePointerForward => {
                match v.policy {
                    TapePolicy::FixedWrap(size) => {
                        vstd::arithmetic::div_mod::lemma_mod_bound(v.dp + 1, size as int);
                    },
                    TapePolicy::GrowOnDemand(_) => {},
                }
            },
            Instr::IncrementCell => {
                vstd::arithmetic::div_mod::lemma_mod_bound((v.tape[v.dp] + 1) as int, v.cell.modulus());
            },
            Instr::DecrementCell => {
                vstd::arithmetic::div_mod::lemma_mod_bound((v.tape[v.dp] - 1) as int, v.cell.modulus());
            },
            _ => {},
        }
    }
}

/// Once a fuel budget reaches a halted machine, any larger budget reaches
/// the same machine: the result of a terminating execution does not depend
/// on the budget it was given.
pub proof fn lemma_run_bounded_halted_stable(v: MachineView, fuel1: nat, fuel2: nat)
    requires
        machine_halted(run_bounded(v, fuel1)),
        fuel1 <= fuel2,
    ensures
        run_bounded(v, fuel2) == run_bounded(v, fuel1),
    decreases fuel1,
{
    if fuel1 == 0 || machine_halted(v) {
        lemma_run_bounded_halted_identity(v, fuel2);
    } else {
        lemma_run_bounded_halted_stable(machine_step(v), (fuel1 - 1) as nat, (fuel2 - 1) as nat);
    }
}

/// Stepping a halted machine changes nothing, whatever the budget.
pub proof fn lemma_run_bounded_halted_identity(v: MachineView, fuel: nat)
    requires
        machine_halted(v),
    ensures
        run_bounded(v, fuel) == v,
    decreases fuel,
{
    if fuel > 0 {
        lemma_run_bounded_halted_identity(machine_step(v), (fuel - 1) as nat);
    }
}

/// Cell overflow wraps: incrementing a cell that already holds the width's
/// maximum value makes it zero, never an error and never saturation.
pub proof fn lemma_increment_wraps(v: MachineView)
    requires
        machine_inv(v),
        0 <= v.ip < v.prog.len(),
        v.prog[v.ip] == Instr::IncrementCell,
        v.tape[v.dp] == v.cell.spec_max_value(),
    ensures
        machine_step(v).tape[v.dp] == 0,
{
    vstd::arithmetic::div_mod::lemma_mod_self_0(v.cell.modulus());
}

/// Pointer wrap on a fixed tape: moving left from index 0 lands on the last
/// index, `size - 1`.
pub proof fn lemma_pointer_wraps_backward(v: MachineView, size: usize)
    requires
        machine_inv(v),
        0 <= v.ip < v.prog.len(),
        v.prog[v.ip] == Instr::MovePointerBackward,
        v.policy == TapePolicy::FixedWrap(size),
        v.dp == 0,
    ensures
        machine_step(v).dp == size - 1,
{
}

/// Pointer wrap on a fixed tape: moving right from the last index,
/// `size - 1`, lands on index 0.
pub proof fn lemma_pointer_wraps_forward(v: MachineView, size: usize)
    requires
        machine_inv(v),
        0 <= v.ip < v.prog.len(),
        v.prog[v.ip] == Instr::MovePointerForward,
        v.policy == TapePolicy::FixedWrap(size),
        v.dp == size - 1,
    ensures
        machine_step(v).dp == 0,
{
    vstd::arithmetic::div_mod::lemma_mod_self_0(size as int);
}

/// Tape growth: moving right past the end of a growing tape doubles its
/// length, keeps every existing cell, and zero-fills every new cell, so the
/// pointer's new position is addressable and reads as 0.
pub proof fn lemma_grow_zero_fill(v: MachineView, initial: usize)
    requires
        machine_inv(v),
        0 <= v.ip < v.prog.len(),
        v.prog[v.ip] == Instr::MovePointerForward,
        v.policy == TapePolicy::GrowOnDemand(initial),
        v.dp == v.tape.len() - 1,
    ensures
        machine_step(v).dp == v.dp + 1,
        machine_step(v).tape.len() == 2 * v.tape.len(),
        forall|i: int| 0 <= i < v.tape.len() ==> machine_step(v).tape[i] == v.tape[i],
        forall|i: int| v.tape.len() <= i < 2 * v.tape.len() ==> machine_step(v).tape[i] == 0,
        machine_step(v).dp < machine_step(v).tape.len(),
        machine_step(v).tape[machine_step(v).dp] == 0,
{
}

/// The initial machine for a program under a configuration: a zero-filled
/// tape of the configured length, both cursors at 0, no input, no output.
pub open spec fn initial_machine(prog: Seq<Instr>, config: ExecutionConfig) -> MachineView {
    MachineView {
        prog: prog,
        cell: config.cell_width,
        policy: config.tape_policy,
        tape: Seq::new(config.tape_policy.initial_len() as nat, |i: int| 0u64),
        dp: 0,
        ip: 0,
        input: Seq::empty(),
        output: Seq::empty(),
    }
}

/// A zero-filled tape of the given length.
fn zero_tape(len: usize) -> (t: Vec<u64>)
    ensures
        t@ == Seq::new(len as nat, |i: int| 0u64),
{
    let mut t: Vec<u64> = Vec::new();
    let mut i: usize = 0;
    while i < len
        invariant
            i <= len,
            t@ == Seq::new(i as nat, |j: int| 0u64),
        decreases len - i,
    {
        t.push(0);
        i = i + 1;
        proof {
            assert(t@ =~= Seq::new(i as nat, |j: int| 0u64));
        }
    }
    t
}

/// Appends `count` zero cells to the tape.
fn push_zeros(tape: &mut Vec<u64>, count: usize)
    ensures
        final(tape)@ == old(tape)@ + Seq::new(count as nat, |i: int| 0u64),
{
    let mut i: usize = 0;
    while i < count
        invariant
            i <= count,
            tape@ == old(tape)@ + Seq::new(i as nat, |j: int| 0u64),
        decreases count - i,
    {
        tape.push(0);
        i = i + 1;
        proof {
            assert(tape@ =~= old(tape)@ + Seq::new(i as nat, |j: int| 0u64));
        }
    }
}

/// Runtime state for executing a compiled program: the tape, the two
/// cursors, the configuration, the pending input bytes and the output
/// collected so far.
pub struct Runtime {
    bytecode: Bytecode,
    tape: Vec<u64>,
    dp: usize,
    ip: usize,
    config: ExecutionConfig,
    input: Vec<u8>,
    input_pos: usize,
    output: Vec<u64>,
}

impl View for Runtime {
    type V = MachineView;

    closed spec fn view(&self) -> MachineView {
        MachineView {
            prog: self.bytecode.instrs@,
            cell: self.config.cell_width,
            policy: self.config.tape_policy,
            tape: self.tape@,
            dp: self.dp as int,
            ip: self.ip as int,
            input: self.input@.skip(self.input_pos as int),
            output: self.output@,
        }
    }
}

impl Runtime {
    /// The consumed prefix of the input buffer is within bounds.
    pub closed spec fn input_cursor_ok(&self) -> bool {
        self.input_pos <= self.input@.len()
    }

    /// A runtime is well-formed when its machine state satisfies the
    /// machine invariant.
    pub open spec fn wf(&self) -> bool {
        &&& self.input_cursor_ok()
        &&& machine_inv(self@)
    }

    /// Create a new runtime with the given bytecode and cell size, on a
    /// fixed wrapping tape of the default length.
    pub fn new(bytecode: Bytecode, cell_size: CellSize) -> (rt: Runtime)
        requires
            bytecode.wf(),
        ensures
            rt.wf(),
            rt@ == initial_machine(
                bytecode.instrs@,
                ExecutionConfig {
                    cell_width: cell_size,
                    tape_policy: TapePolicy::FixedWrap(DEFAULT_TAPE_SIZE),
                },
            ),
    {
        Runtime::with_config(
            bytecode,
            ExecutionConfig {
                cell_width: cell_size,
                tape_policy: TapePolicy::FixedWrap(DEFAULT_TAPE_SIZE),
            },
        )
    }

    /// Create a new runtime with the given bytecode and configuration.
    pub fn with_config(bytecode: Bytecode, config: ExecutionConfig) -> (rt: Runtime)
        requires
            bytecode.wf(),
            config.wf(),
        ensures
            rt.wf(),
            rt@ == initial_machine(bytecode.instrs@, config),
    {
        let len = match config.tape_policy {
            TapePolicy::FixedWrap(size) => size,
            TapePolicy::GrowOnDemand(initial) => initial,
        };
        let tape = zero_tape(len);
        let rt = Runtime {
            bytecode,
            tape,
            dp: 0,
            ip: 0,
            config,
            input: Vec::new(),
            input_pos: 0,
            output: Vec::new(),
        };
        proof {
            assert(rt@ =~= initial_machine(rt.bytecode.instrs@, config));
        }
        rt
    }

    /// Replace the pending input with the given bytes.
    pub fn set_input(&mut self, input: Vec<u8>)
        requires
            old(self).wf(),
        ensures
            final(self).wf(),
            final(self)@ == (MachineView { input: input@, ..old(self)@ }),
    {
        self.input = input;
        self.input_pos = 0;
        proof {
            assert(self@ =~= (MachineView { input: self.input@, ..old(self)@ }));
            assert(self.input@.skip(0) =~= self.input@);
        }
    }

    /// Append one byte to the pending input.
    pub fn push_input(&mut self, byte: u8)
        requires
            old(self).wf(),
        ensures
            final(self).wf(),
            final(self)@ == (MachineView { input: old(self)@.input.push(byte), ..old(self)@ }),
    {
        self.input.push(byte);
        proof {
            assert(self.input@.skip(self.input_pos as int) =~= old(self)@.input.push(byte));
        }
    }

    /// Whether execution has ended.
    pub fn halted(&self) -> (r: bool)
        ensures
            r == machine_halted(self@),
    {
        self.ip >= self.bytecode.instrs.len()
    }

    /// Whether the next instruction reads input that the pending buffer
    /// cannot supply; stepping anyway stores 0, the end-of-input value.
    pub fn needs_input(&self) -> (r: bool)
        requires
            self.wf(),
        ensures
            r == (!machine_halted(self@) && self@.prog[self@.ip] is InputCell && self@.input.len()
                == 0),
    {
        self.ip < self.bytecode.instrs.len() && matches!(
            self.bytecode.instrs[self.ip],
            Instr::InputCell,
        ) && self.input_pos >= self.input.len()
    }

    /// The values emitted so far, in order.
    pub fn output(&self) -> (r: &Vec<u64>)
        ensures
            r@ == self@.output,
    {
        &self.output
    }

    /// The current position of the data pointer.
    pub fn data_pointer(&self) -> (r: usize)
        ensures
            r == self@.dp,
    {
        self.dp
    }

    /// The current length of the tape.
    pub fn tape_len(&self) -> (r: usize)
        ensures
            r == self@.tape.len(),
    {
        self.tape.len()
    }

    /// The value of the cell under the data pointer.
    pub fn current_cell(&self) -> (r: u64)
        requires
            self.wf(),
        ensures
            r == self@.tape[self@.dp],
    {
        self.tape[self.dp]
    }

    /// The value of the cell at the given tape index.
    pub fn cell_at(&self, i: usize) -> (r: u64)
        requires
            self.wf(),
            i < self@.tape.len(),
        ensures
            r == self@.tape[i as int],
    {
        self.tape[i]
    }

    /// Consume the runtime and hand back the values it emitted, in order.
    pub fn into_output(self) -> (r: Vec<u64>)
        ensures
            r@ == self@.output,
    {
        self.output
    }

    /// Execute the single instruction under the instruction pointer,
    /// returning the emitted value if it was an output instruction.
    pub fn step(&mut self) -> (emitted: Option<u64>)
        requires
            old(self).wf(),
            !machine_halted(old(self)@),
        ensures
            final(self).wf(),
            final(self)@ == machine_step(old(self)@),
            emitted == (if old(self)@.prog[old(self)@.ip] is OutputCell {
                Some(old(self)@.tape[old(self)@.dp])
            } else {
                None::<u64>
            }),
    {
        proof {
            assert(self.bytecode.instrs.len() == self.bytecode.instrs@.len());
            assert(self.tape.len() == self.tape@.len());
            assert(instr_wf_at(self.bytecode.instrs@, self.ip as int));
            lemma_machine_step_preserves_inv(self@);
        }
        let instr = self.bytecode.instrs[self.ip];
        let mut emitted: Option<u64> = None;
        match instr {
            Instr::MovePointerForward => {
                match self.config.tape_policy {
                    TapePolicy::FixedWrap(size) => {
                        self.dp = (self.dp + 1) % size;
                    },
                    TapePolicy::GrowOnDemand(_) => {
                        self.dp = self.dp + 1;
                        if self.dp == self.tape.len() {
                            let count = self.tape.len();
                            push_zeros(&mut self.tape, count);
                        }
                    },
                }
                self.ip = self.ip + 1;
            },
            Instr::MovePointerBackward => {
                self.dp = if self.dp == 0 {
                    self.tape.len() - 1
                } else {
                    self.dp - 1
                };
                self.ip = self.ip + 1;
            },
            Instr::IncrementCell => {
                let v = self.tape[self.dp];
                let max = self.config.cell_width.max_value();
                proof {
                    if v == max {
                        vstd::arithmetic::div_mod::lemma_mod_self_0(
                            self.config.cell_width.modulus(),
                        );
                    } else {
                        vstd::arithmetic::div_mod::lemma_small_mod(
                            (v + 1) as nat,
                            self.config.cell_width.modulus() as nat,
                        );
                    }
                }
                self.tape[self.dp] = if v >= max {
                    0
                } else {
                    v + 1
                };
                self.ip = self.ip + 1;
            },
            Instr::DecrementCell => {
                let v = self.tape[self.dp];
                let max = self.config.cell_width.max_value();
                proof {
                    if v == 0 {
                        lemma_minus_one_mod(self.config.cell_width);
                    } else {
                        vstd::arithmetic::div_mod::lemma_small_mod(
                            (v - 1) as nat,
                            self.config.cell_width.modulus() as nat,
                        );
                    }
                }
                self.tape[self.dp] = if v == 0 {
                    max
                } else {
                    v - 1
                };
                self.ip = self.ip + 1;
            },
            Instr::OutputCell => {
                let v = self.tape[self.dp];
                self.output.push(v);
                emitted = Some(v);
                self.ip = self.ip + 1;
            },
            Instr::InputCell => {
                if self.input_pos < self.input.len() {
                    let b = self.input[self.input_pos];
                    proof {
                        assert(old(self)@.input[0] == b);
                        assert(self.input@.skip(self.input_pos + 1) =~= old(
                            self,
                        )@.input.drop_first());
                    }
                    self.input_pos = self.input_pos + 1;
                    self.tape[self.dp] = b as u64;
                } else {
                    proof {
                        assert(old(self)@.input.len() == 0);
                    }
                    self.tape[self.dp] = 0;
                }
                self.ip = self.ip + 1;
            },
            Instr::BranchIfZero(target) => {
                if self.tape[self.dp] == 0 {
                    self.ip = target + 1;
                } else {
                    self.ip = self.ip + 1;
                }
            },
            Instr::BranchIfNonZero(target) => {
                if self.tape[self.dp] != 0 {
                    self.ip = target;
                } else {
                    self.ip = self.ip + 1;
                }
            },
        }
        proof {
            assert(self@ =~= machine_step(old(self)@));
        }
        emitted
    }

    /// Drive execution for at most `max_steps` instructions; stops early
    /// only by halting. Returns whether the machine has halted. Execution
    /// has no other exit: a budget large enough for the program always ends
    /// in a halted machine, and a larger one then gives the same machine.
    #[verifier::loop_isolation(false)]
    pub fn run(&mut self, max_steps: usize) -> (done: bool)
        requires
            old(self).wf(),
        ensures
            final(self).wf(),
            final(self)@ == run_bounded(old(self)@, max_steps as nat),
            done == machine_halted(final(self)@),
    {
        let mut steps_left: usize = max_steps;
        while steps_left > 0 && self.ip < self.bytecode.instrs.len()
            invariant
                self.wf(),
                steps_left <= max_steps,
                run_bounded(self@, steps_left as nat) == run_bounded(
                    old(self)@,
                    max_steps as nat,
                ),
            decreases steps_left,
        {
            let ghost prev = self@;
            self.step();
            steps_left = steps_left - 1;
            proof {
                assert(run_bounded(prev, (steps_left + 1) as nat) == run_bounded(
                    machine_step(prev),
                    steps_left as nat,
                ));
            }
        }
        self.halted()
    }
}

/// Minus one wraps to the cell maximum: `-1` modulo `2^width` is `2^width - 1`.
proof fn lemma_minus_one_mod(cell: CellSize)
    ensures
        (-1int) % cell.modulus() == cell.spec_max_value(),
{
    let m = cell.modulus();
    vstd::arithmetic::div_mod::lemma_mod_add_multiples_vanish(-1int, m);
    vstd::arithmetic::div_mod::lemma_small_mod((m - 1) as nat, m as nat);
}

} // verus!
