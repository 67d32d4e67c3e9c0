//! The simulator: circular memory, p-space, operand resolution, the execute
//! unit's side effects and the round-robin scheduler.

use vstd::prelude::*;
use crate::redcode::{dat_zero, Address, AddressingMode, Field, Instruction, OpCode, OpMode, Pid, Pin};
use crate::ring::{valid_size, wrap, wrap_offset};
use crate::builder::BuilderError;
use crate::ops::{
    arith_instruction, arith_result, dec, dec_offset, divides_by_zero, divides_by_zero_check, djn_instruction, djn_result,
    equal_check, inc, inc_offset, is_equal, is_less, is_nonzero, is_zero, less_check, mov_instruction, mov_result,
    nonzero_check, set_a, set_b, with_a, with_b, zero_check,
};

verus! {

/// Events that a successful step reports
#[derive(Clone, Copy, Debug, PartialEq, Eq, Structural)]
pub enum MarsEvent {
    /// At most one warrior is left: the match is over
    Finished,
    /// The cycle cap was reached: the match is a draw
    Tied,
    /// A process split into two
    Split,
    /// A process of the given warrior terminated
    Terminated(Pid),
    /// A process jumped
    Jumped,
    /// A process skipped the next instruction
    Skipped,
    /// A process moved on to the next instruction
    Stepped,
}

/// Errors at the simulator's boundary
#[derive(Clone, Copy, Debug, PartialEq, Eq, Structural)]
pub enum MarsError {
    /// `step` was called after the match ended
    AlreadyHalted,
    /// No p-space is registered under the pin
    UnknownPin,
}

/// The limits a simulator was built with
#[derive(Clone, Copy, Debug, PartialEq, Eq, Structural)]
pub struct MarsConfig {
    pub pspace_size: usize,
    pub max_cycles: usize,
    pub max_processes: usize,
    pub max_length: usize,
    pub min_distance: usize,
    pub version: usize,
}

/// Programs to load: base address, optional pin, instructions
pub open spec fn programs_view(v: Seq<(Address, Option<Pin>, Vec<Instruction>)>) -> Seq<(Address, Option<Pin>, Seq<Instruction>)> {
    v.map_values(|e: (Address, Option<Pin>, Vec<Instruction>)| (e.0, e.1, e.2@))
}

/// Distance between two addresses on a ring of `size` cells, the shorter
/// way round
pub open spec fn ring_distance(size: int, x: int, y: int) -> int {
    let d = if x % size >= y % size { x % size - y % size } else { y % size - x % size };
    if d <= size - d { d } else { size - d }
}

/// The pin of the `i`-th program: its own, or else its load index
pub open spec fn program_pin(progs: Seq<(Address, Option<Pin>, Seq<Instruction>)>, i: int) -> Pin {
    match progs[i].1 {
        Some(p) => p,
        None => i as Pin,
    }
}

/// Why a load is refused, if it is
pub open spec fn load_error(cfg: MarsConfig, size: int, progs: Seq<(Address, Option<Pin>, Seq<Instruction>)>) -> Option<BuilderError> {
    if exists|i: int| 0 <= i < progs.len() && (#[trigger] progs[i]).2.len() > cfg.max_length {
        Some(BuilderError::ProgramTooLong)
    } else if exists|i: int, j: int|
        0 <= i < progs.len() && 0 <= j < progs.len() && i != j
            && ring_distance(size, (#[trigger] progs[i]).0 as int, (#[trigger] progs[j]).0 as int) < cfg.min_distance {
        Some(BuilderError::InvalidOffset)
    } else if progs.len() > cfg.max_processes {
        Some(BuilderError::TooManyWarriors)
    } else {
        None
    }
}

/// `prog` written into `mem` from `base` on, wrapping round
pub open spec fn write_program(mem: Seq<Instruction>, base: int, prog: Seq<Instruction>) -> Seq<Instruction>
    decreases prog.len(),
{
    if prog.len() == 0 {
        mem
    } else {
        let n = prog.len() - 1;
        write_program(mem, base, prog.take(n)).update(wrap(mem.len() as int, base, n), prog[n])
    }
}

/// All programs written into `mem`, in order
pub open spec fn write_programs(mem: Seq<Instruction>, progs: Seq<(Address, Option<Pin>, Seq<Instruction>)>) -> Seq<Instruction>
    decreases progs.len(),
{
    if progs.len() == 0 {
        mem
    } else {
        write_program(write_programs(mem, progs.drop_last()), progs.last().0 as int, progs.last().2)
    }
}

/// An empty core of `size` cells
pub open spec fn empty_core(size: int) -> Seq<Instruction> {
    Seq::new(size as nat, |i: int| dat_zero())
}

/// One warrior per program, in load order, each with one process at its base
pub open spec fn initial_queues(size: int, progs: Seq<(Address, Option<Pin>, Seq<Instruction>)>) -> Seq<(Pid, Seq<Address>)> {
    Seq::new(progs.len(), |i: int| (i as Pid, seq![(progs[i].0 as int % size) as Address]))
}

/// The pin of each program
pub open spec fn warrior_pins(progs: Seq<(Address, Option<Pin>, Seq<Instruction>)>) -> Seq<Pin> {
    Seq::new(progs.len(), |i: int| program_pin(progs, i))
}

/// `ps` with a zeroed p-space added for each pin that has none
pub open spec fn alloc_pspace(ps: Seq<(Pin, Seq<Instruction>)>, pins: Seq<Pin>, psize: int) -> Seq<(Pin, Seq<Instruction>)>
    decreases pins.len(),
{
    if pins.len() == 0 {
        ps
    } else {
        let p0 = alloc_pspace(ps, pins.drop_last(), psize);
        if pin_index(p0, pins.last()) is Some {
            p0
        } else {
            p0.push((pins.last(), empty_core(psize)))
        }
    }
}

/// The state after loading `progs` into `s`: a fresh core and schedule,
/// with `s`'s p-spaces kept or dropped
pub open spec fn loaded(s: MarsState, progs: Seq<(Address, Option<Pin>, Seq<Instruction>)>, keep_pspace: bool) -> MarsState {
    MarsState {
        memory: write_programs(empty_core(s.size()), progs),
        cycle: 0,
        queues: initial_queues(s.size(), progs),
        pins: warrior_pins(progs),
        pspace: alloc_pspace(if keep_pspace { s.pspace } else { seq![] }, warrior_pins(progs), s.config.pspace_size as int),
        halted: progs.len() == 0,
        config: s.config,
    }
}

/// The mathematical state of a simulator
pub ghost struct MarsState {
    /// The core, one instruction per address
    pub memory: Seq<Instruction>,
    /// Steps executed since the last load
    pub cycle: nat,
    /// The schedule: each live warrior with its FIFO of program counters
    pub queues: Seq<(Pid, Seq<Address>)>,
    /// The pin of each loaded warrior, by pid
    pub pins: Seq<Pin>,
    /// P-space of each registered pin
    pub pspace: Seq<(Pin, Seq<Instruction>)>,
    /// Whether the match is over
    pub halted: bool,
    pub config: MarsConfig,
}

/// Number of processes over all warriors
pub open spec fn total(q: Seq<(Pid, Seq<Address>)>) -> int
    decreases q.len(),
{
    if q.len() == 0 {
        0
    } else {
        total(q.drop_last()) + q.last().1.len()
    }
}

/// Index of the first p-space registered under `pin`
pub open spec fn pin_index(ps: Seq<(Pin, Seq<Instruction>)>, pin: Pin) -> Option<int> {
    if exists|i: int| 0 <= i < ps.len() && ps[i].0 == pin {
        Some(choose|i: int| 0 <= i < ps.len() && ps[i].0 == pin && forall|j: int| 0 <= j < i ==> ps[j].0 != pin)
    } else {
        None
    }
}

/// A schedule entry: a known warrior with at least one process, each at an
/// address of the core
pub open spec fn queue_ok(e: (Pid, Seq<Address>), npins: int, size: int) -> bool {
    &&& e.0 < npins
    &&& e.1.len() > 0
    &&& forall|j: int| 0 <= j < e.1.len() ==> #[trigger] e.1[j] < size
}

impl MarsState {
    pub open spec fn size(self) -> int {
        self.memory.len() as int
    }

    /// The state's invariant
    pub open spec fn wf(self) -> bool {
        &&& valid_size(self.size())
        &&& valid_size(self.config.pspace_size as int)
        &&& self.cycle <= self.config.max_cycles
        &&& total(self.queues) <= self.config.max_processes
        &&& forall|i: int| 0 <= i < self.queues.len() ==> queue_ok(#[trigger] self.queues[i], self.pins.len() as int, self.size())
        &&& forall|i: int| 0 <= i < self.pspace.len() ==> (#[trigger] self.pspace[i]).1.len() == self.config.pspace_size
    }

    /// The program counter of the process that runs next
    pub open spec fn pc(self) -> Option<Address> {
        if self.queues.len() > 0 { Some(self.queues[0].1[0]) } else { None }
    }

    /// The warrior that runs next
    pub open spec fn pid(self) -> Option<Pid> {
        if self.queues.len() > 0 { Some(self.queues[0].0) } else { None }
    }

    /// The match cannot go on: no warrior is left, or one of several
    pub open spec fn is_over(self) -> bool {
        self.queues.len() == 0 || (self.queues.len() == 1 && self.pins.len() > 1)
    }
}

/// Pre-decrement through one operand: the cell at `pc + f.offset` has the
/// half that `f`'s mode names decremented
pub open spec fn predec(mem: Seq<Instruction>, pc: int, f: Field) -> Seq<Instruction> {
    let t = wrap(mem.len() as int, pc, f.offset as int);
    match f.mode {
        AddressingMode::AIndirectPreDecrement => mem.update(t, with_a(mem[t], dec(mem.len() as int, mem[t].a.offset))),
        AddressingMode::BIndirectPreDecrement => mem.update(t, with_b(mem[t], dec(mem.len() as int, mem[t].b.offset))),
        _ => mem,
    }
}

/// Post-increment through one operand, symmetric to `predec`
pub open spec fn postinc(mem: Seq<Instruction>, pc: int, f: Field) -> Seq<Instruction> {
    let t = wrap(mem.len() as int, pc, f.offset as int);
    match f.mode {
        AddressingMode::AIndirectPostIncrement => mem.update(t, with_a(mem[t], inc(mem.len() as int, mem[t].a.offset))),
        AddressingMode::BIndirectPostIncrement => mem.update(t, with_b(mem[t], inc(mem.len() as int, mem[t].b.offset))),
        _ => mem,
    }
}

/// The effective address of an operand of the instruction at `pc`
pub open spec fn effective(mem: Seq<Instruction>, pc: int, f: Field) -> int {
    let size = mem.len() as int;
    let t = wrap(size, pc, f.offset as int);
    match f.mode {
        AddressingMode::Immediate => pc,
        AddressingMode::Direct => t,
        AddressingMode::AIndirect
        | AddressingMode::AIndirectPreDecrement
        | AddressingMode::AIndirectPostIncrement => wrap(size, t, mem[t].a.offset as int),
        _ => wrap(size, t, mem[t].b.offset as int),
    }
}

/// What executing one instruction does, before post-increments
pub ghost struct Effect {
    pub memory: Seq<Instruction>,
    pub pspace: Seq<(Pin, Seq<Instruction>)>,
    /// Program counters queued for the executing warrior, in order
    pub pushed: Seq<Address>,
    pub event: MarsEvent,
}

/// Run the instruction `ir` at `pc` for warrior `pid`, whose pin is `pin`,
/// on memory `mem` (after pre-decrements) with effective addresses `ea` and
/// `eb`; `room` tells whether a new process may be created
pub open spec fn execute(
    ir: Instruction,
    pid: Pid,
    pin: Pin,
    pc: int,
    ea: int,
    eb: int,
    mem: Seq<Instruction>,
    ps: Seq<(Pin, Seq<Instruction>)>,
    psize: int,
    room: bool,
) -> Effect {
    let size = mem.len() as int;
    let a = mem[ea];
    let b = mem[eb];
    let code = ir.op.code;
    let mode = ir.op.mode;
    let next = seq![wrap(size, pc, 1) as Address];
    let skip = seq![wrap(size, pc, 2) as Address];
    let jump = seq![ea as Address];
    match code {
        OpCode::Dat => Effect { memory: mem, pspace: ps, pushed: seq![], event: MarsEvent::Terminated(pid) },
        OpCode::Mov => Effect {
            memory: mem.update(eb, mov_result(mode, a, b)),
            pspace: ps,
            pushed: next,
            event: MarsEvent::Stepped,
        },
        OpCode::Add | OpCode::Sub | OpCode::Mul | OpCode::Div | OpCode::Mod => if divides_by_zero(code, mode, a, size) {
            Effect { memory: mem, pspace: ps, pushed: seq![], event: MarsEvent::Terminated(pid) }
        } else {
            Effect {
                memory: mem.update(eb, arith_result(code, mode, a, b, size)),
                pspace: ps,
                pushed: next,
                event: MarsEvent::Stepped,
            }
        },
        OpCode::Jmp => Effect { memory: mem, pspace: ps, pushed: jump, event: MarsEvent::Jumped },
        OpCode::Jmz => if is_zero(mode, b) {
            Effect { memory: mem, pspace: ps, pushed: jump, event: MarsEvent::Jumped }
        } else {
            Effect { memory: mem, pspace: ps, pushed: next, event: MarsEvent::Stepped }
        },
        OpCode::Jmn => if is_nonzero(mode, b) {
            Effect { memory: mem, pspace: ps, pushed: jump, event: MarsEvent::Jumped }
        } else {
            Effect { memory: mem, pspace: ps, pushed: next, event: MarsEvent::Stepped }
        },
        OpCode::Djn => {
            let nb = djn_result(mode, b, size);
            if is_nonzero(mode, nb) {
                Effect { memory: mem.update(eb, nb), pspace: ps, pushed: jump, event: MarsEvent::Jumped }
            } else {
                Effect { memory: mem.update(eb, nb), pspace: ps, pushed: next, event: MarsEvent::Stepped }
            }
        },
        OpCode::Spl => if room {
            Effect { memory: mem, pspace: ps, pushed: next + jump, event: MarsEvent::Split }
        } else {
            Effect { memory: mem, pspace: ps, pushed: next, event: MarsEvent::Stepped }
        },
        OpCode::Cmp => if is_equal(mode, a, b) {
            Effect { memory: mem, pspace: ps, pushed: skip, event: MarsEvent::Skipped }
        } else {
            Effect { memory: mem, pspace: ps, pushed: next, event: MarsEvent::Stepped }
        },
        OpCode::Sne => if !is_equal(mode, a, b) {
            Effect { memory: mem, pspace: ps, pushed: skip, event: MarsEvent::Skipped }
        } else {
            Effect { memory: mem, pspace: ps, pushed: next, event: MarsEvent::Stepped }
        },
        OpCode::Slt => if is_less(mode, a, b) {
            Effect { memory: mem, pspace: ps, pushed: skip, event: MarsEvent::Skipped }
        } else {
            Effect { memory: mem, pspace: ps, pushed: next, event: MarsEvent::Stepped }
        },
        OpCode::Ldp => match pin_index(ps, pin) {
            Some(k) => Effect {
                memory: mem.update(eb, mov_result(mode, ps[k].1[ea % psize], b)),
                pspace: ps,
                pushed: next,
                event: MarsEvent::Stepped,
            },
            None => Effect { memory: mem, pspace: ps, pushed: next, event: MarsEvent::Stepped },
        },
        OpCode::Stp => match pin_index(ps, pin) {
            Some(k) => Effect {
                memory: mem,
                pspace: ps.update(k, (pin, ps[k].1.update(eb % psize, mov_result(mode, a, ps[k].1[eb % psize])))),
                pushed: next,
                event: MarsEvent::Stepped,
            },
            None => Effect { memory: mem, pspace: ps, pushed: next, event: MarsEvent::Stepped },
        },
        OpCode::Nop => Effect { memory: mem, pspace: ps, pushed: next, event: MarsEvent::Stepped },
    }
}

/// One step of a running match that is not over: the head process of the
/// head warrior runs, and the warrior goes to the schedule's tail if it
/// still has processes
pub open spec fn run_head(s: MarsState) -> (MarsState, MarsEvent) {
    let pid = s.queues[0].0;
    let pc = s.queues[0].1[0] as int;
    let ir = s.memory[pc];
    let m1 = predec(predec(s.memory, pc, ir.a), pc, ir.b);
    let ea = effective(m1, pc, ir.a);
    let eb = effective(m1, pc, ir.b);
    let room = total(s.queues) < s.config.max_processes;
    let e = execute(ir, pid, s.pins[pid as int], pc, ea, eb, m1, s.pspace, s.config.pspace_size as int, room);
    let m2 = postinc(postinc(e.memory, pc, ir.a), pc, ir.b);
    let q = s.queues[0].1.skip(1) + e.pushed;
    let others = s.queues.skip(1);
    let queues = if q.len() > 0 { others.push((pid, q)) } else { others };
    (MarsState { memory: m2, pspace: e.pspace, queues, cycle: s.cycle + 1, ..s }, e.event)
}

/// What `step` does to a state, and what it returns
pub open spec fn step_spec(s: MarsState) -> (MarsState, Result<MarsEvent, MarsError>) {
    if s.halted {
        (s, Err(MarsError::AlreadyHalted))
    } else if s.cycle >= s.config.max_cycles {
        (MarsState { halted: true, ..s }, Ok(MarsEvent::Tied))
    } else if s.is_over() {
        (MarsState { halted: true, ..s }, Ok(MarsEvent::Finished))
    } else {
        let (t, e) = run_head(s);
        (t, Ok(e))
    }
}

/// The p-space table as sequences
pub open spec fn pspace_view(v: Seq<(Pin, Vec<Instruction>)>) -> Seq<(Pin, Seq<Instruction>)> {
    v.map_values(|e: (Pin, Vec<Instruction>)| (e.0, e.1@))
}

/// The schedule as sequences
pub open spec fn queues_view(v: Seq<(Pid, Vec<Address>)>) -> Seq<(Pid, Seq<Address>)> {
    v.map_values(|e: (Pid, Vec<Address>)| (e.0, e.1@))
}

/// A registered pin has a first p-space
proof fn lemma_first_pin(ps: Seq<(Pin, Seq<Instruction>)>, pin: Pin, i: int) -> (k: int)
    requires
        0 <= i < ps.len(),
        ps[i].0 == pin,
    ensures
        0 <= k <= i,
        ps[k].0 == pin,
        forall|j: int| 0 <= j < k ==> ps[j].0 != pin,
    decreases i,
{
    if exists|j: int| 0 <= j < i && ps[j].0 == pin {
        let j = choose|j: int| 0 <= j < i && ps[j].0 == pin;
        lemma_first_pin(ps, pin, j)
    } else {
        i
    }
}

/// What `pin_index` finds
pub proof fn lemma_pin_index(ps: Seq<(Pin, Seq<Instruction>)>, pin: Pin)
    ensures
        pin_index(ps, pin) matches Some(k) ==> 0 <= k < ps.len() && ps[k].0 == pin,
{
    if exists|i: int| 0 <= i < ps.len() && ps[i].0 == pin {
        let i = choose|i: int| 0 <= i < ps.len() && ps[i].0 == pin;
        let _ = lemma_first_pin(ps, pin, i);
    }
}

pub proof fn lemma_total_nonneg(q: Seq<(Pid, Seq<Address>)>)
    ensures
        total(q) >= 0,
    decreases q.len(),
{
    if q.len() > 0 {
        lemma_total_nonneg(q.drop_last());
    }
}

/// The processes of the head warrior, and those of the others
pub proof fn lemma_total_skip(q: Seq<(Pid, Seq<Address>)>)
    requires
        q.len() > 0,
    ensures
        total(q) == q[0].1.len() + total(q.skip(1)),
    decreases q.len(),
{
    if q.len() == 1 {
        assert(q.drop_last().len() == 0);
        assert(q.skip(1).len() == 0);
        assert(total(q.drop_last()) == 0);
        assert(total(q.skip(1)) == 0);
        assert(q.last() == q[0]);
    } else {
        let dl = q.drop_last();
        lemma_total_skip(dl);
        assert(q.skip(1).drop_last() =~= dl.skip(1));
        assert(q.skip(1).last() == q.last());
        assert(dl[0] == q[0]);
        assert(total(q.skip(1)) == total(dl.skip(1)) + q.last().1.len());
    }
}

pub proof fn lemma_total_push(q: Seq<(Pid, Seq<Address>)>, e: (Pid, Seq<Address>))
    ensures
        total(q.push(e)) == total(q) + e.1.len(),
{
    assert(q.push(e).drop_last() =~= q);
}

/// Find the first p-space registered under `pin`
fn find_pin(ps: &Vec<(Pin, Vec<Instruction>)>, pin: Pin) -> (r: Option<usize>)
    ensures
        r is Some <==> pin_index(pspace_view(ps@), pin) is Some,
        r matches Some(k) ==> k < ps@.len() && ps@[k as int].0 == pin && pin_index(pspace_view(ps@), pin) == Some(k as int),
{
    let ghost v = pspace_view(ps@);
    let mut i: usize = 0;
    while i < ps.len()
        invariant
            i <= ps.len(),
            v == pspace_view(ps@),
            forall|j: int| 0 <= j < i ==> v[j].0 != pin,
        decreases ps.len() - i,
    {
        if ps[i].0 == pin {
            proof {
                assert(v[i as int].0 == pin);
                let k = choose|k: int| 0 <= k < v.len() && v[k].0 == pin && forall|j: int| 0 <= j < k ==> v[j].0 != pin;
                assert(0 <= k < v.len() && v[k].0 == pin && forall|j: int| 0 <= j < k ==> v[j].0 != pin);
                if k < i {
                } else if k > i {
                    assert(v[i as int].0 != pin);
                }
                assert(k == i);
            }
            return Some(i);
        }
        i += 1;
    }
    None
}

/// Decrement, ahead of execution, the half of memory that an operand's
/// mode names
fn predecrement(mem: &mut Vec<Instruction>, pc: usize, f: Field)
    requires
        valid_size(old(mem)@.len() as int),
        pc < old(mem)@.len(),
    ensures
        final(mem)@ == predec(old(mem)@, pc as int, f),
{
    let size = mem.len();
    let t = wrap_offset(size, pc, f.offset);
    match f.mode {
        AddressingMode::AIndirectPreDecrement => {
            let i = mem[t];
            let v = dec_offset(size, i.a.offset);
            mem.set(t, set_a(i, v));
        },
        AddressingMode::BIndirectPreDecrement => {
            let i = mem[t];
            let v = dec_offset(size, i.b.offset);
            mem.set(t, set_b(i, v));
        },
        _ => {},
    }
}

/// Increment, after execution, the half of memory that an operand's mode
/// names
fn postincrement(mem: &mut Vec<Instruction>, pc: usize, f: Field)
    requires
        valid_size(old(mem)@.len() as int),
        pc < old(mem)@.len(),
    ensures
        final(mem)@ == postinc(old(mem)@, pc as int, f),
{
    let size = mem.len();
    let t = wrap_offset(size, pc, f.offset);
    match f.mode {
        AddressingMode::AIndirectPostIncrement => {
            let i = mem[t];
            let v = inc_offset(size, i.a.offset);
            mem.set(t, set_a(i, v));
        },
        AddressingMode::BIndirectPostIncrement => {
            let i = mem[t];
            let v = inc_offset(size, i.b.offset);
            mem.set(t, set_b(i, v));
        },
        _ => {},
    }
}

/// The effective address of an operand of the instruction at `pc`
fn effective_addr(mem: &Vec<Instruction>, pc: usize, f: Field) -> (r: usize)
    requires
        valid_size(mem@.len() as int),
        pc < mem@.len(),
    ensures
        r as int == effective(mem@, pc as int, f),
        r < mem@.len(),
{
    let size = mem.len();
    let t = wrap_offset(size, pc, f.offset);
    match f.mode {
        AddressingMode::Immediate => pc,
        AddressingMode::Direct => t,
        AddressingMode::AIndirect
        | AddressingMode::AIndirectPreDecrement
        | AddressingMode::AIndirectPostIncrement => wrap_offset(size, t, mem[t].a.offset),
        _ => wrap_offset(size, t, mem[t].b.offset),
    }
}

/// `LDP`: copy, per `mode`, from the cell of `pin`'s p-space at `ea` into
/// memory at `eb`; nothing when no p-space has that pin
fn load_pspace(mem: &mut Vec<Instruction>, ps: &Vec<(Pin, Vec<Instruction>)>, pin: Pin, mode: OpMode, ea: usize, eb: usize, psize: usize)
    requires
        valid_size(psize as int),
        eb < old(mem)@.len(),
        forall|i: int| 0 <= i < ps@.len() ==> (#[trigger] pspace_view(ps@)[i]).1.len() == psize,
    ensures
        final(mem)@ == match pin_index(pspace_view(ps@), pin) {
            Some(k) => old(mem)@.update(eb as int, mov_result(mode, pspace_view(ps@)[k].1[ea as int % psize as int], old(mem)@[eb as int])),
            None => old(mem)@,
        },
{
    match find_pin(ps, pin) {
        Some(k) => {
            assert(pspace_view(ps@)[k as int].1.len() == psize);
            let src = ps[k].1[ea % psize];
            let b = mem[eb];
            mem.set(eb, mov_instruction(mode, src, b));
        },
        None => {},
    }
}

/// Write `x` into cell `idx` of the `k`-th p-space
fn store_pspace_cell(ps: &mut Vec<(Pin, Vec<Instruction>)>, k: usize, idx: usize, x: Instruction)
    requires
        k < old(ps)@.len(),
        idx < old(ps)@[k as int].1@.len(),
    ensures
        ({
            let v = pspace_view(old(ps)@);
            pspace_view(final(ps)@) == v.update(k as int, (v[k as int].0, v[k as int].1.update(idx as int, x)))
        }),
{
    let ghost ps0 = ps@;
    let entry = ps.remove(k);
    let p = entry.0;
    let mut cells = entry.1;
    cells.set(idx, x);
    let ghost entry2 = (p, cells);
    ps.insert(k, (p, cells));
    proof {
        assert(ps@ =~= ps0.update(k as int, entry2));
        assert(pspace_view(ps@) =~= pspace_view(ps0).update(k as int, (p, entry2.1@)));
    }
}

/// `STP`: copy, per `mode`, from `a` into the cell of `pin`'s p-space at
/// `eb`; nothing when no p-space has that pin
fn store_pspace(ps: &mut Vec<(Pin, Vec<Instruction>)>, pin: Pin, mode: OpMode, a: Instruction, eb: usize, psize: usize)
    requires
        valid_size(psize as int),
        forall|i: int| 0 <= i < old(ps)@.len() ==> (#[trigger] pspace_view(old(ps)@)[i]).1.len() == psize,
    ensures
        ({
            let v = pspace_view(old(ps)@);
            pspace_view(final(ps)@) == match pin_index(v, pin) {
                Some(k) => v.update(k, (pin, v[k].1.update(eb as int % psize as int, mov_result(mode, a, v[k].1[eb as int % psize as int])))),
                None => v,
            }
        }),
{
    match find_pin(ps, pin) {
        Some(k) => {
            let ghost v = pspace_view(ps@);
            assert(v[k as int].1.len() == psize);
            let idx = eb % psize;
            let old_cell = ps[k].1[idx];
            store_pspace_cell(ps, k, idx, mov_instruction(mode, a, old_cell));
        },
        None => {},
    }
}

/// Run one instruction: update memory and p-space, queue the executing
/// process's successors onto `pcs`, and report the event
#[verifier::spinoff_prover]
#[verifier::rlimit(60)]
fn execute_instr(
    mem: &mut Vec<Instruction>,
    ps: &mut Vec<(Pin, Vec<Instruction>)>,
    pcs: &mut Vec<Address>,
    ir: Instruction,
    pid: Pid,
    pin: Pin,
    pc: usize,
    ea: usize,
    eb: usize,
    psize: usize,
    room: bool,
) -> (r: MarsEvent)
    requires
        valid_size(old(mem)@.len() as int),
        valid_size(psize as int),
        pc < old(mem)@.len(),
        ea < old(mem)@.len(),
        eb < old(mem)@.len(),
        forall|i: int| 0 <= i < old(ps)@.len() ==> (#[trigger] pspace_view(old(ps)@)[i]).1.len() == psize,
    ensures
        ({
            let e = execute(ir, pid, pin, pc as int, ea as int, eb as int, old(mem)@, pspace_view(old(ps)@), psize as int, room);
            &&& final(mem)@ == e.memory
            &&& pspace_view(final(ps)@) == e.pspace
            &&& final(pcs)@ == old(pcs)@ + e.pushed
            &&& r == e.event
        }),
{
    let ghost v = pspace_view(ps@);
    let size = mem.len();
    let a = mem[ea];
    let b = mem[eb];
    let mode = ir.op.mode;
    let code = ir.op.code;
    let next = wrap_offset(size, pc, 1);
    let skip = wrap_offset(size, pc, 2);
    let ghost pcs0 = pcs@;
    let ghost e = execute(ir, pid, pin, pc as int, ea as int, eb as int, mem@, v, psize as int, room);
    match code {
        OpCode::Dat => {
            assert(e.memory == mem@);
            assert(e.pspace == v);
            assert(pcs@ =~= pcs0 + seq![]);
            MarsEvent::Terminated(pid)
        },
        OpCode::Mov => {
            mem.set(eb, mov_instruction(mode, a, b));
            pcs.push(next);
            MarsEvent::Stepped
        },
        OpCode::Add | OpCode::Sub | OpCode::Mul | OpCode::Div | OpCode::Mod => {
            if divides_by_zero_check(code, mode, a, size) {
                assert(pcs@ =~= pcs0 + seq![]);
                MarsEvent::Terminated(pid)
            } else {
                mem.set(eb, arith_instruction(code, mode, a, b, size));
                pcs.push(next);
                MarsEvent::Stepped
            }
        },
        OpCode::Jmp => {
            pcs.push(ea);
            MarsEvent::Jumped
        },
        OpCode::Jmz => {
            if zero_check(mode, b) {
                pcs.push(ea);
                MarsEvent::Jumped
            } else {
                pcs.push(next);
                MarsEvent::Stepped
            }
        },
        OpCode::Jmn => {
            if nonzero_check(mode, b) {
                pcs.push(ea);
                MarsEvent::Jumped
            } else {
                pcs.push(next);
                MarsEvent::Stepped
            }
        },
        OpCode::Djn => {
            let nb = djn_instruction(mode, b, size);
            mem.set(eb, nb);
            if nonzero_check(mode, nb) {
                pcs.push(ea);
                MarsEvent::Jumped
            } else {
                pcs.push(next);
                MarsEvent::Stepped
            }
        },
        OpCode::Spl => {
            if room {
                pcs.push(next);
                pcs.push(ea);
                assert(pcs@ =~= pcs0 + (seq![next] + seq![ea]));
                MarsEvent::Split
            } else {
                pcs.push(next);
                MarsEvent::Stepped
            }
        },
        OpCode::Cmp => {
            if equal_check(mode, a, b) {
                pcs.push(skip);
                MarsEvent::Skipped
            } else {
                pcs.push(next);
                MarsEvent::Stepped
            }
        },
        OpCode::Sne => {
            if !equal_check(mode, a, b) {
                pcs.push(skip);
                MarsEvent::Skipped
            } else {
                pcs.push(next);
                MarsEvent::Stepped
            }
        },
        OpCode::Slt => {
            if less_check(mode, a, b) {
                pcs.push(skip);
                MarsEvent::Skipped
            } else {
                pcs.push(next);
                MarsEvent::Stepped
            }
        },
        OpCode::Ldp => {
            load_pspace(mem, ps, pin, mode, ea, eb, psize);
            pcs.push(next);
            MarsEvent::Stepped
        },
        OpCode::Stp => {
            store_pspace(ps, pin, mode, a, eb, psize);
            pcs.push(next);
            MarsEvent::Stepped
        },
        OpCode::Nop => {
            pcs.push(next);
            MarsEvent::Stepped
        },
    }
}

pub proof fn lemma_halted_wf(s: MarsState)
    requires
        s.wf(),
    ensures
        (MarsState { halted: true, ..s }).wf(),
{
    let t = MarsState { halted: true, ..s };
    assert(t.pspace == s.pspace);
    assert forall|i: int| 0 <= i < t.pspace.len() implies (#[trigger] t.pspace[i]).1.len() == t.config.pspace_size by {
        assert(s.pspace[i] == t.pspace[i]);
    }
}

/// What executing one instruction keeps in bounds
#[verifier::spinoff_prover]
pub proof fn lemma_execute_bounds(
    ir: Instruction,
    pid: Pid,
    pin: Pin,
    pc: int,
    ea: int,
    eb: int,
    mem: Seq<Instruction>,
    ps: Seq<(Pin, Seq<Instruction>)>,
    psize: int,
    room: bool,
)
    requires
        valid_size(mem.len() as int),
        valid_size(psize),
        0 <= pc < mem.len(),
        0 <= ea < mem.len(),
        0 <= eb < mem.len(),
        forall|i: int| 0 <= i < ps.len() ==> (#[trigger] ps[i]).1.len() == psize,
    ensures
        ({
            let e = execute(ir, pid, pin, pc, ea, eb, mem, ps, psize, room);
            &&& e.memory.len() == mem.len()
            &&& e.pspace.len() == ps.len()
            &&& forall|i: int| 0 <= i < e.pspace.len() ==> (#[trigger] e.pspace[i]).1.len() == psize
            &&& forall|j: int| 0 <= j < e.pushed.len() ==> #[trigger] e.pushed[j] < mem.len()
            &&& e.pushed.len() <= 1 || (e.pushed.len() == 2 && room)
        }),
{
    let e = execute(ir, pid, pin, pc, ea, eb, mem, ps, psize, room);
    lemma_pin_index(ps, pin);
    match ir.op.code {
        OpCode::Stp => {
            match pin_index(ps, pin) {
                Some(k) => {
                    assert forall|i: int| 0 <= i < e.pspace.len() implies (#[trigger] e.pspace[i]).1.len() == psize by {
                        if i != k {
                            assert(e.pspace[i] == ps[i]);
                        }
                    }
                },
                None => {},
            }
        },
        OpCode::Ldp => {},
        OpCode::Dat => {},
        OpCode::Mov => {},
        OpCode::Add => {},
        OpCode::Sub => {},
        OpCode::Mul => {},
        OpCode::Div => {},
        OpCode::Mod => {},
        OpCode::Jmp => {},
        OpCode::Jmz => {},
        OpCode::Jmn => {},
        OpCode::Djn => {},
        OpCode::Spl => {},
        OpCode::Cmp => {},
        OpCode::Sne => {},
        OpCode::Slt => {},
        OpCode::Nop => {},
    }
}

/// A Core War simulator
#[derive(Clone, Debug)]
pub struct Mars {
    memory: Vec<Instruction>,
    cycle: usize,
    process_queue: Vec<(Pid, Vec<Address>)>,
    process_count: usize,
    pins: Vec<Pin>,
    pspace: Vec<(Pin, Vec<Instruction>)>,
    halted: bool,
    config: MarsConfig,
}

impl View for Mars {
    type V = MarsState;

    closed spec fn view(&self) -> MarsState {
        MarsState {
            memory: self.memory@,
            cycle: self.cycle as nat,
            queues: queues_view(self.process_queue@),
            pins: self.pins@,
            pspace: pspace_view(self.pspace@),
            halted: self.halted,
            config: self.config,
        }
    }
}

impl Mars {
    pub closed spec fn count_kept(&self) -> bool {
        self.process_count as int == total(self@.queues)
    }

    /// The simulator's invariant
    pub open spec fn wf(&self) -> bool {
        self@.wf() && self.count_kept()
    }

    /// Step forward one cycle: run one instruction of the next process of
    /// the next warrior
    pub fn step(&mut self) -> (r: Result<MarsEvent, MarsError>)
        requires
            old(self).wf(),
        ensures
            final(self).wf(),
            (final(self)@, r) == step_spec(old(self)@),
    {
        if self.halted {
            return Err(MarsError::AlreadyHalted);
        }
        let ghost s = self@;
        proof { lemma_halted_wf(s); }
        if self.cycle >= self.config.max_cycles {
            self.halted = true;
            assert(self@ == MarsState { halted: true, ..s });
            return Ok(MarsEvent::Tied);
        }
        let n = self.process_queue.len();
        if n == 0 || (n == 1 && self.pins.len() > 1) {
            self.halted = true;
            assert(self@ == MarsState { halted: true, ..s });
            return Ok(MarsEvent::Finished);
        }
        let ev = self.run_head_exec();
        Ok(ev)
    }

    /// Run the head process of the head warrior of a match that is not over
    #[verifier::spinoff_prover]
    #[verifier::rlimit(50)]
    fn run_head_exec(&mut self) -> (r: MarsEvent)
        requires
            old(self).wf(),
            !old(self)@.is_over(),
            old(self)@.cycle < old(self)@.config.max_cycles,
        ensures
            final(self).wf(),
            (final(self)@, r) == run_head(old(self)@),
    {
        let ghost s = self@;
        proof {
            lemma_total_skip(s.queues);
            lemma_total_nonneg(s.queues.skip(1));
            assert(s.queues[0] == (self.process_queue@[0].0, self.process_queue@[0].1@));
        }
        let room = self.process_count < self.config.max_processes;
        let ghost pq0 = self.process_queue@;
        let entry = self.process_queue.remove(0);
        assert(entry == pq0[0]);
        let pid = entry.0;
        let mut pcs = entry.1;
        assert(pcs@ == s.queues[0].1);
        assert(queues_view(self.process_queue@) =~= s.queues.skip(1));
        let pc = pcs.remove(0);
        let ghost rest = pcs@;
        assert(rest =~= s.queues[0].1.skip(1));
        let ir = self.memory[pc];
        predecrement(&mut self.memory, pc, ir.a);
        predecrement(&mut self.memory, pc, ir.b);
        let ea = effective_addr(&self.memory, pc, ir.a);
        let eb = effective_addr(&self.memory, pc, ir.b);
        assert(pid < s.pins.len());
        let pin = self.pins[pid];
        let before = pcs.len();
        assert(pspace_view(self.pspace@) == s.pspace);
        assert(self.pspace@.len() == s.pspace.len());
        let ghost m1 = self.memory@;
        proof {
            lemma_execute_bounds(ir, pid, pin, pc as int, ea as int, eb as int, m1, s.pspace, s.config.pspace_size as int, room);
        }
        let ev = execute_instr(
            &mut self.memory,
            &mut self.pspace,
            &mut pcs,
            ir,
            pid,
            pin,
            pc,
            ea,
            eb,
            self.config.pspace_size,
            room,
        );
        postincrement(&mut self.memory, pc, ir.a);
        postincrement(&mut self.memory, pc, ir.b);
        let ghost q = pcs@;
        let added = pcs.len() - before;
        self.process_count = self.process_count - 1 + added;
        if pcs.len() > 0 {
            let ghost others = self.process_queue@;
            self.process_queue.push((pid, pcs));
            proof {
                assert(queues_view(self.process_queue@) =~= queues_view(others).push((pid, q)));
                lemma_total_push(queues_view(others), (pid, q));
            }
        }
        self.cycle = self.cycle + 1;
        proof {
            let (t, e) = run_head(s);
            assert(self@.queues =~= t.queues);
            assert(self@ == t);
        }
        ev
    }
}

/// Distance between two addresses, the shorter way round the ring
fn ring_dist(size: usize, x: usize, y: usize) -> (r: usize)
    requires
        valid_size(size as int),
    ensures
        r as int == ring_distance(size as int, x as int, y as int),
{
    let xm = x % size;
    let ym = y % size;
    let d = if xm >= ym { xm - ym } else { ym - xm };
    if d <= size - d { d } else { size - d }
}

/// Why a load of `programs` is refused, if it is
fn validate(cfg: MarsConfig, size: usize, programs: &Vec<(Address, Option<Pin>, Vec<Instruction>)>) -> (r: Option<BuilderError>)
    requires
        valid_size(size as int),
    ensures
        r == load_error(cfg, size as int, programs_view(programs@)),
{
    let ghost pv = programs_view(programs@);
    let n = programs.len();
    let mut i: usize = 0;
    while i < n
        invariant
            n == programs@.len(),
            pv == programs_view(programs@),
            i <= n,
            forall|k: int| 0 <= k < i ==> (#[trigger] pv[k]).2.len() <= cfg.max_length,
        decreases n - i,
    {
        if programs[i].2.len() > cfg.max_length {
            assert(pv[i as int].2.len() > cfg.max_length);
            return Some(BuilderError::ProgramTooLong);
        }
        i += 1;
    }
    i = 0;
    while i < n
        invariant
            n == programs@.len(),
            pv == programs_view(programs@),
            valid_size(size as int),
            i <= n,
            forall|k: int| 0 <= k < n ==> (#[trigger] pv[k]).2.len() <= cfg.max_length,
            forall|a: int, b: int|
                0 <= a < i && 0 <= b < n && a != b ==> ring_distance(size as int, (#[trigger] pv[a]).0 as int, (#[trigger] pv[b]).0 as int) >= cfg.min_distance,
        decreases n - i,
    {
        let mut j: usize = 0;
        while j < n
            invariant
                n == programs@.len(),
                pv == programs_view(programs@),
                valid_size(size as int),
                i < n,
                j <= n,
                forall|k: int| 0 <= k < n ==> (#[trigger] pv[k]).2.len() <= cfg.max_length,
                forall|a: int, b: int|
                    0 <= a < i && 0 <= b < n && a != b ==> ring_distance(size as int, (#[trigger] pv[a]).0 as int, (#[trigger] pv[b]).0 as int) >= cfg.min_distance,
                forall|b: int| 0 <= b < j && b != i ==> ring_distance(size as int, pv[i as int].0 as int, (#[trigger] pv[b]).0 as int) >= cfg.min_distance,
            decreases n - j,
        {
            if j != i && ring_dist(size, programs[i].0, programs[j].0) < cfg.min_distance {
                assert(ring_distance(size as int, pv[i as int].0 as int, pv[j as int].0 as int) < cfg.min_distance);
                return Some(BuilderError::InvalidOffset);
            }
            j += 1;
        }
        i += 1;
    }
    if n > cfg.max_processes {
        return Some(BuilderError::TooManyWarriors);
    }
    None
}

/// An empty core of `size` cells
fn fresh_core(size: usize) -> (r: Vec<Instruction>)
    ensures
        r@ == empty_core(size as int),
{
    let mut v: Vec<Instruction> = Vec::new();
    let mut i: usize = 0;
    while i < size
        invariant
            i <= size,
            v@ =~= empty_core(i as int),
        decreases size - i,
    {
        v.push(Instruction::dat_zero());
        i += 1;
    }
    v
}

/// Write `prog` into `mem` from `base` on, wrapping round
fn write_prog(mem: &mut Vec<Instruction>, base: usize, prog: &Vec<Instruction>)
    requires
        valid_size(old(mem)@.len() as int),
    ensures
        final(mem)@ == write_program(old(mem)@, base as int, prog@),
{
    let ghost mem0 = mem@;
    let size = mem.len();
    let mut pos = base % size;
    let mut i: usize = 0;
    while i < prog.len()
        invariant
            size == mem0.len(),
            valid_size(size as int),
            mem@.len() == size,
            i <= prog@.len(),
            pos < size,
            pos as int == wrap(size as int, base as int, i as int),
            mem@ == write_program(mem0, base as int, prog@.take(i as int)),
        decreases prog@.len() - i,
    {
        mem.set(pos, prog[i]);
        proof {
            let t = prog@.take(i + 1);
            assert(t.take(i as int) =~= prog@.take(i as int));
            assert(t[i as int] == prog@[i as int]);
            vstd::arithmetic::div_mod::lemma_add_mod_noop(base as int + i as int, 1, size as int);
            vstd::arithmetic::div_mod::lemma_add_mod_noop_right(pos as int, 1, size as int);
            if size > 1 {
                vstd::arithmetic::div_mod::lemma_small_mod(1, size as nat);
            }
        }
        pos = if pos + 1 == size { 0 } else { pos + 1 };
        proof {
            if size == 1 {
                assert(wrap(size as int, base as int, i + 1) == 0) by {
                    vstd::arithmetic::div_mod::lemma_mod_bound(base as int + i + 1, 1);
                }
            } else {
                vstd::arithmetic::div_mod::lemma_small_mod(1, size as nat);
                if pos != 0 {
                    vstd::arithmetic::div_mod::lemma_small_mod(pos as nat, size as nat);
                } else {
                    vstd::arithmetic::div_mod::lemma_mod_self_0(size as int);
                }
            }
        }
        i += 1;
    }
    assert(prog@.take(prog@.len() as int) =~= prog@);
}

/// Write all programs into `mem`, in order
fn write_all(mem: &mut Vec<Instruction>, programs: &Vec<(Address, Option<Pin>, Vec<Instruction>)>)
    requires
        valid_size(old(mem)@.len() as int),
    ensures
        final(mem)@ == write_programs(old(mem)@, programs_view(programs@)),
        final(mem)@.len() == old(mem)@.len(),
{
    let ghost mem0 = mem@;
    let ghost pv = programs_view(programs@);
    let mut k: usize = 0;
    while k < programs.len()
        invariant
            pv == programs_view(programs@),
            k <= programs@.len(),
            mem@.len() == mem0.len(),
            valid_size(mem0.len() as int),
            mem@ == write_programs(mem0, pv.take(k as int)),
        decreases programs@.len() - k,
    {
        write_prog(mem, programs[k].0, &programs[k].2);
        proof {
            let t = pv.take(k + 1);
            assert(t.drop_last() =~= pv.take(k as int));
            assert(t.last() == pv[k as int]);
            lemma_write_program_len(write_programs(mem0, pv.take(k as int)), programs@[k as int].0 as int, programs@[k as int].2@);
        }
        k += 1;
    }
    assert(pv.take(pv.len() as int) =~= pv);
}

pub proof fn lemma_write_program_len(mem: Seq<Instruction>, base: int, prog: Seq<Instruction>)
    requires
        mem.len() > 0,
    ensures
        write_program(mem, base, prog).len() == mem.len(),
    decreases prog.len(),
{
    if prog.len() > 0 {
        let n = prog.len() - 1;
        lemma_write_program_len(mem, base, prog.take(n));
        let w = write_program(mem, base, prog.take(n));
        vstd::arithmetic::div_mod::lemma_mod_bound(base + n, mem.len() as int);
        assert(write_program(mem, base, prog) == w.update(wrap(mem.len() as int, base, n), prog[n]));
    }
}

/// One warrior per program, each with one process at its base; and the
/// pin of each
fn initial_schedule(size: usize, programs: &Vec<(Address, Option<Pin>, Vec<Instruction>)>) -> (r: (
    Vec<(Pid, Vec<Address>)>,
    Vec<Pin>,
))
    requires
        valid_size(size as int),
    ensures
        queues_view(r.0@) == initial_queues(size as int, programs_view(programs@)),
        r.1@ == warrior_pins(programs_view(programs@)),
{
    let ghost pv = programs_view(programs@);
    let mut queues: Vec<(Pid, Vec<Address>)> = Vec::new();
    let mut pins: Vec<Pin> = Vec::new();
    let mut i: usize = 0;
    while i < programs.len()
        invariant
            pv == programs_view(programs@),
            valid_size(size as int),
            i <= programs@.len(),
            queues_view(queues@) =~= initial_queues(size as int, pv).take(i as int),
            pins@ =~= warrior_pins(pv).take(i as int),
        decreases programs@.len() - i,
    {
        let mut q: Vec<Address> = Vec::new();
        q.push(programs[i].0 % size);
        let ghost qv = q@;
        assert(qv =~= seq![(pv[i as int].0 as int % size as int) as Address]);
        let ghost qs0 = queues@;
        queues.push((i, q));
        let pin = match programs[i].1 {
            Some(p) => p,
            None => #[verifier::truncate] (i as Pin),
        };
        pins.push(pin);
        proof {
            let iq = initial_queues(size as int, pv);
            assert(queues_view(queues@) =~= queues_view(qs0).push((i, qv)));
            assert(iq.take(i + 1) =~= iq.take(i as int).push(iq[i as int]));
            assert(warrior_pins(pv).take(i + 1) =~= warrior_pins(pv).take(i as int).push(warrior_pins(pv)[i as int]));
        }
        i += 1;
    }
    (queues, pins)
}

/// Add a zeroed p-space for each pin that has none
fn alloc_pspaces(ps: &mut Vec<(Pin, Vec<Instruction>)>, pins: &Vec<Pin>, psize: usize)
    ensures
        pspace_view(final(ps)@) == alloc_pspace(pspace_view(old(ps)@), pins@, psize as int),
{
    let ghost v0 = pspace_view(ps@);
    let mut i: usize = 0;
    while i < pins.len()
        invariant
            i <= pins@.len(),
            pspace_view(ps@) == alloc_pspace(v0, pins@.take(i as int), psize as int),
        decreases pins@.len() - i,
    {
        let ghost before = ps@;
        let ghost t = pins@.take(i + 1);
        assert(t.drop_last() =~= pins@.take(i as int));
        assert(t.last() == pins@[i as int]);
        if find_pin(ps, pins[i]).is_none() {
            let cells = fresh_core(psize);
            let ghost cv = cells@;
            ps.push((pins[i], cells));
            assert(pspace_view(ps@) =~= pspace_view(before).push((pins@[i as int], cv)));
        }
        i += 1;
    }
    assert(pins@.take(pins@.len() as int) =~= pins@);
}

pub proof fn lemma_alloc_pspace_sizes(ps: Seq<(Pin, Seq<Instruction>)>, pins: Seq<Pin>, psize: int)
    requires
        psize >= 0,
        forall|i: int| 0 <= i < ps.len() ==> (#[trigger] ps[i]).1.len() == psize,
    ensures
        forall|i: int| 0 <= i < alloc_pspace(ps, pins, psize).len() ==> (#[trigger] alloc_pspace(ps, pins, psize)[i]).1.len() == psize,
    decreases pins.len(),
{
    if pins.len() > 0 {
        lemma_alloc_pspace_sizes(ps, pins.drop_last(), psize);
        let p0 = alloc_pspace(ps, pins.drop_last(), psize);
        let r = alloc_pspace(ps, pins, psize);
        assert forall|i: int| 0 <= i < r.len() implies (#[trigger] r[i]).1.len() == psize by {
            if i < p0.len() {
                assert(r[i] == p0[i]);
            }
        }
    }
}

proof fn lemma_total_initial(size: int, progs: Seq<(Address, Option<Pin>, Seq<Instruction>)>)
    ensures
        total(initial_queues(size, progs)) == progs.len(),
    decreases progs.len(),
{
    if progs.len() > 0 {
        let q = initial_queues(size, progs);
        let dl = progs.drop_last();
        lemma_total_initial(size, dl);
        assert(q.drop_last() =~= initial_queues(size, dl));
    }
}

/// The state of a freshly built, halted simulator
pub open spec fn built(size: int, config: MarsConfig) -> MarsState {
    MarsState {
        memory: empty_core(size),
        cycle: 0,
        queues: seq![],
        pins: seq![],
        pspace: seq![],
        halted: true,
        config,
    }
}

impl Mars {
    /// A halted simulator with an empty core of `size` cells
    pub(crate) fn new_halted(size: usize, config: MarsConfig) -> (r: Mars)
        requires
            valid_size(size as int),
            valid_size(config.pspace_size as int),
        ensures
            r.wf(),
            r@ == built(size as int, config),
    {
        let r = Mars {
            memory: fresh_core(size),
            cycle: 0,
            process_queue: Vec::new(),
            process_count: 0,
            pins: Vec::new(),
            pspace: Vec::new(),
            halted: true,
            config,
        };
        assert(r@.queues =~= seq![]);
        assert(r@.pspace =~= seq![]);
        r
    }

    /// Validate `programs` and, if they pass, load them into a fresh core,
    /// keeping the p-spaces or not
    fn load_programs(&mut self, programs: &Vec<(Address, Option<Pin>, Vec<Instruction>)>, keep_pspace: bool) -> (r: Result<(), BuilderError>)
        requires
            old(self).wf(),
        ensures
            final(self).wf(),
            match load_error(old(self)@.config, old(self)@.size(), programs_view(programs@)) {
                Some(e) => r == Err::<(), BuilderError>(e) && final(self)@ == old(self)@,
                None => r is Ok && final(self)@ == loaded(old(self)@, programs_view(programs@), keep_pspace),
            },
    {
        let ghost s = self@;
        let ghost pv = programs_view(programs@);
        let size = self.memory.len();
        match validate(self.config, size, programs) {
            Some(e) => {
                return Err(e);
            },
            None => {},
        }
        let mut mem = fresh_core(size);
        write_all(&mut mem, programs);
        let (queues, pins) = initial_schedule(size, programs);
        if !keep_pspace {
            self.pspace = Vec::new();
            assert(pspace_view(self.pspace@) =~= seq![]);
        }
        let ghost ps0 = pspace_view(self.pspace@);
        proof {
            if keep_pspace {
                assert(ps0 == s.pspace);
            }
        }
        alloc_pspaces(&mut self.pspace, &pins, self.config.pspace_size);
        proof {
            lemma_alloc_pspace_sizes(ps0, pins@, self.config.pspace_size as int);
            lemma_total_initial(size as int, pv);
            lemma_write_program_len(empty_core(size as int), 0, seq![]);
        }
        self.memory = mem;
        self.process_count = programs.len();
        self.process_queue = queues;
        self.pins = pins;
        self.cycle = 0;
        self.halted = programs.len() == 0;
        proof {
            let t = loaded(s, pv, keep_pspace);
            assert(self@.queues == t.queues);
            assert(self@ == t);
            assert forall|i: int| 0 <= i < t.queues.len() implies queue_ok(#[trigger] t.queues[i], t.pins.len() as int, t.size()) by {
                vstd::arithmetic::div_mod::lemma_mod_bound(pv[i].0 as int, size as int);
                assert(t.queues[i].1 =~= seq![(pv[i].0 as int % size as int) as Address]);
            }
        }
        Ok(())
    }
}

/// Every process as (warrior, program counter), in schedule order
pub open spec fn all_pcs(q: Seq<(Pid, Seq<Address>)>) -> Seq<(Pid, Address)>
    decreases q.len(),
{
    if q.len() == 0 {
        seq![]
    } else {
        all_pcs(q.drop_last()) + q.last().1.map_values(|a: Address| (q.last().0, a))
    }
}

impl Mars {
    /// Has the match ended, by a tie or because at most one warrior is left
    pub fn halted(&self) -> (r: bool)
        ensures
            r == self@.halted,
    {
        self.halted
    }

    /// End the match
    pub fn halt(&mut self)
        requires
            old(self).wf(),
        ensures
            final(self).wf(),
            final(self)@ == (MarsState { halted: true, ..old(self)@ }),
    {
        proof { lemma_halted_wf(self@); }
        self.halted = true;
    }

    /// Start a new match with `programs`, keeping every p-space
    pub fn reset(&mut self, programs: Vec<(Address, Option<Pin>, Vec<Instruction>)>) -> (r: Result<(), BuilderError>)
        requires
            old(self).wf(),
        ensures
            final(self).wf(),
            match load_error(old(self)@.config, old(self)@.size(), programs_view(programs@)) {
                Some(e) => r == Err::<(), BuilderError>(e) && final(self)@ == old(self)@,
                None => r is Ok && final(self)@ == loaded(old(self)@, programs_view(programs@), true),
            },
    {
        self.load_programs(&programs, true)
    }

    /// Start a new match with `programs` and zeroed p-spaces
    pub fn reset_hard(&mut self, programs: Vec<(Address, Option<Pin>, Vec<Instruction>)>) -> (r: Result<(), BuilderError>)
        requires
            old(self).wf(),
        ensures
            final(self).wf(),
            match load_error(old(self)@.config, old(self)@.size(), programs_view(programs@)) {
                Some(e) => r == Err::<(), BuilderError>(e) && final(self)@ == old(self)@,
                None => r is Ok && final(self)@ == loaded(old(self)@, programs_view(programs@), false),
            },
    {
        self.load_programs(&programs, false)
    }

    /// Load a single program at `dest`, as the only warrior of a new match
    pub fn load(&mut self, dest: Address, pin: Option<Pin>, prog: Vec<Instruction>) -> (r: Result<(), BuilderError>)
        requires
            old(self).wf(),
        ensures
            final(self).wf(),
            ({
                let progs = seq![(dest, pin, prog@)];
                match load_error(old(self)@.config, old(self)@.size(), progs) {
                    Some(e) => r == Err::<(), BuilderError>(e) && final(self)@ == old(self)@,
                    None => r is Ok && final(self)@ == loaded(old(self)@, progs, false),
                }
            }),
    {
        let ghost pv = prog@;
        let programs = vec![(dest, pin, prog)];
        assert(programs_view(programs@) =~= seq![(dest, pin, pv)]);
        self.load_programs(&programs, false)
    }

    /// Load several programs, checking their lengths and their spacing
    pub fn load_batch(&mut self, programs: Vec<(Address, Option<Pin>, Vec<Instruction>)>) -> (r: Result<(), BuilderError>)
        requires
            old(self).wf(),
        ensures
            final(self).wf(),
            match load_error(old(self)@.config, old(self)@.size(), programs_view(programs@)) {
                Some(e) => r == Err::<(), BuilderError>(e) && final(self)@ == old(self)@,
                None => r is Ok && final(self)@ == loaded(old(self)@, programs_view(programs@), false),
            },
    {
        self.load_programs(&programs, false)
    }

    /// Program counter of the process that runs next
    pub fn pc(&self) -> (r: Option<Address>)
        requires
            self.wf(),
        ensures
            r == self@.pc(),
    {
        if self.process_queue.len() == 0 {
            None
        } else {
            assert(queue_ok(self@.queues[0], self@.pins.len() as int, self@.size()));
            Some(self.process_queue[0].1[0])
        }
    }

    /// Every process as (warrior, program counter), in the order in which
    /// the schedule holds them
    pub fn pcs(&self) -> (r: Vec<(Pid, Address)>)
        ensures
            r@ == all_pcs(self@.queues),
    {
        let ghost qv = self@.queues;
        let mut out: Vec<(Pid, Address)> = Vec::new();
        let mut i: usize = 0;
        while i < self.process_queue.len()
            invariant
                qv == queues_view(self.process_queue@),
                i <= qv.len(),
                out@ == all_pcs(qv.take(i as int)),
            decreases qv.len() - i,
        {
            let pid = self.process_queue[i].0;
            let q = &self.process_queue[i].1;
            let ghost base = out@;
            let mut j: usize = 0;
            while j < q.len()
                invariant
                    q@ == qv[i as int].1,
                    pid == qv[i as int].0,
                    j <= q@.len(),
                    out@ =~= base + q@.take(j as int).map_values(|a: Address| (pid, a)),
                decreases q@.len() - j,
            {
                out.push((pid, q[j]));
                j += 1;
            }
            proof {
                let t = qv.take(i + 1);
                assert(t.drop_last() =~= qv.take(i as int));
                assert(q@.take(q@.len() as int) =~= q@);
            }
            i += 1;
        }
        assert(qv.take(qv.len() as int) =~= qv);
        out
    }

    /// Steps executed since the last load
    pub fn cycle(&self) -> (r: usize)
        ensures
            r == self@.cycle,
    {
        self.cycle
    }

    /// The warrior that runs next
    pub fn pid(&self) -> (r: Option<Pid>)
        ensures
            r == self@.pid(),
    {
        if self.process_queue.len() == 0 {
            None
        } else {
            Some(self.process_queue[0].0)
        }
    }

    /// The live warriors, in the order in which they will run
    pub fn pids(&self) -> (r: Vec<Pid>)
        ensures
            r@ == self@.queues.map_values(|e: (Pid, Seq<Address>)| e.0),
    {
        let ghost qv = self@.queues;
        let mut out: Vec<Pid> = Vec::new();
        let mut i: usize = 0;
        while i < self.process_queue.len()
            invariant
                qv == queues_view(self.process_queue@),
                i <= qv.len(),
                out@ =~= qv.take(i as int).map_values(|e: (Pid, Seq<Address>)| e.0),
            decreases qv.len() - i,
        {
            out.push(self.process_queue[i].0);
            i += 1;
        }
        assert(qv.take(qv.len() as int) =~= qv);
        out
    }

    /// Number of cells in the core
    pub fn size(&self) -> (r: usize)
        ensures
            r == self@.size(),
    {
        self.memory.len()
    }

    /// Version of the simulator multiplied by 100
    pub fn version(&self) -> (r: usize)
        ensures
            r == self@.config.version,
    {
        self.config.version
    }

    /// Most processes that may exist at once
    pub fn max_processes(&self) -> (r: usize)
        ensures
            r == self@.config.max_processes,
    {
        self.config.max_processes
    }

    /// Steps before a tie is declared
    pub fn max_cycles(&self) -> (r: usize)
        ensures
            r == self@.config.max_cycles,
    {
        self.config.max_cycles
    }

    /// Most instructions a program may hold
    pub fn max_length(&self) -> (r: usize)
        ensures
            r == self@.config.max_length,
    {
        self.config.max_length
    }

    /// Least distance between two programs
    pub fn min_distance(&self) -> (r: usize)
        ensures
            r == self@.config.min_distance,
    {
        self.config.min_distance
    }

    /// Number of cells in each p-space
    pub fn pspace_size(&self) -> (r: usize)
        ensures
            r == self@.config.pspace_size,
    {
        self.config.pspace_size
    }

    /// The core
    pub fn memory(&self) -> (r: &[Instruction])
        ensures
            r@ == self@.memory,
    {
        self.memory.as_slice()
    }

    /// Number of live processes over all warriors
    pub fn process_count(&self) -> (r: usize)
        requires
            self.wf(),
        ensures
            r == total(self@.queues),
    {
        self.process_count
    }

    /// A cell of the p-space registered under `pin`
    pub fn fetch_pspace(&self, pin: Pin, addr: Address) -> (r: Result<Instruction, MarsError>)
        requires
            self.wf(),
        ensures
            match pin_index(self@.pspace, pin) {
                Some(k) => r == Ok::<Instruction, MarsError>(self@.pspace[k].1[addr as int % self@.config.pspace_size as int]),
                None => r == Err::<Instruction, MarsError>(MarsError::UnknownPin),
            },
    {
        match find_pin(&self.pspace, pin) {
            Some(k) => {
                assert(self@.pspace[k as int].1.len() == self.config.pspace_size);
                Ok(self.pspace[k].1[addr % self.config.pspace_size])
            },
            None => Err(MarsError::UnknownPin),
        }
    }
}

} // verus!
