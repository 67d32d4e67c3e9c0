//! Laws of the simulator, stated over the mathematical model and proved.

use vstd::prelude::*;
use crate::builder::MarsBuilder;
use crate::mars::{
    alloc_pspace, built, effective, execute, lemma_execute_bounds, lemma_halted_wf, lemma_total_nonneg, lemma_total_push,
    lemma_total_skip, lemma_alloc_pspace_sizes, lemma_write_program_len, empty_core, warrior_pins, write_programs, loaded, postinc, predec, queue_ok, step_spec, total, Effect, MarsError, MarsEvent,
    MarsState,
};
use crate::ops::divides_by_zero;
use crate::redcode::{Address, Field, Instruction, OpCode, OpField, Pid, Pin};
use crate::ring::wrap;

verus! {

/// The state after `n` calls of `step`
pub open spec fn run(s: MarsState, n: nat) -> MarsState
    decreases n,
{
    if n == 0 {
        s
    } else {
        run(step_spec(s).0, (n - 1) as nat)
    }
}

/// What the `n`-th call of `step` returns, counting from one
pub open spec fn event_at(s: MarsState, n: nat) -> Result<MarsEvent, MarsError>
    recommends
        n >= 1,
{
    step_spec(run(s, (n - 1) as nat)).1
}

/// In every well-formed state, and so after every step and every load,
/// each program counter is an address of the core and the processes do
/// not outnumber the limit.
pub proof fn lemma_invariant_bounds(s: MarsState)
    requires
        s.wf(),
    ensures
        forall|i: int, j: int|
            0 <= i < s.queues.len() && 0 <= j < s.queues[i].1.len() ==> 0 <= #[trigger] s.queues[i].1[j] < s.size(),
        total(s.queues) <= s.config.max_processes,
{
    assert forall|i: int, j: int| 0 <= i < s.queues.len() && 0 <= j < s.queues[i].1.len() implies 0 <= #[trigger] s.queues[i].1[j] < s.size() by {
        assert(crate::mars::queue_ok(s.queues[i], s.pins.len() as int, s.size()));
    }
}

/// A step keeps the invariant: every program counter stays an address of
/// the core and the processes never outnumber the limit.
pub proof fn lemma_step_keeps_invariant(s: MarsState)
    requires
        s.wf(),
    ensures
        step_spec(s).0.wf(),
{
    lemma_sizes_kept(s);
    if s.halted {
    } else if s.cycle >= s.config.max_cycles || s.is_over() {
        lemma_halted_wf(s);
    } else {
        let t = step_spec(s).0;
        assert(queue_ok(s.queues[0], s.pins.len() as int, s.size()));
        let pid = s.queues[0].0;
        let pc = s.queues[0].1[0] as int;
        let ir = s.memory[pc];
        let m0 = predec(s.memory, pc, ir.a);
        lemma_predec_postinc_len(s.memory, pc, ir.a);
        let m1 = predec(m0, pc, ir.b);
        lemma_predec_postinc_len(m0, pc, ir.b);
        let ea = effective(m1, pc, ir.a);
        let eb = effective(m1, pc, ir.b);
        lemma_effective_bound(m1, pc, ir.a);
        lemma_effective_bound(m1, pc, ir.b);
        let room = total(s.queues) < s.config.max_processes;
        lemma_execute_bounds(ir, pid, s.pins[pid as int], pc, ea, eb, m1, s.pspace, s.config.pspace_size as int, room);
        let e = execute(ir, pid, s.pins[pid as int], pc, ea, eb, m1, s.pspace, s.config.pspace_size as int, room);
        let q = s.queues[0].1.skip(1) + e.pushed;
        let others = s.queues.skip(1);
        lemma_total_skip(s.queues);
        lemma_total_nonneg(others);
        lemma_total_push(others, (pid, q));
        assert forall|j: int| 0 <= j < q.len() implies #[trigger] q[j] < s.size() by {
            if j < s.queues[0].1.len() - 1 {
                assert(q[j] == s.queues[0].1[j + 1]);
            } else {
                assert(q[j] == e.pushed[j - (s.queues[0].1.len() - 1)]);
            }
        }
        assert forall|i: int| 0 <= i < t.queues.len() implies queue_ok(#[trigger] t.queues[i], t.pins.len() as int, t.size()) by {
            if i < others.len() {
                assert(t.queues[i] == s.queues[i + 1]);
                assert(queue_ok(s.queues[i + 1], s.pins.len() as int, s.size()));
            }
        }
    }
}

/// However many steps are taken, the invariant still holds.
pub proof fn lemma_run_keeps_invariant(s: MarsState, n: nat)
    requires
        s.wf(),
    ensures
        run(s, n).wf(),
    decreases n,
{
    if n > 0 {
        lemma_step_keeps_invariant(s);
        lemma_run_keeps_invariant(step_spec(s).0, (n - 1) as nat);
    }
}

/// Stepping a halted simulator fails with `AlreadyHalted` and changes
/// nothing.
pub proof fn lemma_halted_step(s: MarsState)
    requires
        s.halted,
    ensures
        step_spec(s) == (s, Err::<MarsEvent, MarsError>(MarsError::AlreadyHalted)),
{
}

/// A step that does not end the match advances the cycle count by one;
/// once the count reaches `max_cycles`, the next step ends the match.
pub proof fn lemma_step_cycle(s: MarsState)
    requires
        s.cycle <= s.config.max_cycles,
        !s.halted,
    ensures
        step_spec(s).0.halted || step_spec(s).0.cycle == s.cycle + 1,
        step_spec(s).0.cycle <= s.config.max_cycles,
        step_spec(s).0.config == s.config,
        s.cycle == s.config.max_cycles ==> step_spec(s).0.halted && step_spec(s).1 == Ok::<MarsEvent, MarsError>(MarsEvent::Tied),
{
}

/// From any state within the cycle cap, the match is over after at most
/// `max_cycles - cycle + 1` steps: a freshly loaded simulator halts
/// within `max_cycles + 1` steps, the last of which reports `Tied` if
/// nothing ended the match earlier.
pub proof fn lemma_halts(s: MarsState, n: nat)
    requires
        s.cycle <= s.config.max_cycles,
        n >= s.config.max_cycles - s.cycle + 1,
    ensures
        run(s, n).halted,
    decreases n,
{
    if !s.halted {
        lemma_step_cycle(s);
        let t = step_spec(s).0;
        if !t.halted {
            lemma_halts(t, (n - 1) as nat);
        } else {
            lemma_halted_stays(t, (n - 1) as nat);
        }
    } else {
        lemma_halted_stays(s, n);
    }
}

/// A halted simulator stays as it is, however often it is stepped.
pub proof fn lemma_halted_stays(s: MarsState, n: nat)
    requires
        s.halted,
    ensures
        run(s, n) == s,
    decreases n,
{
    if n > 0 {
        lemma_halted_stays(s, (n - 1) as nat);
    }
}

proof fn lemma_wrap_bound(size: int, base: int, off: int)
    requires
        size > 0,
    ensures
        0 <= wrap(size, base, off) < size,
{
    vstd::arithmetic::div_mod::lemma_mod_bound(base + off, size);
}

proof fn lemma_predec_postinc_len(mem: Seq<Instruction>, pc: int, f: Field)
    requires
        mem.len() > 0,
    ensures
        predec(mem, pc, f).len() == mem.len(),
        postinc(mem, pc, f).len() == mem.len(),
{
    lemma_wrap_bound(mem.len() as int, pc, f.offset as int);
}

proof fn lemma_effective_bound(mem: Seq<Instruction>, pc: int, f: Field)
    requires
        mem.len() > 0,
        0 <= pc < mem.len(),
    ensures
        0 <= effective(mem, pc, f) < mem.len(),
{
    let size = mem.len() as int;
    let t = wrap(size, pc, f.offset as int);
    lemma_wrap_bound(size, pc, f.offset as int);
    lemma_wrap_bound(size, t, mem[t].a.offset as int);
    lemma_wrap_bound(size, t, mem[t].b.offset as int);
}

/// A step never resizes the core or a p-space, and never changes the
/// options.
pub proof fn lemma_sizes_kept(s: MarsState)
    requires
        s.wf(),
    ensures
        step_spec(s).0.size() == s.size(),
        step_spec(s).0.config == s.config,
        step_spec(s).0.pspace.len() == s.pspace.len(),
        forall|i: int| 0 <= i < step_spec(s).0.pspace.len() ==> (#[trigger] step_spec(s).0.pspace[i]).1.len() == s.config.pspace_size,
{
    if !s.halted && s.cycle < s.config.max_cycles && !s.is_over() {
        assert(crate::mars::queue_ok(s.queues[0], s.pins.len() as int, s.size()));
        let pid = s.queues[0].0;
        let pc = s.queues[0].1[0] as int;
        let ir = s.memory[pc];
        let m0 = predec(s.memory, pc, ir.a);
        lemma_predec_postinc_len(s.memory, pc, ir.a);
        let m1 = predec(m0, pc, ir.b);
        lemma_predec_postinc_len(m0, pc, ir.b);
        let ea = effective(m1, pc, ir.a);
        let eb = effective(m1, pc, ir.b);
        lemma_effective_bound(m1, pc, ir.a);
        lemma_effective_bound(m1, pc, ir.b);
        let room = total(s.queues) < s.config.max_processes;
        lemma_execute_bounds(ir, pid, s.pins[pid as int], pc, ea, eb, m1, s.pspace, s.config.pspace_size as int, room);
        let e = execute(ir, pid, s.pins[pid as int], pc, ea, eb, m1, s.pspace, s.config.pspace_size as int, room);
        lemma_predec_postinc_len(e.memory, pc, ir.a);
        lemma_predec_postinc_len(postinc(e.memory, pc, ir.a), pc, ir.b);
    }
}

proof fn lemma_write_programs_len(mem: Seq<Instruction>, progs: Seq<(Address, Option<Pin>, Seq<Instruction>)>)
    requires
        mem.len() > 0,
    ensures
        write_programs(mem, progs).len() == mem.len(),
    decreases progs.len(),
{
    if progs.len() > 0 {
        lemma_write_programs_len(mem, progs.drop_last());
        lemma_write_program_len(write_programs(mem, progs.drop_last()), progs.last().0 as int, progs.last().2);
    }
}

/// Loading programs keeps the size of the core and of every p-space.
pub proof fn lemma_load_keeps_sizes(s: MarsState, progs: Seq<(Address, Option<Pin>, Seq<Instruction>)>, keep_pspace: bool)
    requires
        s.wf(),
    ensures
        loaded(s, progs, keep_pspace).size() == s.size(),
        forall|i: int|
            0 <= i < loaded(s, progs, keep_pspace).pspace.len() ==> (#[trigger] loaded(s, progs, keep_pspace).pspace[i]).1.len()
                == s.config.pspace_size,
{
    lemma_write_programs_len(empty_core(s.size()), progs);
    let ps: Seq<(Pin, Seq<Instruction>)> = if keep_pspace { s.pspace } else { seq![] };
    lemma_alloc_pspace_sizes(ps, warrior_pins(progs), s.config.pspace_size as int);
}

/// Over any number of steps the core and the p-spaces keep their sizes.
pub proof fn lemma_run_keeps_sizes(s: MarsState, n: nat)
    requires
        s.wf(),
    ensures
        run(s, n).size() == s.size(),
        run(s, n).pspace.len() == s.pspace.len(),
        forall|i: int| 0 <= i < run(s, n).pspace.len() ==> (#[trigger] run(s, n).pspace[i]).1.len() == s.config.pspace_size,
    decreases n,
{
    if n > 0 {
        lemma_sizes_kept(s);
        lemma_step_keeps_invariant(s);
        lemma_run_keeps_sizes(step_spec(s).0, (n - 1) as nat);
    }
}

/// The same state, stepped the same number of times, gives the same
/// memory, schedule and events.
pub proof fn lemma_deterministic(s1: MarsState, s2: MarsState, n: nat)
    requires
        s1 == s2,
    ensures
        run(s1, n) == run(s2, n),
        forall|k: nat| 1 <= k <= n ==> event_at(s1, k) == event_at(s2, k),
{
}

/// Two builders with the same options build the same halted simulator.
pub proof fn lemma_build_pure(b1: MarsBuilder, b2: MarsBuilder)
    requires
        b1@ == b2@,
    ensures
        built(b1@.0, b1@.1) == built(b2@.0, b2@.1),
        built(b1@.0, b1@.1).halted,
{
}

proof fn lemma_alloc_keeps(ps: Seq<(Pin, Seq<Instruction>)>, pins: Seq<Pin>, psize: int)
    ensures
        alloc_pspace(ps, pins, psize).len() >= ps.len(),
        alloc_pspace(ps, pins, psize).take(ps.len() as int) == ps,
    decreases pins.len(),
{
    if pins.len() > 0 {
        lemma_alloc_keeps(ps, pins.drop_last(), psize);
        let p0 = alloc_pspace(ps, pins.drop_last(), psize);
        let r = alloc_pspace(ps, pins, psize);
        assert(r.take(ps.len() as int) =~= p0.take(ps.len() as int));
    }
}

/// A soft reset, from any state, gives what building with the same
/// options and loading the same programs gives, except that the
/// p-spaces are kept: each one the state had is still there, unchanged.
pub proof fn lemma_reset_is_fresh_load(s: MarsState, progs: Seq<(Address, Option<Pin>, Seq<Instruction>)>)
    ensures
        loaded(s, progs, true) == (MarsState {
            pspace: loaded(s, progs, true).pspace,
            ..loaded(built(s.size(), s.config), progs, false)
        }),
        loaded(s, progs, true).pspace.take(s.pspace.len() as int) == s.pspace,
{
    lemma_alloc_keeps(s.pspace, crate::mars::warrior_pins(progs), s.config.pspace_size as int);
}

/// A hard reset, from any state, gives what building with the same
/// options and loading the same programs gives.
pub proof fn lemma_reset_hard_is_fresh_load(s: MarsState, progs: Seq<(Address, Option<Pin>, Seq<Instruction>)>)
    ensures
        loaded(s, progs, false) == loaded(built(s.size(), s.config), progs, false),
{
}

/// A negative offset counts back from the address, round the end of the
/// core if need be.
pub proof fn lemma_negative_offset_wraps(size: int, pc: int, k: int)
    requires
        0 <= pc < size,
        0 < k <= size,
    ensures
        wrap(size, pc, -k) == if k <= pc { pc - k } else { pc - k + size },
{
    if k <= pc {
        vstd::arithmetic::div_mod::lemma_small_mod((pc - k) as nat, size as nat);
    } else {
        vstd::arithmetic::div_mod::lemma_mod_multiples_vanish(1, pc - k, size);
        vstd::arithmetic::div_mod::lemma_small_mod((pc - k + size) as nat, size as nat);
    }
}

/// A division by a zero A-value terminates the executing process: memory
/// and p-space are left as they were and nothing is queued.
pub proof fn lemma_division_by_zero(
    ir: Instruction,
    pid: Pid,
    pin: Pin,
    pc: int,
    ea: int,
    eb: int,
    mem: Seq<Instruction>,
    ps: Seq<(Pin, Seq<Instruction>)>,
    psize: int,
    room: bool,
)
    requires
        divides_by_zero(ir.op.code, ir.op.mode, mem[ea], mem.len() as int),
    ensures
        execute(ir, pid, pin, pc, ea, eb, mem, ps, psize, room) == (Effect {
            memory: mem,
            pspace: ps,
            pushed: seq![],
            event: MarsEvent::Terminated(pid),
        }),
{
}

/// With no room for another process, `SPL` does what `NOP` does.
pub proof fn lemma_split_at_limit(
    ir: Instruction,
    pid: Pid,
    pin: Pin,
    pc: int,
    ea: int,
    eb: int,
    mem: Seq<Instruction>,
    ps: Seq<(Pin, Seq<Instruction>)>,
    psize: int,
)
    requires
        ir.op.code == OpCode::Spl,
    ensures
        execute(ir, pid, pin, pc, ea, eb, mem, ps, psize, false) == execute(
            Instruction { op: OpField { code: OpCode::Nop, ..ir.op }, ..ir },
            pid,
            pin,
            pc,
            ea,
            eb,
            mem,
            ps,
            psize,
            false,
        ),
{
}

} // verus!
