//! The simulation runtime under its older name, `Core`: the same machine
//! as `Mars`, reporting `CoreEvent`s, with the next process's program
//! counter and warrior given as plain values.

use vstd::prelude::*;
use crate::builder::BuilderError;
use crate::mars::{all_pcs, load_error, loaded, programs_view, step_spec, total, Mars, MarsError, MarsEvent, MarsState};
use crate::redcode::{Address, Instruction, Pid, Pin};

verus! {

/// Events that a successful step of a `Core` reports
#[derive(Clone, Copy, Debug, PartialEq, Eq, Structural)]
pub enum CoreEvent {
    /// At most one warrior is left: the match is over
    Finished,
    /// The cycle cap was reached: the match is a draw
    Tied,
    /// A process split into two
    Split,
    /// A process of the given warrior terminated
    Terminated(Pid),
    /// A process jumped
    Jumped,
    /// A process skipped the next instruction
    Skipped,
    /// A process moved on to the next instruction
    Stepped,
}

/// The `CoreEvent` that stands for a `MarsEvent`
pub open spec fn core_event(e: MarsEvent) -> CoreEvent {
    match e {
        MarsEvent::Finished => CoreEvent::Finished,
        MarsEvent::Tied => CoreEvent::Tied,
        MarsEvent::Split => CoreEvent::Split,
        MarsEvent::Terminated(p) => CoreEvent::Terminated(p),
        MarsEvent::Jumped => CoreEvent::Jumped,
        MarsEvent::Skipped => CoreEvent::Skipped,
        MarsEvent::Stepped => CoreEvent::Stepped,
    }
}

fn to_core_event(e: MarsEvent) -> (r: CoreEvent)
    ensures
        r == core_event(e),
{
    match e {
        MarsEvent::Finished => CoreEvent::Finished,
        MarsEvent::Tied => CoreEvent::Tied,
        MarsEvent::Split => CoreEvent::Split,
        MarsEvent::Terminated(p) => CoreEvent::Terminated(p),
        MarsEvent::Jumped => CoreEvent::Jumped,
        MarsEvent::Skipped => CoreEvent::Skipped,
        MarsEvent::Stepped => CoreEvent::Stepped,
    }
}

/// Core War runtime
#[derive(Clone, Debug)]
pub struct Core {
    mars: Mars,
}

impl View for Core {
    type V = MarsState;

    closed spec fn view(&self) -> MarsState {
        self.mars@
    }
}

impl Core {
    /// The runtime's invariant
    pub closed spec fn wf(&self) -> bool {
        self.mars.wf()
    }

    /// A runtime driving `mars`
    pub fn new(mars: Mars) -> (r: Core)
        requires
            mars.wf(),
        ensures
            r.wf(),
            r@ == mars@,
    {
        Core { mars }
    }

    /// Step forward one cycle
    pub fn step(&mut self) -> (r: Result<CoreEvent, MarsError>)
        requires
            old(self).wf(),
        ensures
            final(self).wf(),
            final(self)@ == step_spec(old(self)@).0,
            match step_spec(old(self)@).1 {
                Ok(e) => r == Ok::<CoreEvent, MarsError>(core_event(e)),
                Err(e) => r == Err::<CoreEvent, MarsError>(e),
            },
    {
        match self.mars.step() {
            Ok(e) => Ok(to_core_event(e)),
            Err(e) => Err(e),
        }
    }

    /// Has the match ended
    pub fn finished(&self) -> (r: bool)
        ensures
            r == self@.halted,
    {
        self.mars.halted()
    }

    /// End the match
    pub fn halt(&mut self)
        requires
            old(self).wf(),
        ensures
            final(self).wf(),
            final(self)@ == (MarsState { halted: true, ..old(self)@ }),
    {
        self.mars.halt();
    }

    /// Start a new match with `programs`, keeping every p-space
    pub fn reset(&mut self, programs: Vec<(Address, Option<Pin>, Vec<Instruction>)>) -> (r: Result<(), BuilderError>)
        requires
            old(self).wf(),
        ensures
            final(self).wf(),
            match load_error(old(self)@.config, old(self)@.size(), programs_view(programs@)) {
                Some(e) => r == Err::<(), BuilderError>(e) && final(self)@ == old(self)@,
                None => r is Ok && final(self)@ == loaded(old(self)@, programs_view(programs@), true),
            },
    {
        self.mars.reset(programs)
    }

    /// Start a new match with `programs` and zeroed p-spaces
    pub fn reset_hard(&mut self, programs: Vec<(Address, Option<Pin>, Vec<Instruction>)>) -> (r: Result<(), BuilderError>)
        requires
            old(self).wf(),
        ensures
            final(self).wf(),
            match load_error(old(self)@.config, old(self)@.size(), programs_view(programs@)) {
                Some(e) => r == Err::<(), BuilderError>(e) && final(self)@ == old(self)@,
                None => r is Ok && final(self)@ == loaded(old(self)@, programs_view(programs@), false),
            },
    {
        self.mars.reset_hard(programs)
    }

    /// Program counter of the process that runs next; 0 when none is left
    pub fn pc(&self) -> (r: Address)
        requires
            self.wf(),
        ensures
            r == match self@.pc() {
                Some(p) => p,
                None => 0,
            },
    {
        match self.mars.pc() {
            Some(p) => p,
            None => 0,
        }
    }

    /// Every process as (warrior, program counter), in schedule order
    pub fn pcs(&self) -> (r: Vec<(Pid, Address)>)
        ensures
            r@ == all_pcs(self@.queues),
    {
        self.mars.pcs()
    }

    /// Steps executed since the last load
    pub fn cycle(&self) -> (r: usize)
        ensures
            r == self@.cycle,
    {
        self.mars.cycle()
    }

    /// The warrior that runs next; 0 when none is left
    pub fn pid(&self) -> (r: Pid)
        ensures
            r == match self@.pid() {
                Some(p) => p,
                None => 0,
            },
    {
        match self.mars.pid() {
            Some(p) => p,
            None => 0,
        }
    }

    /// The live warriors, in the order in which they will run
    pub fn pids(&self) -> (r: Vec<Pid>)
        ensures
            r@ == self@.queues.map_values(|e: (Pid, Seq<Address>)| e.0),
    {
        self.mars.pids()
    }

    /// Number of cells in the core
    pub fn size(&self) -> (r: usize)
        ensures
            r == self@.size(),
    {
        self.mars.size()
    }

    /// Version of the simulator multiplied by 100
    pub fn version(&self) -> (r: usize)
        ensures
            r == self@.config.version,
    {
        self.mars.version()
    }

    /// Most processes that may exist at once
    pub fn max_processes(&self) -> (r: usize)
        ensures
            r == self@.config.max_processes,
    {
        self.mars.max_processes()
    }

    /// Steps before a tie is declared
    pub fn max_cycles(&self) -> (r: usize)
        ensures
            r == self@.config.max_cycles,
    {
        self.mars.max_cycles()
    }

    /// The core
    pub fn memory(&self) -> (r: &[Instruction])
        ensures
            r@ == self@.memory,
    {
        self.mars.memory()
    }

    /// Number of live processes over all warriors
    pub fn process_count(&self) -> (r: usize)
        requires
            self.wf(),
        ensures
            r == total(self@.queues),
    {
        self.mars.process_count()
    }
}

} // verus!
