//! Configuration of a `Mars` with defaults.

use vstd::prelude::*;
use crate::mars::{built, load_error, loaded, programs_view, Mars, MarsConfig};
use crate::redcode::{Address, Instruction, Pin};
use crate::ring::valid_size;

verus! {

const DEFAULT_SIZE: usize = 8000;
const DEFAULT_PSPACE_SIZE: usize = 500;
const DEFAULT_MAX_CYCLES: usize = 80000;
const DEFAULT_MAX_PROCESSES: usize = 8000;
const DEFAULT_MAX_LENGTH: usize = 100;
const DEFAULT_MIN_DISTANCE: usize = 100;
const DEFAULT_VERSION: usize = 80;

/// Errors that can occur when loading programs into a `Mars`
#[derive(Clone, Copy, Debug, PartialEq, Eq, Structural)]
pub enum BuilderError {
    /// A program is longer than the configured maximum
    ProgramTooLong,
    /// Two programs are loaded closer than the configured minimum distance
    InvalidOffset,
    /// More programs than the process limit can run
    TooManyWarriors,
}

/// Options of a `Mars`: core size and limits
#[derive(Clone, Copy, Debug)]
pub struct MarsBuilder {
    size: usize,
    config: MarsConfig,
}

impl View for MarsBuilder {
    /// Core size, and the other options
    type V = (int, MarsConfig);

    closed spec fn view(&self) -> (int, MarsConfig) {
        (self.size as int, self.config)
    }
}

/// The options of a builder that has not been changed
pub open spec fn default_options() -> (int, MarsConfig) {
    (8000, MarsConfig {
        pspace_size: 500,
        max_cycles: 80000,
        max_processes: 8000,
        max_length: 100,
        min_distance: 100,
        version: 80,
    })
}

/// Options that a `Mars` can be built with
pub open spec fn buildable(o: (int, MarsConfig)) -> bool {
    valid_size(o.0) && valid_size(o.1.pspace_size as int)
}

impl MarsBuilder {
    /// A builder with the default options
    pub fn new() -> (r: MarsBuilder)
        ensures
            r@ == default_options(),
    {
        MarsBuilder {
            size: DEFAULT_SIZE,
            config: MarsConfig {
                pspace_size: DEFAULT_PSPACE_SIZE,
                max_cycles: DEFAULT_MAX_CYCLES,
                max_processes: DEFAULT_MAX_PROCESSES,
                max_length: DEFAULT_MAX_LENGTH,
                min_distance: DEFAULT_MIN_DISTANCE,
                version: DEFAULT_VERSION,
            },
        }
    }

    /// Build a halted `Mars` with an empty core
    pub fn build(&self) -> (r: Mars)
        requires
            buildable(self@),
        ensures
            r.wf(),
            r@ == built(self@.0, self@.1),
    {
        Mars::new_halted(self.size, self.config)
    }

    /// Build a `Mars` and load `programs` into it
    pub fn build_and_load(&self, programs: Vec<(Address, Option<Pin>, Vec<Instruction>)>) -> (r: Result<Mars, BuilderError>)
        requires
            buildable(self@),
        ensures
            match load_error(self@.1, self@.0, programs_view(programs@)) {
                Some(e) => r matches Err(x) && x == e,
                None => r matches Ok(m) && m.wf() && m@ == loaded(built(self@.0, self@.1), programs_view(programs@), false),
            },
    {
        let mut m = self.build();
        match m.load_batch(programs) {
            Ok(()) => Ok(m),
            Err(e) => Err(e),
        }
    }

    /// Number of cells in the core
    pub fn size(self, size: usize) -> (r: MarsBuilder)
        ensures
            r@ == (size as int, self@.1),
    {
        MarsBuilder { size, ..self }
    }

    /// Number of cells in each warrior's p-space
    pub fn pspace_size(self, size: usize) -> (r: MarsBuilder)
        ensures
            r@ == (self@.0, MarsConfig { pspace_size: size, ..self@.1 }),
    {
        MarsBuilder { config: MarsConfig { pspace_size: size, ..self.config }, ..self }
    }

    /// Steps before a tie is declared
    pub fn max_cycles(self, n: usize) -> (r: MarsBuilder)
        ensures
            r@ == (self@.0, MarsConfig { max_cycles: n, ..self@.1 }),
    {
        MarsBuilder { config: MarsConfig { max_cycles: n, ..self.config }, ..self }
    }

    /// Most processes that may exist at once
    pub fn max_processes(self, n: usize) -> (r: MarsBuilder)
        ensures
            r@ == (self@.0, MarsConfig { max_processes: n, ..self@.1 }),
    {
        MarsBuilder { config: MarsConfig { max_processes: n, ..self.config }, ..self }
    }

    /// Most instructions a program may hold
    pub fn max_length(self, n: usize) -> (r: MarsBuilder)
        ensures
            r@ == (self@.0, MarsConfig { max_length: n, ..self@.1 }),
    {
        MarsBuilder { config: MarsConfig { max_length: n, ..self.config }, ..self }
    }

    /// Least distance between two programs
    pub fn min_distance(self, n: usize) -> (r: MarsBuilder)
        ensures
            r@ == (self@.0, MarsConfig { min_distance: n, ..self@.1 }),
    {
        MarsBuilder { config: MarsConfig { min_distance: n, ..self.config }, ..self }
    }

    /// Version of the simulator multiplied by 100 (0.8 is 80)
    pub fn version(self, version: usize) -> (r: MarsBuilder)
        ensures
            r@ == (self@.0, MarsConfig { version, ..self@.1 }),
    {
        MarsBuilder { config: MarsConfig { version, ..self.config }, ..self }
    }
}

} // verus!
