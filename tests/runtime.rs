use libcw::{AddressingMode, Core, CoreEvent, Instruction, MarsBuilder, MarsError, OpCode, OpMode};

fn imp() -> Instruction {
    Instruction::new(OpCode::Mov, OpMode::I, AddressingMode::Direct, 0, AddressingMode::Direct, 1)
}

fn two_imps() -> Core {
    Core::new(MarsBuilder::new().build_and_load(vec![(0, None, vec![imp()]), (4000, None, vec![imp()])]).unwrap())
}

#[test]
fn core_step_reports_stepped() {
    let mut core = two_imps();
    assert_eq!(Ok(CoreEvent::Stepped), core.step());
}

#[test]
fn core_pc_moves_to_next_warrior() {
    let mut core = two_imps();
    assert_eq!(0, core.pc());
    let _ = core.step();
    assert_eq!(4000, core.pc());
    assert_eq!(1, core.pid());
    assert_eq!(vec![1, 0], core.pids());
    assert_eq!(vec![(1, 4000), (0, 1)], core.pcs());
    assert_eq!(1, core.cycle());
    assert_eq!(2, core.process_count());
}

#[test]
fn core_halted_step_fails() {
    let mut core = Core::new(MarsBuilder::new().build_and_load(vec![]).unwrap());
    core.halt();
    assert_eq!(true, core.finished());
    assert_eq!(Err(MarsError::AlreadyHalted), core.step());
    assert_eq!(0, core.pc());
    assert_eq!(0, core.pid());
}

#[test]
fn core_observers() {
    let core = Core::new(MarsBuilder::new().size(4000).max_cycles(9).max_processes(33).version(94).build());
    assert_eq!(4000, core.size());
    assert_eq!(9, core.max_cycles());
    assert_eq!(33, core.max_processes());
    assert_eq!(94, core.version());
    assert_eq!(4000, core.memory().len());
}

#[test]
fn core_reset_and_reset_hard() {
    let mut core = two_imps();
    let _ = core.step();
    assert_eq!(Ok(()), core.reset(vec![(10, None, vec![imp()])]));
    assert_eq!(10, core.pc());
    assert_eq!(0, core.cycle());
    assert!(!core.finished());
    assert_eq!(imp(), core.memory()[10]);
    assert_eq!(Instruction::default(), core.memory()[0]);
    assert_eq!(Ok(()), core.reset_hard(vec![(20, None, vec![imp()])]));
    assert_eq!(20, core.pc());
}
