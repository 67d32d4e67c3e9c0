use libcw::{AddressingMode, BuilderError, Instruction, Mars, MarsBuilder, MarsError, MarsEvent, OpCode, OpMode};
use AddressingMode::{BIndirect, Direct, Immediate};

fn ins(code: OpCode, mode: OpMode, am: AddressingMode, a: isize, bm: AddressingMode, b: isize) -> Instruction {
    Instruction::new(code, mode, am, a, bm, b)
}

fn imp() -> Instruction {
    ins(OpCode::Mov, OpMode::I, Direct, 0, Direct, 1)
}

fn dat0() -> Instruction {
    ins(OpCode::Dat, OpMode::F, Immediate, 0, Immediate, 0)
}

fn load_one(builder: MarsBuilder, base: usize, prog: Vec<Instruction>) -> Mars {
    builder.build_and_load(vec![(base, None, prog)]).unwrap()
}

#[test]
fn imp_copies_itself_forward() {
    let mut mars = load_one(MarsBuilder::new(), 0, vec![imp()]);
    assert_eq!(Ok(MarsEvent::Stepped), mars.step());
    assert_eq!(imp(), mars.memory()[1]);
    assert_eq!(Some(1), mars.pc());
    assert_eq!(1, mars.cycle());
    for _ in 1..8000 {
        assert_eq!(Ok(MarsEvent::Stepped), mars.step());
    }
    assert_eq!(Some(0), mars.pc());
    assert!(mars.memory().iter().all(|i| *i == imp()));
}

#[test]
fn dwarf_bombs_every_fourth_cell() {
    let dwarf = vec![
        ins(OpCode::Add, OpMode::AB, Immediate, 4, Direct, 3),
        ins(OpCode::Mov, OpMode::I, Direct, 2, BIndirect, 2),
        ins(OpCode::Jmp, OpMode::I, Direct, -2, Direct, 0),
        ins(OpCode::Dat, OpMode::F, Immediate, 0, Immediate, 0),
    ];
    let mut mars = load_one(MarsBuilder::new(), 4000, dwarf.clone());
    assert_eq!(Ok(MarsEvent::Stepped), mars.step());
    assert_eq!(Ok(MarsEvent::Stepped), mars.step());
    assert_eq!(Ok(MarsEvent::Jumped), mars.step());
    let bomb = ins(OpCode::Dat, OpMode::F, Immediate, 0, Immediate, 4);
    assert_eq!(bomb, mars.memory()[4003]);
    assert_eq!(bomb, mars.memory()[4007]);
    assert_eq!(dwarf[1], mars.memory()[4001]);
    assert_eq!(Some(4000), mars.pc());
    assert!(!mars.halted());
    assert_eq!(1, mars.process_count());
}

#[test]
fn lone_dat_terminates_then_finishes() {
    let mut mars = load_one(MarsBuilder::new(), 0, vec![dat0()]);
    assert_eq!(Ok(MarsEvent::Terminated(0)), mars.step());
    assert_eq!(0, mars.process_count());
    assert_eq!(Ok(MarsEvent::Finished), mars.step());
    assert!(mars.halted());
}

#[test]
fn two_imps_tie_at_cycle_cap() {
    let mut mars = MarsBuilder::new()
        .max_cycles(10)
        .build_and_load(vec![(0, None, vec![imp()]), (4000, None, vec![imp()])])
        .unwrap();
    for _ in 0..10 {
        assert_eq!(Ok(MarsEvent::Stepped), mars.step());
    }
    assert_eq!(10, mars.cycle());
    assert_eq!(Ok(MarsEvent::Tied), mars.step());
    assert!(mars.halted());
}

#[test]
fn division_by_zero_terminates_without_write() {
    let prog = vec![ins(OpCode::Div, OpMode::A, Immediate, 0, Direct, 1), dat0()];
    let mut mars = load_one(MarsBuilder::new(), 0, prog.clone());
    let before = mars.memory().to_vec();
    assert_eq!(Ok(MarsEvent::Terminated(0)), mars.step());
    assert_eq!(before, mars.memory().to_vec());
    assert_eq!(dat0(), mars.memory()[1]);
    assert_eq!(0, mars.process_count());
}

#[test]
fn split_respects_process_cap() {
    let mut mars = load_one(MarsBuilder::new().max_processes(2), 0, vec![ins(OpCode::Spl, OpMode::B, Direct, 0, Direct, 0)]);
    assert_eq!(Ok(MarsEvent::Split), mars.step());
    assert_eq!(2, mars.process_count());
    let _ = mars.step();
    assert!(mars.process_count() <= 2);
}

#[test]
fn spl_at_limit_only_steps() {
    let prog = vec![
        ins(OpCode::Spl, OpMode::B, Direct, 0, Direct, 0),
        ins(OpCode::Jmp, OpMode::B, Direct, -1, Direct, 0),
    ];
    let mut mars = load_one(MarsBuilder::new().max_processes(2), 0, prog);
    assert_eq!(Ok(MarsEvent::Split), mars.step());
    assert_eq!(vec![(0, 1), (0, 0)], mars.pcs());
    assert_eq!(Ok(MarsEvent::Jumped), mars.step());
    assert_eq!(vec![(0, 0), (0, 0)], mars.pcs());
    assert_eq!(Ok(MarsEvent::Stepped), mars.step());
    assert_eq!(2, mars.process_count());
    assert_eq!(vec![(0, 0), (0, 1)], mars.pcs());
}

#[test]
fn negative_offset_wraps() {
    let mut mars = load_one(MarsBuilder::new().size(10).min_distance(1), 0, vec![ins(OpCode::Mov, OpMode::I, Direct, 0, Direct, -1)]);
    assert_eq!(Ok(MarsEvent::Stepped), mars.step());
    assert_eq!(mars.memory()[0], mars.memory()[9]);
}

#[test]
fn halted_step_changes_nothing() {
    let mut mars = load_one(MarsBuilder::new(), 0, vec![dat0()]);
    let _ = mars.step();
    let _ = mars.step();
    assert!(mars.halted());
    let mem = mars.memory().to_vec();
    let cycle = mars.cycle();
    assert_eq!(Err(MarsError::AlreadyHalted), mars.step());
    assert_eq!(Err(MarsError::AlreadyHalted), mars.step());
    assert_eq!(mem, mars.memory().to_vec());
    assert_eq!(cycle, mars.cycle());
}

#[test]
fn halt_ends_match() {
    let mut mars = load_one(MarsBuilder::new(), 0, vec![imp()]);
    assert!(!mars.halted());
    mars.halt();
    assert!(mars.halted());
    assert_eq!(Err(MarsError::AlreadyHalted), mars.step());
}

#[test]
fn halts_within_cycle_cap() {
    let mut mars = MarsBuilder::new()
        .max_cycles(5)
        .build_and_load(vec![(0, None, vec![imp()]), (4000, None, vec![imp()])])
        .unwrap();
    let mut ok = 0;
    while mars.step().is_ok() {
        ok += 1;
    }
    assert_eq!(6, ok);
    assert!(mars.halted());
}

#[test]
fn deterministic_runs() {
    let progs = || vec![(0, None, vec![imp()]), (4000, None, vec![ins(OpCode::Spl, OpMode::B, Direct, 0, Direct, 0)])];
    let mut a = MarsBuilder::new().build_and_load(progs()).unwrap();
    let mut b = MarsBuilder::new().build_and_load(progs()).unwrap();
    for _ in 0..50 {
        assert_eq!(a.step(), b.step());
        assert_eq!(a.pcs(), b.pcs());
    }
    assert_eq!(a.memory(), b.memory());
    assert_eq!(a.pids(), b.pids());
}

#[test]
fn round_robin_over_warriors() {
    let mut mars = MarsBuilder::new()
        .build_and_load(vec![(0, None, vec![imp()]), (4000, None, vec![imp()])])
        .unwrap();
    assert_eq!(Some(0), mars.pc());
    assert_eq!(Some(0), mars.pid());
    assert_eq!(vec![0, 1], mars.pids());
    let _ = mars.step();
    assert_eq!(Some(4000), mars.pc());
    assert_eq!(Some(1), mars.pid());
    assert_eq!(vec![1, 0], mars.pids());
}

#[test]
fn two_warriors_one_dies_then_finished() {
    let mut mars = MarsBuilder::new()
        .build_and_load(vec![(0, None, vec![imp()]), (4000, None, vec![dat0()])])
        .unwrap();
    assert_eq!(Ok(MarsEvent::Stepped), mars.step());
    assert_eq!(Ok(MarsEvent::Terminated(1)), mars.step());
    assert_eq!(Ok(MarsEvent::Finished), mars.step());
    assert!(mars.halted());
}

#[test]
fn load_rejects_long_program() {
    let r = MarsBuilder::new().max_length(1).build_and_load(vec![(0, None, vec![imp(), imp()])]);
    assert_eq!(Some(BuilderError::ProgramTooLong), r.err());
}

#[test]
fn load_rejects_close_programs() {
    let r = MarsBuilder::new().build_and_load(vec![(0, None, vec![imp()]), (50, None, vec![imp()])]);
    assert_eq!(Some(BuilderError::InvalidOffset), r.err());
    let r = MarsBuilder::new().build_and_load(vec![(0, None, vec![imp()]), (7950, None, vec![imp()])]);
    assert_eq!(Some(BuilderError::InvalidOffset), r.err());
    let r = MarsBuilder::new().build_and_load(vec![(0, None, vec![imp()]), (100, None, vec![imp()])]);
    assert!(r.is_ok());
}

#[test]
fn load_rejects_too_many_warriors() {
    let r = MarsBuilder::new().max_processes(1).build_and_load(vec![(0, None, vec![imp()]), (4000, None, vec![imp()])]);
    assert_eq!(Some(BuilderError::TooManyWarriors), r.err());
}

#[test]
fn failed_load_leaves_mars_unchanged() {
    let mut mars = load_one(MarsBuilder::new(), 0, vec![imp()]);
    let _ = mars.step();
    let mem = mars.memory().to_vec();
    let r = mars.reset(vec![(0, None, vec![imp()]), (10, None, vec![imp()])]);
    assert_eq!(Err(BuilderError::InvalidOffset), r);
    assert_eq!(mem, mars.memory().to_vec());
    assert_eq!(1, mars.cycle());
    assert_eq!(Some(1), mars.pc());
}

#[test]
fn empty_load_is_halted() {
    let mars = MarsBuilder::new().build_and_load(vec![]).unwrap();
    assert!(mars.halted());
    assert_eq!(0, mars.process_count());
}

#[test]
fn program_wraps_round_core() {
    let mars = load_one(MarsBuilder::new().size(10).min_distance(1), 9, vec![imp(), dat0(), imp()]);
    assert_eq!(imp(), mars.memory()[9]);
    assert_eq!(dat0(), mars.memory()[0]);
    assert_eq!(imp(), mars.memory()[1]);
    assert_eq!(Some(9), mars.pc());
}

#[test]
fn load_single_program() {
    let mut mars = MarsBuilder::new().build();
    assert_eq!(Ok(()), mars.load(123, None, vec![imp()]));
    assert_eq!(Some(123), mars.pc());
    assert!(!mars.halted());
    assert_eq!(Err(BuilderError::ProgramTooLong), mars.load(0, None, vec![imp(); 101]));
}

#[test]
fn load_batch_programs() {
    let mut mars = MarsBuilder::new().build();
    assert_eq!(Ok(()), mars.load_batch(vec![(0, None, vec![imp()]), (4000, None, vec![dat0()])]));
    assert_eq!(2, mars.process_count());
    assert_eq!(vec![(0, 0), (1, 4000)], mars.pcs());
}

#[test]
fn invariants_hold_over_a_long_run() {
    let bomber = vec![
        ins(OpCode::Spl, OpMode::B, Direct, 2, Direct, 0),
        ins(OpCode::Jmp, OpMode::B, Direct, -1, Direct, 0),
        ins(OpCode::Mov, OpMode::I, Direct, 0, Direct, 5),
    ];
    let mut mars = MarsBuilder::new()
        .size(500)
        .pspace_size(20)
        .max_processes(16)
        .build_and_load(vec![(0, None, bomber), (250, None, vec![imp()])])
        .unwrap();
    for _ in 0..400 {
        if mars.step().is_err() {
            break;
        }
        assert_eq!(500, mars.memory().len());
        assert!(mars.process_count() <= 16);
        assert_eq!(mars.process_count(), mars.pcs().len());
        assert!(mars.pcs().iter().all(|&(_, pc)| pc < 500));
        assert!(mars.cycle() <= mars.max_cycles());
    }
}
