use libcw::{AddressingMode, Instruction, Mars, MarsBuilder, MarsError, MarsEvent, OpCode, OpMode};
use AddressingMode::{
    AIndirect, AIndirectPostIncrement, AIndirectPreDecrement, BIndirect, BIndirectPostIncrement, BIndirectPreDecrement,
    Direct, Immediate,
};

fn ins(code: OpCode, mode: OpMode, am: AddressingMode, a: isize, bm: AddressingMode, b: isize) -> Instruction {
    Instruction::new(code, mode, am, a, bm, b)
}

fn dat(a: isize, b: isize) -> Instruction {
    ins(OpCode::Dat, OpMode::F, Immediate, a, Immediate, b)
}

fn run_one(prog: Vec<Instruction>) -> (Mars, Result<MarsEvent, MarsError>) {
    let mut mars = MarsBuilder::new().build_and_load(vec![(0, None, prog)]).unwrap();
    let ev = mars.step();
    (mars, ev)
}

#[test]
fn default_cell_is_dat_zero() {
    assert_eq!(dat(0, 0), Instruction::default());
    assert_eq!(dat(0, 0), Instruction::dat_zero());
}

#[test]
fn add_ab_immediate() {
    let (m, ev) = run_one(vec![ins(OpCode::Add, OpMode::AB, Immediate, 4, Direct, 1), dat(0, 3)]);
    assert_eq!(Ok(MarsEvent::Stepped), ev);
    assert_eq!(dat(0, 7), m.memory()[1]);
}

#[test]
fn add_wraps_modulo_core() {
    let (m, _) = run_one(vec![ins(OpCode::Add, OpMode::F, Direct, 1, Direct, 2), dat(7999, 5), dat(3, 7996)]);
    assert_eq!(dat(2, 1), m.memory()[2]);
}

#[test]
fn sub_is_reduced_into_range() {
    let (m, _) = run_one(vec![ins(OpCode::Sub, OpMode::AB, Immediate, 5, Direct, 1), dat(0, 3)]);
    assert_eq!(dat(0, 7998), m.memory()[1]);
}

#[test]
fn mul_x_crosses_halves() {
    let (m, _) = run_one(vec![ins(OpCode::Mul, OpMode::X, Direct, 1, Direct, 2), dat(3, 5), dat(7, 11)]);
    assert_eq!(dat(35, 33), m.memory()[2]);
}

#[test]
fn mul_reduces_large_products() {
    let (m, _) = run_one(vec![ins(OpCode::Mul, OpMode::A, Direct, 1, Direct, 2), dat(4000, 0), dat(3, 0)]);
    assert_eq!(dat(4000, 0), m.memory()[2]);
}

#[test]
fn div_and_mod_values() {
    let (m, _) = run_one(vec![ins(OpCode::Div, OpMode::F, Direct, 1, Direct, 2), dat(3, 4), dat(10, 19)]);
    assert_eq!(dat(3, 4), m.memory()[2]);
    let (m, _) = run_one(vec![ins(OpCode::Mod, OpMode::BA, Direct, 1, Direct, 2), dat(0, 4), dat(10, 19)]);
    assert_eq!(dat(2, 19), m.memory()[2]);
}

#[test]
fn div_f_with_one_zero_half_terminates() {
    let (m, ev) = run_one(vec![ins(OpCode::Div, OpMode::F, Direct, 1, Direct, 2), dat(3, 0), dat(10, 19)]);
    assert_eq!(Ok(MarsEvent::Terminated(0)), ev);
    assert_eq!(dat(10, 19), m.memory()[2]);
}

#[test]
fn mod_by_zero_terminates() {
    let (m, ev) = run_one(vec![ins(OpCode::Mod, OpMode::B, Direct, 1, Direct, 2), dat(3, 8000), dat(10, 19)]);
    assert_eq!(Ok(MarsEvent::Terminated(0)), ev);
    assert_eq!(dat(10, 19), m.memory()[2]);
}

#[test]
fn mov_modes() {
    let src = dat(3, 5);
    let cases = vec![
        (OpMode::A, dat(3, 11)),
        (OpMode::B, dat(7, 5)),
        (OpMode::AB, dat(7, 3)),
        (OpMode::BA, dat(5, 11)),
        (OpMode::F, dat(3, 5)),
        (OpMode::X, dat(5, 3)),
    ];
    for (mode, want) in cases {
        let (m, _) = run_one(vec![ins(OpCode::Mov, mode, Direct, 1, Direct, 2), src, dat(7, 11)]);
        assert_eq!(want, m.memory()[2]);
    }
    let src = ins(OpCode::Nop, OpMode::B, Direct, 3, BIndirect, 5);
    let (m, _) = run_one(vec![ins(OpCode::Mov, OpMode::I, Direct, 1, Direct, 2), src, dat(7, 11)]);
    assert_eq!(src, m.memory()[2]);
}

#[test]
fn jmp_to_indirect_target() {
    let (m, ev) = run_one(vec![ins(OpCode::Jmp, OpMode::B, BIndirect, 1, Direct, 0), dat(0, 5)]);
    assert_eq!(Ok(MarsEvent::Jumped), ev);
    assert_eq!(Some(6), m.pc());
}

#[test]
fn jmz_and_jmn() {
    let (m, ev) = run_one(vec![ins(OpCode::Jmz, OpMode::B, Direct, 5, Direct, 1), dat(3, 0)]);
    assert_eq!(Ok(MarsEvent::Jumped), ev);
    assert_eq!(Some(5), m.pc());
    let (m, ev) = run_one(vec![ins(OpCode::Jmz, OpMode::F, Direct, 5, Direct, 1), dat(3, 0)]);
    assert_eq!(Ok(MarsEvent::Stepped), ev);
    assert_eq!(Some(1), m.pc());
    let (m, ev) = run_one(vec![ins(OpCode::Jmn, OpMode::A, Direct, 5, Direct, 1), dat(3, 0)]);
    assert_eq!(Ok(MarsEvent::Jumped), ev);
    assert_eq!(Some(5), m.pc());
    let (m, ev) = run_one(vec![ins(OpCode::Jmn, OpMode::F, Direct, 5, Direct, 1), dat(3, 0)]);
    assert_eq!(Ok(MarsEvent::Stepped), ev);
    assert_eq!(Some(1), m.pc());
}

#[test]
fn djn_decrements_then_tests() {
    let (m, ev) = run_one(vec![ins(OpCode::Djn, OpMode::B, Direct, 5, Direct, 1), dat(0, 2)]);
    assert_eq!(Ok(MarsEvent::Jumped), ev);
    assert_eq!(dat(0, 1), m.memory()[1]);
    assert_eq!(Some(5), m.pc());
    let (m, ev) = run_one(vec![ins(OpCode::Djn, OpMode::B, Direct, 5, Direct, 1), dat(0, 1)]);
    assert_eq!(Ok(MarsEvent::Stepped), ev);
    assert_eq!(dat(0, 0), m.memory()[1]);
    assert_eq!(Some(1), m.pc());
    let (m, _) = run_one(vec![ins(OpCode::Djn, OpMode::F, Direct, 5, Direct, 1), dat(0, 0)]);
    assert_eq!(dat(7999, 7999), m.memory()[1]);
}

#[test]
fn skips() {
    let (m, ev) = run_one(vec![ins(OpCode::Cmp, OpMode::AB, Direct, 1, Direct, 2), dat(4, 0), dat(0, 4)]);
    assert_eq!(Ok(MarsEvent::Skipped), ev);
    assert_eq!(Some(2), m.pc());
    let (m, ev) = run_one(vec![ins(OpCode::Cmp, OpMode::BA, Direct, 1, Direct, 2), dat(4, 0), dat(1, 4)]);
    assert_eq!(Ok(MarsEvent::Stepped), ev);
    assert_eq!(Some(1), m.pc());
    let (_, ev) = run_one(vec![ins(OpCode::Cmp, OpMode::I, Direct, 1, Direct, 2), dat(4, 0), dat(4, 0)]);
    assert_eq!(Ok(MarsEvent::Skipped), ev);
    let (_, ev) = run_one(vec![ins(OpCode::Sne, OpMode::F, Direct, 1, Direct, 2), dat(4, 1), dat(4, 0)]);
    assert_eq!(Ok(MarsEvent::Skipped), ev);
    let (_, ev) = run_one(vec![ins(OpCode::Sne, OpMode::F, Direct, 1, Direct, 2), dat(4, 0), dat(4, 0)]);
    assert_eq!(Ok(MarsEvent::Stepped), ev);
    let (_, ev) = run_one(vec![ins(OpCode::Slt, OpMode::A, Direct, 1, Direct, 2), dat(-1, 0), dat(0, 0)]);
    assert_eq!(Ok(MarsEvent::Skipped), ev);
    let (_, ev) = run_one(vec![ins(OpCode::Slt, OpMode::X, Direct, 1, Direct, 2), dat(1, 5), dat(4, 2)]);
    assert_eq!(Ok(MarsEvent::Stepped), ev);
}

#[test]
fn nop_steps() {
    let (m, ev) = run_one(vec![ins(OpCode::Nop, OpMode::F, Direct, 0, Direct, 0)]);
    assert_eq!(Ok(MarsEvent::Stepped), ev);
    assert_eq!(Some(1), m.pc());
}

#[test]
fn predecrement_before_execution() {
    let (m, _) = run_one(vec![ins(OpCode::Mov, OpMode::I, Direct, 0, BIndirectPreDecrement, 1), dat(0, 3)]);
    assert_eq!(dat(0, 2), m.memory()[1]);
    assert_eq!(m.memory()[0], m.memory()[3]);
    let (m, _) = run_one(vec![ins(OpCode::Mov, OpMode::I, AIndirectPreDecrement, 1, Direct, 5), dat(0, 0)]);
    assert_eq!(dat(7999, 0), m.memory()[1]);
    assert_eq!(m.memory()[0], m.memory()[5]);
}

#[test]
fn postincrement_after_execution() {
    let (m, _) = run_one(vec![ins(OpCode::Mov, OpMode::I, Direct, 0, BIndirectPostIncrement, 1), dat(0, 3)]);
    assert_eq!(dat(0, 4), m.memory()[1]);
    assert_eq!(m.memory()[0], m.memory()[4]);
    let (m, _) = run_one(vec![ins(OpCode::Mov, OpMode::I, AIndirectPostIncrement, 1, Direct, 5), dat(2, 0)]);
    assert_eq!(dat(3, 0), m.memory()[1]);
    assert_eq!(dat(0, 0), m.memory()[5]);
}

#[test]
fn a_indirect_operand() {
    let (m, _) = run_one(vec![ins(OpCode::Mov, OpMode::I, Direct, 0, AIndirect, 1), dat(2, 9)]);
    assert_eq!(m.memory()[0], m.memory()[3]);
}

#[test]
fn pspace_store_and_load() {
    let prog = vec![
        ins(OpCode::Stp, OpMode::I, Direct, 2, Immediate, 0),
        ins(OpCode::Ldp, OpMode::B, Immediate, 0, Direct, 3),
        dat(6, 9),
        dat(0, 0),
    ];
    let mut m = MarsBuilder::new().build_and_load(vec![(0, Some(42), prog)]).unwrap();
    assert_eq!(Ok(dat(0, 0)), m.fetch_pspace(42, 0));
    assert_eq!(Ok(MarsEvent::Stepped), m.step());
    assert_eq!(Ok(dat(6, 9)), m.fetch_pspace(42, 0));
    assert_eq!(Ok(dat(6, 9)), m.fetch_pspace(42, 500));
    assert_eq!(Err(MarsError::UnknownPin), m.fetch_pspace(7, 0));
    assert_eq!(Ok(MarsEvent::Stepped), m.step());
    assert_eq!(dat(0, 0), m.memory()[4]);
}

#[test]
fn ldp_copies_from_pspace() {
    let prog = vec![
        ins(OpCode::Stp, OpMode::I, Direct, 3, Immediate, 7),
        ins(OpCode::Ldp, OpMode::I, Direct, -1, Direct, 4),
        dat(0, 0),
        dat(6, 9),
    ];
    let mut m = MarsBuilder::new().build_and_load(vec![(0, None, prog)]).unwrap();
    let _ = m.step();
    assert_eq!(Ok(dat(6, 9)), m.fetch_pspace(0, 0));
    let _ = m.step();
    assert_eq!(dat(6, 9), m.memory()[5]);
}

#[test]
fn reset_keeps_pspace_and_reset_hard_clears_it() {
    let prog = vec![ins(OpCode::Stp, OpMode::I, Direct, 1, Immediate, 3), dat(1, 2)];
    let mut m = MarsBuilder::new().build_and_load(vec![(0, Some(5), prog.clone())]).unwrap();
    let _ = m.step();
    assert_eq!(Ok(dat(1, 2)), m.fetch_pspace(5, 0));
    let fresh = MarsBuilder::new().build_and_load(vec![(100, Some(5), prog.clone())]).unwrap();
    assert_eq!(Ok(()), m.reset(vec![(100, Some(5), prog.clone())]));
    assert_eq!(Ok(dat(1, 2)), m.fetch_pspace(5, 0));
    assert_eq!(fresh.memory(), m.memory());
    assert_eq!(fresh.pcs(), m.pcs());
    assert_eq!(fresh.cycle(), m.cycle());
    assert_eq!(fresh.halted(), m.halted());
    assert_eq!(Ok(()), m.reset_hard(vec![(100, Some(5), prog.clone())]));
    assert_eq!(Ok(dat(0, 0)), m.fetch_pspace(5, 0));
    assert_eq!(fresh.memory(), m.memory());
    assert_eq!(fresh.pcs(), m.pcs());
}
