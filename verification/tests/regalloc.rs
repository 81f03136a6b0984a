use oxide::gen_ir::{Function, IROp, IR};
use oxide::regalloc::{alloc_regs, allocate, AllocError};

fn ir(op: IROp, lhs: Option<usize>, rhs: Option<usize>) -> IR {
    IR::new(op, lhs, rhs)
}

fn func(name: &str, ir: Vec<IR>) -> Function {
    Function { name: String::from(name), stacksize: 8, ir }
}

#[test]
fn virtual_registers_get_the_lowest_free_register() {
    let code = vec![
        ir(IROp::Imm, Some(11), Some(1)),
        ir(IROp::Imm, Some(12), Some(2)),
        ir(IROp::MulImm, Some(12), Some(3)),
        ir(IROp::Add, Some(11), Some(12)),
        ir(IROp::Kill, Some(12), None),
        ir(IROp::Return, Some(11), None),
        ir(IROp::Kill, Some(11), None),
    ];
    let want = vec![
        ir(IROp::Imm, Some(0), Some(1)),
        ir(IROp::Imm, Some(1), Some(2)),
        ir(IROp::MulImm, Some(1), Some(3)),
        ir(IROp::Add, Some(0), Some(1)),
        ir(IROp::Nop, Some(1), None),
        ir(IROp::Return, Some(0), None),
        ir(IROp::Nop, Some(0), None),
    ];
    assert_eq!(allocate(&code), Ok(want));
}

#[test]
fn register_is_free_again_after_the_last_use() {
    let code = vec![
        ir(IROp::Imm, Some(5), Some(1)),
        ir(IROp::Imm, Some(6), Some(2)),
        ir(IROp::Add, Some(5), Some(6)),
        ir(IROp::Imm, Some(7), Some(3)),
        ir(IROp::Add, Some(5), Some(7)),
        ir(IROp::Return, Some(5), None),
    ];
    let want = vec![
        ir(IROp::Imm, Some(0), Some(1)),
        ir(IROp::Imm, Some(1), Some(2)),
        ir(IROp::Add, Some(0), Some(1)),
        ir(IROp::Imm, Some(1), Some(3)),
        ir(IROp::Add, Some(0), Some(1)),
        ir(IROp::Return, Some(0), None),
    ];
    assert_eq!(allocate(&code), Ok(want));
}

#[test]
fn kill_ends_a_range_even_before_a_later_use() {
    let code = vec![
        ir(IROp::Imm, Some(5), Some(1)),
        ir(IROp::Imm, Some(6), Some(2)),
        ir(IROp::Kill, Some(5), None),
        ir(IROp::Imm, Some(7), Some(3)),
        ir(IROp::Mov, Some(5), Some(6)),
        ir(IROp::Return, Some(7), None),
    ];
    let want = vec![
        ir(IROp::Imm, Some(0), Some(1)),
        ir(IROp::Imm, Some(1), Some(2)),
        ir(IROp::Nop, Some(0), None),
        ir(IROp::Imm, Some(0), Some(3)),
        ir(IROp::Mov, Some(2), Some(1)),
        ir(IROp::Return, Some(0), None),
    ];
    assert_eq!(allocate(&code), Ok(want));
}

#[test]
fn operands_that_name_no_register_are_kept() {
    let code = vec![
        ir(IROp::StoreArg(4), Some(100), Some(3)),
        ir(IROp::Label, Some(40), None),
        ir(IROp::Imm, Some(9), Some(77)),
        ir(IROp::Unless, Some(9), Some(41)),
        ir(IROp::Bprel, Some(10), Some(24)),
        ir(IROp::LabelAddr(String::from("g")), Some(12), None),
        ir(IROp::Jmp, Some(40), None),
        ir(IROp::Label, Some(41), None),
        ir(IROp::Nop, None, None),
    ];
    let want = vec![
        ir(IROp::StoreArg(4), Some(100), Some(3)),
        ir(IROp::Label, Some(40), None),
        ir(IROp::Imm, Some(0), Some(77)),
        ir(IROp::Unless, Some(0), Some(41)),
        ir(IROp::Bprel, Some(0), Some(24)),
        ir(IROp::LabelAddr(String::from("g")), Some(0), None),
        ir(IROp::Jmp, Some(40), None),
        ir(IROp::Label, Some(41), None),
        ir(IROp::Nop, None, None),
    ];
    assert_eq!(allocate(&code), Ok(want));
}

#[test]
fn call_arguments_are_renamed_and_the_rest_cleared() {
    let code = vec![
        ir(IROp::Imm, Some(20), Some(1)),
        ir(IROp::Imm, Some(21), Some(2)),
        ir(IROp::Call(String::from("f"), 2, [20, 21, 99, 98, 97, 96]), Some(22), None),
        ir(IROp::Kill, Some(20), None),
        ir(IROp::Kill, Some(21), None),
        ir(IROp::Return, Some(22), None),
    ];
    let want = vec![
        ir(IROp::Imm, Some(0), Some(1)),
        ir(IROp::Imm, Some(1), Some(2)),
        ir(IROp::Call(String::from("f"), 2, [0, 1, 0, 0, 0, 0]), Some(2), None),
        ir(IROp::Nop, Some(0), None),
        ir(IROp::Nop, Some(1), None),
        ir(IROp::Return, Some(2), None),
    ];
    assert_eq!(allocate(&code), Ok(want));
}

fn pressure(n: usize) -> Vec<IR> {
    let mut code = Vec::new();
    for v in 0..n {
        code.push(ir(IROp::Imm, Some(100 + v), Some(v)));
    }
    for v in 1..n {
        code.push(ir(IROp::Add, Some(100), Some(100 + v)));
    }
    code.push(ir(IROp::Return, Some(100), None));
    code
}

#[test]
fn seven_live_registers_fit() {
    let out = allocate(&pressure(7)).unwrap();
    assert_eq!(out.len(), 14);
    for v in 0..7 {
        assert_eq!(out[v], ir(IROp::Imm, Some(v), Some(v)));
    }
    for v in 1..7 {
        assert_eq!(out[6 + v], ir(IROp::Add, Some(0), Some(v)));
    }
}

#[test]
fn eight_live_registers_do_not() {
    assert_eq!(allocate(&pressure(8)), Err(7));
}

#[test]
fn every_register_operand_is_within_the_budget() {
    let code = vec![
        ir(IROp::Imm, Some(1000), Some(1)),
        ir(IROp::Imm, Some(2000), Some(2)),
        ir(IROp::Load(8), Some(3000), Some(1000)),
        ir(IROp::Store(8), Some(2000), Some(3000)),
        ir(IROp::Call(String::from("f"), 3, [1000, 2000, 3000, 0, 0, 0]), Some(4000), None),
        ir(IROp::Neg, Some(4000), None),
        ir(IROp::If, Some(4000), Some(9999)),
        ir(IROp::Label, Some(9999), None),
    ];
    let out = allocate(&code).unwrap();
    assert_eq!(out.len(), code.len());
    let want = vec![
        ir(IROp::Imm, Some(0), Some(1)),
        ir(IROp::Imm, Some(1), Some(2)),
        ir(IROp::Load(8), Some(2), Some(0)),
        ir(IROp::Store(8), Some(1), Some(2)),
        ir(IROp::Call(String::from("f"), 3, [0, 1, 2, 0, 0, 0]), Some(3), None),
        ir(IROp::Neg, Some(3), None),
        ir(IROp::If, Some(3), Some(9999)),
        ir(IROp::Label, Some(9999), None),
    ];
    assert_eq!(out, want);
}

#[test]
fn all_functions_are_allocated() {
    let mut fns = vec![
        func("f", vec![ir(IROp::Imm, Some(3), Some(1)), ir(IROp::Return, Some(3), None)]),
        func("g", vec![ir(IROp::Imm, Some(4), Some(2)), ir(IROp::Return, Some(4), None)]),
    ];
    assert_eq!(alloc_regs(&mut fns), Ok(()));
    assert_eq!(
        fns,
        vec![
            func("f", vec![ir(IROp::Imm, Some(0), Some(1)), ir(IROp::Return, Some(0), None)]),
            func("g", vec![ir(IROp::Imm, Some(0), Some(2)), ir(IROp::Return, Some(0), None)]),
        ]
    );
}

#[test]
fn failure_names_the_place_and_changes_nothing() {
    let mut fns = vec![
        func("f", vec![ir(IROp::Imm, Some(3), Some(1)), ir(IROp::Return, Some(3), None)]),
        func("g", pressure(8)),
    ];
    let before = fns.clone();
    assert_eq!(alloc_regs(&mut fns), Err(AllocError { function: 1, instruction: 7 }));
    assert_eq!(fns, before);
}

#[test]
fn no_function_and_no_instruction() {
    let mut fns: Vec<Function> = Vec::new();
    assert_eq!(alloc_regs(&mut fns), Ok(()));
    assert_eq!(allocate(&[]), Ok(Vec::new()));
}
