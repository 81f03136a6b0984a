use oxide::gen_ir::{Function, IROp, IRType, IR};
use oxide::irdump::{dump_ir, is_dumpable, IRInfo};

fn text(op: IROp, lhs: Option<usize>, rhs: Option<usize>) -> String {
    let i = IR::new(op, lhs, rhs);
    assert!(is_dumpable(&i));
    i.to_string()
}

fn neg(n: usize) -> usize {
    0usize.wrapping_sub(n)
}

#[test]
fn info_is_kept_as_given() {
    let info = IRInfo::new("XYZ", IRType::Jmp);
    assert_eq!(info.name, "XYZ");
    assert_eq!(info.ty, IRType::Jmp);
}

#[test]
fn mnemonics_and_shapes() {
    let table: Vec<(IROp, &str, IRType)> = vec![
        (IROp::Add, "ADD", IRType::RegReg),
        (IROp::AddImm, "ADD", IRType::RegImm),
        (IROp::Call(String::from("f"), 0, [0; 6]), "CALL", IRType::Call),
        (IROp::Div, "DIV", IRType::RegReg),
        (IROp::Imm, "MOV", IRType::RegImm),
        (IROp::Jmp, "JMP", IRType::Jmp),
        (IROp::Kill, "KILL", IRType::Reg),
        (IROp::Label, "", IRType::Label),
        (IROp::LabelAddr(String::from("x")), "LABEL_ADDR", IRType::LabelAddr),
        (IROp::EQ, "EQ", IRType::RegReg),
        (IROp::NE, "NE", IRType::RegReg),
        (IROp::LE, "LE", IRType::RegReg),
        (IROp::LT, "LT", IRType::RegReg),
        (IROp::AND, "AND", IRType::RegReg),
        (IROp::OR, "OR", IRType::RegReg),
        (IROp::XOR, "XOR", IRType::RegReg),
        (IROp::SHL, "SHL", IRType::RegReg),
        (IROp::SHR, "SHR", IRType::RegReg),
        (IROp::Mod, "MOD", IRType::RegReg),
        (IROp::Neg, "NEG", IRType::Reg),
        (IROp::Load(4), "LOAD", IRType::Mem),
        (IROp::Mov, "MOV", IRType::RegReg),
        (IROp::Mul, "MUL", IRType::RegReg),
        (IROp::MulImm, "MUL", IRType::RegImm),
        (IROp::Nop, "NOP", IRType::Noarg),
        (IROp::Return, "RET", IRType::Reg),
        (IROp::Store(4), "STORE", IRType::Mem),
        (IROp::StoreArg(4), "STORE_ARG", IRType::StoreArg),
        (IROp::Sub, "SUB", IRType::RegReg),
        (IROp::SubImm, "SUB", IRType::RegImm),
        (IROp::Bprel, "BPREL", IRType::RegImm),
        (IROp::If, "IF", IRType::RegLabel),
        (IROp::Unless, "UNLESS", IRType::RegLabel),
        (IROp::AVX512Add, "AVX512_ADD", IRType::RegReg),
        (IROp::AVX512Load, "AVX512_LOAD", IRType::Mem),
        (IROp::AVX512LoadStack, "AVX512_LOAD_STACK", IRType::Reg),
        (IROp::AVX512Store, "AVX512_STORE", IRType::Mem),
        (IROp::AVX512StoreStack, "AVX512_STORE_STACK", IRType::RegReg),
        (IROp::AVX512Zero, "AVX512_ZERO", IRType::Reg),
        (IROp::AVX512MaskStore, "AVX512_MASK_STORE", IRType::Mem),
        (IROp::AVX512FMA, "AVX512_FMA", IRType::RegReg),
        (IROp::AVX512Sqrt, "AVX512_SQRT", IRType::Reg),
    ];
    for (op, name, ty) in table {
        let info = IRInfo::from(&op);
        assert_eq!(info.name, name);
        assert_eq!(info.ty, ty);
    }
}

#[test]
fn printed_forms_by_shape() {
    assert_eq!(text(IROp::Label, Some(3), None), ".L3:");
    assert_eq!(text(IROp::Neg, Some(4), None), "  NEG r4");
    assert_eq!(text(IROp::Return, Some(0), None), "  RET r0");
    assert_eq!(text(IROp::Kill, Some(12), None), "  KILL r12");
    assert_eq!(text(IROp::Add, Some(1), Some(2)), "  ADD r1, r2");
    assert_eq!(text(IROp::Mov, Some(1), Some(2)), "  MOV r1, r2");
    assert_eq!(text(IROp::Imm, Some(1), Some(42)), "  MOV r1, 42");
    assert_eq!(text(IROp::Imm, Some(1), Some(neg(42))), "  MOV r1, -42");
    assert_eq!(text(IROp::AddImm, Some(1), Some(8)), "  ADD r1, 8");
    assert_eq!(text(IROp::Bprel, Some(1), Some(neg(16))), "  BPREL r1, -16");
    assert_eq!(text(IROp::If, Some(1), Some(7)), "  IF r1, .L7");
    assert_eq!(text(IROp::Unless, Some(1), Some(7)), "  UNLESS r1, .L7");
    assert_eq!(text(IROp::Jmp, Some(7), None), "  JMP .L7");
    assert_eq!(text(IROp::Load(1), Some(1), Some(2)), "  LOAD1 r1, r2");
    assert_eq!(text(IROp::Load(4), Some(1), Some(2)), "  LOAD4 r1, r2");
    assert_eq!(text(IROp::Store(8), Some(1), Some(2)), "  STORE8 r1, r2");
    assert_eq!(text(IROp::StoreArg(4), Some(neg(8)), Some(1)), "  STORE_ARG4 -8, r1");
    assert_eq!(text(IROp::StoreArg(8), Some(24), Some(0)), "  STORE_ARG8 24, r0");
    assert_eq!(text(IROp::LabelAddr(String::from("msg")), Some(2), None), "  LABEL_ADDR r2, msg");
    assert_eq!(text(IROp::Nop, None, None), "  NOP");
    assert_eq!(text(IROp::Nop, Some(3), None), "  NOP");
    assert_eq!(text(IROp::AVX512Load, Some(1), Some(2)), "  AVX512_LOAD r1, r2");
    assert_eq!(text(IROp::AVX512LoadStack, Some(1), None), "  AVX512_LOAD_STACK r1");
    assert_eq!(text(IROp::AVX512StoreStack, Some(1), Some(2)), "  AVX512_STORE_STACK r1, r2");
    assert_eq!(text(IROp::AVX512Zero, Some(1), None), "  AVX512_ZERO r1");
}

#[test]
fn printed_calls() {
    assert_eq!(text(IROp::Call(String::from("f"), 0, [9; 6]), Some(1), None), "  r1 = f()");
    assert_eq!(text(IROp::Call(String::from("f"), 1, [9; 6]), Some(1), None), "  r1 = f(r9)");
    assert_eq!(
        text(IROp::Call(String::from("printf"), 3, [2, 3, 4, 5, 6, 7]), Some(10), None),
        "  r10 = printf(r2, r3, r4)"
    );
    assert_eq!(
        text(IROp::Call(String::from("g"), 6, [2, 3, 4, 5, 6, 7]), Some(0), None),
        "  r0 = g(r2, r3, r4, r5, r6, r7)"
    );
    assert_eq!(
        text(IROp::Call(String::from("g"), 9, [2, 3, 4, 5, 6, 7]), Some(0), None),
        "  r0 = g(r2, r3, r4, r5, r6, r7)"
    );
}

#[test]
fn missing_operands_are_recognised() {
    assert!(!is_dumpable(&IR::new(IROp::Add, Some(1), None)));
    assert!(!is_dumpable(&IR::new(IROp::Add, None, Some(1))));
    assert!(!is_dumpable(&IR::new(IROp::Label, None, None)));
    assert!(!is_dumpable(&IR::new(IROp::Call(String::from("f"), 0, [0; 6]), None, None)));
    assert!(!is_dumpable(&IR::new(IROp::StoreArg(4), Some(1), None)));
    assert!(is_dumpable(&IR::new(IROp::Return, Some(1), None)));
}

#[test]
fn dump_of_functions() {
    let f = Function {
        name: String::from("main"),
        stacksize: 0,
        ir: vec![IR::new(IROp::Imm, Some(1), Some(0)), IR::new(IROp::Return, Some(1), None)],
    };
    let g = Function { name: String::from("g"), stacksize: 0, ir: Vec::new() };
    assert_eq!(dump_ir(&[f, g]), "main(): \n  MOV r1, 0\n  RET r1\ng(): \n");
    assert_eq!(dump_ir(&[]), "");
}

#[test]
fn info_from_an_operation_through_the_trait() {
    let op = IROp::Unless;
    let info: IRInfo = From::from(&op);
    assert_eq!(info.name, "UNLESS");
    assert_eq!(info.ty, IRType::RegLabel);
    let info: IRInfo = (&IROp::Load(4)).into();
    assert_eq!(info.name, "LOAD");
    assert_eq!(info.ty, IRType::Mem);
}
