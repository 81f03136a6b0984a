use oxide::gen_ir::{Function, IROp, IR};
use oxide::pipeline::{
    assign_frames, compile, find_missing_operand, find_obstacle, find_undefined_label,
    frame_needed, CompileError, Obstacle, Options,
};
use oxide::text::{decimal_string, imm32_string};
use oxide::util::roundup;

fn ir(op: IROp, lhs: Option<usize>, rhs: Option<usize>) -> IR {
    IR::new(op, lhs, rhs)
}

fn func(name: &str, stacksize: usize, ir: Vec<IR>) -> Function {
    Function { name: String::from(name), stacksize, ir }
}

fn options(d1: bool, d2: bool, d3: bool, vectorize: bool) -> Options {
    Options { dump_ir1: d1, dump_ir2: d2, dump_ir3: d3, vectorize }
}

fn triplet() -> Vec<IR> {
    vec![
        ir(IROp::Bprel, Some(10), Some(8)),
        ir(IROp::Load(8), Some(11), Some(10)),
        ir(IROp::Add, Some(11), Some(10)),
        ir(IROp::Store(8), Some(10), Some(11)),
        ir(IROp::Kill, Some(10), None),
        ir(IROp::Return, Some(11), None),
        ir(IROp::Kill, Some(11), None),
    ]
}

#[test]
fn all_dumps_in_order() {
    let mut label = 0usize;
    let out = compile(Vec::new(), vec![func("f", 8, triplet())], &options(true, true, true, true), &mut label);
    assert_eq!(label, 1);
    assert_eq!(
        out.dump,
        "f(): \n  BPREL r10, 8\n  LOAD8 r11, r10\n  ADD r11, r10\n  STORE8 r10, r11\n  KILL r10\n  RET r11\n  KILL r11\n\
f(): \n  BPREL r0, 8\n  LOAD8 r1, r0\n  ADD r1, r0\n  STORE8 r0, r1\n  NOP\n  RET r1\n  NOP\n\
f(): \n  BPREL r0, 8\n  AVX512_LOAD r1, r0\n  AVX512_ADD r1, r0\n  AVX512_STORE r0, r1\n  NOP\n  RET r1\n  NOP\n"
    );
    let code = out.code.unwrap();
    assert!(code.contains("\tlea r10, [rbp+8]\n\tvmovapd zmm1, [r10]\n\tvaddpd zmm1, zmm1, zmm0\n\tvmovapd [r10], zmm1\n\tmov rax, r11\n\tjmp .Lend0\n"));
}

#[test]
fn without_the_vectorizer_the_allocated_code_is_generated() {
    let mut label = 0usize;
    let out = compile(Vec::new(), vec![func("f", 8, triplet())], &options(false, true, true, false), &mut label);
    assert_eq!(
        out.dump,
        "f(): \n  BPREL r0, 8\n  LOAD8 r1, r0\n  ADD r1, r0\n  STORE8 r0, r1\n  NOP\n  RET r1\n  NOP\n"
    );
    let code = out.code.unwrap();
    assert!(code.contains("\tlea r10, [rbp+8]\n\tmov r11, [r10]\n\tadd r11, r10\n\tmov [r10], r11\n\tmov rax, r11\n\tjmp .Lend0\n"));
    assert!(!code.contains("zmm"));
}

#[test]
fn no_dump_unless_asked() {
    let mut label = 7usize;
    let out = compile(Vec::new(), vec![func("f", 8, triplet())], &options(false, false, false, true), &mut label);
    assert_eq!(out.dump, "");
    assert!(out.code.is_ok());
    assert_eq!(label, 8);
}

#[test]
fn missing_operand_is_reported_first() {
    let f = func("f", 0, vec![ir(IROp::Nop, None, None)]);
    let g = func("g", 0, vec![ir(IROp::Imm, Some(1), Some(1)), ir(IROp::Add, Some(1), None)]);
    let mut label = 3usize;
    let out = compile(Vec::new(), vec![f, g], &options(true, true, true, true), &mut label);
    assert_eq!(out.code, Err(CompileError::MissingOperand { function: 1, instruction: 1 }));
    assert_eq!(out.dump, "");
    assert_eq!(label, 3);
}

#[test]
fn exhausted_registers_are_reported_after_the_first_dump() {
    let mut code = Vec::new();
    for v in 0..8 {
        code.push(ir(IROp::Imm, Some(v + 50), Some(v)));
    }
    for v in 0..8 {
        code.push(ir(IROp::Kill, Some(v + 50), None));
    }
    let mut label = 3usize;
    let out = compile(Vec::new(), vec![func("f", 0, code)], &options(true, true, false, false), &mut label);
    assert_eq!(out.code, Err(CompileError::RegisterExhausted { function: 0, instruction: 7 }));
    assert!(out.dump.starts_with("f(): \n  MOV r50, 0\n"));
    assert_eq!(out.dump.matches("f(): ").count(), 1);
    assert_eq!(label, 3);
}

#[test]
fn unknown_width_is_reported() {
    let f = func("f", 0, vec![ir(IROp::Imm, Some(1), Some(1)), ir(IROp::Load(2), Some(2), Some(1))]);
    let mut label = 0usize;
    let out = compile(Vec::new(), vec![f], &options(false, false, false, false), &mut label);
    assert_eq!(out.code, Err(CompileError::BadOperand { function: 0, instruction: 1 }));
    assert_eq!(label, 0);
}

#[test]
fn immediate_that_became_a_register_is_reported() {
    let code = vec![
        ir(IROp::Label, Some(1), None),
        ir(IROp::Bprel, Some(10), Some(8)),
        ir(IROp::Load(8), Some(11), Some(10)),
        ir(IROp::Load(8), Some(12), Some(10)),
        ir(IROp::Load(8), Some(13), Some(10)),
        ir(IROp::Add, Some(11), Some(12)),
        ir(IROp::AddImm, Some(11), Some(100)),
        ir(IROp::Jmp, Some(1), None),
    ];
    let mut label = 0usize;
    let out = compile(Vec::new(), vec![func("f", 0, code.clone())], &options(false, false, false, true), &mut label);
    assert_eq!(out.code, Err(CompileError::BadOperand { function: 0, instruction: 6 }));
    let out = compile(Vec::new(), vec![func("f", 0, code)], &options(false, false, false, false), &mut label);
    assert!(out.code.unwrap().contains("\tadd r11, 100\n"));
}

#[test]
fn frame_that_cannot_be_rounded_up_is_reported() {
    let f = func("f", 0, Vec::new());
    let g = func("g", usize::MAX - 62, Vec::new());
    let mut label = 0usize;
    let out = compile(Vec::new(), vec![f, g], &options(false, false, false, false), &mut label);
    assert_eq!(out.code, Err(CompileError::FrameTooLarge { function: 1 }));
    let h = func("h", usize::MAX - 63, Vec::new());
    let out = compile(Vec::new(), vec![h], &options(false, false, false, false), &mut label);
    assert!(out.code.unwrap().contains(&format!("\tsub rsp, {}\n", usize::MAX - 63)));
}

#[test]
fn label_counter_does_not_wrap() {
    let mut label = usize::MAX;
    let out = compile(Vec::new(), vec![func("f", 0, Vec::new())], &options(false, false, false, false), &mut label);
    assert_eq!(out.code, Err(CompileError::LabelOverflow));
    assert_eq!(label, usize::MAX);
    let mut label = usize::MAX - 1;
    let out = compile(Vec::new(), vec![func("f", 0, Vec::new())], &options(false, false, false, false), &mut label);
    assert!(out.code.is_ok());
    assert_eq!(label, usize::MAX);
}

#[test]
fn first_places_are_found() {
    let f = func("f", 0, vec![ir(IROp::Nop, None, None), ir(IROp::Mov, Some(9), Some(0))]);
    let g = func("g", usize::MAX, Vec::new());
    assert_eq!(find_missing_operand(&[f.clone(), g.clone()]), None);
    assert!(matches!(find_obstacle(&[f.clone(), g.clone()]), Some(Obstacle::Operand(0, 1))));
    assert!(matches!(find_obstacle(&[g.clone(), f.clone()]), Some(Obstacle::Frame(0))));
    assert!(matches!(find_obstacle(&[]), None));
    let h = func("h", 0, vec![ir(IROp::Mov, Some(1), None)]);
    assert_eq!(find_missing_operand(&[f, h]), Some((1, 0)));
}

#[test]
fn numbers_in_decimal() {
    assert_eq!(decimal_string(0), "0");
    assert_eq!(decimal_string(7), "7");
    assert_eq!(decimal_string(10), "10");
    assert_eq!(decimal_string(1234567890), "1234567890");
    assert_eq!(decimal_string(usize::MAX), usize::MAX.to_string());
    assert_eq!(imm32_string(0), "0");
    assert_eq!(imm32_string(2147483647), "2147483647");
    assert_eq!(imm32_string(2147483648), "-2147483648");
    assert_eq!(imm32_string(4294967295), "-1");
    assert_eq!(imm32_string(usize::MAX), "-1");
    assert_eq!(imm32_string(0usize.wrapping_sub(16)), "-16");
}

#[test]
fn rounding_up() {
    assert_eq!(roundup(0, 64), 0);
    assert_eq!(roundup(1, 64), 64);
    assert_eq!(roundup(64, 64), 64);
    assert_eq!(roundup(65, 64), 128);
    assert_eq!(roundup(7, 1), 7);
    assert_eq!(roundup(10, 4), 12);
    assert_eq!(roundup(3, 5), 5);
    assert_eq!(roundup(6, 5), 10);
}

#[test]
fn frame_reaches_to_the_deepest_slot() {
    let neg = |n: usize| 0usize.wrapping_sub(n);
    let code = vec![
        ir(IROp::StoreArg(4), Some(neg(4)), Some(0)),
        ir(IROp::Bprel, Some(1), Some(neg(24))),
        ir(IROp::Bprel, Some(1), Some(16)),
        ir(IROp::Imm, Some(1), Some(neg(100))),
        ir(IROp::AddImm, Some(1), Some(neg(200))),
        ir(IROp::StoreArg(8), Some(neg(16)), Some(1)),
    ];
    assert_eq!(frame_needed(&code), 24);
    assert_eq!(frame_needed(&code[..1]), 4);
    assert_eq!(frame_needed(&code[2..5]), 0);
    assert_eq!(frame_needed(&[]), 0);
    assert_eq!(frame_needed(&[ir(IROp::Bprel, Some(1), Some(0x8000_0000))]), 0x8000_0000);
    let mut fns = vec![func("f", 7, code.clone()), func("g", 7, Vec::new())];
    assign_frames(&mut fns);
    assert_eq!(fns, vec![func("f", 24, code), func("g", 0, Vec::new())]);
}

#[test]
fn errors_say_what_and_where() {
    assert_eq!(
        CompileError::MissingOperand { function: 1, instruction: 20 }.to_string(),
        "missing operand in function 1 at instruction 20"
    );
    assert_eq!(
        CompileError::RegisterExhausted { function: 0, instruction: 7 }.to_string(),
        "register exhausted in function 0 at instruction 7"
    );
    assert_eq!(
        CompileError::BadOperand { function: 3, instruction: 0 }.to_string(),
        "bad operand in function 3 at instruction 0"
    );
    assert_eq!(
        CompileError::FrameTooLarge { function: 12 }.to_string(),
        "frame too large in function 12"
    );
    assert_eq!(
        CompileError::UndefinedLabel { function: 2, instruction: 9 }.to_string(),
        "undefined label in function 2 at instruction 9"
    );
    assert_eq!(CompileError::LabelOverflow.to_string(), "too many labels");
}

#[test]
fn jump_to_a_label_that_is_not_defined_is_reported() {
    let f = func(
        "f",
        0,
        vec![
            ir(IROp::Label, Some(1), None),
            ir(IROp::Imm, Some(5), Some(0)),
            ir(IROp::Unless, Some(5), Some(1)),
            ir(IROp::Jmp, Some(1), None),
        ],
    );
    let g = func(
        "g",
        0,
        vec![
            ir(IROp::Label, Some(2), None),
            ir(IROp::Imm, Some(5), Some(0)),
            ir(IROp::If, Some(5), Some(2)),
            ir(IROp::Jmp, Some(1), None),
        ],
    );
    assert_eq!(find_undefined_label(&[f.clone()]), None);
    assert_eq!(find_undefined_label(&[f.clone(), g.clone()]), Some((1, 3)));
    assert_eq!(find_undefined_label(&[]), None);
    let mut label = 4usize;
    let out = compile(Vec::new(), vec![f.clone(), g], &options(false, false, false, false), &mut label);
    assert_eq!(out.code, Err(CompileError::UndefinedLabel { function: 1, instruction: 3 }));
    assert_eq!(out.diagnostic, "undefined label in function 1 at instruction 3: JMP 1, none");
    assert_eq!(label, 4);
    let h = func("h", 0, vec![ir(IROp::Imm, Some(5), Some(0)), ir(IROp::Unless, Some(5), Some(7))]);
    let out = compile(Vec::new(), vec![f.clone(), h], &options(false, false, false, false), &mut label);
    assert_eq!(out.code, Err(CompileError::UndefinedLabel { function: 1, instruction: 1 }));
    assert_eq!(out.diagnostic, "undefined label in function 1 at instruction 1: UNLESS 0, 7");
    let out = compile(Vec::new(), vec![f], &options(false, false, false, false), &mut label);
    assert!(out.code.is_ok());
    assert_eq!(out.diagnostic, "");
}

#[test]
fn diagnostics_name_the_operation_and_the_operands() {
    let run = |code: Vec<IR>, vectorize: bool| {
        let mut label = 0usize;
        compile(Vec::new(), vec![func("f", 0, code)], &options(false, false, false, vectorize), &mut label)
    };
    let out = run(vec![ir(IROp::Add, Some(1), None)], false);
    assert_eq!(out.code, Err(CompileError::MissingOperand { function: 0, instruction: 0 }));
    assert_eq!(out.diagnostic, "missing operand in function 0 at instruction 0: ADD 1, none");
    let out = run(vec![ir(IROp::Label, None, None)], false);
    assert_eq!(out.diagnostic, "missing operand in function 0 at instruction 0: LABEL none, none");
    let out = run(vec![ir(IROp::Imm, Some(40), Some(1)), ir(IROp::Load(2), Some(41), Some(40))], false);
    assert_eq!(out.code, Err(CompileError::BadOperand { function: 0, instruction: 1 }));
    assert_eq!(out.diagnostic, "bad operand in function 0 at instruction 1: LOAD2 1, 0");
    let out = run(vec![ir(IROp::Call(String::from("f"), 7, [0; 6]), Some(9), None)], false);
    assert_eq!(out.diagnostic, "bad operand in function 0 at instruction 0: CALL/7 0, none");
    let mut code = Vec::new();
    for v in 0..8 {
        code.push(ir(IROp::Imm, Some(v + 50), Some(v)));
    }
    for v in 0..8 {
        code.push(ir(IROp::Kill, Some(v + 50), None));
    }
    let out = run(code, false);
    assert_eq!(out.diagnostic, "register exhausted in function 0 at instruction 7: MOV 57, 7");
    let mut label = 0usize;
    let out = compile(
        Vec::new(),
        vec![func("f", usize::MAX, Vec::new())],
        &options(false, false, false, false),
        &mut label,
    );
    assert_eq!(out.diagnostic, "frame too large in function 0");
    let mut label = usize::MAX;
    let out = compile(
        Vec::new(),
        vec![func("f", 0, Vec::new())],
        &options(false, false, false, false),
        &mut label,
    );
    assert_eq!(out.diagnostic, "too many labels");
}
