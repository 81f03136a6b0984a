use oxide::gen_ir::{Function, IROp, IR};
use oxide::irdump::dump_ir;
use oxide::vectorize::{
    can_vectorize_loop, convert_to_avx512, detect_reduction_patterns, has_array_operations,
    identify_array_operations, optimize_math_functions, optional_vectorize, rewrite_reductions,
    simd_of, vectorize, vectorize_function, vectorize_ranges,
};

fn ir(op: IROp, lhs: usize, rhs: usize) -> IR {
    IR::new(op, Some(lhs), Some(rhs))
}

fn func(ir: Vec<IR>) -> Function {
    Function { name: String::from("f"), stacksize: 0, ir }
}

fn ops(code: &[IR]) -> Vec<IROp> {
    code.iter().map(|i| i.op.clone()).collect()
}

fn summing_loop() -> Vec<IR> {
    vec![
        IR::new(IROp::Label, Some(1), None),
        ir(IROp::Load(8), 1, 0),
        ir(IROp::Load(8), 2, 0),
        ir(IROp::Load(8), 3, 0),
        ir(IROp::Load(8), 4, 0),
        ir(IROp::Add, 1, 2),
        ir(IROp::Add, 1, 3),
        ir(IROp::Add, 1, 4),
        ir(IROp::Unless, 1, 2),
        IR::new(IROp::Jmp, Some(1), None),
        IR::new(IROp::Label, Some(2), None),
        IR::new(IROp::Return, Some(1), None),
    ]
}

#[test]
fn loop_with_loads_and_sums_is_rewritten_as_a_whole() {
    let mut fns = vec![func(summing_loop())];
    let before = dump_ir(&fns);
    assert!(can_vectorize_loop(&fns[0].ir));
    vectorize(&mut fns);
    let after = dump_ir(&fns);
    assert_eq!(
        before,
        "f(): \n.L1:\n  LOAD8 r1, r0\n  LOAD8 r2, r0\n  LOAD8 r3, r0\n  LOAD8 r4, r0\n  ADD r1, r2\n  ADD r1, r3\n  ADD r1, r4\n  UNLESS r1, .L2\n  JMP .L1\n.L2:\n  RET r1\n"
    );
    assert_eq!(
        after,
        "f(): \n.L1:\n  AVX512_LOAD r1, r0\n  AVX512_LOAD r2, r0\n  AVX512_LOAD r3, r0\n  AVX512_LOAD r4, r0\n  AVX512_ADD r1, r2\n  AVX512_ADD r1, r3\n  AVX512_ADD r1, r4\n  UNLESS r1, .L2\n  JMP .L1\n.L2:\n  RET r1\n"
    );
}

#[test]
fn loop_needs_a_back_edge_a_run_of_loads_and_arithmetic() {
    assert!(can_vectorize_loop(&summing_loop()));
    let mut forward = summing_loop();
    forward[9] = IR::new(IROp::Jmp, Some(2), None);
    assert!(!can_vectorize_loop(&forward));
    let mut two_loads = summing_loop();
    two_loads[3] = ir(IROp::Mov, 3, 0);
    two_loads[4] = ir(IROp::Mov, 4, 0);
    assert!(!can_vectorize_loop(&two_loads));
    let mut no_arith = summing_loop();
    for i in 5..8 {
        no_arith[i] = ir(IROp::AND, 1, 2);
    }
    assert!(!can_vectorize_loop(&no_arith));
    assert!(!can_vectorize_loop(&[]));
    let three = vec![
        IR::new(IROp::Label, Some(1), None),
        ir(IROp::Load(1), 1, 0),
        ir(IROp::Load(4), 2, 0),
        ir(IROp::Load(8), 3, 0),
        ir(IROp::Div, 1, 2),
        IR::new(IROp::Jmp, Some(1), None),
    ];
    assert!(can_vectorize_loop(&three));
}

#[test]
fn the_table_of_vector_counterparts() {
    assert_eq!(simd_of(&IROp::Add), Some(IROp::AVX512Add));
    assert_eq!(simd_of(&IROp::Sub), Some(IROp::AVX512Sub));
    assert_eq!(simd_of(&IROp::Mul), Some(IROp::AVX512Mul));
    assert_eq!(simd_of(&IROp::Div), Some(IROp::AVX512Div));
    assert_eq!(simd_of(&IROp::AddImm), Some(IROp::AVX512Addi));
    assert_eq!(simd_of(&IROp::SubImm), Some(IROp::AVX512Subi));
    assert_eq!(simd_of(&IROp::MulImm), Some(IROp::AVX512Muli));
    assert_eq!(simd_of(&IROp::Load(4)), Some(IROp::AVX512Load));
    assert_eq!(simd_of(&IROp::Store(1)), Some(IROp::AVX512Store));
    assert_eq!(simd_of(&IROp::Mov), Some(IROp::AVX512Mov));
    assert_eq!(simd_of(&IROp::LT), Some(IROp::AVX512Cmplt));
    assert_eq!(simd_of(&IROp::LE), Some(IROp::AVX512Cmple));
    assert_eq!(simd_of(&IROp::EQ), Some(IROp::AVX512Cmpeq));
    assert_eq!(simd_of(&IROp::NE), None);
    assert_eq!(simd_of(&IROp::Imm), None);
    assert_eq!(simd_of(&IROp::AVX512Add), None);
    assert_eq!(simd_of(&IROp::Call(String::from("f"), 0, [0; 6])), None);
}

#[test]
fn whole_function_rewrite_fuses_multiply_and_add() {
    let mut code = vec![
        ir(IROp::Mul, 1, 2),
        ir(IROp::Add, 1, 3),
        ir(IROp::Mul, 4, 2),
        ir(IROp::Add, 5, 4),
        ir(IROp::Mul, 6, 7),
        ir(IROp::AddImm, 1, 8),
        ir(IROp::LT, 1, 2),
        ir(IROp::NE, 1, 2),
        ir(IROp::Mul, 9, 9),
    ];
    convert_to_avx512(&mut code);
    assert_eq!(
        code,
        vec![
            ir(IROp::AVX512FMA, 1, 2),
            ir(IROp::Nop, 1, 3),
            ir(IROp::AVX512Mul, 4, 2),
            ir(IROp::AVX512Add, 5, 4),
            ir(IROp::AVX512Mul, 6, 7),
            ir(IROp::AVX512Addi, 1, 8),
            ir(IROp::AVX512Cmplt, 1, 2),
            ir(IROp::NE, 1, 2),
            ir(IROp::AVX512Mul, 9, 9),
        ]
    );
}

#[test]
fn triplets_are_found_wherever_they_stand() {
    let code = vec![
        ir(IROp::Load(8), 1, 0),
        ir(IROp::Load(8), 2, 0),
        ir(IROp::Add, 2, 1),
        ir(IROp::Store(8), 0, 2),
        ir(IROp::Load(4), 3, 0),
        ir(IROp::Div, 3, 1),
        ir(IROp::Store(4), 0, 3),
        ir(IROp::Load(4), 3, 0),
        ir(IROp::Mul, 3, 1),
    ];
    assert_eq!(identify_array_operations(&code), vec![(1, 3), (4, 6)]);
    assert_eq!(identify_array_operations(&code[..3]), Vec::new());
    assert_eq!(identify_array_operations(&[]), Vec::new());
}

#[test]
fn ranges_are_rewritten_and_nothing_else() {
    let mut code = vec![
        ir(IROp::Load(8), 1, 0),
        ir(IROp::Load(8), 2, 0),
        ir(IROp::Add, 2, 1),
        ir(IROp::Store(8), 0, 2),
        ir(IROp::Mov, 3, 2),
        ir(IROp::Sub, 3, 1),
    ];
    vectorize_ranges(&mut code, &[(1, 3), (2, 4), (5, 4)]);
    assert_eq!(
        ops(&code),
        vec![
            IROp::Load(8),
            IROp::AVX512Load,
            IROp::AVX512Add,
            IROp::AVX512Store,
            IROp::AVX512Mov,
            IROp::Sub,
        ]
    );
    assert_eq!(code[2], ir(IROp::AVX512Add, 2, 1));
}

#[test]
fn reductions_load_and_store_through_the_same_registers() {
    let code = vec![
        ir(IROp::Load(8), 1, 0),
        ir(IROp::Add, 1, 2),
        ir(IROp::Store(8), 0, 1),
        ir(IROp::Load(8), 3, 0),
        ir(IROp::Mul, 3, 2),
        ir(IROp::Store(8), 0, 3),
        ir(IROp::Load(8), 3, 0),
        ir(IROp::Sub, 3, 2),
        ir(IROp::Store(8), 0, 3),
        ir(IROp::Load(8), 3, 0),
        ir(IROp::Add, 3, 2),
        ir(IROp::Store(8), 5, 3),
    ];
    assert_eq!(
        detect_reduction_patterns(&code),
        vec![(0, 2, IROp::AVX512Add), (3, 5, IROp::AVX512Mul)]
    );
    assert_eq!(detect_reduction_patterns(&code[..2]), Vec::new());
    assert_eq!(detect_reduction_patterns(&[]), Vec::new());
}

#[test]
fn reduction_keeps_the_middle_and_drops_the_ends() {
    let mut code = vec![
        ir(IROp::Imm, 9, 9),
        ir(IROp::Load(8), 1, 0),
        ir(IROp::Add, 1, 2),
        ir(IROp::Store(8), 0, 1),
        ir(IROp::Imm, 8, 8),
    ];
    rewrite_reductions(&mut code, &[(1, 3, IROp::AVX512Add)]);
    assert_eq!(
        code,
        vec![
            ir(IROp::Imm, 9, 9),
            ir(IROp::Nop, 1, 0),
            ir(IROp::AVX512Add, 1, 2),
            ir(IROp::Nop, 0, 1),
            ir(IROp::Imm, 8, 8),
        ]
    );
}

#[test]
fn memory_access_is_noticed() {
    assert!(has_array_operations(&func(vec![ir(IROp::Imm, 1, 1), ir(IROp::Load(1), 1, 0)])));
    assert!(has_array_operations(&func(vec![ir(IROp::Store(1), 1, 0)])));
    assert!(!has_array_operations(&func(vec![ir(IROp::Imm, 1, 1), ir(IROp::AVX512Load, 1, 0)])));
    assert!(!has_array_operations(&func(Vec::new())));
}

fn call(name: &str, nargs: usize) -> IR {
    IR::new(IROp::Call(String::from(name), nargs, [1, 2, 0, 0, 0, 0]), Some(3), None)
}

#[test]
fn mathematical_calls_become_vector_operations() {
    let mut code = vec![
        call("sqrt", 1),
        call("fabs", 1),
        call("fmax", 2),
        call("fmin", 2),
        call("sqrt", 2),
        call("fmax", 1),
        call("sqrtf", 1),
        call("sin", 1),
        ir(IROp::Add, 1, 2),
    ];
    optimize_math_functions(&mut code);
    assert_eq!(
        code,
        vec![
            IR::new(IROp::AVX512Sqrt, Some(3), None),
            IR::new(IROp::AVX512And, Some(3), None),
            IR::new(IROp::AVX512Max, Some(3), None),
            IR::new(IROp::AVX512Min, Some(3), None),
            call("sqrt", 2),
            call("fmax", 1),
            call("sqrtf", 1),
            call("sin", 1),
            ir(IROp::Add, 1, 2),
        ]
    );
}

#[test]
fn straight_code_gets_its_triplets_and_calls_rewritten() {
    let mut f = func(vec![
        ir(IROp::Load(8), 1, 0),
        ir(IROp::Add, 1, 2),
        ir(IROp::Store(8), 0, 1),
        ir(IROp::Mov, 4, 1),
        call("sqrt", 1),
    ]);
    vectorize_function(&mut f);
    assert_eq!(
        f.ir,
        vec![
            ir(IROp::AVX512Load, 1, 0),
            ir(IROp::AVX512Add, 1, 2),
            ir(IROp::AVX512Store, 0, 1),
            ir(IROp::Mov, 4, 1),
            IR::new(IROp::AVX512Sqrt, Some(3), None),
        ]
    );
    assert_eq!(f.name, "f");
    assert_eq!(f.stacksize, 0);
}

#[test]
fn calls_are_rewritten_in_a_loop_too() {
    let mut code = summing_loop();
    code.push(call("fmin", 2));
    let mut f = func(code);
    vectorize_function(&mut f);
    assert_eq!(f.ir[1].op, IROp::AVX512Load);
    assert_eq!(f.ir[12], IR::new(IROp::AVX512Min, Some(3), None));
}

#[test]
fn disabled_pass_changes_nothing() {
    let mut fns = vec![func(summing_loop()), func(vec![call("sqrt", 1)])];
    let before = fns.clone();
    optional_vectorize(&mut fns, false);
    assert_eq!(fns, before);
    optional_vectorize(&mut fns, true);
    assert_ne!(fns, before);
    assert_eq!(fns[1].ir, vec![IR::new(IROp::AVX512Sqrt, Some(3), None)]);
}
