use oxide::ast::{BinOp, Expr, FunctionDef, Param, Place, Stmt};
use oxide::gen_ir::{Function, IROp, IR};
use oxide::lower::{gen_expr, gen_ir, gen_place, gen_stmt, Counters, Gen, GenError};
use oxide::pipeline::{compile, Options};

fn ir(op: IROp, lhs: usize, rhs: usize) -> IR {
    IR::new(op, Some(lhs), Some(rhs))
}

fn one(op: IROp, lhs: usize) -> IR {
    IR::new(op, Some(lhs), None)
}

fn num(v: usize) -> Box<Expr> {
    Box::new(Expr::Num(v))
}

fn local(offset: usize) -> Box<Place> {
    Box::new(Place::Local(offset))
}

fn neg(n: usize) -> usize {
    0usize.wrapping_sub(n)
}

fn fresh() -> Gen {
    Gen { code: Vec::new(), nreg: 1, nlabel: 1, loops: Vec::new() }
}

fn main_of(body: Vec<Stmt>, stacksize: usize) -> FunctionDef {
    FunctionDef { name: String::from("main"), params: Vec::new(), stacksize, body }
}

fn lower(defs: Vec<FunctionDef>) -> Vec<Function> {
    let mut counters = Counters { nreg: 1, nlabel: 1 };
    gen_ir(&defs, &mut counters).unwrap()
}

fn assembly(defs: Vec<FunctionDef>) -> String {
    let options = Options { dump_ir1: false, dump_ir2: false, dump_ir3: false, vectorize: false };
    let mut label = 0usize;
    compile(Vec::new(), lower(defs), &options, &mut label).code.unwrap()
}

#[test]
fn return_of_zero() {
    let defs = vec![main_of(vec![Stmt::Return(Expr::Num(0))], 0)];
    let fns = lower(defs);
    assert_eq!(fns[0].ir, vec![ir(IROp::Imm, 1, 0), one(IROp::Return, 1), one(IROp::Kill, 1)]);
    let code = assembly(vec![main_of(vec![Stmt::Return(Expr::Num(0))], 0)]);
    assert!(code.contains("\tmov r10, 0\n\tmov rax, r10\n\tjmp .Lend0\n"));
}

fn one_plus_two_times_three() -> Expr {
    Expr::Binary(
        BinOp::Add,
        num(1),
        Box::new(Expr::Binary(BinOp::Mul, num(2), num(3))),
    )
}

#[test]
fn sum_of_a_constant_and_a_product() {
    let fns = lower(vec![main_of(vec![Stmt::Return(one_plus_two_times_three())], 0)]);
    assert_eq!(
        fns[0].ir,
        vec![
            ir(IROp::Imm, 1, 1),
            ir(IROp::Imm, 2, 2),
            ir(IROp::MulImm, 2, 3),
            ir(IROp::Add, 1, 2),
            one(IROp::Kill, 2),
            one(IROp::Return, 1),
            one(IROp::Kill, 1),
        ]
    );
    let code = assembly(vec![main_of(vec![Stmt::Return(one_plus_two_times_three())], 0)]);
    assert!(code.contains("\tmov r10, 1\n\tmov r11, 2\n\timul r11, r11, 3\n\tadd r10, r11\n\tmov rax, r10\n"));
}

fn element() -> Box<Place> {
    Box::new(Place::Element(Box::new(Expr::Addr(local(neg(16)))), num(2), 4))
}

#[test]
fn element_of_a_local_array() {
    let body = vec![
        Stmt::Expr(Expr::Assign(element(), num(5), 4)),
        Stmt::Return(Expr::Load(element(), 4)),
    ];
    let fns = lower(vec![main_of(body, 16)]);
    assert_eq!(
        fns[0].ir,
        vec![
            ir(IROp::Bprel, 1, neg(16)),
            ir(IROp::AddImm, 1, 8),
            ir(IROp::Imm, 2, 5),
            ir(IROp::Store(4), 1, 2),
            one(IROp::Kill, 1),
            one(IROp::Kill, 2),
            ir(IROp::Bprel, 3, neg(16)),
            ir(IROp::AddImm, 3, 8),
            ir(IROp::Load(4), 3, 3),
            one(IROp::Return, 3),
            one(IROp::Kill, 3),
        ]
    );
    let body = vec![
        Stmt::Expr(Expr::Assign(element(), num(5), 4)),
        Stmt::Return(Expr::Load(element(), 4)),
    ];
    let code = assembly(vec![main_of(body, 16)]);
    assert!(code.contains("\tsub rsp, 64\n"));
    assert!(code.contains("\tlea r10, [rbp-16]\n\tadd r10, 8\n\tmov r11, 5\n\tmov dword [r10], r11d\n"));
    assert!(code.contains("\tlea r10, [rbp-16]\n\tadd r10, 8\n\tmovsxd r10, dword [r10]\n\tmov rax, r10\n"));
}

#[test]
fn call_with_one_argument() {
    let f = FunctionDef {
        name: String::from("f"),
        params: vec![Param { offset: neg(4), size: 4 }],
        stacksize: 4,
        body: Vec::new(),
    };
    let main = main_of(
        vec![
            Stmt::Expr(Expr::Call(String::from("f"), vec![Expr::Num(42)])),
            Stmt::Return(Expr::Num(0)),
        ],
        0,
    );
    let fns = lower(vec![f, main]);
    assert_eq!(fns[0].name, "f");
    assert_eq!(fns[0].stacksize, 4);
    assert_eq!(fns[0].ir, vec![ir(IROp::StoreArg(4), neg(4), 0)]);
    assert_eq!(
        fns[1].ir,
        vec![
            ir(IROp::Imm, 1, 42),
            one(IROp::Call(String::from("f"), 1, [1, 0, 0, 0, 0, 0]), 2),
            one(IROp::Kill, 1),
            one(IROp::Kill, 2),
            ir(IROp::Imm, 3, 0),
            one(IROp::Return, 3),
            one(IROp::Kill, 3),
        ]
    );
    let options = Options { dump_ir1: false, dump_ir2: false, dump_ir3: false, vectorize: false };
    let mut label = 0usize;
    let code = compile(Vec::new(), fns, &options, &mut label).code.unwrap();
    assert!(code.contains("f:\n\tpush rbp\n\tmov rbp, rsp\n\tsub rsp, 64\n"));
    assert!(code.contains("\tmov dword [rbp-4], edi\n"));
    assert!(code.contains("\tmov r10, 42\n\tmov rdi, r10\n\tpush r10\n\tpush r11\n\tmov rax, 0\n\tcall f\n"));
    assert_eq!(code.matches("\tmov rdi, ").count(), 1);
}

#[test]
fn places_and_their_addresses() {
    let mut gen = fresh();
    assert_eq!(gen_place(&mut gen, &Place::Local(neg(8))), Ok(1));
    assert_eq!(gen_place(&mut gen, &Place::Global(String::from("g"))), Ok(2));
    assert_eq!(gen_place(&mut gen, &Place::Deref(num(7))), Ok(3));
    assert_eq!(gen_place(&mut gen, &Place::Member(local(neg(24)), 12)), Ok(4));
    let index = Box::new(Expr::Load(local(neg(4)), 4));
    assert_eq!(gen_place(&mut gen, &Place::Element(Box::new(Expr::Addr(local(neg(64)))), index, 8)), Ok(5));
    assert_eq!(
        gen.code,
        vec![
            ir(IROp::Bprel, 1, neg(8)),
            one(IROp::LabelAddr(String::from("g")), 2),
            ir(IROp::Imm, 3, 7),
            ir(IROp::Bprel, 4, neg(24)),
            ir(IROp::AddImm, 4, 12),
            ir(IROp::Bprel, 5, neg(64)),
            ir(IROp::Bprel, 6, neg(4)),
            ir(IROp::Load(4), 6, 6),
            ir(IROp::MulImm, 6, 8),
            ir(IROp::Add, 5, 6),
            one(IROp::Kill, 6),
        ]
    );
    assert_eq!(gen.nreg, 7);
    assert_eq!(gen.nlabel, 1);
}

#[test]
fn operations_on_two_values() {
    let table = [
        (BinOp::Add, IROp::Add),
        (BinOp::Sub, IROp::Sub),
        (BinOp::Mul, IROp::Mul),
        (BinOp::Div, IROp::Div),
        (BinOp::Mod, IROp::Mod),
        (BinOp::And, IROp::AND),
        (BinOp::Or, IROp::OR),
        (BinOp::Xor, IROp::XOR),
        (BinOp::Shl, IROp::SHL),
        (BinOp::Shr, IROp::SHR),
        (BinOp::Eq, IROp::EQ),
        (BinOp::Ne, IROp::NE),
        (BinOp::Lt, IROp::LT),
        (BinOp::Le, IROp::LE),
    ];
    for (op, want) in table {
        let mut gen = fresh();
        let e = Expr::Binary(op, num(1), Box::new(Expr::Load(local(8), 8)));
        assert_eq!(gen_expr(&mut gen, &e), Ok(1));
        assert_eq!(
            gen.code,
            vec![
                ir(IROp::Imm, 1, 1),
                ir(IROp::Bprel, 2, 8),
                ir(IROp::Load(8), 2, 2),
                ir(want, 1, 2),
                one(IROp::Kill, 2),
            ]
        );
    }
    for (op, want) in [(BinOp::Add, IROp::AddImm), (BinOp::Sub, IROp::SubImm), (BinOp::Mul, IROp::MulImm)] {
        let mut gen = fresh();
        assert_eq!(gen_expr(&mut gen, &Expr::Binary(op, num(1), num(9))), Ok(1));
        assert_eq!(gen.code, vec![ir(IROp::Imm, 1, 1), ir(want, 1, 9)]);
    }
    let mut gen = fresh();
    assert_eq!(gen_expr(&mut gen, &Expr::Binary(BinOp::Div, num(1), num(9))), Ok(1));
    assert_eq!(
        gen.code,
        vec![ir(IROp::Imm, 1, 1), ir(IROp::Imm, 2, 9), ir(IROp::Div, 1, 2), one(IROp::Kill, 2)]
    );
}

#[test]
fn short_circuits() {
    let mut gen = fresh();
    assert_eq!(gen_expr(&mut gen, &Expr::LogAnd(num(3), num(4))), Ok(1));
    assert_eq!(
        gen.code,
        vec![
            ir(IROp::Imm, 1, 3),
            ir(IROp::Unless, 1, 1),
            ir(IROp::Imm, 2, 4),
            ir(IROp::Mov, 1, 2),
            one(IROp::Kill, 2),
            ir(IROp::Unless, 1, 1),
            ir(IROp::Imm, 1, 1),
            one(IROp::Label, 1),
        ]
    );
    let mut gen = fresh();
    assert_eq!(gen_expr(&mut gen, &Expr::LogOr(num(3), num(4))), Ok(1));
    assert_eq!(
        gen.code,
        vec![
            ir(IROp::Imm, 1, 3),
            ir(IROp::Unless, 1, 1),
            ir(IROp::Imm, 1, 1),
            one(IROp::Jmp, 2),
            one(IROp::Label, 1),
            ir(IROp::Imm, 2, 4),
            ir(IROp::Mov, 1, 2),
            one(IROp::Kill, 2),
            ir(IROp::Unless, 1, 2),
            ir(IROp::Imm, 1, 1),
            one(IROp::Label, 2),
        ]
    );
    assert_eq!(gen.nlabel, 3);
}

#[test]
fn steps_before_and_after() {
    let mut gen = fresh();
    assert_eq!(gen_expr(&mut gen, &Expr::Step(local(neg(8)), 4, 1, false, false)), Ok(2));
    assert_eq!(gen_expr(&mut gen, &Expr::Step(local(neg(8)), 8, 4, true, true)), Ok(4));
    assert_eq!(
        gen.code,
        vec![
            ir(IROp::Bprel, 1, neg(8)),
            ir(IROp::Load(4), 2, 1),
            ir(IROp::AddImm, 2, 1),
            ir(IROp::Store(4), 1, 2),
            one(IROp::Kill, 1),
            ir(IROp::Bprel, 3, neg(8)),
            ir(IROp::Load(8), 4, 3),
            ir(IROp::SubImm, 4, 4),
            ir(IROp::Store(8), 3, 4),
            one(IROp::Kill, 3),
            ir(IROp::AddImm, 4, 4),
        ]
    );
}

#[test]
fn if_with_and_without_else() {
    let mut gen = fresh();
    let s = Stmt::If(Expr::Num(1), Box::new(Stmt::Return(Expr::Num(2))), None);
    assert_eq!(gen_stmt(&mut gen, &s), Ok(()));
    assert_eq!(
        gen.code,
        vec![
            ir(IROp::Imm, 1, 1),
            ir(IROp::Unless, 1, 1),
            one(IROp::Kill, 1),
            ir(IROp::Imm, 2, 2),
            one(IROp::Return, 2),
            one(IROp::Kill, 2),
            one(IROp::Label, 1),
        ]
    );
    let mut gen = fresh();
    let s = Stmt::If(
        Expr::Num(1),
        Box::new(Stmt::Expr(Expr::Num(2))),
        Some(Box::new(Stmt::Expr(Expr::Num(3)))),
    );
    assert_eq!(gen_stmt(&mut gen, &s), Ok(()));
    assert_eq!(
        gen.code,
        vec![
            ir(IROp::Imm, 1, 1),
            ir(IROp::Unless, 1, 1),
            one(IROp::Kill, 1),
            ir(IROp::Imm, 2, 2),
            one(IROp::Kill, 2),
            one(IROp::Jmp, 2),
            one(IROp::Label, 1),
            ir(IROp::Imm, 3, 3),
            one(IROp::Kill, 3),
            one(IROp::Label, 2),
        ]
    );
}

#[test]
fn loops_with_break_and_continue() {
    let mut gen = fresh();
    let s = Stmt::While(Expr::Num(1), Box::new(Stmt::Block(vec![Stmt::Continue, Stmt::Break])));
    assert_eq!(gen_stmt(&mut gen, &s), Ok(()));
    assert_eq!(
        gen.code,
        vec![
            one(IROp::Label, 1),
            ir(IROp::Imm, 1, 1),
            ir(IROp::Unless, 1, 2),
            one(IROp::Kill, 1),
            one(IROp::Jmp, 1),
            one(IROp::Jmp, 2),
            one(IROp::Jmp, 1),
            one(IROp::Label, 2),
        ]
    );
    assert!(gen.loops.is_empty());

    let mut gen = fresh();
    let s = Stmt::For(
        Some(Expr::Num(0)),
        Some(Expr::Num(1)),
        Some(Expr::Num(2)),
        Box::new(Stmt::Block(vec![Stmt::Continue, Stmt::Break])),
    );
    assert_eq!(gen_stmt(&mut gen, &s), Ok(()));
    assert_eq!(
        gen.code,
        vec![
            ir(IROp::Imm, 1, 0),
            one(IROp::Kill, 1),
            one(IROp::Label, 1),
            ir(IROp::Imm, 2, 1),
            ir(IROp::Unless, 2, 3),
            one(IROp::Kill, 2),
            one(IROp::Jmp, 2),
            one(IROp::Jmp, 3),
            one(IROp::Label, 2),
            ir(IROp::Imm, 3, 2),
            one(IROp::Kill, 3),
            one(IROp::Jmp, 1),
            one(IROp::Label, 3),
        ]
    );

    let mut gen = fresh();
    let s = Stmt::For(None, None, None, Box::new(Stmt::Break));
    assert_eq!(gen_stmt(&mut gen, &s), Ok(()));
    assert_eq!(
        gen.code,
        vec![
            one(IROp::Label, 1),
            one(IROp::Jmp, 3),
            one(IROp::Label, 2),
            one(IROp::Jmp, 1),
            one(IROp::Label, 3),
        ]
    );

    let mut gen = fresh();
    let s = Stmt::DoWhile(Box::new(Stmt::Block(vec![Stmt::Continue, Stmt::Break])), Expr::Num(1));
    assert_eq!(gen_stmt(&mut gen, &s), Ok(()));
    assert_eq!(
        gen.code,
        vec![
            one(IROp::Label, 1),
            one(IROp::Jmp, 2),
            one(IROp::Jmp, 3),
            one(IROp::Label, 2),
            ir(IROp::Imm, 1, 1),
            ir(IROp::If, 1, 1),
            one(IROp::Kill, 1),
            one(IROp::Label, 3),
        ]
    );
}

#[test]
fn inner_loop_takes_break_and_continue() {
    let mut gen = fresh();
    let inner = Stmt::While(Expr::Num(1), Box::new(Stmt::Break));
    let s = Stmt::While(Expr::Num(1), Box::new(Stmt::Block(vec![inner, Stmt::Break])));
    assert_eq!(gen_stmt(&mut gen, &s), Ok(()));
    let jumps: Vec<usize> = gen
        .code
        .iter()
        .filter(|i| i.op == IROp::Jmp)
        .map(|i| i.lhs.unwrap())
        .collect();
    assert_eq!(jumps, vec![4, 3, 2, 1]);
}

#[test]
fn what_cannot_be_lowered() {
    let mut gen = fresh();
    assert_eq!(gen_stmt(&mut gen, &Stmt::Break), Err(GenError::StrayBreak));
    assert_eq!(gen_stmt(&mut gen, &Stmt::Continue), Err(GenError::StrayContinue));
    let seven: Vec<Expr> = (0..7).map(Expr::Num).collect();
    assert_eq!(
        gen_expr(&mut gen, &Expr::Call(String::from("f"), seven)),
        Err(GenError::TooManyArguments)
    );
    let six: Vec<Expr> = (0..6).map(Expr::Num).collect();
    assert_eq!(gen_expr(&mut gen, &Expr::Call(String::from("f"), six)), Ok(7));
    let mut full = Gen { code: Vec::new(), nreg: usize::MAX, nlabel: 1, loops: Vec::new() };
    assert_eq!(gen_expr(&mut full, &Expr::Num(1)), Err(GenError::Overflow));
    let mut full = Gen { code: Vec::new(), nreg: 1, nlabel: usize::MAX, loops: Vec::new() };
    assert_eq!(gen_expr(&mut full, &Expr::LogAnd(num(1), num(2))), Err(GenError::Overflow));
    let mut last = Gen { code: Vec::new(), nreg: usize::MAX - 1, nlabel: 1, loops: Vec::new() };
    assert_eq!(gen_expr(&mut last, &Expr::Num(1)), Ok(usize::MAX - 1));
    assert_eq!(last.nreg, usize::MAX);

    let params: Vec<Param> = (0..7).map(|i| Param { offset: neg(8 * (i + 1)), size: 8 }).collect();
    let f = FunctionDef { name: String::from("f"), params, stacksize: 56, body: Vec::new() };
    let mut counters = Counters { nreg: 5, nlabel: 6 };
    assert_eq!(gen_ir(&[f], &mut counters), Err(GenError::TooManyParameters));
    assert_eq!(counters, Counters { nreg: 5, nlabel: 6 });
    let g = main_of(vec![Stmt::Expr(Expr::Num(1)), Stmt::Break], 0);
    assert_eq!(gen_ir(&[g], &mut counters), Err(GenError::StrayBreak));
    assert_eq!(counters, Counters { nreg: 5, nlabel: 6 });
}

#[test]
fn counters_go_on_from_function_to_function() {
    let f = FunctionDef {
        name: String::from("f"),
        params: vec![Param { offset: neg(8), size: 8 }, Param { offset: neg(12), size: 4 }],
        stacksize: 12,
        body: vec![Stmt::If(Expr::Num(1), Box::new(Stmt::Return(Expr::Num(2))), None)],
    };
    let g = main_of(vec![Stmt::While(Expr::Num(3), Box::new(Stmt::Block(Vec::new())))], 0);
    let mut counters = Counters { nreg: 10, nlabel: 20 };
    let fns = gen_ir(&[f, g], &mut counters).unwrap();
    assert_eq!(counters, Counters { nreg: 13, nlabel: 23 });
    assert_eq!(
        fns[0].ir,
        vec![
            ir(IROp::StoreArg(8), neg(8), 0),
            ir(IROp::StoreArg(4), neg(12), 1),
            ir(IROp::Imm, 10, 1),
            ir(IROp::Unless, 10, 20),
            one(IROp::Kill, 10),
            ir(IROp::Imm, 11, 2),
            one(IROp::Return, 11),
            one(IROp::Kill, 11),
            one(IROp::Label, 20),
        ]
    );
    assert_eq!(
        fns[1].ir,
        vec![
            one(IROp::Label, 21),
            ir(IROp::Imm, 12, 3),
            ir(IROp::Unless, 12, 22),
            one(IROp::Kill, 12),
            one(IROp::Jmp, 21),
            one(IROp::Label, 22),
        ]
    );
    assert_eq!(gen_ir(&[], &mut counters), Ok(Vec::new()));
}

#[test]
fn generated_labels_are_pairwise_distinct() {
    let looping = |name: &str| FunctionDef {
        name: String::from(name),
        params: Vec::new(),
        stacksize: 0,
        body: vec![
            Stmt::For(
                None,
                Some(Expr::LogOr(num(1), num(2))),
                None,
                Box::new(Stmt::If(
                    Expr::LogAnd(num(3), num(4)),
                    Box::new(Stmt::Break),
                    Some(Box::new(Stmt::DoWhile(Box::new(Stmt::Continue), Expr::Num(0)))),
                )),
            ),
            Stmt::While(Expr::Num(1), Box::new(Stmt::Block(Vec::new()))),
        ],
    };
    let fns = lower(vec![looping("f"), looping("g")]);
    let mut labels: Vec<usize> = fns
        .iter()
        .flat_map(|f| f.ir.iter())
        .filter(|i| i.op == IROp::Label)
        .map(|i| i.lhs.unwrap())
        .collect();
    assert_eq!(labels.len(), 26);
    labels.sort();
    labels.dedup();
    assert_eq!(labels, (1..=26).collect::<Vec<usize>>());
}
