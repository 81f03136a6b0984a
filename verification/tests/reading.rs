use oxide::dumpread::{read_dump, read_header};
use oxide::gen_ir::{Function, IROp, IR};
use oxide::irdump::dump_ir;
use oxide::irparse::{read_ir, read_label, read_reg};
use oxide::scan::{find_char, has_word, read_imm, read_number};

fn chars(s: &str) -> Vec<char> {
    s.chars().collect()
}

fn parse(s: &str) -> Option<IR> {
    read_ir(&chars(s))
}

fn ir(op: IROp, lhs: Option<usize>, rhs: Option<usize>) -> IR {
    IR::new(op, lhs, rhs)
}

fn neg(n: usize) -> usize {
    0usize.wrapping_sub(n)
}

#[test]
fn numbers_are_read_in_decimal_notation_only() {
    let t = chars("x0,12,007,18446744073709551615,18446744073709551616,,256");
    assert_eq!(read_number(&t, 1, 2, 10), Some(0));
    assert_eq!(read_number(&t, 3, 5, 100), Some(12));
    assert_eq!(read_number(&t, 3, 5, 12), Some(12));
    assert_eq!(read_number(&t, 3, 5, 11), None);
    assert_eq!(read_number(&t, 6, 9, 100), None);
    assert_eq!(read_number(&t, 10, 30, usize::MAX), Some(usize::MAX));
    assert_eq!(read_number(&t, 31, 51, usize::MAX), None);
    assert_eq!(read_number(&t, 52, 52, 10), None);
    assert_eq!(read_number(&t, 0, 2, 10), None);
    assert_eq!(read_number(&t, 53, 56, 255), None);
    assert_eq!(read_number(&t, 53, 56, 256), Some(256));
}

#[test]
fn immediates_are_read_with_their_sign() {
    let t = chars("0 -1 2147483647 -2147483648 2147483648 -2147483649 -0 - +1 -01");
    assert_eq!(read_imm(&t, 0, 1), Some(0));
    assert_eq!(read_imm(&t, 2, 4), Some(neg(1)));
    assert_eq!(read_imm(&t, 5, 15), Some(2147483647));
    assert_eq!(read_imm(&t, 16, 27), Some(neg(2147483648)));
    assert_eq!(read_imm(&t, 28, 38), None);
    assert_eq!(read_imm(&t, 39, 50), None);
    assert_eq!(read_imm(&t, 51, 53), None);
    assert_eq!(read_imm(&t, 54, 55), None);
    assert_eq!(read_imm(&t, 56, 58), None);
    assert_eq!(read_imm(&t, 59, 62), None);
}

#[test]
fn words_and_characters_are_found() {
    let t = chars("  ADD r1, r2");
    assert!(has_word(&t, 0, "  "));
    assert!(has_word(&t, 2, "ADD"));
    assert!(has_word(&t, 2, ""));
    assert!(!has_word(&t, 2, "ADC"));
    assert!(!has_word(&t, 10, "r22"));
    assert!(has_word(&t, 12, ""));
    assert_eq!(find_char(&t, 0, 12, ','), 8);
    assert_eq!(find_char(&t, 9, 12, ','), 12);
    assert_eq!(find_char(&t, 2, 12, ' '), 5);
    assert_eq!(read_reg(&t, 6, 8), Some(1));
    assert_eq!(read_reg(&t, 6, 9), None);
    assert_eq!(read_reg(&t, 7, 8), None);
    assert_eq!(read_label(&chars(".L12"), 0, 4), Some(12));
    assert_eq!(read_label(&chars(".L"), 0, 2), None);
    assert_eq!(read_label(&chars("L12"), 0, 3), None);
}

#[test]
fn printed_instructions_are_read_back() {
    let all = vec![
        ir(IROp::Label, Some(3), None),
        ir(IROp::Imm, Some(1), Some(42)),
        ir(IROp::Imm, Some(1), Some(neg(42))),
        ir(IROp::Mov, Some(1), Some(2)),
        ir(IROp::Add, Some(1), Some(2)),
        ir(IROp::AddImm, Some(1), Some(8)),
        ir(IROp::Sub, Some(1), Some(2)),
        ir(IROp::SubImm, Some(1), Some(1)),
        ir(IROp::Mul, Some(1), Some(2)),
        ir(IROp::MulImm, Some(1), Some(3)),
        ir(IROp::Div, Some(1), Some(2)),
        ir(IROp::Mod, Some(1), Some(2)),
        ir(IROp::Bprel, Some(10), Some(neg(16))),
        ir(IROp::Return, Some(0), None),
        ir(IROp::Kill, Some(7), None),
        ir(IROp::Neg, Some(7), None),
        ir(IROp::Nop, None, None),
        ir(IROp::Jmp, Some(4), None),
        ir(IROp::If, Some(1), Some(4)),
        ir(IROp::Unless, Some(1), Some(4)),
        ir(IROp::EQ, Some(1), Some(2)),
        ir(IROp::NE, Some(1), Some(2)),
        ir(IROp::LE, Some(1), Some(2)),
        ir(IROp::LT, Some(1), Some(2)),
        ir(IROp::AND, Some(1), Some(2)),
        ir(IROp::OR, Some(1), Some(2)),
        ir(IROp::XOR, Some(1), Some(2)),
        ir(IROp::SHL, Some(1), Some(2)),
        ir(IROp::SHR, Some(1), Some(2)),
        ir(IROp::Load(1), Some(1), Some(2)),
        ir(IROp::Load(4), Some(1), Some(2)),
        ir(IROp::Load(8), Some(1), Some(2)),
        ir(IROp::Store(4), Some(1), Some(2)),
        ir(IROp::Store(255), Some(1), Some(2)),
        ir(IROp::StoreArg(4), Some(neg(8)), Some(1)),
        ir(IROp::StoreArg(8), Some(24), Some(0)),
        ir(IROp::LabelAddr(String::from("msg")), Some(2), None),
        ir(IROp::LabelAddr(String::from(".L.str,1")), Some(2), None),
        ir(IROp::Call(String::from("f"), 0, [0; 6]), Some(1), None),
        ir(IROp::Call(String::from("f"), 1, [9, 0, 0, 0, 0, 0]), Some(1), None),
        ir(IROp::Call(String::from("printf"), 3, [2, 3, 4, 0, 0, 0]), Some(10), None),
        ir(IROp::Call(String::from("g"), 6, [2, 3, 4, 5, 6, 7]), Some(0), None),
        ir(IROp::AVX512Add, Some(1), Some(2)),
        ir(IROp::AVX512Addi, Some(1), Some(2)),
        ir(IROp::AVX512Load, Some(1), Some(2)),
        ir(IROp::AVX512LoadStack, Some(1), None),
        ir(IROp::AVX512StoreStack, Some(1), Some(2)),
        ir(IROp::AVX512Loadi, Some(1), Some(2)),
        ir(IROp::AVX512Store, Some(1), Some(2)),
        ir(IROp::AVX512Storei, Some(1), Some(2)),
        ir(IROp::AVX512Mov, Some(1), Some(2)),
        ir(IROp::AVX512Movi, Some(1), Some(2)),
        ir(IROp::AVX512Zero, Some(1), None),
        ir(IROp::AVX512Set1, Some(1), Some(2)),
        ir(IROp::AVX512Set1i, Some(1), Some(2)),
        ir(IROp::AVX512Cmplt, Some(1), Some(2)),
        ir(IROp::AVX512Cmple, Some(1), Some(2)),
        ir(IROp::AVX512Cmpeq, Some(1), Some(2)),
        ir(IROp::AVX512MaskMove, Some(1), Some(2)),
        ir(IROp::AVX512MaskLoad, Some(1), Some(2)),
        ir(IROp::AVX512MaskStore, Some(1), Some(2)),
        ir(IROp::AVX512Cvtdq2pd, Some(1), Some(2)),
        ir(IROp::AVX512Cvtpd2dq, Some(1), Some(2)),
        ir(IROp::AVX512Extract, Some(1), Some(2)),
        ir(IROp::AVX512Insert, Some(1), Some(2)),
        ir(IROp::AVX512FMA, Some(1), Some(2)),
        ir(IROp::AVX512Sqrt, Some(1), None),
        ir(IROp::AVX512And, Some(1), None),
        ir(IROp::AVX512Max, Some(1), None),
        ir(IROp::AVX512Min, Some(1), None),
        ir(IROp::AVX512Sub, Some(1), Some(2)),
        ir(IROp::AVX512Mul, Some(1), Some(2)),
        ir(IROp::AVX512Div, Some(1), Some(2)),
        ir(IROp::AVX512Subi, Some(1), Some(2)),
        ir(IROp::AVX512Muli, Some(1), Some(2)),
    ];
    for i in all {
        let text = i.to_string();
        assert_eq!(parse(&text), Some(i), "{}", text);
    }
}

#[test]
fn what_the_printed_form_does_not_show_is_not_read() {
    assert_eq!(
        parse(&ir(IROp::Nop, Some(3), Some(4)).to_string()),
        Some(ir(IROp::Nop, None, None))
    );
    assert_eq!(
        parse(&ir(IROp::Return, Some(3), Some(4)).to_string()),
        Some(ir(IROp::Return, Some(3), None))
    );
    assert_eq!(
        parse(&ir(IROp::Imm, Some(3), Some(0x1_0000_0005)).to_string()),
        Some(ir(IROp::Imm, Some(3), Some(5)))
    );
    assert_eq!(
        parse(&ir(IROp::Call(String::from("f"), 1, [9, 8, 7, 6, 5, 4]), Some(1), Some(2)).to_string()),
        Some(ir(IROp::Call(String::from("f"), 1, [9, 0, 0, 0, 0, 0]), Some(1), None))
    );
}

#[test]
fn what_is_no_printed_form_is_not_read() {
    for text in [
        "",
        " ",
        "  ",
        "  ADD",
        "  ADD ",
        "  ADD r1",
        "  ADD r1,r2",
        "  ADD r1, r2 ",
        "  ADD  r1, r2",
        " ADD r1, r2",
        "ADD r1, r2",
        "  add r1, r2",
        "  ADD r01, r2",
        "  ADD r1, r",
        "  ADD r1, 2147483648",
        "  NOP r1",
        "  NOP ",
        "  RET r1, r2",
        "  RET 1",
        "  JMP r1",
        "  JMP .L",
        "  IF r1, r2",
        "  LOAD r1, r2",
        "  LOAD256 r1, r2",
        "  LOAD08 r1, r2",
        "  STORE_ARG4 r1, r2",
        "  STORE_ARG4 1, 2",
        "  LABEL_ADDR r1, ",
        "  LABEL_ADDR r1, a b",
        "  LABEL_ADDR r1",
        "  r1 = f(r2",
        "  r1 = (r2)",
        "  r1 = f(r2,r3)",
        "  r1 = f(r2, )",
        "  r1 = f(r1, r2, r3, r4, r5, r6, r7)",
        "  r1 =f()",
        "  r1 = f g()",
        ".L1",
        ".L:",
        "L1:",
        ".L1: ",
        "  FOO r1",
    ] {
        assert_eq!(parse(text), None, "{:?}", text);
    }
}

#[test]
fn headers_are_read() {
    assert_eq!(read_header(&chars("main(): ")), Some(String::from("main")));
    assert_eq!(read_header(&chars("(): ")), None);
    assert_eq!(read_header(&chars("main():")), None);
    assert_eq!(read_header(&chars("ma in(): ")), None);
    assert_eq!(read_header(&chars("f(x)(): ")), None);
}

fn func(name: &str, stacksize: usize, ir: Vec<IR>) -> Function {
    Function { name: String::from(name), stacksize, ir }
}

#[test]
fn printed_functions_are_read_back() {
    let fns = vec![
        func(
            "main",
            0,
            vec![
                ir(IROp::Bprel, Some(0), Some(neg(16))),
                ir(IROp::Imm, Some(1), Some(5)),
                ir(IROp::Store(4), Some(0), Some(1)),
                ir(IROp::Nop, None, None),
                ir(IROp::Call(String::from("f"), 2, [0, 1, 0, 0, 0, 0]), Some(2), None),
                ir(IROp::Label, Some(1), None),
                ir(IROp::Return, Some(2), None),
            ],
        ),
        func("empty", 0, Vec::new()),
        func("f", 0, vec![ir(IROp::StoreArg(4), Some(neg(4)), Some(0))]),
    ];
    let text = dump_ir(&fns);
    assert_eq!(read_dump(&chars(&text)), Some(fns));
    assert_eq!(read_dump(&chars("")), Some(Vec::new()));
}

#[test]
fn frames_are_not_read() {
    let fns = vec![func("main", 48, vec![ir(IROp::Return, Some(0), None)])];
    let text = dump_ir(&fns);
    assert_eq!(
        read_dump(&chars(&text)),
        Some(vec![func("main", 0, vec![ir(IROp::Return, Some(0), None)])])
    );
}

#[test]
fn broken_dumps_are_not_read() {
    for text in [
        "  RET r0\n",
        "main(): ",
        "main(): \n  RET r0",
        "main(): \n\n",
        "main(): \n  RET\n",
        "main():\n",
        "\n",
    ] {
        assert_eq!(read_dump(&chars(text)), None, "{:?}", text);
    }
}
