use oxide::gen_ir::{Function, IROp, IR};
use oxide::gen_x86::{
    argreg, backslash_escape, emit_cmp, emit_header, gen, gen_insn, gen_x86, guard_backquotes,
    is_emittable, reg,
};
use oxide::{Scope, Var};

fn ir(op: IROp, lhs: Option<usize>, rhs: Option<usize>) -> IR {
    IR::new(op, lhs, rhs)
}

fn func(name: &str, stacksize: usize, ir: Vec<IR>) -> Function {
    Function { name: String::from(name), stacksize, ir }
}

fn one_insn(i: IR) -> String {
    assert!(is_emittable(&i));
    let mut out = String::new();
    gen_insn(&mut out, &i, ".Lend7");
    out
}

fn neg(n: usize) -> usize {
    0usize.wrapping_sub(n)
}

#[test]
fn return_zero_leaves_through_the_epilogue() {
    let f = func(
        "main",
        0,
        vec![ir(IROp::Imm, Some(0), Some(0)), ir(IROp::Return, Some(0), None)],
    );
    let mut label = 0usize;
    let out = gen_x86(Vec::new(), vec![f], &mut label);
    assert_eq!(label, 1);
    let want = "bits 64\nsection .text\nglobal main\nextern printf\nextern exit\n\n\
section .text\n.text\n.global main\nmain:\n\tpush rbp\n\tmov rbp, rsp\n\tsub rsp, 0\n\
\tpush r12\n\tpush r13\n\tpush r14\n\tpush r15\n\
\tmov r10, 0\n\tmov rax, r10\n\tjmp .Lend0\n\
.Lend0:\n\tpop r15\n\tpop r14\n\tpop r13\n\tpop r12\n\tmov rsp, rbp\n\tpop rbp\n\tret\n\n";
    assert_eq!(out, want);
}

#[test]
fn constant_expression_multiplies_then_adds() {
    let f = func(
        "main",
        0,
        vec![
            ir(IROp::Imm, Some(0), Some(1)),
            ir(IROp::Imm, Some(1), Some(2)),
            ir(IROp::MulImm, Some(1), Some(3)),
            ir(IROp::Add, Some(0), Some(1)),
            ir(IROp::Nop, Some(1), None),
            ir(IROp::Return, Some(0), None),
        ],
    );
    let mut out = String::new();
    let mut label = 0usize;
    gen(&mut out, &f, &mut label);
    assert_eq!(label, 1);
    assert!(out.contains("\timul r11, r11, 3\n\tadd r10, r11\n"));
    assert!(out.contains("\tmov rax, r10\n\tjmp .Lend0\n"));
}

#[test]
fn array_element_is_stored_and_loaded_as_dword() {
    let f = func(
        "main",
        16,
        vec![
            ir(IROp::Bprel, Some(0), Some(neg(16))),
            ir(IROp::AddImm, Some(0), Some(8)),
            ir(IROp::Imm, Some(1), Some(5)),
            ir(IROp::Store(4), Some(0), Some(1)),
            ir(IROp::Bprel, Some(0), Some(neg(8))),
            ir(IROp::Load(4), Some(1), Some(0)),
            ir(IROp::Return, Some(1), None),
        ],
    );
    let mut out = String::new();
    let mut label = 3usize;
    gen(&mut out, &f, &mut label);
    assert_eq!(label, 4);
    assert!(out.contains("\tsub rsp, 64\n"));
    assert!(out.contains("\tlea r10, [rbp-16]\n\tadd r10, 8\n\tmov r11, 5\n\tmov dword [r10], r11d\n"));
    assert!(out.contains("\tlea r10, [rbp-8]\n\tmovsxd r11, dword [r10]\n"));
    assert!(out.contains("\tjmp .Lend3\n.Lend3:\n"));
}

#[test]
fn call_moves_its_argument_right_before_the_call() {
    let text = one_insn(ir(IROp::Call(String::from("f"), 1, [0, 0, 0, 0, 0, 0]), Some(1), None));
    assert_eq!(
        text,
        "\tmov rdi, r10\n\tpush r10\n\tpush r11\n\tmov rax, 0\n\tcall f\n\tpop r11\n\tpop r10\n\tmov r11, rax\n"
    );
    assert_eq!(text.matches("mov rdi").count(), 1);
}

#[test]
fn call_with_six_arguments_fills_the_registers_in_order() {
    let text = one_insn(ir(IROp::Call(String::from("g"), 6, [6, 5, 4, 3, 2, 1]), Some(0), None));
    assert_eq!(
        text,
        "\tmov rdi, r15\n\tmov rsi, r14\n\tmov rdx, r13\n\tmov rcx, r12\n\tmov r8, rbx\n\tmov r9, r11\n\
\tpush r10\n\tpush r11\n\tmov rax, 0\n\tcall g\n\tpop r11\n\tpop r10\n\tmov r10, rax\n"
    );
}

#[test]
fn call_without_arguments_moves_nothing() {
    let text = one_insn(ir(IROp::Call(String::from("h"), 0, [0; 6]), Some(2), None));
    assert_eq!(
        text,
        "\tpush r10\n\tpush r11\n\tmov rax, 0\n\tcall h\n\tpop r11\n\tpop r10\n\tmov rbx, rax\n"
    );
}

#[test]
fn string_global_goes_to_the_data_section() {
    let s = Var {
        name: String::from("s"),
        scope: Scope::Global(b"hi\n".to_vec(), 4, false),
    };
    let mut label = 0usize;
    let out = gen_x86(vec![s], Vec::new(), &mut label);
    assert_eq!(label, 0);
    assert_eq!(
        out,
        "bits 64\nsection .text\nglobal main\nextern printf\nextern exit\n\n\
section .data\ns:\n    db `hi\\n\\000`\n\nsection .text\n"
    );
}

#[test]
fn extern_and_local_objects_get_no_data() {
    let e = Var { name: String::from("e"), scope: Scope::Global(b"x".to_vec(), 1, true) };
    let l = Var { name: String::from("l"), scope: Scope::Local(8, 4) };
    let mut label = 5usize;
    let out = gen_x86(vec![e, l], Vec::new(), &mut label);
    assert_eq!(
        out,
        "bits 64\nsection .text\nglobal main\nextern printf\nextern exit\n\nsection .text\n"
    );
}

#[test]
fn global_without_data_reserves_its_length_in_zero_bytes() {
    let z = Var { name: String::from("z"), scope: Scope::Global(Vec::new(), 8, false) };
    let a = Var { name: String::from("a"), scope: Scope::Global(Vec::new(), 400, false) };
    let e = Var { name: String::from("e"), scope: Scope::Global(Vec::new(), 0, false) };
    let mut label = 0usize;
    let out = gen_x86(vec![z, a, e], Vec::new(), &mut label);
    assert!(out.contains(
        "section .data\nz:\n    times 8 db 0\na:\n    times 400 db 0\ne:\n    times 0 db 0\n\nsection .text\n"
    ));
}

#[test]
fn global_of_one_backquote() {
    let q = Var { name: String::from("q"), scope: Scope::Global(vec![0x60], 1, false) };
    let mut label = 0usize;
    let out = gen_x86(vec![q], Vec::new(), &mut label);
    assert!(out.contains("q:\n    db `\\`\\000`\n"));
}

#[test]
fn epilogue_labels_count_up_over_the_functions() {
    let f = func("f", 1, vec![ir(IROp::Return, Some(0), None)]);
    let g = func("g", 65, vec![ir(IROp::Return, Some(1), None)]);
    let mut label = 41usize;
    let out = gen_x86(Vec::new(), vec![f, g], &mut label);
    assert_eq!(label, 43);
    assert!(out.contains(".global f\nf:\n\tpush rbp\n\tmov rbp, rsp\n\tsub rsp, 64\n"));
    assert!(out.contains("\tmov rax, r10\n\tjmp .Lend41\n.Lend41:\n"));
    assert!(out.contains(".global g\ng:\n\tpush rbp\n\tmov rbp, rsp\n\tsub rsp, 128\n"));
    assert!(out.contains("\tmov rax, r11\n\tjmp .Lend42\n.Lend42:\n"));
}

#[test]
fn frame_is_rounded_up_to_a_multiple_of_64() {
    for (stacksize, want) in [(0usize, 0usize), (1, 64), (63, 64), (64, 64), (65, 128), (200, 256)] {
        let f = func("f", stacksize, Vec::new());
        let mut out = String::new();
        let mut label = 0usize;
        gen(&mut out, &f, &mut label);
        assert!(out.contains(&format!("\tsub rsp, {}\n", want)));
        assert_eq!(want % 64, 0);
        assert!(want >= stacksize);
    }
}

#[test]
fn labels_of_an_output_are_pairwise_distinct() {
    let f = func(
        "f",
        0,
        vec![
            ir(IROp::Label, Some(1), None),
            ir(IROp::Jmp, Some(1), None),
            ir(IROp::Label, Some(2), None),
        ],
    );
    let g = func("g", 0, vec![ir(IROp::Label, Some(3), None)]);
    let v = Var { name: String::from("v"), scope: Scope::Global(b"a".to_vec(), 2, false) };
    let s = Var { name: String::from(".L.str0"), scope: Scope::Global(b"b".to_vec(), 2, false) };
    let mut label = 0usize;
    let out = gen_x86(vec![v, s], vec![f, g], &mut label);
    let mut labels: Vec<&str> = out
        .lines()
        .filter(|l| l.ends_with(':') && !l.starts_with('\t') && !l.starts_with(' '))
        .collect();
    assert_eq!(
        labels,
        vec!["v:", ".L.str0:", "f:", ".L1:", ".L2:", ".Lend0:", "g:", ".L3:", ".Lend1:"]
    );
    labels.sort();
    labels.dedup();
    assert_eq!(labels.len(), 9);
}

#[test]
fn escape_keeps_visible_characters() {
    assert_eq!(backslash_escape(b"hi\n", 4), "hi\\n\\000");
    assert_eq!(backslash_escape(b"a b~!", 6), "a b~!\\000");
    assert_eq!(backslash_escape(b"`", 1), "`\\000");
    assert_eq!(backslash_escape(b"`", 2), "`\\000");
    assert_eq!(backslash_escape(b"a`b", 3), "a`b\\000");
    let visible: Vec<u8> = (32..=126u8).filter(|b| !b"\\'\"".contains(b)).collect();
    let mut want = String::from_utf8(visible.clone()).unwrap();
    want.push_str("\\000");
    assert_eq!(backslash_escape(&visible, visible.len()), want);
}

#[test]
fn escape_short_forms() {
    assert_eq!(backslash_escape(b"\n\r\t\\'\"", 7), "\\n\\r\\t\\\\\\'\\\"\\000");
}

#[test]
fn escape_other_bytes_as_three_octal_digits() {
    assert_eq!(backslash_escape(&[0u8, 1, 7, 8, 31, 127, 128, 255], 9), "\\000\\001\\007\\010\\037\\177\\200\\377\\000");
}

#[test]
fn escape_cuts_and_fills_to_the_length() {
    assert_eq!(backslash_escape(b"abc", 0), "\\000");
    assert_eq!(backslash_escape(b"", 0), "\\000");
    assert_eq!(backslash_escape(b"", 1), "\\000");
    assert_eq!(backslash_escape(b"abc", 2), "ab\\000");
    assert_eq!(backslash_escape(b"abc", 3), "abc\\000");
    assert_eq!(backslash_escape(b"abc", 4), "abc\\000");
    assert_eq!(backslash_escape(b"abc", 6), "abc\\000\\000\\000");
    assert_eq!(backslash_escape(b"", 2), "\\000\\000");
}

fn unescape(text: &str) -> Vec<u8> {
    let t: Vec<char> = text.chars().collect();
    let mut out = Vec::new();
    let mut i = 0;
    while i < t.len() {
        if t[i] != '\\' {
            assert_ne!(t[i], '`');
            out.push(t[i] as u8);
            i += 1;
            continue;
        }
        let c = t[i + 1];
        let short = match c {
            'n' => Some(10u8),
            'r' => Some(13),
            't' => Some(9),
            '\\' => Some(92),
            '\'' => Some(39),
            '"' => Some(34),
            '`' => Some(96),
            _ => None,
        };
        if let Some(b) = short {
            out.push(b);
            i += 2;
            continue;
        }
        let mut value = 0u32;
        let mut n = 0;
        while n < 3 && i + 1 + n < t.len() && t[i + 1 + n].is_digit(8) {
            value = value * 8 + t[i + 1 + n].to_digit(8).unwrap();
            n += 1;
        }
        assert!(n > 0);
        out.push(value as u8);
        i += 1 + n;
    }
    out
}

#[test]
fn escape_is_read_back_as_the_bytes_and_a_zero() {
    let all: Vec<u8> = (0..=255u8).collect();
    let mut want = all.clone();
    want.push(0);
    assert_eq!(unescape(&guard_backquotes(&backslash_escape(&all, 257))), want);
    assert_eq!(unescape(&guard_backquotes(&backslash_escape(&all, 256))), want);
    assert_eq!(unescape(&backslash_escape(b"", 0)), vec![0u8]);
    assert_eq!(unescape(&guard_backquotes(&backslash_escape(b"`", 1))), vec![0x60u8, 0]);
    let digits = [1u8, b'2', b'7', 0, b'0', 200, b'9'];
    let mut want = digits.to_vec();
    want.push(0);
    assert_eq!(unescape(&backslash_escape(&digits, 8)), want);
}

#[test]
fn backquotes_are_guarded_in_the_directive_only() {
    assert_eq!(guard_backquotes(""), "");
    assert_eq!(guard_backquotes("hi\\n\\000"), "hi\\n\\000");
    assert_eq!(guard_backquotes("`"), "\\`");
    assert_eq!(guard_backquotes("a`b``"), "a\\`b\\`\\`");
    assert_eq!(guard_backquotes("\\\\`"), "\\\\\\`");
    let q = Var { name: String::from("q"), scope: Scope::Global(b"a`b\\`".to_vec(), 5, false) };
    let mut label = 0usize;
    let out = gen_x86(vec![q], Vec::new(), &mut label);
    assert!(out.contains("q:\n    db `a\\`b\\\\\\`\\000`\n"));
}

#[test]
fn register_names_by_size() {
    let r64 = ["r10", "r11", "rbx", "r12", "r13", "r14", "r15"];
    let r32 = ["r10d", "r11d", "ebx", "r12d", "r13d", "r14d", "r15d"];
    let r8 = ["r10b", "r11b", "bl", "r12b", "r13b", "r14b", "r15b"];
    for i in 0..7 {
        assert_eq!(reg(i, 8), r64[i]);
        assert_eq!(reg(i, 4), r32[i]);
        assert_eq!(reg(i, 1), r8[i]);
    }
}

#[test]
fn argument_register_names_by_size() {
    let a64 = ["rdi", "rsi", "rdx", "rcx", "r8", "r9"];
    let a32 = ["edi", "esi", "edx", "ecx", "r8d", "r9d"];
    let a8 = ["dil", "sil", "dl", "cl", "r8b", "r9b"];
    for i in 0..6 {
        assert_eq!(argreg(i, 8), a64[i]);
        assert_eq!(argreg(i, 4), a32[i]);
        assert_eq!(argreg(i, 1), a8[i]);
    }
}

#[test]
fn header_lines() {
    let mut out = String::from("; x\n");
    emit_header(&mut out);
    assert_eq!(out, "; x\nbits 64\nsection .text\nglobal main\nextern printf\nextern exit\n\n");
}

#[test]
fn comparison_sets_the_low_byte_and_widens() {
    let mut out = String::new();
    emit_cmp(&mut out, &ir(IROp::LT, Some(2), Some(6)), "setl");
    assert_eq!(out, "\tcmp rbx, r15\n\tsetl bl\n\tmovzx rbx, bl\n");
    assert_eq!(one_insn(ir(IROp::EQ, Some(0), Some(1))), "\tcmp r10, r11\n\tsete r10b\n\tmovzx r10, r10b\n");
    assert_eq!(one_insn(ir(IROp::NE, Some(0), Some(1))), "\tcmp r10, r11\n\tsetne r10b\n\tmovzx r10, r10b\n");
    assert_eq!(one_insn(ir(IROp::LE, Some(0), Some(1))), "\tcmp r10, r11\n\tsetle r10b\n\tmovzx r10, r10b\n");
}

#[test]
fn scalar_templates() {
    assert_eq!(one_insn(ir(IROp::Imm, Some(3), Some(42))), "\tmov r12, 42\n");
    assert_eq!(one_insn(ir(IROp::Imm, Some(3), Some(neg(1)))), "\tmov r12, -1\n");
    assert_eq!(one_insn(ir(IROp::Imm, Some(3), Some(0x7fff_ffff))), "\tmov r12, 2147483647\n");
    assert_eq!(one_insn(ir(IROp::Imm, Some(3), Some(0x8000_0000))), "\tmov r12, -2147483648\n");
    assert_eq!(one_insn(ir(IROp::Mov, Some(0), Some(1))), "\tmov r10, r11\n");
    assert_eq!(one_insn(ir(IROp::Return, Some(4), None)), "\tmov rax, r13\n\tjmp .Lend7\n");
    assert_eq!(one_insn(ir(IROp::Label, Some(12), None)), ".L12:\n");
    assert_eq!(one_insn(ir(IROp::LabelAddr(String::from("msg")), Some(1), None)), "\tlea r11, msg\n");
    assert_eq!(one_insn(ir(IROp::Neg, Some(5), None)), "\tneg r14\n");
    assert_eq!(one_insn(ir(IROp::AND, Some(0), Some(1))), "\tand r10, r11\n");
    assert_eq!(one_insn(ir(IROp::OR, Some(0), Some(1))), "\tor r10, r11\n");
    assert_eq!(one_insn(ir(IROp::XOR, Some(0), Some(1))), "\txor r10, r11\n");
    assert_eq!(one_insn(ir(IROp::SHL, Some(0), Some(1))), "\tmov cl, r11b\n\tshl r10, cl\n");
    assert_eq!(one_insn(ir(IROp::SHR, Some(0), Some(2))), "\tmov cl, bl\n\tshr r10, cl\n");
    assert_eq!(one_insn(ir(IROp::Mod, Some(0), Some(1))), "\tmov rax, r10\n\tcqo\n\tidiv r11\n\tmov r10, rdx\n");
    assert_eq!(one_insn(ir(IROp::Div, Some(0), Some(1))), "\tmov rax, r10\n\tcqo\n\tidiv r11\n\tmov r10, rax\n");
    assert_eq!(one_insn(ir(IROp::Mul, Some(0), Some(1))), "\tmov rax, r11\n\tmul r10\n\tmov r10, rax\n");
    assert_eq!(one_insn(ir(IROp::MulImm, Some(1), Some(3))), "\timul r11, r11, 3\n");
    assert_eq!(one_insn(ir(IROp::Jmp, Some(9), None)), "\tjmp .L9\n");
    assert_eq!(one_insn(ir(IROp::If, Some(0), Some(4))), "\tcmp r10, 0\n\tjne .L4\n");
    assert_eq!(one_insn(ir(IROp::Unless, Some(0), Some(4))), "\tcmp r10, 0\n\tje .L4\n");
    assert_eq!(one_insn(ir(IROp::Add, Some(0), Some(1))), "\tadd r10, r11\n");
    assert_eq!(one_insn(ir(IROp::AddImm, Some(0), Some(8))), "\tadd r10, 8\n");
    assert_eq!(one_insn(ir(IROp::Sub, Some(0), Some(1))), "\tsub r10, r11\n");
    assert_eq!(one_insn(ir(IROp::SubImm, Some(0), Some(1))), "\tsub r10, 1\n");
    assert_eq!(one_insn(ir(IROp::Bprel, Some(0), Some(24))), "\tlea r10, [rbp+24]\n");
    assert_eq!(one_insn(ir(IROp::Bprel, Some(0), Some(neg(24)))), "\tlea r10, [rbp-24]\n");
    assert_eq!(one_insn(ir(IROp::Nop, None, None)), "");
    assert_eq!(one_insn(ir(IROp::Kill, Some(100), None)), "");
}

#[test]
fn memory_templates() {
    assert_eq!(one_insn(ir(IROp::Load(1), Some(0), Some(1))), "\tmovzx r10, byte [r11]\n");
    assert_eq!(one_insn(ir(IROp::Load(4), Some(0), Some(1))), "\tmovsxd r10, dword [r11]\n");
    assert_eq!(one_insn(ir(IROp::Load(8), Some(0), Some(1))), "\tmov r10, [r11]\n");
    assert_eq!(one_insn(ir(IROp::Store(1), Some(0), Some(1))), "\tmov byte [r10], r11b\n");
    assert_eq!(one_insn(ir(IROp::Store(4), Some(0), Some(1))), "\tmov dword [r10], r11d\n");
    assert_eq!(one_insn(ir(IROp::Store(8), Some(0), Some(1))), "\tmov [r10], r11\n");
    assert_eq!(one_insn(ir(IROp::StoreArg(1), Some(neg(1)), Some(0))), "\tmov byte [rbp-1], dil\n");
    assert_eq!(one_insn(ir(IROp::StoreArg(4), Some(neg(4)), Some(1))), "\tmov dword [rbp-4], esi\n");
    assert_eq!(one_insn(ir(IROp::StoreArg(8), Some(neg(16)), Some(5))), "\tmov qword [rbp-16], r9\n");
    assert_eq!(one_insn(ir(IROp::StoreArg(8), Some(16), Some(2))), "\tmov qword [rbp+16], rdx\n");
}

#[test]
fn vector_templates() {
    assert_eq!(one_insn(ir(IROp::AVX512Add, Some(0), Some(1))), "\tvaddpd zmm0, zmm0, zmm1\n");
    assert_eq!(one_insn(ir(IROp::AVX512Sub, Some(2), Some(31))), "\tvsubpd zmm2, zmm2, zmm31\n");
    assert_eq!(one_insn(ir(IROp::AVX512Mul, Some(0), Some(1))), "\tvmulpd zmm0, zmm0, zmm1\n");
    assert_eq!(one_insn(ir(IROp::AVX512Div, Some(0), Some(1))), "\tvdivpd zmm0, zmm0, zmm1\n");
    assert_eq!(one_insn(ir(IROp::AVX512Load, Some(10), Some(1))), "\tvmovapd zmm10, [r11]\n");
    assert_eq!(one_insn(ir(IROp::AVX512Load, Some(3), None)), "\tvmovapd zmm3, [r10]\n");
    assert_eq!(one_insn(ir(IROp::AVX512LoadStack, Some(3), None)), "\tvmovapd zmm3, [rsp+24]\n");
    assert_eq!(one_insn(ir(IROp::AVX512LoadStack, Some(3), Some(9))), "\tvmovapd zmm3, [rsp+24]\n");
    assert_eq!(one_insn(ir(IROp::AVX512Store, Some(0), Some(1))), "\tvmovapd [r10], zmm1\n");
    assert_eq!(one_insn(ir(IROp::AVX512Store, None, Some(1))), "\tvmovapd [r10], zmm1\n");
    assert_eq!(one_insn(ir(IROp::AVX512StoreStack, None, Some(1))), "\tvmovapd [rsp+0], zmm1\n");
    assert_eq!(one_insn(ir(IROp::AVX512StoreStack, Some(2), Some(1))), "\tvmovapd [rsp+16], zmm1\n");
    assert_eq!(one_insn(ir(IROp::AVX512Mov, Some(0), Some(1))), "\tvmovapd zmm0, zmm1\n");
    assert_eq!(one_insn(ir(IROp::AVX512Addi, Some(0), Some(1))), "\tvpaddd zmm0, zmm0, zmm1\n");
    assert_eq!(one_insn(ir(IROp::AVX512Subi, Some(0), Some(1))), "\tvpsubd zmm0, zmm0, zmm1\n");
    assert_eq!(one_insn(ir(IROp::AVX512Muli, Some(0), Some(1))), "\tvpmulld zmm0, zmm0, zmm1\n");
    assert_eq!(one_insn(ir(IROp::AVX512Loadi, Some(0), Some(1))), "\tvmovdqu32 zmm0, [r11]\n");
    assert_eq!(one_insn(ir(IROp::AVX512Storei, Some(0), Some(1))), "\tvmovdqu32 [r10], zmm1\n");
    assert_eq!(one_insn(ir(IROp::AVX512Movi, Some(0), Some(1))), "\tvmovdqu32 zmm0, zmm1\n");
    assert_eq!(one_insn(ir(IROp::AVX512Zero, Some(4), None)), "\tvpxord zmm4, zmm4, zmm4\n");
    assert_eq!(one_insn(ir(IROp::AVX512Set1, Some(0), Some(1))), "\tvbroadcastsd zmm0, r11\n");
    assert_eq!(one_insn(ir(IROp::AVX512Set1i, Some(0), Some(1))), "\tvpbroadcastd zmm0, r11\n");
    assert_eq!(one_insn(ir(IROp::AVX512Cmplt, Some(0), Some(1))), "\tvcmpltpd k1, zmm0, zmm1\n");
    assert_eq!(one_insn(ir(IROp::AVX512Cmple, Some(0), Some(1))), "\tvcmplepd k1, zmm0, zmm1\n");
    assert_eq!(one_insn(ir(IROp::AVX512Cmpeq, Some(0), Some(1))), "\tvcmpeqpd k1, zmm0, zmm1\n");
    assert_eq!(one_insn(ir(IROp::AVX512MaskMove, Some(0), Some(1))), "\tvmovapd zmm0 {k1}, zmm1\n");
    assert_eq!(one_insn(ir(IROp::AVX512MaskLoad, Some(0), Some(1))), "\tvmovapd zmm0 {k1}, [r11]\n");
    assert_eq!(one_insn(ir(IROp::AVX512MaskStore, Some(0), Some(1))), "\tvmovapd [r10] {k1}, zmm1\n");
    assert_eq!(one_insn(ir(IROp::AVX512Cvtdq2pd, Some(0), Some(1))), "\tvcvtdq2pd zmm0, ymm1\n");
    assert_eq!(one_insn(ir(IROp::AVX512Cvtpd2dq, Some(0), Some(1))), "\tvcvtpd2dq ymm0, zmm1\n");
    assert_eq!(one_insn(ir(IROp::AVX512Extract, Some(0), Some(1))), "\tvmovq r10, xmm1\n");
    assert_eq!(one_insn(ir(IROp::AVX512Insert, Some(0), Some(1))), "\tvpinsrq xmm0, xmm0, r11, 0\n");
    assert_eq!(one_insn(ir(IROp::AVX512FMA, Some(0), Some(1))), "\tvfmadd231pd zmm0, zmm0, zmm1\n");
    assert_eq!(one_insn(ir(IROp::AVX512Sqrt, Some(0), None)), "\tvsqrtpd zmm0, zmm0\n");
    assert_eq!(one_insn(ir(IROp::AVX512And, Some(1), None)), "\tvandpd zmm1, zmm1, zmm0\n");
    assert_eq!(one_insn(ir(IROp::AVX512Max, Some(1), None)), "\tvmaxpd zmm1, zmm1, zmm0\n");
    assert_eq!(one_insn(ir(IROp::AVX512Min, Some(1), None)), "\tvminpd zmm1, zmm1, zmm0\n");
}

#[test]
fn what_cannot_be_written_is_recognised() {
    assert!(!is_emittable(&ir(IROp::Mov, Some(7), Some(0))));
    assert!(!is_emittable(&ir(IROp::Mov, Some(0), Some(7))));
    assert!(!is_emittable(&ir(IROp::Load(2), Some(0), Some(1))));
    assert!(!is_emittable(&ir(IROp::Store(0), Some(0), Some(1))));
    assert!(!is_emittable(&ir(IROp::StoreArg(8), Some(0), Some(6))));
    assert!(!is_emittable(&ir(IROp::EQ, Some(0), None)));
    assert!(!is_emittable(&ir(IROp::EQ, None, Some(0))));
    assert!(!is_emittable(&ir(IROp::Call(String::from("f"), 7, [0; 6]), Some(0), None)));
    assert!(!is_emittable(&ir(IROp::Call(String::from("f"), 2, [0, 7, 0, 0, 0, 0]), Some(0), None)));
    assert!(is_emittable(&ir(IROp::Call(String::from("f"), 1, [0, 7, 0, 0, 0, 0]), Some(0), None)));
    assert!(!is_emittable(&ir(IROp::AVX512Addi, Some(0), Some(32))));
    assert!(is_emittable(&ir(IROp::AVX512Addi, Some(31), Some(31))));
    assert!(!is_emittable(&ir(IROp::AVX512Load, Some(0), Some(7))));
    assert!(!is_emittable(&ir(IROp::AVX512Store, Some(7), Some(0))));
    assert!(is_emittable(&ir(IROp::AVX512LoadStack, Some(31), Some(99))));
    assert!(!is_emittable(&ir(IROp::AVX512LoadStack, Some(32), None)));
    assert!(!is_emittable(&ir(IROp::AVX512StoreStack, Some(32), Some(0))));
    assert!(!is_emittable(&ir(IROp::AVX512StoreStack, Some(0), Some(32))));
    assert!(is_emittable(&ir(IROp::Jmp, None, None)));
    assert!(is_emittable(&ir(IROp::Mov, None, None)));
}
