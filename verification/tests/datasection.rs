use oxide::dataread::{read_directive, read_escaped, read_program, read_section, read_symbol};
use oxide::gen_ir::{Function, IROp, IR};
use oxide::gen_x86::gen_x86;
use oxide::irdump::dump_ir;
use oxide::{Scope, Var};

fn chars(s: &str) -> Vec<char> {
    s.chars().collect()
}

fn global(name: &str, data: &[u8], len: usize) -> Var {
    Var { name: String::from(name), scope: Scope::Global(data.to_vec(), len, false) }
}

fn main_returns() -> Vec<Function> {
    vec![Function {
        name: String::from("main"),
        stacksize: 0,
        ir: vec![IR::new(IROp::Return, Some(0), None)],
    }]
}

/// The data section of the output for these globals, from its first line
/// to the empty line that ends it.
fn data_section(globals: Vec<Var>) -> String {
    let mut label = 0usize;
    let out = gen_x86(globals, Vec::new(), &mut label);
    let from = match out.find("section .data\n") {
        Some(from) => from,
        None => return String::new(),
    };
    let to = out.rfind("section .text\n").unwrap();
    out[from..to].to_string()
}

#[test]
fn escaped_bytes_are_read_back() {
    let t = chars("`hi\\n\\000`");
    assert_eq!(read_escaped(&t, 1, 9), Some(vec![b'h', b'i', b'\n', 0]));
    assert_eq!(read_escaped(&t, 1, 1), Some(Vec::new()));
    assert_eq!(read_escaped(&chars("\\b\\t\\n\\v\\f\\r\\e"), 0, 14), Some(vec![8, 9, 10, 11, 12, 13, 27]));
    assert_eq!(read_escaped(&chars("\\140\\377\\177 ~"), 0, 14), Some(vec![0x60, 255, 127, 32, 126]));
    assert_eq!(read_escaped(&chars("\\\\"), 0, 2), Some(vec![b'\\']));
    assert_eq!(read_escaped(&chars("a\\`b"), 0, 4), Some(vec![b'a', 0x60, b'b']));
}

#[test]
fn octal_escapes_may_be_short() {
    let t = chars("\\7\\77\\0a\\18");
    assert_eq!(read_escaped(&t, 0, t.len()), Some(vec![7, 63, 0, b'a', 1, b'8']));
}

#[test]
fn text_that_is_no_escaped_string_is_not_read() {
    for text in ["`", "a`b", "\\", "\\400", "\\x41", "\\8", "\u{80}", "\u{100}", "ab\\"] {
        let t = chars(text);
        assert_eq!(read_escaped(&t, 0, t.len()), None, "{:?}", text);
    }
}

#[test]
fn directive_of_zero_bytes_is_read() {
    assert_eq!(read_directive(&chars("    times 8 db 0")), Some((Vec::new(), 8)));
    assert_eq!(read_directive(&chars("    times 0 db 0")), Some((Vec::new(), 0)));
    assert_eq!(
        read_directive(&chars("    times 18446744073709551615 db 0")),
        Some((Vec::new(), usize::MAX))
    );
}

#[test]
fn directive_of_bytes_is_read_as_data_that_prints_to_it() {
    for (data, len) in [
        (b"hi\n".to_vec(), 4usize),
        (b"abc".to_vec(), 3),
        (b"abc".to_vec(), 2),
        (b"abc".to_vec(), 0),
        (b"a".to_vec(), 5),
        (vec![0x60, 0, 255, b'\\'], 4),
    ] {
        let section = data_section(vec![global("g", &data, len)]);
        let line = section.lines().nth(2).unwrap();
        let (read, read_len) = read_directive(&chars(line)).unwrap();
        let again = data_section(vec![global("g", &read, read_len)]);
        assert_eq!(again, section, "{:?} {}", data, len);
    }
}

#[test]
fn directive_with_a_guarded_backquote_is_read() {
    assert_eq!(read_directive(&chars("    db `\\`\\000`")), Some((vec![0x60, 0], 1)));
    assert_eq!(
        read_directive(&chars("    db `a\\`b\\\\\\`\\000`")),
        Some((b"a`b\\`\0".to_vec(), 5))
    );
}

#[test]
fn other_lines_are_no_directive() {
    for line in [
        "",
        "    dq 0",
        "    times 08 db 0",
        "    times  db 0",
        "    times 18446744073709551616 db 0",
        "    times 8 db 0 ",
        "   times 8 db 0",
        "    db ``",
        "    db `abc`",
        "    db `abc\\000",
        "    db `abc\\0`",
        "    db `\\7\\000`",
        "    db `\\140\\000`",
        "    db `\\`\\000` ",
        "    db `a`b\\000`",
        "    db abc\\000`",
        "\tdb `abc\\000`",
    ] {
        assert_eq!(read_directive(&chars(line)), None, "{:?}", line);
    }
}

#[test]
fn symbol_line_ends_in_a_colon() {
    assert_eq!(read_symbol(&chars("s:")), Some(String::from("s")));
    assert_eq!(read_symbol(&chars(".L.str1:")), Some(String::from(".L.str1")));
    assert_eq!(read_symbol(&chars("a:b:")), Some(String::from("a:b")));
    assert_eq!(read_symbol(&chars(":")), Some(String::new()));
    assert_eq!(read_symbol(&chars("s")), None);
    assert_eq!(read_symbol(&chars("")), None);
    assert_eq!(read_symbol(&chars("s: ")), None);
}

#[test]
fn section_is_read_up_to_its_empty_line() {
    let text = chars("xxs:\n    db `hi\\n\\000`\nz:\n    times 8 db 0\n\nmain(): \n");
    let (globals, pos) = read_section(&text, 2).unwrap();
    assert_eq!(pos, 2 + 42);
    assert_eq!(text[pos], 'm');
    assert_eq!(globals.len(), 2);
    assert_eq!(globals[0].name, "s");
    assert_eq!(globals[1], global("z", &[], 8));
    assert_eq!(
        data_section(globals),
        "section .data\ns:\n    db `hi\\n\\000`\nz:\n    times 8 db 0\n\n"
    );
}

#[test]
fn section_without_end_or_without_globals_is_not_read() {
    for text in [
        "",
        "\n",
        "s:\n    times 8 db 0\n",
        "s:\n    times 8 db 0",
        "s:\n\n",
        "s:\n    dq 0\n\n",
        "s\n    times 8 db 0\n\n",
        "    times 8 db 0\n\n",
    ] {
        assert_eq!(read_section(&chars(text), 0), None, "{:?}", text);
    }
}

#[test]
fn program_without_data_is_its_functions() {
    let fns = main_returns();
    let text = dump_ir(&fns);
    assert_eq!(read_program(&chars(&text)), Some((Vec::new(), fns)));
    assert_eq!(read_program(&chars("")), Some((Vec::new(), Vec::new())));
}

#[test]
fn program_with_data_is_read_and_written_again() {
    let globals = vec![
        global(".L.str0", b"%d `quoted`\n", 13),
        global("counter", &[], 4),
        global("table", &[1, 2, 3], 8),
    ];
    let fns = main_returns();
    let section = data_section(globals.clone());
    let text = format!("{}{}", section, dump_ir(&fns));
    let (read_globals, read_fns) = read_program(&chars(&text)).unwrap();
    assert_eq!(read_fns, fns);
    assert_eq!(read_globals.len(), 3);
    assert_eq!(read_globals[0].name, ".L.str0");
    assert_eq!(read_globals[1], global("counter", &[], 4));
    assert_eq!(data_section(read_globals.clone()), section);

    let mut first = 0usize;
    let mut second = 0usize;
    assert_eq!(
        gen_x86(read_globals, read_fns, &mut first),
        gen_x86(globals, fns, &mut second)
    );
}

#[test]
fn program_with_data_only() {
    let text = "section .data\ns:\n    times 1 db 0\n\n";
    assert_eq!(read_program(&chars(text)), Some((vec![global("s", &[], 1)], Vec::new())));
}

#[test]
fn broken_programs_are_not_read() {
    for text in [
        "section .data\n",
        "section .data\n\n",
        "section .data\n\nmain(): \n  RET r0\n",
        "section .data\ns:\n    times 1 db 0\nmain(): \n  RET r0\n",
        "section .data\ns:\n    times 1 db 0\n\nmain()\n",
        "section .data \ns:\n    times 1 db 0\n\n",
        "section .text\n",
        "s:\n    times 1 db 0\n\nmain(): \n  RET r0\n",
    ] {
        assert_eq!(read_program(&chars(text)), None, "{:?}", text);
    }
}
