use strling::compiler::Compiler;
use strling::emitters::pcre2::PCRE2Emitter;
use strling::errors::STRlingParseError;
use strling::hint_engine::get_hint;
use strling::ir::{
    IRAlt, IRBackref, IRCharClass, IRClassEscape, IRClassItem, IRClassLiteral, IRClassRange, IRGroup, IRLit,
    IRLook, IRMaxBound, IROp, IRQuant, IRSeq,
};
use strling::nodes::{normalize_kind, ClassItem, Flags, Literal, MaxBound, Node, Sequence};
use strling::parser::{parse, Parser};
use strling::simply::{atomic, backref_index, escape, hex, literal, look_behind, merge, prop, repeat_possessive, unicode};

fn run(pattern: &str) -> Result<(String, Vec<String>), STRlingParseError> {
    let (flags, ast) = parse(pattern)?;
    let mut compiler = Compiler::new();
    let result = compiler.compile_with_metadata(&ast);
    let emitter = PCRE2Emitter::new(flags);
    Ok((emitter.emit(&result.ir), result.metadata.features_used))
}

fn lit(s: &str) -> IROp {
    IROp::Lit(IRLit { value: s.to_string() })
}

fn emit(ir: &IROp) -> String {
    PCRE2Emitter::new(Flags::default()).emit(ir)
}

fn err_message(pattern: &str) -> String {
    parse(pattern).unwrap_err().message
}

#[test]
fn scenario_hello() {
    assert_eq!(run("hello").unwrap(), ("hello".to_string(), vec![]));
}

#[test]
fn scenario_anchors_and_dot_star() {
    assert_eq!(run("^test.*$").unwrap(), ("^test.*$".to_string(), vec![]));
}

#[test]
fn scenario_alternation() {
    assert_eq!(run("cat|dog|bird").unwrap(), ("cat|dog|bird".to_string(), vec![]));
}

#[test]
fn scenario_quantified_group() {
    assert_eq!(run("(ab)+").unwrap(), ("(ab)+".to_string(), vec![]));
}

#[test]
fn scenario_named_group() {
    assert_eq!(run(r"(?<word>\w+)").unwrap(), (r"(?<word>\w+)".to_string(), vec!["named_group".to_string()]));
}

#[test]
fn scenario_lookahead() {
    assert_eq!(run("test(?=123)").unwrap(), ("test(?=123)".to_string(), vec!["lookahead".to_string()]));
}

#[test]
fn scenario_errors() {
    assert!(run(")").unwrap_err().message.contains("Unmatched"));
    assert!(run("a||b").unwrap_err().message.contains("Empty alternation"));
    assert!(run("|a").unwrap_err().message.contains("lacks left-hand side"));
}

#[test]
fn normalize_twice_changes_nothing() {
    let compiler = Compiler::new();
    let ir = IROp::Sequence(IRSeq {
        parts: vec![
            lit("a"),
            IROp::Sequence(IRSeq { parts: vec![lit("b"), lit(""), lit("c")] }),
            IROp::Alt(IRAlt { branches: vec![IROp::Sequence(IRSeq { parts: vec![lit("x")] }), lit("y")] }),
            lit("d"),
        ],
    });
    let once = compiler.normalize(&ir);
    let twice = compiler.normalize(&once);
    assert_eq!(once, twice);
    assert_eq!(
        once,
        IROp::Sequence(IRSeq { parts: vec![lit("abc"), IROp::Alt(IRAlt { branches: vec![lit("x"), lit("y")] }), lit("d")] })
    );
}

#[test]
fn literal_run_coalesces_into_one_literal() {
    let parts: Vec<Node> = "hello".chars().map(|c| Node::Literal(Literal { value: c.to_string() })).collect();
    let mut compiler = Compiler::new();
    assert_eq!(compiler.compile(&Node::Sequence(Sequence { parts })), lit("hello"));
    let single = vec![Node::Literal(Literal { value: "z".to_string() })];
    assert_eq!(compiler.compile(&Node::Sequence(Sequence { parts: single })), lit("z"));
}

fn has_nested_seq(op: &IROp) -> bool {
    match op {
        IROp::Sequence(s) => s.parts.iter().any(|p| matches!(p, IROp::Sequence(_)) || has_nested_seq(p)),
        IROp::Alt(a) => a.branches.iter().any(has_nested_seq),
        IROp::Quant(q) => has_nested_seq(&q.child),
        IROp::Group(g) => has_nested_seq(&g.body),
        IROp::Look(l) => has_nested_seq(&l.body),
        _ => false,
    }
}

#[test]
fn compiled_sequences_never_nest() {
    let ast = merge(vec![
        literal("a"),
        merge(vec![literal("b"), merge(vec![escape("n"), atomic(literal("c"))])]),
        look_behind(merge(vec![merge(vec![literal("x")]), prop("L")])),
    ]);
    let ir = Compiler::new().compile(&ast);
    assert!(!has_nested_seq(&ir));
    assert_eq!(emit(&ir), r"ab\n(?>c)(?<=x\p{L})");
}

#[test]
fn features_found_at_any_depth() {
    let ast = merge(vec![
        atomic(repeat_possessive(backref_index(1), 1, None)),
        look_behind(merge(vec![prop("Lu"), prop("Ll")])),
    ]);
    let result = Compiler::new().compile_with_metadata(&ast);
    assert_eq!(
        result.metadata.features_used,
        vec!["atomic_group", "possessive_quantifier", "lookbehind", "backreference", "unicode_property"]
    );
    assert!(run("abc").unwrap().1.is_empty());
    assert_eq!(run("(?<a>x)(?<b>y)").unwrap().1, vec!["named_group"]);
}

#[test]
fn errors_are_deterministic() {
    for pattern in ["a||b", "(a", "[abc", "(?<>a)", "a|", ")"] {
        let e1 = parse(pattern).unwrap_err();
        let e2 = parse(pattern).unwrap_err();
        assert_eq!(e1.message, e2.message);
        assert_eq!(e1.pos, e2.pos);
        assert_eq!(e1.hint, e2.hint);
        assert_eq!(e1.text, e2.text);
    }
}

#[test]
fn error_messages_and_positions() {
    let cases: Vec<(&str, &str, usize)> = vec![
        ("[abc", "Unterminated character class", 0),
        ("a[]", "Empty character class", 1),
        ("ab\\", "Incomplete escape sequence", 2),
        ("(?=a", "Unterminated lookahead", 0),
        ("(?<!a", "Unterminated lookbehind", 0),
        ("(?>a", "Unterminated atomic group", 0),
        ("(?<ab", "Unterminated group name", 0),
        ("(?<>a)", "Empty group name", 3),
        ("(?<a-b>x)", "Invalid character in group name: -", 4),
        ("(?x)", "Unknown group modifier: ?x", 1),
        ("a|", "Alternation lacks right-hand side", 1),
        ("|a", "Alternation lacks left-hand side", 0),
        ("a||b", "Empty alternation branch", 1),
        ("ab)", "Unmatched ')'", 2),
        ("(ab", "Unterminated group", 0),
        ("x(?:a", "Unterminated group", 1),
        ("ab(?<n>a", "Unterminated group", 2),
    ];
    for (pattern, message, pos) in cases {
        let e = parse(pattern).unwrap_err();
        assert_eq!(e.message, message, "pattern {}", pattern);
        assert_eq!(e.pos, pos, "pattern {}", pattern);
    }
}

#[test]
fn errors_carry_hints() {
    let e = parse("[abc").unwrap_err();
    assert_eq!(
        e.hint.as_deref(),
        Some("This character class was opened with '[' but never closed. Add a matching ']' to close the character class.")
    );
    let e = parse(")").unwrap_err();
    assert!(e.hint.unwrap().contains("matching opening '('"));
    let e = parse("(?<>a)").unwrap_err();
    assert_eq!(e.hint, None);
    assert_eq!(e.text, "(?<>a)");
}

#[test]
fn hint_for_each_category() {
    assert!(get_hint("Empty character class", "", 0).unwrap().starts_with("Character classes must contain"));
    assert!(get_hint("Alternation lacks left-hand side", "", 0).unwrap().contains("leading '|'"));
    assert!(get_hint("Alternation lacks right-hand side", "", 0).unwrap().contains("trailing '|'"));
    assert!(get_hint("Empty alternation branch", "", 0).unwrap().contains("between the pipes"));
    assert!(get_hint("Unexpected trailing input", "", 0).unwrap().contains("unexpected content"));
    assert!(get_hint("Unterminated character class", "", 0).unwrap().contains("']'"));
}

#[test]
fn formatted_error_exact() {
    let error = STRlingParseError::new(
        "Unexpected character".to_string(),
        6,
        "hello world".to_string(),
        Some("Did you mean to escape this?".to_string()),
    );
    assert_eq!(
        error.to_formatted_string(),
        "STRling Parse Error: Unexpected character\n\n> 1 | hello world\n>   |       ^\n\nHint: Did you mean to escape this?"
    );
    let second_line = STRlingParseError::new("Bad".to_string(), 4, "ab\ncd".to_string(), None);
    assert_eq!(second_line.to_formatted_string(), "STRling Parse Error: Bad\n\n> 2 | cd\n>   |  ^");
    let beyond = STRlingParseError::new("Bad".to_string(), 40, "ab".to_string(), None);
    assert_eq!(beyond.to_formatted_string(), "STRling Parse Error: Bad\n\n> 1 | ab\n>   |   ^");
    let empty = STRlingParseError::new("Bad".to_string(), 3, String::new(), None);
    assert_eq!(empty.to_formatted_string(), "Bad at position 3");
}

#[test]
fn lsp_diagnostic_fields() {
    let error = STRlingParseError::new(
        "Unterminated group".to_string(),
        4,
        "ab\ncd".to_string(),
        Some("Close it.".to_string()),
    );
    let d = error.to_lsp_diagnostic();
    assert_eq!((d.range.start.line, d.range.start.character), (1, 1));
    assert_eq!((d.range.end.line, d.range.end.character), (1, 2));
    assert_eq!(d.message, "Unterminated group\n\nHint: Close it.");
    assert_eq!(d.code, "unterminated_group");
    let unmatched = parse(")").unwrap_err().to_lsp_diagnostic();
    assert_eq!(unmatched.code, "unmatched");
    let flag = STRlingParseError::new("Invalid flag 'Z' (x)".to_string(), 0, String::new(), None);
    assert_eq!(flag.to_lsp_diagnostic().code, "invalid_flag_z_x");
}

#[test]
fn emitter_escapes_and_tokens() {
    assert_eq!(emit(&lit("a.b*c\n\t{}")), r"a\.b\*c\n\t\{\}");
    let class = IROp::CharClass(IRCharClass {
        negated: true,
        items: vec![
            IRClassItem::Char(IRClassLiteral { ch: "]".to_string() }),
            IRClassItem::Range(IRClassRange { from_ch: "a".to_string(), to_ch: "z".to_string() }),
            IRClassItem::Esc(IRClassEscape { escape_type: "d".to_string(), property: None }),
        ],
    });
    assert_eq!(emit(&class), r"[^\]a-z\d]");
    let negated_digit = IROp::CharClass(IRCharClass {
        negated: true,
        items: vec![IRClassItem::Esc(IRClassEscape { escape_type: "d".to_string(), property: None })],
    });
    assert_eq!(emit(&negated_digit), r"\D");
    let quant = |min: i32, max: IRMaxBound, mode: &str| {
        emit(&IROp::Quant(IRQuant { child: Box::new(lit("a")), min, max, mode: mode.to_string() }))
    };
    assert_eq!(quant(2, IRMaxBound::Finite(5), "Greedy"), "a{2,5}");
    assert_eq!(quant(3, IRMaxBound::Finite(3), "Greedy"), "a{3}");
    assert_eq!(quant(2, IRMaxBound::Infinite("Inf".to_string()), "Greedy"), "a{2,}");
    assert_eq!(quant(0, IRMaxBound::Infinite("Inf".to_string()), "Lazy"), "a*?");
    assert_eq!(quant(1, IRMaxBound::Infinite("Inf".to_string()), "Possessive"), "a++");
    assert_eq!(quant(0, IRMaxBound::Finite(1), "Greedy"), "a?");
    assert_eq!(emit(&IROp::Backref(IRBackref { by_index: None, by_name: Some("x".to_string()) })), r"\k<x>");
    assert_eq!(emit(&IROp::Backref(IRBackref { by_index: Some(12), by_name: None })), r"\12");
    assert_eq!(emit(&IROp::Look(IRLook { dir: "Behind".to_string(), neg: true, body: Box::new(lit("a")) })), "(?<!a)");
    let group = |capturing: bool, name: Option<&str>, atomic: bool| {
        emit(&IROp::Group(IRGroup { capturing, name: name.map(|n| n.to_string()), atomic, body: Box::new(lit("a")) }))
    };
    assert_eq!(group(true, None, true), "(?>a)");
    assert_eq!(group(false, None, false), "(?:a)");
    assert_eq!(group(true, Some("n"), false), "(?<n>a)");
}

#[test]
fn flags_string_order() {
    let all = Flags { ignore_case: true, multiline: true, dot_all: true, unicode: true, extended: true };
    assert_eq!(PCRE2Emitter::new(all).get_flags_string(), "imsux");
    let some = Flags { ignore_case: false, multiline: true, dot_all: false, unicode: true, extended: false };
    assert_eq!(PCRE2Emitter::new(some).get_flags_string(), "mu");
    assert_eq!(PCRE2Emitter::new(Flags::default()).get_flags_string(), "");
}

#[test]
fn brace_quantifiers_and_classes() {
    let (_, ast) = parse("a{2,3}").unwrap();
    match ast {
        Node::Quantifier(q) => {
            assert_eq!(q.min, 2);
            assert_eq!(q.max, MaxBound::Finite(3));
        }
        _ => panic!("expected quantifier"),
    }
    assert_eq!(run("a{2,}b{4}?").unwrap().0, "a{2,}b{4}?");
    assert_eq!(run("a{x").unwrap().0, r"a\{x");
    assert_eq!(run("a{1000000000}").unwrap().0, "a{1000000000}");
    assert_eq!(run("a{2147483647,}").unwrap().0, "a{2147483647,}");
    assert_eq!(run("a{2147483648}").unwrap().0, r"a\{2147483648\}");
    assert_eq!(run("a{0003}").unwrap().0, "a{3}");
    let (_, ast) = parse("[a-z_]").unwrap();
    match ast {
        Node::CharacterClass(cc) => {
            assert_eq!(cc.items.len(), 2);
            assert!(matches!(cc.items[0], ClassItem::Range(_)));
        }
        _ => panic!("expected class"),
    }
    assert_eq!(run(r"[\d\n.-]").unwrap().0, r"[\d\n.\-]");
}

#[test]
fn directives_and_free_spacing() {
    let (flags, ast) = parse("# leading comment\n%flags x, i\n a b  # trailing\n c").unwrap();
    assert!(flags.extended && flags.ignore_case && !flags.multiline);
    let mut compiler = Compiler::new();
    assert_eq!(compiler.compile(&ast), lit("abc"));
    let (flags, ast) = parse("%flags [U]\n%note ignored\nab\n").unwrap();
    assert!(flags.unicode);
    assert_eq!(compiler.compile(&ast), lit("ab"));
    let mut parser = Parser::new("%flags m\r\nx|y".to_string());
    assert!(parser.flags().multiline);
    assert!(matches!(parser.parse().unwrap(), Node::Alternation(_)));
    assert_eq!(run("").unwrap().0, "");
}

#[test]
fn code_point_helpers() {
    match hex("{41}") {
        Node::Literal(l) => assert_eq!(l.value, "A"),
        _ => panic!("expected literal"),
    }
    match hex("zz") {
        Node::Literal(l) => assert_eq!(l.value, r"\x{zz}"),
        _ => panic!("expected literal"),
    }
    match unicode("D800") {
        Node::Literal(l) => assert_eq!(l.value, r"\u{D800}"),
        _ => panic!("expected literal"),
    }
    match escape("q") {
        Node::Literal(l) => assert_eq!(l.value, r"\q"),
        _ => panic!("expected literal"),
    }
}

#[test]
fn escape_kind_names() {
    assert_eq!(normalize_kind("digit"), "d");
    assert_eq!(normalize_kind("not-digit"), "D");
    assert_eq!(normalize_kind("word"), "w");
    assert_eq!(normalize_kind("not-word"), "W");
    assert_eq!(normalize_kind("space"), "s");
    assert_eq!(normalize_kind("not-space"), "S");
    assert_eq!(normalize_kind("p"), "p");
}

#[test]
fn named_groups_with_digits_and_underscores() {
    assert_eq!(run(r"(?<year_2024>\d{4})").unwrap(), (r"(?<year_2024>\d{4})".to_string(), vec!["named_group".to_string()]));
}
