use strling::compiler::Compiler;
use strling::emitters::pcre2::PCRE2Emitter;
use strling::hint_engine::get_hint;
use strling::ir::{IRAlt, IRAnchor, IRDot, IRGroup, IRLit, IRMaxBound, IROp, IRQuant};
use strling::nodes::{ClassItem, Flags, Literal, MaxBound, Node, Sequence};
use strling::parser::parse;
use strling::simply::{
    any_of, atomic, backref_index, backref_name, capture, class_escape, digit, dot, either, end, escape,
    flag, hex, literal, look_ahead, look_behind, may, merge, named_capture, neg_look_ahead,
    neg_look_behind, non_capturing, not_any_of, not_word_boundary, prop, ranges, repeat_greedy,
    repeat_lazy, repeat_possessive, start, unicode, word_boundary,
};
use strling::validator::validate;

fn ir_lit(s: &str) -> IROp {
    IROp::Lit(IRLit { value: s.to_string() })
}

#[test]
fn compiler_test_compile_literal() {
    let mut compiler = Compiler::new();
    let node = Node::Literal(Literal { value: "test".to_string() });
    match compiler.compile(&node) {
        IROp::Lit(lit) => assert_eq!(lit.value, "test"),
        _ => panic!("Expected IRLit"),
    }
}

#[test]
fn test_compile_sequence() {
    let mut compiler = Compiler::new();
    let node = Node::Sequence(Sequence {
        parts: vec![
            Node::Literal(Literal { value: "a".to_string() }),
            Node::Literal(Literal { value: "b".to_string() }),
        ],
    });
    match compiler.compile(&node) {
        IROp::Lit(lit) => assert_eq!(lit.value, "ab"),
        _ => panic!("Expected coalesced literal"),
    }
}

#[test]
fn test_unterminated_group_hint() {
    let hint = get_hint("Unterminated group", "test", 0);
    assert!(hint.is_some());
    assert!(hint.unwrap().contains("matching ')'"));
}

#[test]
fn test_invalid_flag_hint() {
    let hint = get_hint("Invalid flag 'z'", "test", 0);
    assert!(hint.is_some());
    assert!(hint.unwrap().contains("Valid flags"));
}

#[test]
fn test_no_hint_for_unknown_error() {
    let hint = get_hint("Some unknown error", "test", 0);
    assert!(hint.is_none());
}

#[test]
fn test_parse_simple_literal() {
    let result = parse("hello");
    assert!(result.is_ok());
    let (_flags, node) = result.unwrap();
    match node {
        Node::Sequence(seq) => assert_eq!(seq.parts.len(), 5),
        _ => panic!("Expected Seq node"),
    }
}

#[test]
fn test_parse_anchor() {
    assert!(parse("^test$").is_ok());
}

#[test]
fn test_parse_dot() {
    let result = parse(".");
    assert!(result.is_ok());
    match result.unwrap().1 {
        Node::Dot(_) => {}
        _ => panic!("Expected Dot node"),
    }
}

#[test]
fn test_parse_alternation() {
    let result = parse("a|b");
    assert!(result.is_ok());
    match result.unwrap().1 {
        Node::Alternation(alt) => assert_eq!(alt.branches.len(), 2),
        _ => panic!("Expected Alt node"),
    }
}

#[test]
fn test_parse_quantifier() {
    let result = parse("a*");
    assert!(result.is_ok());
    match result.unwrap().1 {
        Node::Quantifier(quant) => {
            assert_eq!(quant.min, 0);
            match quant.max {
                MaxBound::Infinite(_) => {}
                _ => panic!("Expected infinite max"),
            }
        }
        _ => panic!("Expected Quant node"),
    }
}

#[test]
fn test_parse_group() {
    let result = parse("(abc)");
    assert!(result.is_ok());
    match result.unwrap().1 {
        Node::Group(group) => {
            assert!(group.capturing);
            assert_eq!(group.name, None);
        }
        _ => panic!("Expected Group node"),
    }
}

#[test]
fn test_unmatched_paren_error() {
    let result = parse("test)");
    assert!(result.is_err());
    let err = result.unwrap_err();
    assert!(err.message.contains("Unmatched"));
}

#[test]
fn test_empty_alternation() {
    let result = parse("a||b");
    assert!(result.is_err());
    let err = result.unwrap_err();
    assert!(err.message.contains("Empty alternation"));
}

#[test]
fn test_validate_literal() {
    let node = Node::Literal(Literal { value: "test".to_string() });
    assert!(validate(&node).is_ok());
}

#[test]
fn test_emit_literal() {
    let emitter = PCRE2Emitter::new(Flags::default());
    assert_eq!(emitter.emit(&ir_lit("test")), "test");
}

#[test]
fn test_emit_dot() {
    let emitter = PCRE2Emitter::new(Flags::default());
    assert_eq!(emitter.emit(&IROp::Dot(IRDot {})), ".");
}

#[test]
fn test_emit_anchor() {
    let emitter = PCRE2Emitter::new(Flags::default());
    let ir = IROp::Anchor(IRAnchor { at: "Start".to_string() });
    assert_eq!(emitter.emit(&ir), "^");
}

#[test]
fn test_emit_quantifier() {
    let emitter = PCRE2Emitter::new(Flags::default());
    let ir = IROp::Quant(IRQuant {
        child: Box::new(ir_lit("a")),
        min: 0,
        max: IRMaxBound::Infinite("Inf".to_string()),
        mode: "Greedy".to_string(),
    });
    assert_eq!(emitter.emit(&ir), "a*");
}

#[test]
fn test_emit_group() {
    let emitter = PCRE2Emitter::new(Flags::default());
    let ir = IROp::Group(IRGroup { capturing: true, name: None, atomic: false, body: Box::new(ir_lit("test")) });
    assert_eq!(emitter.emit(&ir), "(test)");
}

#[test]
fn test_emit_alternation() {
    let emitter = PCRE2Emitter::new(Flags::default());
    let ir = IROp::Alt(IRAlt { branches: vec![ir_lit("a"), ir_lit("b")] });
    assert_eq!(emitter.emit(&ir), "a|b");
}

#[test]
fn test_digit_quantifier() {
    match digit(3) {
        Node::Quantifier(q) => {
            assert_eq!(q.min, 3);
            assert_eq!(q.max, MaxBound::Finite(3));
            match *q.target.child {
                Node::CharacterClass(ref cc) => {
                    assert!(!cc.negated);
                    assert_eq!(cc.items.len(), 1);
                    match cc.items[0] {
                        ClassItem::Esc(ref esc) => assert_eq!(esc.escape_type, "d"),
                        _ => panic!("expected escape class item for digit"),
                    }
                }
                _ => panic!("expected character class child"),
            }
        }
        _ => panic!("expected quantifier node"),
    }
}

#[test]
fn test_capture_optional_merge() {
    let n = merge(vec![start(), capture(digit(3)), may(any_of(&["-", ".", " "])), end()]);
    match n {
        Node::Sequence(seq) => {
            assert_eq!(seq.parts.len(), 4);
            match seq.parts[0] {
                Node::Anchor(ref a) => assert_eq!(a.at, "Start"),
                _ => panic!("expected start anchor"),
            }
            match seq.parts[1] {
                Node::Group(ref g) => {
                    assert!(g.capturing);
                    match *g.body {
                        Node::Quantifier(ref q) => assert_eq!(q.min, 3),
                        _ => panic!("expected quantifier inside group"),
                    }
                }
                _ => panic!("expected capturing group"),
            }
            match seq.parts[2] {
                Node::Quantifier(ref q) => {
                    assert_eq!(q.min, 0);
                    assert_eq!(q.max, MaxBound::Finite(1));
                }
                _ => panic!("expected optional quantifier"),
            }
            match seq.parts[3] {
                Node::Anchor(ref a) => assert_eq!(a.at, "End"),
                _ => panic!("expected end anchor"),
            }
        }
        _ => panic!("expected sequence node"),
    }
}

#[test]
fn test_misc_helpers() {
    match dot() {
        Node::Dot(_) => {}
        _ => panic!("expected Dot"),
    }
    match word_boundary() {
        Node::Anchor(a) => assert_eq!(a.at, "WordBoundary"),
        _ => panic!("expected Anchor"),
    }
    match not_word_boundary() {
        Node::Anchor(a) => assert_eq!(a.at, "NotWordBoundary"),
        _ => panic!("expected Anchor"),
    }
    match not_any_of(&["a", "e"]) {
        Node::CharacterClass(cc) => {
            assert!(cc.negated);
            assert_eq!(cc.items.len(), 2);
        }
        _ => panic!("expected CharacterClass"),
    }
    match ranges(&[("A", "Z"), ("a", "z")]) {
        Node::CharacterClass(cc) => {
            assert!(!cc.negated);
            assert_eq!(cc.items.len(), 2);
        }
        _ => panic!("expected CharacterClass"),
    }
    match prop("Lu") {
        Node::CharacterClass(cc) => {
            assert!(!cc.negated);
            match &cc.items[0] {
                ClassItem::Esc(e) => assert_eq!(e.escape_type, "p"),
                _ => panic!("expected ClassEscape"),
            }
        }
        _ => panic!("expected CharacterClass"),
    }
    match class_escape("d") {
        Node::CharacterClass(cc) => match &cc.items[0] {
            ClassItem::Esc(e) => assert_eq!(e.escape_type, "d"),
            _ => panic!("expected ClassEscape"),
        },
        _ => panic!("expected CharacterClass"),
    }
    let f = flag("im");
    assert!(f.ignore_case && f.multiline);
    match escape("n") {
        Node::Literal(l) => assert_eq!(l.value, "\n"),
        _ => panic!("expected Literal for escape n"),
    }
    match hex("41") {
        Node::Literal(l) => assert_eq!(l.value, "A"),
        _ => panic!("expected Literal for hex 41"),
    }
    match unicode("1F600") {
        Node::Literal(l) => assert_eq!(l.value, "😀"),
        _ => panic!("expected Literal for unicode 1F600"),
    }
    match named_capture("area", digit(3)) {
        Node::Group(g) => assert_eq!(g.name, Some("area".to_string())),
        _ => panic!("expected Group"),
    }
    match non_capturing(digit(1)) {
        Node::Group(g) => assert!(!g.capturing),
        _ => panic!("expected non-capturing Group"),
    }
    match atomic(digit(1)) {
        Node::Group(g) => assert_eq!(g.atomic, Some(true)),
        _ => panic!("expected atomic Group"),
    }
    match look_ahead(digit(1)) {
        Node::Lookahead(_) => {}
        _ => panic!("expected Lookahead"),
    }
    match neg_look_ahead(digit(1)) {
        Node::NegativeLookahead(_) => {}
        _ => panic!("expected NegativeLookahead"),
    }
    match look_behind(literal("a")) {
        Node::Lookbehind(_) => {}
        _ => panic!("expected Lookbehind"),
    }
    match neg_look_behind(literal("a")) {
        Node::NegativeLookbehind(_) => {}
        _ => panic!("expected NegativeLookbehind"),
    }
    match backref_index(2) {
        Node::Backreference(b) => assert_eq!(b.by_index, Some(2)),
        _ => panic!("expected Backreference by index"),
    }
    match backref_name("x") {
        Node::Backreference(b) => assert_eq!(b.by_name, Some("x".to_string())),
        _ => panic!("expected Backreference by name"),
    }
    match either(literal("cat"), literal("dog")) {
        Node::Alternation(a) => assert_eq!(a.branches.len(), 2),
        _ => panic!("expected Alternation"),
    }
    match repeat_greedy(literal("x"), 1, None) {
        Node::Quantifier(q) => assert_eq!(q.mode, "Greedy"),
        _ => panic!("expected Quantifier"),
    }
    match repeat_lazy(literal("x"), 1, Some(5)) {
        Node::Quantifier(q) => assert_eq!(q.mode, "Lazy"),
        _ => panic!("expected Quantifier"),
    }
    match repeat_possessive(literal("x"), 1, None) {
        Node::Quantifier(q) => assert_eq!(q.mode, "Possessive"),
        _ => panic!("expected Quantifier"),
    }
}
