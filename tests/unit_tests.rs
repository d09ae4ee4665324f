use strling::compiler::Compiler;
use strling::ir::{IRMaxBound, IROp};
use strling::nodes::{
    Alternation, Group, Literal, LookaroundBody, MaxBound, Node, Quantifier, QuantifierTarget, Sequence,
};
use strling::parser::parse;

fn parse_ok(input: &str) -> Node {
    let (_, ast) = parse(input).expect("Parse should succeed");
    ast
}

fn lit(s: &str) -> Node {
    Node::Literal(Literal { value: s.to_string() })
}

#[test]
fn test_anchor_line_start() {
    match parse_ok("^") {
        Node::Anchor(anchor) => assert_eq!(anchor.at, "Start"),
        other => panic!("Expected Anchor node, got {:?}", other),
    }
}

#[test]
fn test_anchor_line_end() {
    match parse_ok("$") {
        Node::Anchor(anchor) => assert_eq!(anchor.at, "End"),
        other => panic!("Expected Anchor node, got {:?}", other),
    }
}

#[test]
fn test_anchor_word_boundary() {
    match parse_ok(r"\b") {
        Node::Anchor(anchor) => assert_eq!(anchor.at, "WordBoundary"),
        other => panic!("Expected Anchor node, got {:?}", other),
    }
}

#[test]
fn test_anchor_not_word_boundary() {
    match parse_ok(r"\B") {
        Node::Anchor(anchor) => assert_eq!(anchor.at, "NotWordBoundary"),
        other => panic!("Expected Anchor node, got {:?}", other),
    }
}

#[test]
fn test_anchor_absolute_start() {
    match parse_ok(r"\A") {
        Node::Anchor(anchor) => assert_eq!(anchor.at, "AbsoluteStart"),
        other => panic!("Expected Anchor node, got {:?}", other),
    }
}

#[test]
fn test_anchor_end_before_newline() {
    match parse_ok(r"\Z") {
        Node::Anchor(anchor) => assert_eq!(anchor.at, "EndBeforeFinalNewline"),
        other => panic!("Expected Anchor node, got {:?}", other),
    }
}

#[test]
fn test_pattern_with_only_anchors() {
    match parse_ok(r"^\A\b$") {
        Node::Sequence(seq) => {
            assert_eq!(seq.parts.len(), 4);
            for part in &seq.parts {
                match part {
                    Node::Anchor(_) => {}
                    _ => panic!("Expected all parts to be Anchor nodes"),
                }
            }
            let at_values: Vec<String> = seq
                .parts
                .iter()
                .map(|part| match part {
                    Node::Anchor(a) => a.at.clone(),
                    _ => panic!("Expected Anchor"),
                })
                .collect();
            assert_eq!(at_values, vec!["Start", "AbsoluteStart", "WordBoundary", "End"]);
        }
        other => panic!("Expected Seq node, got {:?}", other),
    }
}

#[test]
fn test_anchor_at_start_of_sequence() {
    match parse_ok("^a") {
        Node::Sequence(seq) => {
            assert_eq!(seq.parts.len(), 2);
            match &seq.parts[0] {
                Node::Anchor(anchor) => assert_eq!(anchor.at, "Start"),
                _ => panic!("Expected first part to be Anchor"),
            }
        }
        _ => panic!("Expected Seq node"),
    }
}

#[test]
fn test_anchor_in_middle_of_sequence() {
    match parse_ok(r"a\bb") {
        Node::Sequence(seq) => {
            assert_eq!(seq.parts.len(), 3);
            match &seq.parts[1] {
                Node::Anchor(anchor) => assert_eq!(anchor.at, "WordBoundary"),
                _ => panic!("Expected middle part to be Anchor"),
            }
        }
        _ => panic!("Expected Seq node"),
    }
}

#[test]
fn test_anchor_at_end_of_sequence() {
    match parse_ok("ab$") {
        Node::Sequence(seq) => {
            assert_eq!(seq.parts.len(), 3);
            match seq.parts.last() {
                Some(Node::Anchor(anchor)) => assert_eq!(anchor.at, "End"),
                _ => panic!("Expected last part to be Anchor"),
            }
        }
        _ => panic!("Expected Seq node"),
    }
}

#[test]
fn test_multiline_flag_does_not_change_ast() {
    let ast_no_m = parse_ok("^a$");
    let ast_with_m = parse_ok("%flags m\n^a$");
    match (&ast_no_m, &ast_with_m) {
        (Node::Sequence(seq1), Node::Sequence(seq2)) => {
            assert_eq!(seq1.parts.len(), 3);
            assert_eq!(seq2.parts.len(), 3);
            match (&seq1.parts[0], &seq2.parts[0]) {
                (Node::Anchor(a1), Node::Anchor(a2)) => {
                    assert_eq!(a1.at, "Start");
                    assert_eq!(a2.at, "Start");
                }
                _ => panic!("Expected Anchor nodes"),
            }
            match (&seq1.parts[2], &seq2.parts[2]) {
                (Node::Anchor(a1), Node::Anchor(a2)) => {
                    assert_eq!(a1.at, "End");
                    assert_eq!(a2.at, "End");
                }
                _ => panic!("Expected Anchor nodes"),
            }
        }
        _ => panic!("Expected Seq nodes"),
    }
}

#[test]
fn test_anchor_in_capturing_group() {
    match parse_ok("(^a)") {
        Node::Group(group) => {
            assert!(group.capturing);
            match &*group.body {
                Node::Sequence(seq) => match &seq.parts[0] {
                    Node::Anchor(anchor) => assert_eq!(anchor.at, "Start"),
                    _ => panic!("Expected Anchor in group body"),
                },
                _ => panic!("Expected Seq in group body"),
            }
        }
        _ => panic!("Expected Group node"),
    }
}

#[test]
fn test_anchor_in_noncapturing_group() {
    match parse_ok(r"(?:a\b)") {
        Node::Group(group) => {
            assert!(!group.capturing);
            match &*group.body {
                Node::Sequence(seq) => match &seq.parts[1] {
                    Node::Anchor(anchor) => assert_eq!(anchor.at, "WordBoundary"),
                    _ => panic!("Expected Anchor in group body"),
                },
                _ => panic!("Expected Seq in group body"),
            }
        }
        _ => panic!("Expected Group node"),
    }
}

#[test]
fn test_anchor_in_lookahead() {
    match parse_ok("(?=a$)") {
        Node::Lookahead(look) => match &*look.body {
            Node::Sequence(seq) => match &seq.parts[1] {
                Node::Anchor(anchor) => assert_eq!(anchor.at, "End"),
                _ => panic!("Expected Anchor in lookahead body"),
            },
            _ => panic!("Expected Seq in lookahead body"),
        },
        _ => panic!("Expected Look node"),
    }
}

#[test]
fn test_anchor_in_lookbehind() {
    match parse_ok("(?<=^a)") {
        Node::Lookbehind(look) => match &*look.body {
            Node::Sequence(seq) => match &seq.parts[0] {
                Node::Anchor(anchor) => assert_eq!(anchor.at, "Start"),
                _ => panic!("Expected Anchor in lookbehind body"),
            },
            _ => panic!("Expected Seq in lookbehind body"),
        },
        _ => panic!("Expected Look node"),
    }
}

#[test]
fn test_anchor_between_quantified_atoms() {
    match parse_ok("a*^b+") {
        Node::Sequence(seq) => {
            assert_eq!(seq.parts.len(), 3);
            match &seq.parts[0] {
                Node::Quantifier(_) => {}
                _ => panic!("Expected Quant node"),
            }
            match &seq.parts[1] {
                Node::Anchor(anchor) => assert_eq!(anchor.at, "Start"),
                _ => panic!("Expected Anchor node"),
            }
            match &seq.parts[2] {
                Node::Quantifier(_) => {}
                _ => panic!("Expected Quant node"),
            }
        }
        _ => panic!("Expected Seq node"),
    }
}

#[test]
fn test_anchor_after_quantified_group() {
    match parse_ok("(ab)*$") {
        Node::Sequence(seq) => {
            assert_eq!(seq.parts.len(), 2);
            match &seq.parts[0] {
                Node::Quantifier(_) => {}
                _ => panic!("Expected Quant node"),
            }
            match &seq.parts[1] {
                Node::Anchor(anchor) => assert_eq!(anchor.at, "End"),
                _ => panic!("Expected Anchor node"),
            }
        }
        _ => panic!("Expected Seq node"),
    }
}

#[test]
fn test_multiple_anchors_same_type() {
    match parse_ok("^^^") {
        Node::Sequence(seq) => {
            assert_eq!(seq.parts.len(), 3);
            for part in &seq.parts {
                match part {
                    Node::Anchor(anchor) => assert_eq!(anchor.at, "Start"),
                    _ => panic!("Expected Anchor node"),
                }
            }
        }
        _ => panic!("Expected Seq node"),
    }
}

fn expect_lit(ast: Node, value: &str) {
    match ast {
        Node::Literal(l) => assert_eq!(l.value, value),
        _ => panic!("Expected Lit node"),
    }
}

#[test]
fn test_plain_literal_letter() {
    expect_lit(parse_ok("a"), "a");
}

#[test]
fn test_plain_literal_underscore() {
    expect_lit(parse_ok("_"), "_");
}

#[test]
fn test_identity_escape_dot() {
    expect_lit(parse_ok(r"\."), ".");
}

#[test]
fn test_identity_escape_paren() {
    expect_lit(parse_ok(r"\("), "(");
}

#[test]
fn test_identity_escape_star() {
    expect_lit(parse_ok(r"\*"), "*");
}

#[test]
fn test_control_escape_newline() {
    expect_lit(parse_ok(r"\n"), "\n");
}

#[test]
fn test_control_escape_tab() {
    expect_lit(parse_ok(r"\t"), "\t");
}

#[test]
fn test_control_escape_carriage_return() {
    expect_lit(parse_ok(r"\r"), "\r");
}

#[test]
fn test_control_escape_form_feed() {
    expect_lit(parse_ok(r"\f"), "\u{000C}");
}

#[test]
fn test_control_escape_vertical_tab() {
    expect_lit(parse_ok(r"\v"), "\u{000B}");
}

#[test]
#[should_panic(expected = "Unmatched ')'")]
fn test_stray_closing_paren() {
    parse_ok(")");
}

#[test]
#[should_panic(expected = "Alternation lacks left-hand side")]
fn test_stray_pipe() {
    parse_ok("|");
}

fn expect_quant(ast: Node, min: i32, infinite: bool, mode: &str) {
    match ast {
        Node::Quantifier(quant) => {
            assert_eq!(quant.min, min);
            match quant.max {
                MaxBound::Infinite(_) => assert!(infinite, "Expected max = 1"),
                MaxBound::Finite(1) => assert!(!infinite, "Expected infinite max"),
                _ => panic!("Expected infinite max"),
            }
            assert_eq!(quant.mode, mode);
        }
        _ => panic!("Expected Quant node"),
    }
}

#[test]
fn test_quantifier_star() {
    expect_quant(parse_ok("a*"), 0, true, "Greedy");
}

#[test]
fn test_quantifier_plus() {
    expect_quant(parse_ok("a+"), 1, true, "Greedy");
}

#[test]
fn test_quantifier_question() {
    expect_quant(parse_ok("a?"), 0, false, "Greedy");
}

#[test]
fn test_quantifier_star_lazy() {
    expect_quant(parse_ok("a*?"), 0, true, "Lazy");
}

#[test]
fn test_quantifier_plus_possessive() {
    expect_quant(parse_ok("a++"), 1, true, "Possessive");
}

#[test]
fn test_quantifier_on_group() {
    match parse_ok("(ab)+") {
        Node::Quantifier(quant) => match &*quant.target.child {
            Node::Group(_) => {}
            _ => panic!("Expected Group as child of Quant"),
        },
        _ => panic!("Expected Quant node"),
    }
}

#[test]
fn test_multiple_quantifiers_sequence() {
    match parse_ok("a*b+c?") {
        Node::Sequence(seq) => {
            assert_eq!(seq.parts.len(), 3);
            for part in &seq.parts {
                match part {
                    Node::Quantifier(_) => {}
                    _ => panic!("Expected all parts to be Quant nodes"),
                }
            }
        }
        _ => panic!("Expected Seq node"),
    }
}

#[test]
fn test_capturing_group() {
    match parse_ok("(a)") {
        Node::Group(group) => {
            assert!(group.capturing);
            assert_eq!(group.name, None);
            assert_eq!(group.atomic, Some(false));
        }
        _ => panic!("Expected Group node"),
    }
}

#[test]
fn test_non_capturing_group() {
    match parse_ok("(?:a)") {
        Node::Group(group) => {
            assert!(!group.capturing);
            assert_eq!(group.name, None);
            assert_eq!(group.atomic, Some(false));
        }
        _ => panic!("Expected Group node"),
    }
}

#[test]
fn test_named_capturing_group() {
    match parse_ok("(?<name>a)") {
        Node::Group(group) => {
            assert!(group.capturing);
            assert_eq!(group.name, Some("name".to_string()));
            assert_eq!(group.atomic, Some(false));
        }
        _ => panic!("Expected Group node"),
    }
}

#[test]
fn test_atomic_group() {
    match parse_ok("(?>a)") {
        Node::Group(group) => {
            assert!(!group.capturing);
            assert_eq!(group.name, None);
            assert_eq!(group.atomic, Some(true));
        }
        _ => panic!("Expected Group node"),
    }
}

#[test]
fn test_nested_groups() {
    match parse_ok("((a))") {
        Node::Group(outer) => match &*outer.body {
            Node::Group(_) => {}
            _ => panic!("Expected nested Group in body"),
        },
        _ => panic!("Expected Group node"),
    }
}

#[test]
#[should_panic(expected = "Unterminated group")]
fn test_unterminated_group() {
    parse_ok("(a");
}

#[test]
fn test_positive_lookahead() {
    match parse_ok("a(?=b)") {
        Node::Sequence(seq) => {
            assert_eq!(seq.parts.len(), 2);
            match &seq.parts[1] {
                Node::Lookahead(_) => {}
                _ => panic!("Expected Look node"),
            }
        }
        _ => panic!("Expected Seq node"),
    }
}

#[test]
fn test_negative_lookahead() {
    match parse_ok("a(?!b)") {
        Node::Sequence(seq) => match &seq.parts[1] {
            Node::NegativeLookahead(_) => {}
            _ => panic!("Expected Look node"),
        },
        _ => panic!("Expected Seq node"),
    }
}

#[test]
fn test_positive_lookbehind() {
    match parse_ok("(?<=a)b") {
        Node::Sequence(seq) => match &seq.parts[0] {
            Node::Lookbehind(_) => {}
            _ => panic!("Expected Look node"),
        },
        _ => panic!("Expected Seq node"),
    }
}

#[test]
fn test_negative_lookbehind() {
    match parse_ok("(?<!a)b") {
        Node::Sequence(seq) => match &seq.parts[0] {
            Node::NegativeLookbehind(_) => {}
            _ => panic!("Expected Look node"),
        },
        _ => panic!("Expected Seq node"),
    }
}

#[test]
fn test_simple_alternation() {
    match parse_ok("a|b") {
        Node::Alternation(alt) => assert_eq!(alt.branches.len(), 2),
        _ => panic!("Expected Alt node"),
    }
}

#[test]
fn test_multiple_alternation() {
    match parse_ok("a|b|c|d") {
        Node::Alternation(alt) => assert_eq!(alt.branches.len(), 4),
        _ => panic!("Expected Alt node"),
    }
}

#[test]
fn test_alternation_with_sequences() {
    match parse_ok("ab|cd") {
        Node::Alternation(alt) => {
            assert_eq!(alt.branches.len(), 2);
            for branch in &alt.branches {
                match branch {
                    Node::Sequence(_) => {}
                    _ => panic!("Expected Seq branches"),
                }
            }
        }
        _ => panic!("Expected Alt node"),
    }
}

#[test]
#[should_panic(expected = "Alternation lacks left-hand side")]
fn test_alternation_no_lhs() {
    parse_ok("|a");
}

#[test]
#[should_panic(expected = "Alternation lacks right-hand side")]
fn test_alternation_no_rhs() {
    parse_ok("a|");
}

#[test]
#[should_panic(expected = "Empty alternation branch")]
fn test_empty_alternation_branch() {
    parse_ok("a||b");
}

#[test]
fn test_ignore_case_flag() {
    let (flags, _) = parse("%flags i\na").unwrap();
    assert!(flags.ignore_case);
    assert!(!flags.multiline);
    assert!(!flags.dot_all);
}

#[test]
fn test_multiline_flag() {
    let (flags, _) = parse("%flags m\na").unwrap();
    assert!(!flags.ignore_case);
    assert!(flags.multiline);
    assert!(!flags.dot_all);
}

#[test]
fn test_multiple_flags() {
    let (flags, _) = parse("%flags i,m,s\na").unwrap();
    assert!(flags.ignore_case);
    assert!(flags.multiline);
    assert!(flags.dot_all);
}

#[test]
fn test_flags_without_separators() {
    let (flags, _) = parse("%flags ims\na").unwrap();
    assert!(flags.ignore_case);
    assert!(flags.multiline);
    assert!(flags.dot_all);
}

#[test]
fn test_dot() {
    match parse_ok(".") {
        Node::Dot(_) => {}
        _ => panic!("Expected Dot node"),
    }
}

#[test]
fn test_dot_in_sequence() {
    match parse_ok("a.b") {
        Node::Sequence(seq) => {
            assert_eq!(seq.parts.len(), 3);
            match &seq.parts[1] {
                Node::Dot(_) => {}
                _ => panic!("Expected Dot in middle"),
            }
        }
        _ => panic!("Expected Seq node"),
    }
}

#[test]
fn test_multiple_dots() {
    match parse_ok("...") {
        Node::Sequence(seq) => {
            assert_eq!(seq.parts.len(), 3);
            for part in &seq.parts {
                match part {
                    Node::Dot(_) => {}
                    _ => panic!("Expected Dot nodes"),
                }
            }
        }
        _ => panic!("Expected Seq node"),
    }
}

#[test]
fn unit_tests_test_compile_literal() {
    let mut compiler = Compiler::new();
    match compiler.compile(&lit("a")) {
        IROp::Lit(l) => assert_eq!(l.value, "a"),
        _ => panic!("Expected IRLit"),
    }
}

#[test]
fn test_compile_sequence_coalescing() {
    let node = Node::Sequence(Sequence { parts: vec![lit("a"), lit("b")] });
    let mut compiler = Compiler::new();
    let ir = compiler.compile(&node);
    match ir {
        IROp::Lit(l) => assert_eq!(l.value, "ab"),
        other => panic!("Expected coalesced IRLit, got {:?}", other),
    }
}

#[test]
fn test_compile_alternation() {
    let node = Node::Alternation(Alternation { branches: vec![lit("a"), lit("b")] });
    let mut compiler = Compiler::new();
    match compiler.compile(&node) {
        IROp::Alt(alt) => assert_eq!(alt.branches.len(), 2),
        _ => panic!("Expected IRAlt"),
    }
}

fn quant(child: Node, mode: &str) -> Node {
    Node::Quantifier(Quantifier {
        target: QuantifierTarget { child: Box::new(child) },
        min: 1,
        max: MaxBound::Infinite("Inf".to_string()),
        mode: mode.to_string(),
        greedy: mode == "Greedy",
        lazy: mode == "Lazy",
        possessive: mode == "Possessive",
    })
}

#[test]
fn test_compile_quantifier() {
    let mut compiler = Compiler::new();
    match compiler.compile(&quant(lit("a"), "Greedy")) {
        IROp::Quant(q) => {
            assert_eq!(q.min, 1);
            match q.max {
                IRMaxBound::Infinite(_) => {}
                _ => panic!("Expected infinite max"),
            }
        }
        _ => panic!("Expected IRQuant"),
    }
}

#[test]
fn test_compile_with_metadata_named_group() {
    let node = Node::Group(Group {
        capturing: true,
        name: Some("test".to_string()),
        atomic: Some(false),
        body: Box::new(lit("a")),
    });
    let mut compiler = Compiler::new();
    let result = compiler.compile_with_metadata(&node);
    assert!(result.metadata.features_used.contains(&"named_group".to_string()));
}

#[test]
fn test_compile_with_metadata_lookahead() {
    let node = Node::Lookahead(LookaroundBody { body: Box::new(lit("a")) });
    let mut compiler = Compiler::new();
    let result = compiler.compile_with_metadata(&node);
    assert!(result.metadata.features_used.contains(&"lookahead".to_string()));
}

#[test]
fn test_compile_with_metadata_lookbehind() {
    let node = Node::Lookbehind(LookaroundBody { body: Box::new(lit("a")) });
    let mut compiler = Compiler::new();
    let result = compiler.compile_with_metadata(&node);
    assert!(result.metadata.features_used.contains(&"lookbehind".to_string()));
}

#[test]
fn test_compile_with_metadata_atomic_group() {
    let node = Node::Group(Group { capturing: false, name: None, atomic: Some(true), body: Box::new(lit("a")) });
    let mut compiler = Compiler::new();
    let result = compiler.compile_with_metadata(&node);
    assert!(result.metadata.features_used.contains(&"atomic_group".to_string()));
}

#[test]
fn test_compile_with_metadata_possessive_quantifier() {
    let mut compiler = Compiler::new();
    let result = compiler.compile_with_metadata(&quant(lit("a"), "Possessive"));
    assert!(result.metadata.features_used.contains(&"possessive_quantifier".to_string()));
}
