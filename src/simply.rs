//! Fluent helpers that build AST nodes.
use vstd::prelude::*;
use crate::directives::is_white;
use crate::nodes::{
    Alternation, Anchor, AstItem, AstMax, AstTerm, Backreference, CharacterClass, ClassEscape,
    ClassItem, ClassLiteral, ClassRange, Dot, Flags, Group, Literal, LookaroundBody, MaxBound, Node,
    Quantifier, QuantifierTarget, Sequence,
};
use crate::text::{char_string, chars_of, push_text, str_eq};

verus! {

/// Whether `n` is a Unicode scalar value.
pub open spec fn is_scalar(n: int) -> bool {
    (0 <= n < 0xD800) || (0xE000 <= n <= 0x10FFFF)
}

/// Relies on `char::from_u32`: `Some` exactly for Unicode scalar values.
#[verifier::external_body]
fn char_from_u32(n: u32) -> (r: Option<char>)
    ensures
        is_scalar(n as int) ==> r == Some(n as char),
        !is_scalar(n as int) ==> r is None,
{
    char::from_u32(n)
}

/// A quantifier node with the given mode around `child`.
pub open spec fn repeat_term(child: AstTerm, min: int, max: Option<i32>, mode: Seq<char>) -> AstTerm {
    AstTerm::Quant {
        child: Box::new(child),
        min,
        max: match max {
            Some(n) => AstMax::Finite(n as int),
            None => AstMax::Infinite("Inf"@),
        },
        mode,
        greedy: mode == "Greedy"@,
        lazy: mode == "Lazy"@,
        possessive: mode == "Possessive"@,
    }
}

/// A one-member class holding a class escape.
pub open spec fn escape_class_term(kind: Seq<char>, property: Option<Seq<char>>) -> AstTerm {
    AstTerm::Class { negated: false, items: seq![AstItem::Esc { kind, property }] }
}

/// Anchor at the start of the input.
pub fn start() -> (r: Node)
    ensures
        r.term() == (AstTerm::Anchor { at: "Start"@ }),
{
    Node::Anchor(Anchor { at: String::from_str("Start") })
}

/// Anchor at the end of the input.
pub fn end() -> (r: Node)
    ensures
        r.term() == (AstTerm::Anchor { at: "End"@ }),
{
    Node::Anchor(Anchor { at: String::from_str("End") })
}

/// A literal string.
pub fn literal(s: &str) -> (r: Node)
    ensures
        r.term() == (AstTerm::Lit { value: s@ }),
{
    Node::Literal(Literal { value: String::from_str(s) })
}

/// `\d` repeated exactly `count` times.
pub fn digit(count: u32) -> (r: Node)
    ensures
        r.term() == repeat_term(escape_class_term("d"@, None), count as i32 as int, Some(count as i32), "Greedy"@),
{
    let class = class_escape("d");
    #[verifier::truncate]
    let n = count as i32;
    repeat(class, n, Some(n))
}

/// The class members made of literal strings.
fn literal_items(chars: &[&str]) -> (r: Vec<ClassItem>)
    ensures
        r@.map_values(|it: ClassItem| it.item()) == chars@.map_values(|s: &str| AstItem::Char { ch: s@ }),
{
    let mut items: Vec<ClassItem> = Vec::new();
    let mut i: usize = 0;
    while i < chars.len()
        invariant
            i <= chars@.len(),
            items@.len() == i,
            forall|j: int| 0 <= j < i ==> (#[trigger] items@[j]).item() == (AstItem::Char { ch: chars@[j]@ }),
        decreases chars@.len() - i,
    {
        items.push(ClassItem::Char(ClassLiteral { ch: String::from_str(chars[i]) }));
        i = i + 1;
    }
    proof {
        assert(items@.map_values(|it: ClassItem| it.item()) =~= chars@.map_values(|s: &str| AstItem::Char { ch: s@ }));
    }
    items
}

/// A class of the given literal strings.
pub fn any_of(chars: &[&str]) -> (r: Node)
    ensures
        r.term() == (AstTerm::Class { negated: false, items: chars@.map_values(|s: &str| AstItem::Char { ch: s@ }) }),
{
    Node::CharacterClass(CharacterClass { negated: false, items: literal_items(chars) })
}

/// A sequence of nodes.
pub fn merge(parts: Vec<Node>) -> (r: Node)
    ensures
        r.term() == (AstTerm::Cat { parts: parts@.map_values(|n: Node| n.term()) }),
{
    let r = Node::Sequence(Sequence { parts });
    proof {
        if let AstTerm::Cat { parts: ps } = r.term() {
            assert(ps =~= parts@.map_values(|n: Node| n.term()));
        }
    }
    r
}

/// A capturing group around `node`.
pub fn capture(node: Node) -> (r: Node)
    ensures
        r.term() == (AstTerm::Group { capturing: true, name: None, atomic: None, body: Box::new(node.term()) }),
{
    Node::Group(Group { capturing: true, body: Box::new(node), name: None, atomic: None })
}

/// `node` zero or one time, greedily.
pub fn optional(node: Node) -> (r: Node)
    ensures
        r.term() == repeat_term(node.term(), 0, Some(1), "Greedy"@),
{
    repeat(node, 0, Some(1))
}

/// Another name for `optional`.
pub fn may(node: Node) -> (r: Node)
    ensures
        r.term() == repeat_term(node.term(), 0, Some(1), "Greedy"@),
{
    optional(node)
}

/// Any character.
pub fn dot() -> (r: Node)
    ensures
        r.term() == AstTerm::Dot,
{
    Node::Dot(Dot)
}

/// Word-boundary anchor.
pub fn word_boundary() -> (r: Node)
    ensures
        r.term() == (AstTerm::Anchor { at: "WordBoundary"@ }),
{
    Node::Anchor(Anchor { at: String::from_str("WordBoundary") })
}

/// Not-word-boundary anchor.
pub fn not_word_boundary() -> (r: Node)
    ensures
        r.term() == (AstTerm::Anchor { at: "NotWordBoundary"@ }),
{
    Node::Anchor(Anchor { at: String::from_str("NotWordBoundary") })
}

/// A negated class of the given literal strings.
pub fn not_any_of(chars: &[&str]) -> (r: Node)
    ensures
        r.term() == (AstTerm::Class { negated: true, items: chars@.map_values(|s: &str| AstItem::Char { ch: s@ }) }),
{
    Node::CharacterClass(CharacterClass { negated: true, items: literal_items(chars) })
}

/// A class of ranges.
pub fn ranges(pairs: &[(&str, &str)]) -> (r: Node)
    ensures
        r.term() == (AstTerm::Class {
            negated: false,
            items: pairs@.map_values(|p: (&str, &str)| AstItem::Range { from: p.0@, to: p.1@ }),
        }),
{
    let mut items: Vec<ClassItem> = Vec::new();
    let mut i: usize = 0;
    while i < pairs.len()
        invariant
            i <= pairs@.len(),
            items@.len() == i,
            forall|j: int| 0 <= j < i ==> (#[trigger] items@[j]).item() == (AstItem::Range { from: pairs@[j].0@, to: pairs@[j].1@ }),
        decreases pairs@.len() - i,
    {
        let (from, to) = pairs[i];
        items.push(ClassItem::Range(ClassRange { from_ch: String::from_str(from), to_ch: String::from_str(to) }));
        i = i + 1;
    }
    proof {
        assert(items@.map_values(|it: ClassItem| it.item()) =~= pairs@.map_values(
            |p: (&str, &str)| AstItem::Range { from: p.0@, to: p.1@ },
        ));
    }
    Node::CharacterClass(CharacterClass { negated: false, items })
}

/// A Unicode property class, `\p{property}`.
pub fn prop(property: &str) -> (r: Node)
    ensures
        r.term() == escape_class_term("p"@, Some(property@)),
{
    let mut items: Vec<ClassItem> = Vec::new();
    items.push(ClassItem::Esc(ClassEscape { escape_type: String::from_str("p"), property: Some(String::from_str(property)) }));
    let r = Node::CharacterClass(CharacterClass { negated: false, items });
    proof {
        if let AstTerm::Class { items: its, .. } = r.term() {
            assert(its =~= seq![AstItem::Esc { kind: "p"@, property: Some(property@) }]);
        }
    }
    r
}

/// A class holding one class escape such as `d`, `w` or `s`.
pub fn class_escape(kind: &str) -> (r: Node)
    ensures
        r.term() == escape_class_term(kind@, None),
{
    let mut items: Vec<ClassItem> = Vec::new();
    items.push(ClassItem::Esc(ClassEscape { escape_type: String::from_str(kind), property: None }));
    let r = Node::CharacterClass(CharacterClass { negated: false, items });
    proof {
        if let AstTerm::Class { items: its, .. } = r.term() {
            assert(its =~= seq![AstItem::Esc { kind: kind@, property: None }]);
        }
    }
    r
}

/// The literal text an escape name stands for.
pub open spec fn escape_text(kind: Seq<char>) -> Seq<char> {
    if kind == "n"@ {
        seq!['\n']
    } else if kind == "r"@ {
        seq!['\r']
    } else if kind == "t"@ {
        seq!['\t']
    } else if kind == "f"@ {
        seq!['\x0C']
    } else if kind == "v"@ {
        seq!['\x0B']
    } else if kind == "0"@ {
        seq!['\0']
    } else {
        seq!['\\'] + kind
    }
}

/// A literal for a simple escape: `n`, `r`, `t`, `f`, `v` and `0` give
/// their control character; anything else gives a backslash and the name.
pub fn escape(kind: &str) -> (r: Node)
    ensures
        r.term() == (AstTerm::Lit { value: escape_text(kind@) }),
{
    let value = if str_eq(kind, "n") {
        char_string('\n')
    } else if str_eq(kind, "r") {
        char_string('\r')
    } else if str_eq(kind, "t") {
        char_string('\t')
    } else if str_eq(kind, "f") {
        char_string('\x0C')
    } else if str_eq(kind, "v") {
        char_string('\x0B')
    } else if str_eq(kind, "0") {
        char_string('\0')
    } else {
        let mut s = char_string('\\');
        push_text(&mut s, kind);
        s
    };
    Node::Literal(Literal { value })
}

/// Whether `c` is a hexadecimal digit.
pub open spec fn is_hex(c: char) -> bool {
    ('0' <= c <= '9') || ('a' <= c <= 'f') || ('A' <= c <= 'F')
}

/// The value of a hexadecimal digit.
pub open spec fn hex_digit(c: char) -> int {
    if '0' <= c <= '9' {
        c as int - 48
    } else if 'a' <= c <= 'f' {
        c as int - 87
    } else {
        c as int - 55
    }
}

/// The value of a run of hexadecimal digits.
pub open spec fn hex_value(d: Seq<char>) -> int
    decreases d.len(),
{
    if d.len() == 0 {
        0
    } else {
        hex_value(d.drop_last()) * 16 + hex_digit(d.last())
    }
}

/// Whether every character of `d` is a hexadecimal digit.
pub open spec fn all_hex(d: Seq<char>) -> bool {
    forall|i: int| 0 <= i < d.len() ==> is_hex(#[trigger] d[i])
}

/// `i32::from_str_radix(t, 16)`: an optional sign, then one or more
/// hexadecimal digits, within the range of `i32`.
pub open spec fn parse_hex_i32(t: Seq<char>) -> Option<int> {
    let neg = t.len() > 0 && t[0] == '-';
    let d = if t.len() > 0 && (t[0] == '+' || t[0] == '-') {
        t.skip(1)
    } else {
        t
    };
    if d.len() == 0 || !all_hex(d) {
        None
    } else {
        let v = if neg {
            -hex_value(d)
        } else {
            hex_value(d)
        };
        if -0x8000_0000 <= v <= 0x7FFF_FFFF {
            Some(v)
        } else {
            None
        }
    }
}

/// Whether `c` is a brace.
pub open spec fn is_brace(c: char) -> bool {
    c == '{' || c == '}'
}

/// `s[i..j]` without leading and trailing characters that satisfy `strip`
/// (braces when `braces`, else white space).
pub open spec fn stripped(s: Seq<char>, braces: bool) -> Seq<char>
    decreases s.len(),
{
    if s.len() == 0 {
        s
    } else if (braces && is_brace(s[0])) || (!braces && is_white(s[0])) {
        stripped(s.skip(1), braces)
    } else if (braces && is_brace(s.last())) || (!braces && is_white(s.last())) {
        stripped(s.drop_last(), braces)
    } else {
        s
    }
}

/// The character a code-point text names: braces and then white space
/// stripped from both ends, then read as a hexadecimal `i32` whose bits, as
/// `u32`, must be a Unicode scalar value.
pub open spec fn code_point(code: Seq<char>) -> Option<char> {
    match parse_hex_i32(stripped(stripped(code, true), false)) {
        Some(v) => {
            let n = if v < 0 {
                v + 0x1_0000_0000
            } else {
                v
            };
            if is_scalar(n) {
                Some(n as char)
            } else {
                None
            }
        },
        None => None,
    }
}

/// Strips matching characters from both ends of `cs[from..to]`.
fn strip_range(cs: &Vec<char>, from: usize, to: usize, braces: bool) -> (r: (usize, usize))
    requires
        from <= to <= cs.len(),
    ensures
        from <= r.0 <= r.1 <= to,
        cs@.subrange(r.0 as int, r.1 as int) == stripped(cs@.subrange(from as int, to as int), braces),
    decreases to - from,
{
    if from == to {
        return (from, to);
    }
    let a = cs[from];
    let b = cs[to - 1];
    let ghost s = cs@.subrange(from as int, to as int);
    if (braces && (a == '{' || a == '}')) || (!braces && crate::directives::white_char(a)) {
        proof {
            assert(s.skip(1) =~= cs@.subrange(from + 1, to as int));
        }
        strip_range(cs, from + 1, to, braces)
    } else if (braces && (b == '{' || b == '}')) || (!braces && crate::directives::white_char(b)) {
        proof {
            assert(s.drop_last() =~= cs@.subrange(from as int, to - 1));
        }
        strip_range(cs, from, to - 1, braces)
    } else {
        (from, to)
    }
}

/// Reads `cs[from..to]` as `i32::from_str_radix` does in base 16.
fn hex_i32(cs: &Vec<char>, from: usize, to: usize) -> (r: Option<i32>)
    requires
        from <= to <= cs.len(),
    ensures
        match parse_hex_i32(cs@.subrange(from as int, to as int)) {
            Some(v) => r == Some(v as i32),
            None => r is None,
        },
{
    let ghost t = cs@.subrange(from as int, to as int);
    let neg = from < to && cs[from] == '-';
    proof {
        if from < to {
            assert(t[0] == cs@[from as int]);
        }
        assert(neg == (t.len() > 0 && t[0] == '-'));
    }
    let start = if from < to && (cs[from] == '+' || cs[from] == '-') {
        from + 1
    } else {
        from
    };
    let ghost d = cs@.subrange(start as int, to as int);
    proof {
        if from < to {
            assert(t[0] == cs@[from as int]);
        }
        if from < to && (cs@[from as int] == '+' || cs@[from as int] == '-') {
            assert(d =~= t.skip(1));
        } else {
            assert(d =~= t);
        }
    }
    if start == to {
        return None;
    }
    let mut v: u64 = 0;
    let mut i = start;
    while i < to
        invariant
            start <= i <= to <= cs.len(),
            t == cs@.subrange(from as int, to as int),
            d == cs@.subrange(start as int, to as int),
            (t.len() > 0 && (t[0] == '+' || t[0] == '-')) ==> d == t.skip(1),
            !(t.len() > 0 && (t[0] == '+' || t[0] == '-')) ==> d == t,
            forall|k: int| 0 <= k < i - start ==> is_hex(#[trigger] d[k]),
            v == hex_value(d.take(i - start)),
            v <= 0x8000_0000,
        decreases to - i,
    {
        let c = cs[i];
        proof {
            assert(d[i - start] == c);
        }
        let h: u64 = if '0' <= c && c <= '9' {
            (c as u32 - 48) as u64
        } else if 'a' <= c && c <= 'f' {
            (c as u32 - 87) as u64
        } else if 'A' <= c && c <= 'F' {
            (c as u32 - 55) as u64
        } else {
            proof {
                assert(!is_hex(d[i - start]));
                assert(!(forall|k: int| 0 <= k < d.len() ==> is_hex(#[trigger] d[k])));
                assert(parse_hex_i32(t) is None);
            }
            return None;
        };
        proof {
            assert(d.take(i - start + 1).drop_last() =~= d.take(i - start));
        }
        let next = v * 16 + h;
        if next > 0x8000_0000 {
            proof {
                if forall|k: int| 0 <= k < d.len() ==> is_hex(#[trigger] d[k]) {
                    lemma_hex_value_grows(d, (i - start + 1) as nat);
                    assert(hex_value(d) > 0x8000_0000);
                }
                assert(parse_hex_i32(t) is None);
            }
            return None;
        }
        v = next;
        i = i + 1;
    }
    proof {
        assert(d.take(to - start) =~= d);
        assert(forall|k: int| 0 <= k < d.len() ==> is_hex(#[trigger] d[k]));
    }
    if neg {
        Some((0 - (v as i64)) as i32)
    } else if v <= 0x7FFF_FFFF {
        Some(v as i32)
    } else {
        None
    }
}

/// Hexadecimal prefixes never exceed the whole run's value.
proof fn lemma_hex_value_grows(d: Seq<char>, k: nat)
    requires
        k <= d.len(),
        forall|i: int| 0 <= i < d.len() ==> is_hex(#[trigger] d[i]),
    ensures
        hex_value(d.take(k as int)) <= hex_value(d),
    decreases d.len() - k,
{
    if k < d.len() {
        lemma_hex_value_grows(d, k + 1);
        assert(d.take(k as int + 1).drop_last() =~= d.take(k as int));
        assert(hex_value(d.take(k as int)) >= 0) by {
            lemma_hex_value_nonneg(d.take(k as int));
        }
    } else {
        assert(d.take(k as int) =~= d);
    }
}

/// Hexadecimal values are not negative.
proof fn lemma_hex_value_nonneg(d: Seq<char>)
    requires
        forall|i: int| 0 <= i < d.len() ==> is_hex(#[trigger] d[i]),
    ensures
        hex_value(d) >= 0,
    decreases d.len(),
{
    if d.len() > 0 {
        lemma_hex_value_nonneg(d.drop_last());
    }
}

/// The literal for a code-point escape, or the escape text itself.
fn code_point_literal(code: &str, prefix: &str) -> (r: Node)
    ensures
        r.term() == (AstTerm::Lit {
            value: match code_point(code@) {
                Some(c) => seq![c],
                None => prefix@ + "{"@ + code@ + "}"@,
            },
        }),
{
    let cs = chars_of(code);
    let (a, b) = strip_range(&cs, 0, cs.len(), true);
    let (c, d) = strip_range(&cs, a, b, false);
    proof {
        assert(cs@.subrange(0, cs.len() as int) =~= code@);
    }
    match hex_i32(&cs, c, d) {
        Some(v) => {
            #[verifier::truncate]
            let n = v as u32;
            proof {
                assert(n as int == if v < 0 { v + 0x1_0000_0000 } else { v as int }) by (bit_vector)
                    requires n == v as u32;
            }
            match char_from_u32(n) {
                Some(ch) => {
                    return Node::Literal(Literal { value: char_string(ch) });
                },
                None => {},
            }
        },
        None => {},
    }
    let mut value = String::from_str(prefix);
    push_text(&mut value, "{");
    push_text(&mut value, code);
    push_text(&mut value, "}");
    Node::Literal(Literal { value })
}

/// Hex escape: the character whose code is `code` (hexadecimal, braces
/// allowed), or the text `\x{code}` when that is no character.
pub fn hex(code: &str) -> (r: Node)
    ensures
        r.term() == (AstTerm::Lit {
            value: match code_point(code@) {
                Some(c) => seq![c],
                None => "\\x"@ + "{"@ + code@ + "}"@,
            },
        }),
{
    code_point_literal(code, "\\x")
}

/// Unicode escape: the character whose code is `code`, or the text
/// `\u{code}` when that is no character.
pub fn unicode(code: &str) -> (r: Node)
    ensures
        r.term() == (AstTerm::Lit {
            value: match code_point(code@) {
                Some(c) => seq![c],
                None => "\\u"@ + "{"@ + code@ + "}"@,
            },
        }),
{
    code_point_literal(code, "\\u")
}

/// Named capturing group.
pub fn named_capture(name: &str, node: Node) -> (r: Node)
    ensures
        r.term() == (AstTerm::Group { capturing: true, name: Some(name@), atomic: None, body: Box::new(node.term()) }),
{
    Node::Group(Group { capturing: true, body: Box::new(node), name: Some(String::from_str(name)), atomic: None })
}

/// Non-capturing group.
pub fn non_capturing(node: Node) -> (r: Node)
    ensures
        r.term() == (AstTerm::Group { capturing: false, name: None, atomic: None, body: Box::new(node.term()) }),
{
    Node::Group(Group { capturing: false, body: Box::new(node), name: None, atomic: None })
}

/// Atomic group (marked capturing, as the rendering ignores it for atomic
/// groups).
pub fn atomic(node: Node) -> (r: Node)
    ensures
        r.term() == (AstTerm::Group { capturing: true, name: None, atomic: Some(true), body: Box::new(node.term()) }),
{
    Node::Group(Group { capturing: true, body: Box::new(node), name: None, atomic: Some(true) })
}

/// Positive lookahead.
pub fn look_ahead(node: Node) -> (r: Node)
    ensures
        r.term() == (AstTerm::Ahead { body: Box::new(node.term()) }),
{
    Node::Lookahead(LookaroundBody { body: Box::new(node) })
}

/// Negative lookahead.
pub fn neg_look_ahead(node: Node) -> (r: Node)
    ensures
        r.term() == (AstTerm::NotAhead { body: Box::new(node.term()) }),
{
    Node::NegativeLookahead(LookaroundBody { body: Box::new(node) })
}

/// Positive lookbehind.
pub fn look_behind(node: Node) -> (r: Node)
    ensures
        r.term() == (AstTerm::Behind { body: Box::new(node.term()) }),
{
    Node::Lookbehind(LookaroundBody { body: Box::new(node) })
}

/// Negative lookbehind.
pub fn neg_look_behind(node: Node) -> (r: Node)
    ensures
        r.term() == (AstTerm::NotBehind { body: Box::new(node.term()) }),
{
    Node::NegativeLookbehind(LookaroundBody { body: Box::new(node) })
}

/// Backreference by index.
pub fn backref_index(i: i32) -> (r: Node)
    ensures
        r.term() == (AstTerm::Backref { by_index: Some(i as int), by_name: None }),
{
    Node::Backreference(Backreference { by_index: Some(i), by_name: None })
}

/// Backreference by name.
pub fn backref_name(name: &str) -> (r: Node)
    ensures
        r.term() == (AstTerm::Backref { by_index: None, by_name: Some(name@) }),
{
    Node::Backreference(Backreference { by_index: None, by_name: Some(String::from_str(name)) })
}

/// Flags from a string of letters.
pub fn flag(letters: &str) -> (r: Flags)
    ensures
        r.ignore_case == letters@.contains('i'),
        r.multiline == letters@.contains('m'),
        r.dot_all == letters@.contains('s'),
        r.unicode == letters@.contains('u'),
        r.extended == letters@.contains('x'),
{
    Flags::from_letters(letters)
}

/// Alternation of branches.
pub fn alternation(branches: Vec<Node>) -> (r: Node)
    ensures
        r.term() == (AstTerm::Alt { branches: branches@.map_values(|n: Node| n.term()) }),
{
    let r = Node::Alternation(Alternation { branches });
    proof {
        if let AstTerm::Alt { branches: bs } = r.term() {
            assert(bs =~= branches@.map_values(|n: Node| n.term()));
        }
    }
    r
}

/// Alternation of two branches.
pub fn either(left: Node, right: Node) -> (r: Node)
    ensures
        r.term() == (AstTerm::Alt { branches: seq![left.term(), right.term()] }),
{
    let mut v: Vec<Node> = Vec::new();
    let ghost lt = left.term();
    let ghost rt = right.term();
    v.push(left);
    v.push(right);
    proof {
        assert(v@.map_values(|n: Node| n.term()) =~= seq![lt, rt]);
    }
    alternation(v)
}

/// A quantifier with the given mode.
fn repeat_mode(node: Node, min: i32, max: Option<i32>, mode: &str) -> (r: Node)
    ensures
        r.term() == repeat_term(node.term(), min as int, max, mode@),
{
    let maxbound = match max {
        Some(n) => MaxBound::Finite(n),
        None => MaxBound::Infinite(String::from_str("Inf")),
    };
    let greedy = str_eq(mode, "Greedy");
    let lazy = str_eq(mode, "Lazy");
    let possessive = str_eq(mode, "Possessive");
    Node::Quantifier(Quantifier {
        target: QuantifierTarget { child: Box::new(node) },
        min,
        max: maxbound,
        mode: String::from_str(mode),
        greedy,
        lazy,
        possessive,
    })
}

/// `node` between `min` and `max` times (`None`: unbounded), greedily.
pub fn repeat(node: Node, min: i32, max: Option<i32>) -> (r: Node)
    ensures
        r.term() == repeat_term(node.term(), min as int, max, "Greedy"@),
{
    repeat_mode(node, min, max, "Greedy")
}

/// Greedy repetition.
pub fn repeat_greedy(node: Node, min: i32, max: Option<i32>) -> (r: Node)
    ensures
        r.term() == repeat_term(node.term(), min as int, max, "Greedy"@),
{
    repeat(node, min, max)
}

/// Lazy repetition.
pub fn repeat_lazy(node: Node, min: i32, max: Option<i32>) -> (r: Node)
    ensures
        r.term() == repeat_term(node.term(), min as int, max, "Lazy"@),
{
    repeat_mode(node, min, max, "Lazy")
}

/// Possessive repetition.
pub fn repeat_possessive(node: Node, min: i32, max: Option<i32>) -> (r: Node)
    ensures
        r.term() == repeat_term(node.term(), min as int, max, "Possessive"@),
{
    repeat_mode(node, min, max, "Possessive")
}

} // verus!
