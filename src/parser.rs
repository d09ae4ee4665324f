//! Recursive-descent parser from pattern text to AST.
//!
//! The grammar is stated as ghost functions over the directive-stripped text
//! (`alt`, `seq`, `terms`, `atom`, `group`, ...). Each returns either the
//! parsed value with the number of characters it consumed, or an error
//! message with its position; the executable parser is proved to agree.
//!
//! Group names are not checked for uniqueness: a pattern may name two groups
//! alike. Flag letters other than `i`, `m`, `s`, `u`, `x` are not reported.
use vstd::prelude::*;
use crate::directives::{directive_body, directive_flags, split_directives};
use crate::errors::STRlingParseError;
use crate::hint_engine::{get_hint, hint_chars, hint_for};
use crate::nodes::{
    Alternation, Anchor, AstItem, AstMax, AstTerm, CharacterClass, ClassEscape, ClassItem, ClassLiteral,
    ClassRange, Dot, Flags, Group, Literal, LookaroundBody, MaxBound, Node, Quantifier,
    QuantifierTarget, Sequence,
};
use crate::text::{char_string, chars_of, push_char, str_eq};

verus! {

/// Alias kept for callers that name the error type by its role.
pub type ParseError = STRlingParseError;

/// Hint attached to an unmatched `)`.
pub const UNMATCHED_PAREN_HINT: &'static str =
    "This ')' character does not have a matching opening '('. Did you mean to escape it with '\\)'?";

/// What `char::is_alphanumeric` returns for a character.
pub uninterp spec fn alnum_of(c: char) -> bool;

/// Relies on `char::is_alphanumeric`: the Unicode Alphabetic or Numeric
/// property of the character; ASCII letters and digits have it.
#[verifier::external_body]
fn is_alphanumeric(c: char) -> (r: bool)
    ensures
        r == alnum_of(c),
        ('a' <= c <= 'z' || 'A' <= c <= 'Z' || '0' <= c <= '9') ==> r,
{
    c.is_alphanumeric()
}

/// Result of a grammar function: the value and the number of characters
/// consumed, or an error message and its position.
pub enum Outcome<T> {
    Parsed { value: T, used: nat },
    Failed { message: Seq<char>, pos: int },
}

/// Characters left from `p`.
pub open spec fn rest(s: Seq<char>, p: int) -> nat {
    if p >= s.len() {
        0
    } else {
        (s.len() - p) as nat
    }
}

/// White space skipped in free-spacing mode.
pub open spec fn is_space(c: char) -> bool {
    c == ' ' || c == '\t' || c == '\r' || c == '\n'
}

/// Length of a comment body: up to the end of the line.
pub open spec fn comment_len(s: Seq<char>, p: int) -> nat
    decreases rest(s, p),
{
    if p < 0 || p >= s.len() || s[p] == '\r' || s[p] == '\n' {
        0
    } else {
        1 + comment_len(s, p + 1)
    }
}

/// Number of characters skipped at `p`: in free-spacing mode white space and
/// `#` comments; otherwise none.
pub open spec fn skip_len(s: Seq<char>, x: bool, p: int) -> nat
    decreases rest(s, p),
{
    if !x || p < 0 || p >= s.len() {
        0
    } else if is_space(s[p]) {
        1 + skip_len(s, x, p + 1)
    } else if s[p] == '#' {
        1 + comment_len(s, p + 1) + skip_len(s, x, p + 1 + comment_len(s, p + 1))
    } else {
        0
    }
}

/// Position after skipping at `p`.
pub open spec fn skip(s: Seq<char>, x: bool, p: int) -> int {
    p + skip_len(s, x, p)
}

/// Whether `c` is an ASCII digit.
pub open spec fn is_digit(c: char) -> bool {
    '0' <= c <= '9'
}

/// Number of consecutive digits at `p`.
pub open spec fn digit_count(s: Seq<char>, p: int) -> nat
    decreases rest(s, p),
{
    if 0 <= p < s.len() && is_digit(s[p]) {
        1 + digit_count(s, p + 1)
    } else {
        0
    }
}

/// Value of the `k` digits at `p`.
pub open spec fn digits_value(s: Seq<char>, p: int, k: nat) -> int
    decreases k,
{
    if k == 0 {
        0
    } else {
        digits_value(s, p, (k - 1) as nat) * 10 + (s[p + k - 1] as int - 48)
    }
}

/// Largest value of an `i32`.
pub open spec fn i32_max() -> int {
    0x7FFF_FFFF
}

/// Bounds of a quantifier at `p` and the characters it takes: `*`, `+`, `?`,
/// `{m}`, `{m,}` or `{m,n}`, each bound a decimal number that fits an `i32`.
pub open spec fn bounds_at(s: Seq<char>, p: int) -> Option<(int, Option<int>, nat)> {
    if p < 0 || p >= s.len() {
        None
    } else if s[p] == '*' {
        Some((0, None, 1))
    } else if s[p] == '+' {
        Some((1, None, 1))
    } else if s[p] == '?' {
        Some((0, Some(1), 1))
    } else if s[p] == '{' {
        let a = digit_count(s, p + 1);
        let q = p + 1 + a;
        let m = digits_value(s, p + 1, a);
        if a == 0 || m > i32_max() || q >= s.len() {
            None
        } else if s[q] == '}' {
            Some((m, Some(m), a + 2))
        } else if s[q] == ',' {
            let b = digit_count(s, q + 1);
            let r = q + 1 + b;
            let n = digits_value(s, q + 1, b);
            if n > i32_max() || r >= s.len() || s[r] != '}' {
                None
            } else {
                Some(
                    (
                        m,
                        if b == 0 {
                            None
                        } else {
                            Some(n)
                        },
                        (r + 1 - p) as nat,
                    ),
                )
            }
        } else {
            None
        }
    } else {
        None
    }
}

/// A value, or one past the largest `i32` when it is larger.
pub open spec fn capped(v: int) -> int {
    if v > i32_max() {
        i32_max() + 1
    } else {
        v
    }
}

/// The mode suffix at `p` and its length.
pub open spec fn mode_at(s: Seq<char>, p: int) -> (Seq<char>, nat) {
    if 0 <= p < s.len() && s[p] == '?' {
        ("Lazy"@, 1)
    } else if 0 <= p < s.len() && s[p] == '+' {
        ("Possessive"@, 1)
    } else {
        ("Greedy"@, 0)
    }
}

/// The quantifier node built around `child`.
pub open spec fn quant_node(child: AstTerm, min: int, max: Option<int>, mode: Seq<char>) -> AstTerm {
    AstTerm::Quant {
        child: Box::new(child),
        min,
        max: match max {
            Some(n) => AstMax::Finite(n),
            None => AstMax::Infinite("Inf"@),
        },
        mode,
        greedy: mode == "Greedy"@,
        lazy: mode == "Lazy"@,
        possessive: mode == "Possessive"@,
    }
}

/// The control character named by an escape letter, if any.
pub open spec fn control_char(c: char) -> Option<char> {
    if c == 'n' {
        Some('\n')
    } else if c == 'r' {
        Some('\r')
    } else if c == 't' {
        Some('\t')
    } else if c == 'f' {
        Some('\x0C')
    } else if c == 'v' {
        Some('\x0B')
    } else {
        None
    }
}

/// Whether `c` names a shorthand class escape.
pub open spec fn is_class_letter(c: char) -> bool {
    c == 'd' || c == 'D' || c == 'w' || c == 'W' || c == 's' || c == 'S'
}

/// The lowercase form of a shorthand class letter.
pub open spec fn class_letter_lower(c: char) -> char {
    if c == 'D' {
        'd'
    } else if c == 'W' {
        'w'
    } else if c == 'S' {
        's'
    } else {
        c
    }
}

/// The escape at `p` (where `s[p]` is a backslash).
pub open spec fn escape_at(s: Seq<char>, p: int) -> Outcome<AstTerm> {
    if p + 1 >= s.len() {
        Outcome::Failed { message: "Incomplete escape sequence"@, pos: p }
    } else {
        let c = s[p + 1];
        let value = if c == 'b' {
            AstTerm::Anchor { at: "WordBoundary"@ }
        } else if c == 'B' {
            AstTerm::Anchor { at: "NotWordBoundary"@ }
        } else if c == 'A' {
            AstTerm::Anchor { at: "AbsoluteStart"@ }
        } else if c == 'Z' {
            AstTerm::Anchor { at: "EndBeforeFinalNewline"@ }
        } else if c == 'z' {
            AstTerm::Anchor { at: "AbsoluteEnd"@ }
        } else if is_class_letter(c) {
            AstTerm::Class {
                negated: c == 'D' || c == 'W' || c == 'S',
                items: seq![AstItem::Esc { kind: seq![class_letter_lower(c)], property: None }],
            }
        } else if control_char(c) is Some {
            AstTerm::Lit { value: seq![control_char(c)->0] }
        } else {
            AstTerm::Lit { value: seq![c] }
        };
        Outcome::Parsed { value, used: 2 }
    }
}

/// One member of a class at `p` (inside the class opened at `start`).
pub open spec fn class_item(s: Seq<char>, p: int, start: int) -> Outcome<AstItem> {
    if s[p] == '\\' {
        if p + 1 >= s.len() {
            Outcome::Failed { message: "Unterminated character class"@, pos: start }
        } else {
            let c = s[p + 1];
            let value = if is_class_letter(c) {
                AstItem::Esc { kind: seq![c], property: None }
            } else if control_char(c) is Some {
                AstItem::Char { ch: seq![control_char(c)->0] }
            } else {
                AstItem::Char { ch: seq![c] }
            };
            Outcome::Parsed { value, used: 2 }
        }
    } else if p + 2 < s.len() && s[p + 1] == '-' && s[p + 2] != ']' && s[p + 2] != '\\' {
        Outcome::Parsed { value: AstItem::Range { from: seq![s[p]], to: seq![s[p + 2]] }, used: 3 }
    } else {
        Outcome::Parsed { value: AstItem::Char { ch: seq![s[p]] }, used: 1 }
    }
}

/// The members of a class from `p` through its closing `]`.
pub open spec fn class_items(s: Seq<char>, p: int, start: int) -> Outcome<Seq<AstItem>>
    decreases rest(s, p),
{
    if p < 0 || p >= s.len() {
        Outcome::Failed { message: "Unterminated character class"@, pos: start }
    } else if s[p] == ']' {
        Outcome::Parsed { value: seq![], used: 1 }
    } else {
        match class_item(s, p, start) {
            Outcome::Failed { message, pos } => Outcome::Failed { message, pos },
            // A member always takes at least one character; the first branch
            // only keeps the definition well founded.
            Outcome::Parsed { value: it, used: n } => if n == 0 {
                Outcome::Failed { message: "Unterminated character class"@, pos: start }
            } else {
                match class_items(s, p + n, start) {
                    Outcome::Failed { message, pos } => Outcome::Failed { message, pos },
                    Outcome::Parsed { value: its, used: m } => Outcome::Parsed { value: seq![it] + its, used: n + m },
                }
            },
        }
    }
}

/// The character class at `p` (where `s[p]` is `[`).
pub open spec fn char_class(s: Seq<char>, p: int) -> Outcome<AstTerm> {
    let negated = p + 1 < s.len() && s[p + 1] == '^';
    let q = if negated {
        p + 2
    } else {
        p + 1
    };
    match class_items(s, q, p) {
        Outcome::Failed { message, pos } => Outcome::Failed { message, pos },
        Outcome::Parsed { value: items, used } => if items.len() == 0 {
            Outcome::Failed { message: "Empty character class"@, pos: p }
        } else {
            Outcome::Parsed { value: AstTerm::Class { negated, items }, used: (q + used - p) as nat }
        },
    }
}

/// Whether `c` is an ASCII letter or digit.
pub open spec fn is_ascii_alnum(c: char) -> bool {
    ('a' <= c <= 'z') || ('A' <= c <= 'Z') || ('0' <= c <= '9')
}

/// Length of the run of group-name characters at `p`: ASCII letters and
/// digits, other alphanumeric characters, and `_`.
pub open spec fn name_len(s: Seq<char>, p: int) -> nat
    decreases rest(s, p),
{
    if 0 <= p < s.len() && s[p] != '>' && (is_ascii_alnum(s[p]) || alnum_of(s[p]) || s[p] == '_') {
        1 + name_len(s, p + 1)
    } else {
        0
    }
}

/// The sequence node for a list of terms: an empty literal, the only term,
/// or a sequence.
pub open spec fn seq_node(ts: Seq<AstTerm>) -> AstTerm {
    if ts.len() == 0 {
        AstTerm::Lit { value: seq![] }
    } else if ts.len() == 1 {
        ts[0]
    } else {
        AstTerm::Cat { parts: ts }
    }
}

/// The alternation node for a non-empty list of branches.
pub open spec fn alt_node(bs: Seq<AstTerm>) -> AstTerm {
    if bs.len() == 1 {
        bs[0]
    } else {
        AstTerm::Alt { branches: bs }
    }
}

/// A group body: an alternation at `q` followed by `)`; `used` counts from
/// `q` through the `)`. A missing `)` is reported at `open`, where the group
/// was opened.
pub open spec fn closed_body(s: Seq<char>, x: bool, open: int, q: int, msg: Seq<char>) -> Outcome<AstTerm>
    decreases rest(s, q), 8nat,
{
    match alt(s, x, q) {
        Outcome::Failed { message, pos } => Outcome::Failed { message, pos },
        Outcome::Parsed { value, used } => if q + used < s.len() && s[q + used] == ')' {
            Outcome::Parsed { value, used: used + 1 }
        } else {
            Outcome::Failed { message: msg, pos: open }
        },
    }
}

/// Wraps a group body that starts at `q` into the node `f(body)`, counting
/// from the `(` at `p`.
pub open spec fn wrap(o: Outcome<AstTerm>, p: int, q: int, kind: nat, name: Option<Seq<char>>) -> Outcome<AstTerm> {
    match o {
        Outcome::Failed { message, pos } => Outcome::Failed { message, pos },
        Outcome::Parsed { value: b, used } => Outcome::Parsed {
            value: group_node(kind, name, b),
            used: (q + used - p) as nat,
        },
    }
}

/// The node of each group form around its body: 0 capturing, 1
/// non-capturing, 2 atomic, 3 named, 4 lookahead, 5 negative lookahead, 6
/// lookbehind, 7 negative lookbehind.
pub open spec fn group_node(kind: nat, name: Option<Seq<char>>, b: AstTerm) -> AstTerm {
    if kind == 0 {
        AstTerm::Group { capturing: true, name: None, atomic: Some(false), body: Box::new(b) }
    } else if kind == 1 {
        AstTerm::Group { capturing: false, name: None, atomic: Some(false), body: Box::new(b) }
    } else if kind == 2 {
        AstTerm::Group { capturing: false, name: None, atomic: Some(true), body: Box::new(b) }
    } else if kind == 3 {
        AstTerm::Group { capturing: true, name, atomic: Some(false), body: Box::new(b) }
    } else if kind == 4 {
        AstTerm::Ahead { body: Box::new(b) }
    } else if kind == 5 {
        AstTerm::NotAhead { body: Box::new(b) }
    } else if kind == 6 {
        AstTerm::Behind { body: Box::new(b) }
    } else {
        AstTerm::NotBehind { body: Box::new(b) }
    }
}

/// The named group at `p` (where `s[p..p + 3]` is `(?<`).
pub open spec fn named_group(s: Seq<char>, x: bool, p: int) -> Outcome<AstTerm>
    decreases rest(s, p), 0nat,
{
    let k = name_len(s, p + 3);
    let e = p + 3 + k;
    if p < 0 || p + 3 > s.len() {
        Outcome::Failed { message: "Unterminated group name"@, pos: p }
    } else if e < s.len() && s[e] != '>' {
        Outcome::Failed { message: "Invalid character in group name: "@ + seq![s[e]], pos: e }
    } else if k == 0 {
        Outcome::Failed { message: "Empty group name"@, pos: e }
    } else if e >= s.len() {
        Outcome::Failed { message: "Unterminated group name"@, pos: p }
    } else {
        wrap(closed_body(s, x, p, e + 1, "Unterminated group"@), p, e + 1, 3, Some(s.subrange(p + 3, e)))
    }
}

/// The group or lookaround at `p` (where `s[p]` is `(`).
pub open spec fn group(s: Seq<char>, x: bool, p: int) -> Outcome<AstTerm>
    decreases rest(s, p), 1nat,
{
    if p < 0 || p >= s.len() {
        Outcome::Failed { message: "Unterminated group"@, pos: p }
    } else if p + 1 < s.len() && s[p + 1] == '?' {
        if p + 2 >= s.len() {
            wrap(closed_body(s, x, p, p + 2, "Unterminated group"@), p, p + 2, 0, None)
        } else {
            let c = s[p + 2];
            if c == ':' {
                wrap(closed_body(s, x, p, p + 3, "Unterminated group"@), p, p + 3, 1, None)
            } else if c == '=' {
                wrap(closed_body(s, x, p, p + 3, "Unterminated lookahead"@), p, p + 3, 4, None)
            } else if c == '!' {
                wrap(closed_body(s, x, p, p + 3, "Unterminated lookahead"@), p, p + 3, 5, None)
            } else if c == '<' {
                if p + 3 >= s.len() {
                    wrap(closed_body(s, x, p, p + 3, "Unterminated group"@), p, p + 3, 0, None)
                } else if s[p + 3] == '=' {
                    wrap(closed_body(s, x, p, p + 4, "Unterminated lookbehind"@), p, p + 4, 6, None)
                } else if s[p + 3] == '!' {
                    wrap(closed_body(s, x, p, p + 4, "Unterminated lookbehind"@), p, p + 4, 7, None)
                } else {
                    named_group(s, x, p)
                }
            } else if c == '>' {
                wrap(closed_body(s, x, p, p + 3, "Unterminated atomic group"@), p, p + 3, 2, None)
            } else {
                Outcome::Failed { message: "Unknown group modifier: ?"@ + seq![c], pos: p + 1 }
            }
        }
    } else {
        wrap(closed_body(s, x, p, p + 1, "Unterminated group"@), p, p + 1, 0, None)
    }
}

/// One atom at `p`.
pub open spec fn atom(s: Seq<char>, x: bool, p: int) -> Outcome<AstTerm>
    decreases rest(s, p), 2nat,
{
    if p < 0 || p >= s.len() {
        Outcome::Failed { message: "Unexpected end of input"@, pos: p }
    } else if s[p] == '.' {
        Outcome::Parsed { value: AstTerm::Dot, used: 1 }
    } else if s[p] == '^' {
        Outcome::Parsed { value: AstTerm::Anchor { at: "Start"@ }, used: 1 }
    } else if s[p] == '$' {
        Outcome::Parsed { value: AstTerm::Anchor { at: "End"@ }, used: 1 }
    } else if s[p] == '(' {
        group(s, x, p)
    } else if s[p] == '[' {
        char_class(s, p)
    } else if s[p] == '\\' {
        escape_at(s, p)
    } else {
        Outcome::Parsed { value: AstTerm::Lit { value: seq![s[p]] }, used: 1 }
    }
}

/// The atom `a` with the quantifier found at `e`, if any, and the characters
/// the quantifier takes.
pub open spec fn quantified(s: Seq<char>, a: AstTerm, e: int) -> (AstTerm, nat) {
    match bounds_at(s, e) {
        Some((min, max, b)) => {
            let (mode, m) = mode_at(s, e + b);
            (quant_node(a, min, max, mode), b + m)
        },
        None => (a, 0nat),
    }
}

/// One term at `q`: an atom, then (after skipping) an optional quantifier.
pub open spec fn term(s: Seq<char>, x: bool, q: int) -> Outcome<AstTerm>
    decreases rest(s, q), 3nat,
{
    match atom(s, x, q) {
        Outcome::Failed { message, pos } => Outcome::Failed { message, pos },
        Outcome::Parsed { value: a, used: n } => {
            let e = skip(s, x, q + n);
            let (t, k) = quantified(s, a, e);
            Outcome::Parsed { value: t, used: (e + k - q) as nat }
        },
    }
}

/// The terms of a sequence from `p`: atoms, each with an optional
/// quantifier, up to the end, a `|` or a `)`.
pub open spec fn terms(s: Seq<char>, x: bool, p: int) -> Outcome<Seq<AstTerm>>
    decreases rest(s, p), 4nat,
{
    let q = skip(s, x, p);
    if p < 0 || q >= s.len() || s[q] == '|' || s[q] == ')' {
        Outcome::Parsed { value: seq![], used: (q - p) as nat }
    } else {
        match term(s, x, q) {
            Outcome::Failed { message, pos } => Outcome::Failed { message, pos },
            // A term always takes at least one character; the first branch
            // only keeps the definition well founded.
            Outcome::Parsed { value: t, used: n } => if n == 0 {
                Outcome::Parsed { value: seq![t], used: (q - p) as nat }
            } else {
                extend(seq![t], (q + n - p) as nat, terms(s, x, q + n))
            },
        }
    }
}

/// A sequence at `p`.
pub open spec fn seq(s: Seq<char>, x: bool, p: int) -> Outcome<AstTerm>
    decreases rest(s, p), 5nat,
{
    match terms(s, x, p) {
        Outcome::Failed { message, pos } => Outcome::Failed { message, pos },
        Outcome::Parsed { value, used } => Outcome::Parsed { value: seq_node(value), used },
    }
}

/// Further `|`-separated branches at `p` (already past white space).
pub open spec fn alt_rest(s: Seq<char>, x: bool, p: int) -> Outcome<Seq<AstTerm>>
    decreases rest(s, p), 6nat,
{
    if 0 <= p < s.len() && s[p] == '|' {
        let q = skip(s, x, p + 1);
        if q >= s.len() {
            Outcome::Failed { message: "Alternation lacks right-hand side"@, pos: p }
        } else if s[q] == '|' {
            Outcome::Failed { message: "Empty alternation branch"@, pos: p }
        } else {
            match seq(s, x, q) {
                Outcome::Failed { message, pos } => Outcome::Failed { message, pos },
                Outcome::Parsed { value: b, used: n } => {
                    let e = skip(s, x, q + n);
                    extend(seq![b], (e - p) as nat, alt_rest(s, x, e))
                },
            }
        }
    } else {
        Outcome::Parsed { value: seq![], used: 0 }
    }
}

/// An alternation at `p`.
pub open spec fn alt(s: Seq<char>, x: bool, p: int) -> Outcome<AstTerm>
    decreases rest(s, p), 7nat,
{
    let q = skip(s, x, p);
    if p < 0 {
        Outcome::Failed { message: "Unexpected end of input"@, pos: p }
    } else if q < s.len() && s[q] == '|' {
        Outcome::Failed { message: "Alternation lacks left-hand side"@, pos: q }
    } else {
        match seq(s, x, q) {
            Outcome::Failed { message, pos } => Outcome::Failed { message, pos },
            Outcome::Parsed { value: first, used: n } => {
                let e = skip(s, x, q + n);
                match alt_rest(s, x, e) {
                    Outcome::Failed { message, pos } => Outcome::Failed { message, pos },
                    Outcome::Parsed { value: more, used: m } => Outcome::Parsed {
                        value: alt_node(seq![first] + more),
                        used: (e + m - p) as nat,
                    },
                }
            },
        }
    }
}

/// A whole pattern body: one alternation, then nothing but skippable text.
pub open spec fn pattern(s: Seq<char>, x: bool) -> Outcome<AstTerm> {
    match alt(s, x, 0) {
        Outcome::Failed { message, pos } => Outcome::Failed { message, pos },
        Outcome::Parsed { value, used } => {
            let q = skip(s, x, used as int);
            if q < s.len() {
                if s[q] == ')' {
                    Outcome::Failed { message: "Unmatched ')'"@, pos: q }
                } else if s[q] == '|' {
                    Outcome::Failed { message: "Alternation lacks right-hand side"@, pos: q }
                } else {
                    Outcome::Failed { message: "Unexpected trailing input"@, pos: q }
                }
            } else {
                Outcome::Parsed { value, used: q as nat }
            }
        },
    }
}

/// The outcome of parsing a whole text, directives included.
pub open spec fn parse_outcome(text: Seq<char>) -> Outcome<AstTerm> {
    pattern(directive_body(text), directive_flags(text).extended)
}

/// The hint attached to an error message.
pub open spec fn error_hint(message: Seq<char>) -> Option<Seq<char>> {
    if message == "Unmatched ')'"@ {
        Some(UNMATCHED_PAREN_HINT@)
    } else {
        hint_for(message)
    }
}

/// An error value for `message` at `pos` in `src`.
pub open spec fn is_error(e: STRlingParseError, message: Seq<char>, pos: int, src: Seq<char>) -> bool {
    &&& e.message@ == message
    &&& e.pos == pos
    &&& e.text@ == src
    &&& hint_chars(e.hint) == error_hint(message)
}

/// An executable node result agrees with a grammar outcome at `p`.
pub open spec fn agrees(r: Result<(Node, usize), STRlingParseError>, o: Outcome<AstTerm>, p: int, src: Seq<char>) -> bool {
    match o {
        Outcome::Parsed { value, used } => r matches Ok((n, e)) && n.term() == value && e == p + used,
        Outcome::Failed { message, pos } => r matches Err(err) && is_error(err, message, pos, src),
    }
}

/// Prepends `prefix` (consumed over `off` characters) to an outcome.
pub open spec fn extend<T>(prefix: Seq<T>, off: nat, o: Outcome<Seq<T>>) -> Outcome<Seq<T>> {
    match o {
        Outcome::Parsed { value, used } => Outcome::Parsed { value: prefix + value, used: off + used },
        Outcome::Failed { message, pos } => Outcome::Failed { message, pos },
    }
}

/// The ghost forms of a list of nodes.
pub open spec fn node_terms(v: Seq<Node>) -> Seq<AstTerm> {
    v.map_values(|n: Node| n.term())
}

/// Parser for pattern text.
pub struct Parser {
    flags: Flags,
    src: String,
    chars: Vec<char>,
}

impl Parser {
    /// The directive-stripped text this parser reads.
    pub closed spec fn source(&self) -> Seq<char> {
        self.src@
    }

    /// The flags the directives set.
    pub closed spec fn flags_of(&self) -> Flags {
        self.flags
    }

    /// The parser holds its text also as characters.
    pub closed spec fn wf(&self) -> bool {
        self.chars@ == self.src@
    }

    /// A parser for `text`; its directives are read at once.
    pub fn new(text: String) -> (r: Parser)
        ensures
            r.source() == directive_body(text@),
            r.flags_of() == directive_flags(text@),
            r.wf(),
    {
        let cs = chars_of(text.as_str());
        let (flags, src) = split_directives(&cs);
        let chars = chars_of(src.as_str());
        Parser { flags, src, chars }
    }

    /// The flags the directives set.
    pub fn flags(&self) -> (r: Flags)
        ensures
            r == self.flags_of(),
    {
        self.flags
    }

    /// Parses the whole pattern.
    pub fn parse(&mut self) -> (r: Result<Node, STRlingParseError>)
        requires
            old(self).wf(),
        ensures
            *final(self) == *old(self),
            match pattern(old(self).source(), old(self).flags_of().extended) {
                Outcome::Parsed { value, .. } => r matches Ok(n) && n.term() == value,
                Outcome::Failed { message, pos } => r matches Err(e) && is_error(e, message, pos, old(self).source()),
            },
    {
        let (node, used) = match self.parse_alt(0) {
            Ok(v) => v,
            Err(e) => return Err(e),
        };
        let q = self.skip(used);
        if q < self.chars.len() {
            let ch = self.chars[q];
            proof {
                reveal_strlit("Unmatched ')'");
            }
            if ch == ')' {
                return Err(self.raise_error(String::from_str("Unmatched ')'"), q));
            }
            if ch == '|' {
                return Err(self.raise_error(String::from_str("Alternation lacks right-hand side"), q));
            }
            return Err(self.raise_error(String::from_str("Unexpected trailing input"), q));
        }
        Ok(node)
    }

    /// Reads the digits at `p`: how many, and their value capped just above
    /// the largest `i32`.
    fn read_digits(&self, p: usize) -> (r: (usize, u64))
        requires
            self.wf(),
            p <= self.chars.len(),
        ensures
            p + r.0 <= self.chars.len(),
            r.0 == digit_count(self.chars@, p as int),
            r.1 == capped(digits_value(self.chars@, p as int, r.0 as nat)),
    {
        let ghost s = self.chars@;
        let mut j = p;
        let mut v: u64 = 0;
        while j < self.chars.len() && '0' <= self.chars[j] && self.chars[j] <= '9'
            invariant
                s == self.chars@,
                p <= j <= s.len(),
                digit_count(s, p as int) == (j - p) + digit_count(s, j as int),
                digits_value(s, p as int, (j - p) as nat) >= 0,
                v == capped(digits_value(s, p as int, (j - p) as nat)),
            decreases s.len() - j,
        {
            let c = self.chars[j];
            let d = (c as u32 - '0' as u32) as u64;
            let ghost k = (j - p) as nat;
            proof {
                assert(digits_value(s, p as int, (k + 1) as nat) == digits_value(s, p as int, k) * 10 + (s[p + k] as int - 48));
            }
            if v <= 0x7FFF_FFFF {
                let next = v * 10 + d;
                v = if next > 0x7FFF_FFFF {
                    0x8000_0000
                } else {
                    next
                };
            }
            j = j + 1;
        }
        (j - p, v)
    }

    /// The bounds of a quantifier at `e`, if there is one.
    fn quantifier_bounds(&self, e: usize) -> (r: Option<(i32, Option<i32>, usize)>)
        requires
            self.wf(),
            e <= self.chars.len(),
        ensures
            match bounds_at(self.chars@, e as int) {
                Some((min, max, b)) => r matches Some((m, x, k)) && m == min && (match x {
                    Some(v) => max == Some(v as int),
                    None => max is None,
                }) && k == b && e + k <= self.chars.len(),
                None => r is None,
            },
    {
        let ghost s = self.chars@;
        if e >= self.chars.len() {
            return None;
        }
        let c = self.chars[e];
        if c == '*' {
            return Some((0, None, 1));
        }
        if c == '+' {
            return Some((1, None, 1));
        }
        if c == '?' {
            return Some((0, Some(1), 1));
        }
        if c != '{' {
            return None;
        }
        let (a, m) = self.read_digits(e + 1);
        let q = e + 1 + a;
        if a == 0 || m > 0x7FFF_FFFF || q >= self.chars.len() {
            return None;
        }
        let min = m as i32;
        if self.chars[q] == '}' {
            return Some((min, Some(min), a + 2));
        }
        if self.chars[q] != ',' {
            return None;
        }
        let (b, n) = self.read_digits(q + 1);
        let r = q + 1 + b;
        if n > 0x7FFF_FFFF || r >= self.chars.len() || self.chars[r] != '}' {
            return None;
        }
        let max = if b == 0 {
            None
        } else {
            Some(n as i32)
        };
        Some((min, max, r + 1 - e))
    }

    /// The mode suffix at `p`: the mode name and the characters it takes.
    fn quantifier_mode(&self, p: usize) -> (r: (String, usize))
        requires
            self.wf(),
            p <= self.chars.len(),
        ensures
            r.0@ == mode_at(self.chars@, p as int).0,
            r.1 == mode_at(self.chars@, p as int).1,
    {
        if p < self.chars.len() && self.chars[p] == '?' {
            (String::from_str("Lazy"), 1)
        } else if p < self.chars.len() && self.chars[p] == '+' {
            (String::from_str("Possessive"), 1)
        } else {
            (String::from_str("Greedy"), 0)
        }
    }

    /// Parses an alternation at `p`.
    fn parse_alt(&self, p: usize) -> (r: Result<(Node, usize), STRlingParseError>)
        requires
            self.wf(),
            p <= self.chars.len(),
        ensures
            agrees(r, alt(self.chars@, self.flags.extended, p as int), p as int, self.src@),
            r matches Ok((_, e)) ==> p <= e <= self.chars.len(),
        decreases self.chars.len() - p, 7nat,
    {
        let ghost s = self.chars@;
        let ghost x = self.flags.extended;
        let q = self.skip(p);
        if q < self.chars.len() && self.chars[q] == '|' {
            return Err(self.raise_error(String::from_str("Alternation lacks left-hand side"), q));
        }
        let (first, first_end) = match self.parse_seq(q) {
            Ok(v) => v,
            Err(e) => return Err(e),
        };
        let e0 = self.skip(first_end);
        let (mut more, cur) = match self.parse_more(e0) {
            Ok(v) => v,
            Err(e) => return Err(e),
        };
        if more.len() == 0 {
            proof {
                assert(seq![first.term()] + node_terms(more@) =~= seq![first.term()]);
            }
            Ok((first, cur))
        } else {
            let ghost mt = node_terms(more@);
            let mut branches: Vec<Node> = Vec::new();
            branches.push(first);
            let ghost ft = branches@[0].term();
            branches.append(&mut more);
            let r = Node::Alternation(Alternation { branches });
            proof {
                assert(node_terms(branches@) =~= seq![ft] + mt);
                if let AstTerm::Alt { branches: bs } = r.term() {
                    assert(bs =~= node_terms(branches@));
                }
            }
            Ok((r, cur))
        }
    }

    /// Parses one term at `q`: an atom and its quantifier, if any.
    #[verifier::rlimit(40)]
    fn parse_term(&self, q: usize) -> (r: Result<(Node, usize), STRlingParseError>)
        requires
            self.wf(),
            q < self.chars.len(),
        ensures
            agrees(r, term(self.chars@, self.flags.extended, q as int), q as int, self.src@),
            r matches Ok((_, e)) ==> q < e <= self.chars.len(),
        decreases self.chars.len() - q, 3nat,
    {
        let ghost s = self.chars@;
        let (a, a_end) = match self.parse_atom(q) {
            Ok(v) => v,
            Err(e) => return Err(e),
        };
        let e = self.skip(a_end);
        let ghost at = a.term();
        match self.quantifier_bounds(e) {
            Some((min, max, b)) => {
                let (mode, m) = self.quantifier_mode(e + b);
                let mb = match max {
                    Some(n) => MaxBound::Finite(n),
                    None => MaxBound::Infinite(String::from_str("Inf")),
                };
                let greedy = str_eq(mode.as_str(), "Greedy");
                let lazy = str_eq(mode.as_str(), "Lazy");
                let possessive = str_eq(mode.as_str(), "Possessive");
                let node = Node::Quantifier(Quantifier {
                    target: QuantifierTarget { child: Box::new(a) },
                    min,
                    max: mb,
                    mode,
                    greedy,
                    lazy,
                    possessive,
                });
                proof {
                    let (smode, _) = mode_at(s, e + b);
                    let (_, smax, _) = bounds_at(s, e as int)->0;
                    assert(node.term() == quant_node(at, min as int, smax, smode));
                }
                Ok((node, e + b + m))
            },
            None => Ok((a, e)),
        }
    }

    /// Parses the further branches at `e0`.
    #[verifier::rlimit(40)]
    fn parse_more(&self, e0: usize) -> (r: Result<(Vec<Node>, usize), STRlingParseError>)
        requires
            self.wf(),
            e0 <= self.chars.len(),
        ensures
            r matches Ok((v, e)) ==> e0 <= e <= self.chars.len() && alt_rest(self.chars@, self.flags.extended, e0 as int)
                == (Outcome::Parsed { value: node_terms(v@), used: (e - e0) as nat }),
            r matches Err(err) ==> (alt_rest(self.chars@, self.flags.extended, e0 as int) matches Outcome::Failed { message, pos }
                && is_error(err, message, pos, self.src@)),
        decreases self.chars.len() - e0, 6nat,
    {
        let ghost s = self.chars@;
        let ghost x = self.flags.extended;
        let mut more: Vec<Node> = Vec::new();
        let mut cur = e0;
        while cur < self.chars.len() && self.chars[cur] == '|'
            invariant
                self.wf(),
                s == self.chars@,
                x == self.flags.extended,
                e0 <= cur <= s.len(),
                alt_rest(s, x, e0 as int) == extend(node_terms(more@), (cur - e0) as nat, alt_rest(s, x, cur as int)),
            decreases s.len() - cur,
        {
            let (b, next) = match self.parse_branch(cur) {
                Ok(v) => v,
                Err(e) => return Err(e),
            };
            let ghost old_more = node_terms(more@);
            let ghost bt = b.term();
            more.push(b);
            proof {
                assert(node_terms(more@) =~= old_more.push(bt));
                lemma_extend_push(old_more, bt, (cur - e0) as nat, (next - cur) as nat, alt_rest(s, x, next as int));
            }
            cur = next;
        }
        proof {
            assert(node_terms(more@) + Seq::<AstTerm>::empty() =~= node_terms(more@));
        }
        Ok((more, cur))
    }

    /// Parses the branch after the `|` at `cur`, and the space after it.
    fn parse_branch(&self, cur: usize) -> (r: Result<(Node, usize), STRlingParseError>)
        requires
            self.wf(),
            cur < self.chars.len(),
            self.chars@[cur as int] == '|',
        ensures
            r matches Ok((b, next)) ==> cur < next <= self.chars.len() && alt_rest(self.chars@, self.flags.extended, cur as int)
                == extend(seq![b.term()], (next - cur) as nat, alt_rest(self.chars@, self.flags.extended, next as int)),
            r matches Err(e) ==> (alt_rest(self.chars@, self.flags.extended, cur as int) matches Outcome::Failed { message, pos }
                && is_error(e, message, pos, self.src@)),
        decreases self.chars.len() - cur, 5nat,
    {
        let q = self.skip(cur + 1);
        if q >= self.chars.len() {
            return Err(self.raise_error(String::from_str("Alternation lacks right-hand side"), cur));
        }
        if self.chars[q] == '|' {
            return Err(self.raise_error(String::from_str("Empty alternation branch"), cur));
        }
        let (b, b_end) = match self.parse_seq(q) {
            Ok(v) => v,
            Err(e) => return Err(e),
        };
        let next = self.skip(b_end);
        Ok((b, next))
    }

    /// Parses a sequence at `p`.
    fn parse_seq(&self, p: usize) -> (r: Result<(Node, usize), STRlingParseError>)
        requires
            self.wf(),
            p <= self.chars.len(),
        ensures
            agrees(r, seq(self.chars@, self.flags.extended, p as int), p as int, self.src@),
            r matches Ok((_, e)) ==> p <= e <= self.chars.len(),
        decreases self.chars.len() - p, 5nat,
    {
        let ghost s = self.chars@;
        let ghost x = self.flags.extended;
        let mut parts: Vec<Node> = Vec::new();
        let mut cur = p;
        let mut q = self.skip(p);
        while !(q >= self.chars.len() || self.chars[q] == '|' || self.chars[q] == ')')
            invariant
                self.wf(),
                s == self.chars@,
                x == self.flags.extended,
                p <= cur <= q <= s.len(),
                q == skip(s, x, cur as int),
                terms(s, x, p as int) == extend(node_terms(parts@), (cur - p) as nat, terms(s, x, cur as int)),
            decreases s.len() - cur,
        {
            let (t, next) = match self.parse_term(q) {
                Ok(v) => v,
                Err(e) => return Err(e),
            };
            let ghost old_parts = node_terms(parts@);
            let ghost tt = t.term();
            parts.push(t);
            proof {
                assert(node_terms(parts@) =~= old_parts.push(tt));
                lemma_extend_push(old_parts, tt, (cur - p) as nat, (next - cur) as nat, terms(s, x, next as int));
            }
            cur = next;
            q = self.skip(cur);
        }
        proof {
            assert(node_terms(parts@) + Seq::<AstTerm>::empty() =~= node_terms(parts@));
        }
        if parts.len() == 0 {
            Ok((Node::Literal(Literal { value: String::new() }), q))
        } else if parts.len() == 1 {
            let only = parts.remove(0);
            Ok((only, q))
        } else {
            let r = Node::Sequence(Sequence { parts });
            proof {
                if let AstTerm::Cat { parts: ps } = r.term() {
                    assert(ps =~= node_terms(parts@));
                }
            }
            Ok((r, q))
        }
    }

    /// Parses one atom at `p`.
    fn parse_atom(&self, p: usize) -> (r: Result<(Node, usize), STRlingParseError>)
        requires
            self.wf(),
            p < self.chars.len(),
        ensures
            agrees(r, atom(self.chars@, self.flags.extended, p as int), p as int, self.src@),
            r matches Ok((_, e)) ==> p < e <= self.chars.len(),
        decreases self.chars.len() - p, 2nat,
    {
        let c = self.chars[p];
        proof {
            reveal_strlit("Start");
            reveal_strlit("End");
        }
        if c == '.' {
            Ok((Node::Dot(Dot), p + 1))
        } else if c == '^' {
            Ok((Node::Anchor(Anchor { at: String::from_str("Start") }), p + 1))
        } else if c == '$' {
            Ok((Node::Anchor(Anchor { at: String::from_str("End") }), p + 1))
        } else if c == '(' {
            self.parse_group(p)
        } else if c == '[' {
            self.parse_char_class(p)
        } else if c == '\\' {
            self.parse_escape(p)
        } else {
            Ok((Node::Literal(Literal { value: char_string(c) }), p + 1))
        }
    }

    /// Parses an alternation at `q` and the `)` after it, for a group opened
    /// at `open`.
    fn parse_body(&self, open: usize, q: usize, msg: &str) -> (r: Result<(Node, usize), STRlingParseError>)
        requires
            self.wf(),
            q <= self.chars.len(),
        ensures
            agrees(r, closed_body(self.chars@, self.flags.extended, open as int, q as int, msg@), q as int, self.src@),
            r matches Ok((_, e)) ==> q < e <= self.chars.len(),
        decreases self.chars.len() - q, 8nat,
    {
        let (body, e) = match self.parse_alt(q) {
            Ok(v) => v,
            Err(err) => return Err(err),
        };
        if e < self.chars.len() && self.chars[e] == ')' {
            Ok((body, e + 1))
        } else {
            Err(self.raise_error(String::from_str(msg), open))
        }
    }

    /// Builds the group node of the given form around `body`.
    fn group_of(kind: u8, name: Option<String>, body: Node) -> (r: Node)
        requires
            kind <= 7,
            kind != 3 ==> name is None,
        ensures
            r.term() == group_node(kind as nat, crate::ir::opt_chars(name), body.term()),
    {
        let b = Box::new(body);
        if kind == 0 {
            Node::Group(Group { capturing: true, body: b, name: None, atomic: Some(false) })
        } else if kind == 1 {
            Node::Group(Group { capturing: false, body: b, name: None, atomic: Some(false) })
        } else if kind == 2 {
            Node::Group(Group { capturing: false, body: b, name: None, atomic: Some(true) })
        } else if kind == 3 {
            Node::Group(Group { capturing: true, body: b, name, atomic: Some(false) })
        } else if kind == 4 {
            Node::Lookahead(LookaroundBody { body: b })
        } else if kind == 5 {
            Node::NegativeLookahead(LookaroundBody { body: b })
        } else if kind == 6 {
            Node::Lookbehind(LookaroundBody { body: b })
        } else {
            Node::NegativeLookbehind(LookaroundBody { body: b })
        }
    }

    /// Parses the body at `q` of a group opened at `p` and wraps it.
    fn group_body(&self, p: usize, q: usize, msg: &str, kind: u8, name: Option<String>) -> (r: Result<(Node, usize), STRlingParseError>)
        requires
            self.wf(),
            p < q <= self.chars.len(),
            kind <= 7,
            kind != 3 ==> name is None,
        ensures
            agrees(r, wrap(closed_body(self.chars@, self.flags.extended, p as int, q as int, msg@), p as int, q as int, kind as nat, crate::ir::opt_chars(name)), p as int, self.src@),
            r matches Ok((_, e)) ==> p < e <= self.chars.len(),
        decreases self.chars.len() - q, 9nat,
    {
        match self.parse_body(p, q, msg) {
            Ok((body, e)) => Ok((Self::group_of(kind, name, body), e)),
            Err(err) => Err(err),
        }
    }

    /// Parses a named group at `p` (where `(?<` starts).
    fn parse_named_group(&self, p: usize) -> (r: Result<(Node, usize), STRlingParseError>)
        requires
            self.wf(),
            p + 3 < self.chars.len(),
        ensures
            agrees(r, named_group(self.chars@, self.flags.extended, p as int), p as int, self.src@),
            r matches Ok((_, e)) ==> p < e <= self.chars.len(),
        decreases self.chars.len() - p, 0nat,
    {
        let ghost s = self.chars@;
        let len = self.chars.len();
        let start = p + 3;
        let mut e = start;
        while e < len && self.chars[e] != '>' && (is_alphanumeric(self.chars[e]) || self.chars[e] == '_')
            invariant
                s == self.chars@,
                len == s.len(),
                start <= e <= len,
                name_len(s, start as int) == (e - start) + name_len(s, e as int),
            decreases len - e,
        {
            e = e + 1;
        }
        proof {
            if e < len && (self.chars@[e as int] == '>' || !(is_ascii_alnum(s[e as int]) || alnum_of(s[e as int]) || s[e as int] == '_')) {
                assert(name_len(s, e as int) == 0);
            }
        }
        if e < len && self.chars[e] != '>' {
            let mut message = String::from_str("Invalid character in group name: ");
            push_char(&mut message, self.chars[e]);
            proof {
                assert(message@ =~= "Invalid character in group name: "@ + seq![s[e as int]]);
            }
            return Err(self.raise_error(message, e));
        }
        if e == start {
            return Err(self.raise_error(String::from_str("Empty group name"), e));
        }
        if e >= len {
            return Err(self.raise_error(String::from_str("Unterminated group name"), p));
        }
        let name = crate::text::string_of(&self.chars, start, e);
        self.group_body(p, e + 1, "Unterminated group", 3, Some(name))
    }

    /// Parses a group or lookaround at `p`.
    fn parse_group(&self, p: usize) -> (r: Result<(Node, usize), STRlingParseError>)
        requires
            self.wf(),
            p < self.chars.len(),
        ensures
            agrees(r, group(self.chars@, self.flags.extended, p as int), p as int, self.src@),
            r matches Ok((_, e)) ==> p < e <= self.chars.len(),
        decreases self.chars.len() - p, 1nat,
    {
        let ghost s = self.chars@;
        let len = self.chars.len();
        if p + 1 < len && self.chars[p + 1] == '?' {
            if p + 2 >= len {
                return self.group_body(p, p + 2, "Unterminated group", 0, None);
            }
            let c = self.chars[p + 2];
            if c == ':' {
                self.group_body(p, p + 3, "Unterminated group", 1, None)
            } else if c == '=' {
                self.group_body(p, p + 3, "Unterminated lookahead", 4, None)
            } else if c == '!' {
                self.group_body(p, p + 3, "Unterminated lookahead", 5, None)
            } else if c == '<' {
                if p + 3 >= len {
                    self.group_body(p, p + 3, "Unterminated group", 0, None)
                } else if self.chars[p + 3] == '=' {
                    self.group_body(p, p + 4, "Unterminated lookbehind", 6, None)
                } else if self.chars[p + 3] == '!' {
                    self.group_body(p, p + 4, "Unterminated lookbehind", 7, None)
                } else {
                    self.parse_named_group(p)
                }
            } else if c == '>' {
                self.group_body(p, p + 3, "Unterminated atomic group", 2, None)
            } else {
                let mut message = String::from_str("Unknown group modifier: ?");
                push_char(&mut message, c);
                proof {
                    assert(message@ =~= "Unknown group modifier: ?"@ + seq![c]);
                }
                Err(self.raise_error(message, p + 1))
            }
        } else {
            self.group_body(p, p + 1, "Unterminated group", 0, None)
        }
    }

    /// Parses an escape at `p`.
    fn parse_escape(&self, p: usize) -> (r: Result<(Node, usize), STRlingParseError>)
        requires
            self.wf(),
            p < self.chars.len(),
            self.chars@[p as int] == '\\',
        ensures
            agrees(r, escape_at(self.chars@, p as int), p as int, self.src@),
            r matches Ok((_, e)) ==> p < e <= self.chars.len(),
    {
        if p + 1 >= self.chars.len() {
            return Err(self.raise_error(String::from_str("Incomplete escape sequence"), p));
        }
        let c = self.chars[p + 1];
        let node = if c == 'b' {
            Node::Anchor(Anchor { at: String::from_str("WordBoundary") })
        } else if c == 'B' {
            Node::Anchor(Anchor { at: String::from_str("NotWordBoundary") })
        } else if c == 'A' {
            Node::Anchor(Anchor { at: String::from_str("AbsoluteStart") })
        } else if c == 'Z' {
            Node::Anchor(Anchor { at: String::from_str("EndBeforeFinalNewline") })
        } else if c == 'z' {
            Node::Anchor(Anchor { at: String::from_str("AbsoluteEnd") })
        } else if c == 'd' || c == 'D' || c == 'w' || c == 'W' || c == 's' || c == 'S' {
            let lower = if c == 'D' {
                'd'
            } else if c == 'W' {
                'w'
            } else if c == 'S' {
                's'
            } else {
                c
            };
            let mut items: Vec<ClassItem> = Vec::new();
            items.push(ClassItem::Esc(ClassEscape { escape_type: char_string(lower), property: None }));
            let n = Node::CharacterClass(CharacterClass { negated: c == 'D' || c == 'W' || c == 'S', items });
            proof {
                if let AstTerm::Class { items: its, .. } = n.term() {
                    assert(its =~= seq![AstItem::Esc { kind: seq![lower], property: None }]);
                }
            }
            n
        } else {
            let v = if c == 'n' {
                '\n'
            } else if c == 'r' {
                '\r'
            } else if c == 't' {
                '\t'
            } else if c == 'f' {
                '\x0C'
            } else if c == 'v' {
                '\x0B'
            } else {
                c
            };
            Node::Literal(Literal { value: char_string(v) })
        };
        Ok((node, p + 2))
    }

    /// Parses a character class at `p`.
    fn parse_char_class(&self, p: usize) -> (r: Result<(Node, usize), STRlingParseError>)
        requires
            self.wf(),
            p < self.chars.len(),
        ensures
            agrees(r, char_class(self.chars@, p as int), p as int, self.src@),
            r matches Ok((_, e)) ==> p < e <= self.chars.len(),
    {
        let ghost s = self.chars@;
        let len = self.chars.len();
        let negated = p + 1 < len && self.chars[p + 1] == '^';
        let q0 = if negated {
            p + 2
        } else {
            p + 1
        };
        let mut items: Vec<ClassItem> = Vec::new();
        let mut cur = q0;
        while cur < len && self.chars[cur] != ']'
            invariant
                self.wf(),
                s == self.chars@,
                len == s.len(),
                p < len,
                negated == (p + 1 < len && s[p + 1] == '^'),
                q0 == if negated { p + 2 } else { p + 1 },
                q0 <= cur <= len,
                class_items(s, q0 as int, p as int) == extend(
                    items@.map_values(|it: ClassItem| it.item()),
                    (cur - q0) as nat,
                    class_items(s, cur as int, p as int),
                ),
            decreases len - cur,
        {
            let c = self.chars[cur];
            let item;
            let used: usize;
            if c == '\\' {
                if cur + 1 >= len {
                    proof {
                        assert(class_item(s, cur as int, p as int) == Outcome::<AstItem>::Failed {
                            message: "Unterminated character class"@,
                            pos: p as int,
                        });
                        assert(class_items(s, cur as int, p as int) == Outcome::<Seq<AstItem>>::Failed {
                            message: "Unterminated character class"@,
                            pos: p as int,
                        });
                        assert(class_items(s, q0 as int, p as int) == Outcome::<Seq<AstItem>>::Failed {
                            message: "Unterminated character class"@,
                            pos: p as int,
                        });
                        assert(char_class(s, p as int) == Outcome::<AstTerm>::Failed {
                            message: "Unterminated character class"@,
                            pos: p as int,
                        });
                    }
                    return Err(self.raise_error(String::from_str("Unterminated character class"), p));
                }
                let d = self.chars[cur + 1];
                if d == 'd' || d == 'D' || d == 'w' || d == 'W' || d == 's' || d == 'S' {
                    item = ClassItem::Esc(ClassEscape { escape_type: char_string(d), property: None });
                } else {
                    let v = if d == 'n' {
                        '\n'
                    } else if d == 'r' {
                        '\r'
                    } else if d == 't' {
                        '\t'
                    } else if d == 'f' {
                        '\x0C'
                    } else if d == 'v' {
                        '\x0B'
                    } else {
                        d
                    };
                    item = ClassItem::Char(ClassLiteral { ch: char_string(v) });
                }
                used = 2;
            } else if len - cur > 2 && self.chars[cur + 1] == '-' && self.chars[cur + 2] != ']' && self.chars[cur + 2] != '\\' {
                item = ClassItem::Range(ClassRange { from_ch: char_string(c), to_ch: char_string(self.chars[cur + 2]) });
                used = 3;
            } else {
                item = ClassItem::Char(ClassLiteral { ch: char_string(c) });
                used = 1;
            }
            let ghost old_items = items@.map_values(|it: ClassItem| it.item());
            let ghost it = item.item();
            items.push(item);
            proof {
                assert(class_item(s, cur as int, p as int) == Outcome::<AstItem>::Parsed { value: it, used: used as nat });
                assert(items@.map_values(|it: ClassItem| it.item()) =~= old_items.push(it));
                lemma_extend_push(old_items, it, (cur - q0) as nat, used as nat, class_items(s, cur + used, p as int));
            }
            cur = cur + used;
        }
        if cur >= len {
            return Err(self.raise_error(String::from_str("Unterminated character class"), p));
        }
        proof {
            assert(items@.map_values(|it: ClassItem| it.item()) + Seq::<AstItem>::empty() =~= items@.map_values(|it: ClassItem| it.item()));
        }
        if items.len() == 0 {
            return Err(self.raise_error(String::from_str("Empty character class"), p));
        }
        Ok((Node::CharacterClass(CharacterClass { negated, items }), cur + 1))
    }

    /// An error for `message` at `pos`, with its hint.
    fn raise_error(&self, message: String, pos: usize) -> (r: STRlingParseError)
        ensures
            is_error(r, message@, pos as int, self.src@),
    {
        let hint = if str_eq(message.as_str(), "Unmatched ')'") {
            Some(String::from_str(UNMATCHED_PAREN_HINT))
        } else {
            get_hint(message.as_str(), self.src.as_str(), pos)
        };
        STRlingParseError::new(message, pos, self.src.clone(), hint)
    }

    /// Position after skipping at `p`.
    fn skip(&self, p: usize) -> (r: usize)
        requires
            self.wf(),
            p <= self.chars.len(),
        ensures
            r == skip(self.chars@, self.flags.extended, p as int),
            p <= r <= self.chars.len(),
    {
        let ghost s = self.chars@;
        let ghost x = self.flags.extended;
        let mut i = p;
        if !self.flags.extended {
            return p;
        }
        while i < self.chars.len() && (self.chars[i] == ' ' || self.chars[i] == '\t' || self.chars[i] == '\r'
            || self.chars[i] == '\n' || self.chars[i] == '#')
            invariant
                s == self.chars@,
                x == self.flags.extended,
                x,
                p <= i <= s.len(),
                skip(s, x, i as int) == skip(s, x, p as int),
            decreases s.len() - i,
        {
            if self.chars[i] == '#' {
                let mut j = i + 1;
                while j < self.chars.len() && self.chars[j] != '\r' && self.chars[j] != '\n'
                    invariant
                        s == self.chars@,
                        i + 1 <= j <= s.len(),
                        (j - (i + 1)) + comment_len(s, j as int) == comment_len(s, i + 1),
                    decreases s.len() - j,
                {
                    j = j + 1;
                }
                i = j;
            } else {
                i = i + 1;
            }
        }
        i
    }
}

/// Extending by a prefix and then by one more element.
proof fn lemma_extend_push<T>(prefix: Seq<T>, t: T, off1: nat, off2: nat, o: Outcome<Seq<T>>)
    ensures
        extend(prefix, off1, extend(seq![t], off2, o)) == extend(prefix.push(t), off1 + off2, o),
{
    match o {
        Outcome::Parsed { value, used } => {
            assert(prefix + (seq![t] + value) =~= prefix.push(t) + value);
        },
        _ => {},
    }
}

/// Parses pattern text, directives included: the flags and the AST, or the
/// first error.
pub fn parse(text: &str) -> (r: Result<(Flags, Node), STRlingParseError>)
    ensures
        match parse_outcome(text@) {
            Outcome::Parsed { value, .. } => r matches Ok((f, n)) && f == directive_flags(text@) && n.term() == value,
            Outcome::Failed { message, pos } => r matches Err(e) && is_error(e, message, pos, directive_body(text@)),
        },
{
    let mut parser = Parser::new(String::from_str(text));
    let node = match parser.parse() {
        Ok(n) => n,
        Err(e) => return Err(e),
    };
    Ok((parser.flags(), node))
}

} // verus!
