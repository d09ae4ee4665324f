//! Abstract syntax tree produced by the parser, and the regex flags.
//!
//! As in the IR, each executable type has a ghost counterpart (`AstTerm`,
//! `AstItem`) used in contracts.
use std::collections::HashMap;
use vstd::prelude::*;
use vstd::std_specs::hash::obeys_key_model;
use crate::ir::{opt_chars, opt_int};
use crate::text::str_eq;

verus! {

/// The five regex flags.
#[derive(Debug, Clone, Copy, PartialEq, Eq)]
pub struct Flags {
    pub ignore_case: bool,
    pub multiline: bool,
    pub dot_all: bool,
    pub unicode: bool,
    pub extended: bool,
}

impl Default for Flags {
    fn default() -> (r: Flags)
        ensures
            !r.ignore_case && !r.multiline && !r.dot_all && !r.unicode && !r.extended,
    {
        Flags { ignore_case: false, multiline: false, dot_all: false, unicode: false, extended: false }
    }
}

/// The names under which `Flags::to_dict` reports the flags.
pub open spec fn flag_entries(f: Flags) -> Map<Seq<char>, bool> {
    map![
        "ignoreCase"@ => f.ignore_case,
        "multiline"@ => f.multiline,
        "dotAll"@ => f.dot_all,
        "unicode"@ => f.unicode,
        "extended"@ => f.extended
    ]
}

/// A character occurs in `s.push(c)` exactly when it occurs in `s` or is `c`.
pub proof fn lemma_push_contains(s: Seq<char>, c: char, x: char)
    ensures
        s.push(c).contains(x) == (s.contains(x) || c == x),
{
    if s.contains(x) {
        let j = choose|j: int| 0 <= j < s.len() && s[j] == x;
        assert(s.push(c)[j] == x);
    }
    if c == x {
        assert(s.push(c)[s.len() as int] == x);
    }
    if s.push(c).contains(x) {
        let j = choose|j: int| 0 <= j < s.push(c).len() && s.push(c)[j] == x;
        if j < s.len() {
            assert(s[j] == x);
        }
    }
}

impl Flags {
    /// The flags keyed by their interchange names.
    pub fn to_dict(&self) -> (r: HashMap<String, bool>)
        ensures
            obeys_key_model::<String>() ==> r@.len() == 5,
            obeys_key_model::<String>() ==> forall|k: String| #[trigger] r@.contains_key(k)
                ==> flag_entries(*self).contains_key(k@) && r@[k] == flag_entries(*self)[k@],
    {
        broadcast use vstd::std_specs::hash::group_hash_axioms;
        proof {
            reveal_strlit("ignoreCase");
            reveal_strlit("multiline");
            reveal_strlit("dotAll");
            reveal_strlit("unicode");
            reveal_strlit("extended");
        }
        let k1 = String::from_str("ignoreCase");
        let k2 = String::from_str("multiline");
        let k3 = String::from_str("dotAll");
        let k4 = String::from_str("unicode");
        let k5 = String::from_str("extended");
        proof {
            // the five names have five different lengths
            assert(k1@.len() == 10 && k2@.len() == 9 && k3@.len() == 6);
            assert(k4@.len() == 7 && k5@.len() == 8);
        }
        let mut map: HashMap<String, bool> = HashMap::new();
        map.insert(k1, self.ignore_case);
        map.insert(k2, self.multiline);
        map.insert(k3, self.dot_all);
        map.insert(k4, self.unicode);
        map.insert(k5, self.extended);
        proof {
            if obeys_key_model::<String>() {
                assert(map@.dom() =~= set![k1, k2, k3, k4, k5]);
                assert(map@.len() == 5);
            }
        }
        map
    }

    /// Flags from a string of letters: `i`, `m`, `s`, `u`, `x` each set one
    /// flag; any other character is ignored.
    pub fn from_letters(letters: &str) -> (r: Flags)
        ensures
            r.ignore_case == letters@.contains('i'),
            r.multiline == letters@.contains('m'),
            r.dot_all == letters@.contains('s'),
            r.unicode == letters@.contains('u'),
            r.extended == letters@.contains('x'),
    {
        let mut f = Flags::default();
        let n = letters.unicode_len();
        let mut i: usize = 0;
        while i < n
            invariant
                n == letters@.len(),
                i <= n,
                f.ignore_case == letters@.take(i as int).contains('i'),
                f.multiline == letters@.take(i as int).contains('m'),
                f.dot_all == letters@.take(i as int).contains('s'),
                f.unicode == letters@.take(i as int).contains('u'),
                f.extended == letters@.take(i as int).contains('x'),
            decreases n - i,
        {
            let ch = letters.get_char(i);
            proof {
                assert(letters@.take(i + 1) == letters@.take(i as int).push(ch));
                lemma_push_contains(letters@.take(i as int), ch, 'i');
                lemma_push_contains(letters@.take(i as int), ch, 'm');
                lemma_push_contains(letters@.take(i as int), ch, 's');
                lemma_push_contains(letters@.take(i as int), ch, 'u');
                lemma_push_contains(letters@.take(i as int), ch, 'x');
            }
            if ch == 'i' {
                f.ignore_case = true;
            } else if ch == 'm' {
                f.multiline = true;
            } else if ch == 's' {
                f.dot_all = true;
            } else if ch == 'u' {
                f.unicode = true;
            } else if ch == 'x' {
                f.extended = true;
            }
            i = i + 1;
        }
        proof {
            assert(letters@.take(n as int) == letters@);
        }
        f
    }
}

/// Alternation: a choice between branches.
#[derive(Debug, PartialEq)]
pub struct Alternation {
    pub branches: Vec<Node>,
}

/// Sequence: parts matched in order.
#[derive(Debug, PartialEq)]
pub struct Sequence {
    pub parts: Vec<Node>,
}

/// Literal string.
#[derive(Debug, Clone, PartialEq, Eq)]
pub struct Literal {
    pub value: String,
}

/// The `.` metacharacter.
#[derive(Debug, Clone, PartialEq, Eq)]
pub struct Dot;

/// Position anchor: "Start", "End", "WordBoundary", "NotWordBoundary",
/// "AbsoluteStart", "AbsoluteEnd" or "EndBeforeFinalNewline".
#[derive(Debug, Clone, PartialEq, Eq)]
pub struct Anchor {
    pub at: String,
}

/// Character range inside a class, such as `a-z`.
#[derive(Debug, Clone, PartialEq, Eq)]
pub struct ClassRange {
    pub from_ch: String,
    pub to_ch: String,
}

/// Literal character inside a class.
#[derive(Debug, Clone, PartialEq, Eq)]
pub struct ClassLiteral {
    pub ch: String,
}

/// The short kind of a class escape given by its long name (`digit` is
/// `d`, `not-digit` is `D`, and likewise for `word` and `space`); any other
/// name is already short.
pub open spec fn short_kind(k: Seq<char>) -> Seq<char> {
    if k == "digit"@ {
        "d"@
    } else if k == "not-digit"@ {
        "D"@
    } else if k == "word"@ {
        "w"@
    } else if k == "not-word"@ {
        "W"@
    } else if k == "space"@ {
        "s"@
    } else if k == "not-space"@ {
        "S"@
    } else {
        k
    }
}

/// The short kind of a class escape, from its long or short name.
pub fn normalize_kind(k: &str) -> (r: String)
    ensures
        r@ == short_kind(k@),
{
    if str_eq(k, "digit") {
        String::from_str("d")
    } else if str_eq(k, "not-digit") {
        String::from_str("D")
    } else if str_eq(k, "word") {
        String::from_str("w")
    } else if str_eq(k, "not-word") {
        String::from_str("W")
    } else if str_eq(k, "space") {
        String::from_str("s")
    } else if str_eq(k, "not-space") {
        String::from_str("S")
    } else {
        String::from_str(k)
    }
}

/// Class escape: `d`, `D`, `w`, `W`, `s`, `S`, or `p`/`P` with a property.
#[derive(Debug, Clone, PartialEq, Eq)]
pub struct ClassEscape {
    pub escape_type: String,
    pub property: Option<String>,
}

/// Unicode property reference inside a class, such as `\p{L}`.
#[derive(Debug, Clone, PartialEq, Eq)]
pub struct ClassUnicodeProperty {
    pub name: Option<String>,
    pub value: String,
    pub negated: bool,
}

/// One member of a character class.
#[derive(Debug, Clone, PartialEq, Eq)]
pub enum ClassItem {
    Range(ClassRange),
    Char(ClassLiteral),
    Esc(ClassEscape),
    UnicodeProperty(ClassUnicodeProperty),
}

/// Character class such as `[abc]` or `[^0-9]`.
#[derive(Debug, Clone, PartialEq, Eq)]
pub struct CharacterClass {
    pub negated: bool,
    pub items: Vec<ClassItem>,
}

/// The node a quantifier repeats.
#[derive(Debug, PartialEq)]
pub struct QuantifierTarget {
    pub child: Box<Node>,
}

/// Upper bound of a quantifier.
#[derive(Debug, Clone, PartialEq, Eq)]
pub enum MaxBound {
    Finite(i32),
    Infinite(String),
    Null(Option<()>),
}

/// Repetition with bounds. `mode` is "Greedy", "Lazy" or "Possessive"; the
/// three booleans carry the same choice as flags.
#[derive(Debug, PartialEq)]
pub struct Quantifier {
    pub target: QuantifierTarget,
    pub min: i32,
    pub max: MaxBound,
    pub mode: String,
    pub greedy: bool,
    pub lazy: bool,
    pub possessive: bool,
}

/// Group: capturing or not, optionally named, optionally atomic.
#[derive(Debug, PartialEq)]
pub struct Group {
    pub capturing: bool,
    pub body: Box<Node>,
    pub name: Option<String>,
    pub atomic: Option<bool>,
}

/// Backreference by index or by name.
#[derive(Debug, Clone, PartialEq, Eq)]
pub struct Backreference {
    pub by_index: Option<i32>,
    pub by_name: Option<String>,
}

/// Body of a lookaround.
#[derive(Debug, PartialEq)]
pub struct LookaroundBody {
    pub body: Box<Node>,
}

/// An AST node.
#[derive(Debug, PartialEq)]
pub enum Node {
    Alternation(Alternation),
    Sequence(Sequence),
    Literal(Literal),
    Dot(Dot),
    Anchor(Anchor),
    CharacterClass(CharacterClass),
    Quantifier(Quantifier),
    Group(Group),
    Backreference(Backreference),
    Lookahead(LookaroundBody),
    NegativeLookahead(LookaroundBody),
    Lookbehind(LookaroundBody),
    NegativeLookbehind(LookaroundBody),
}

/// Ghost form of a class member.
pub enum AstItem {
    Range { from: Seq<char>, to: Seq<char> },
    Char { ch: Seq<char> },
    Esc { kind: Seq<char>, property: Option<Seq<char>> },
    Prop { name: Option<Seq<char>>, value: Seq<char>, negated: bool },
}

/// Ghost form of a quantifier bound.
pub enum AstMax {
    Finite(int),
    Infinite(Seq<char>),
    Null,
}

/// Ghost form of an AST.
pub enum AstTerm {
    Alt { branches: Seq<AstTerm> },
    Cat { parts: Seq<AstTerm> },
    Lit { value: Seq<char> },
    Dot,
    Anchor { at: Seq<char> },
    Class { negated: bool, items: Seq<AstItem> },
    Quant {
        child: Box<AstTerm>,
        min: int,
        max: AstMax,
        mode: Seq<char>,
        greedy: bool,
        lazy: bool,
        possessive: bool,
    },
    Group { capturing: bool, name: Option<Seq<char>>, atomic: Option<bool>, body: Box<AstTerm> },
    Backref { by_index: Option<int>, by_name: Option<Seq<char>> },
    Ahead { body: Box<AstTerm> },
    NotAhead { body: Box<AstTerm> },
    Behind { body: Box<AstTerm> },
    NotBehind { body: Box<AstTerm> },
}

impl ClassItem {
    pub open spec fn item(&self) -> AstItem {
        match self {
            ClassItem::Range(r) => AstItem::Range { from: r.from_ch@, to: r.to_ch@ },
            ClassItem::Char(c) => AstItem::Char { ch: c.ch@ },
            ClassItem::Esc(e) => AstItem::Esc { kind: e.escape_type@, property: opt_chars(e.property) },
            ClassItem::UnicodeProperty(u) => AstItem::Prop {
                name: opt_chars(u.name),
                value: u.value@,
                negated: u.negated,
            },
        }
    }
}

impl MaxBound {
    pub open spec fn max(&self) -> AstMax {
        match self {
            MaxBound::Finite(n) => AstMax::Finite(*n as int),
            MaxBound::Infinite(s) => AstMax::Infinite(s@),
            MaxBound::Null(_) => AstMax::Null,
        }
    }
}

impl Node {
    /// The ghost form of this tree.
    pub open spec fn term(&self) -> AstTerm
        decreases self,
    {
        match self {
            Node::Alternation(a) => AstTerm::Alt {
                branches: Seq::new(
                    a.branches.len() as nat,
                    |i: int|
                        if 0 <= i < a.branches.len() {
                            a.branches[i].term()
                        } else {
                            AstTerm::Dot
                        },
                ),
            },
            Node::Sequence(s) => AstTerm::Cat {
                parts: Seq::new(
                    s.parts.len() as nat,
                    |i: int|
                        if 0 <= i < s.parts.len() {
                            s.parts[i].term()
                        } else {
                            AstTerm::Dot
                        },
                ),
            },
            Node::Literal(l) => AstTerm::Lit { value: l.value@ },
            Node::Dot(_) => AstTerm::Dot,
            Node::Anchor(a) => AstTerm::Anchor { at: a.at@ },
            Node::CharacterClass(c) => AstTerm::Class {
                negated: c.negated,
                items: c.items@.map_values(|it: ClassItem| it.item()),
            },
            Node::Quantifier(q) => AstTerm::Quant {
                child: Box::new(q.target.child.term()),
                min: q.min as int,
                max: q.max.max(),
                mode: q.mode@,
                greedy: q.greedy,
                lazy: q.lazy,
                possessive: q.possessive,
            },
            Node::Group(g) => AstTerm::Group {
                capturing: g.capturing,
                name: opt_chars(g.name),
                atomic: g.atomic,
                body: Box::new(g.body.term()),
            },
            Node::Backreference(b) => AstTerm::Backref {
                by_index: opt_int(b.by_index),
                by_name: opt_chars(b.by_name),
            },
            Node::Lookahead(l) => AstTerm::Ahead { body: Box::new(l.body.term()) },
            Node::NegativeLookahead(l) => AstTerm::NotAhead { body: Box::new(l.body.term()) },
            Node::Lookbehind(l) => AstTerm::Behind { body: Box::new(l.body.term()) },
            Node::NegativeLookbehind(l) => AstTerm::NotBehind { body: Box::new(l.body.term()) },
        }
    }
}

} // verus!
