//! PCRE2 emitter: renders an IR tree as PCRE2 pattern text.
use vstd::prelude::*;
use crate::ir::{IRClassItem, IRMaxBound, IROp, IrItem, IrTerm, items_of, terms_of};
use crate::nodes::Flags;
use crate::text::{digits, join, push_char, push_digits, push_text, str_eq};

verus! {

/// Whether `c` is a PCRE2 metacharacter outside a class.
pub open spec fn is_meta(c: char) -> bool {
    c == '.' || c == '*' || c == '+' || c == '?' || c == '^' || c == '$' || c == '|' || c == '('
        || c == ')' || c == '[' || c == ']' || c == '{' || c == '}' || c == '\\'
}

/// The letter of the backslash form of a control character, if it is one.
pub open spec fn control_letter(c: char) -> Option<char> {
    if c == '\n' {
        Some('n')
    } else if c == '\r' {
        Some('r')
    } else if c == '\t' {
        Some('t')
    } else if c == '\x0C' {
        Some('f')
    } else if c == '\x0B' {
        Some('v')
    } else {
        None
    }
}

/// One literal character as PCRE2 text.
pub open spec fn escape_lit_char(c: char) -> Seq<char> {
    if is_meta(c) {
        seq!['\\', c]
    } else if control_letter(c) is Some {
        seq!['\\', control_letter(c)->0]
    } else {
        seq![c]
    }
}

/// One character inside a class as PCRE2 text.
pub open spec fn escape_class_char(c: char) -> Seq<char> {
    if c == ']' || c == '\\' || c == '^' || c == '-' {
        seq!['\\', c]
    } else if control_letter(c) is Some {
        seq!['\\', control_letter(c)->0]
    } else {
        seq![c]
    }
}

/// Literal text as PCRE2 text.
pub open spec fn escape_text(s: Seq<char>) -> Seq<char>
    decreases s.len(),
{
    if s.len() == 0 {
        seq![]
    } else {
        escape_text(s.drop_last()) + escape_lit_char(s.last())
    }
}

/// Class-member text as PCRE2 text.
pub open spec fn escape_class_text(s: Seq<char>) -> Seq<char>
    decreases s.len(),
{
    if s.len() == 0 {
        seq![]
    } else {
        escape_class_text(s.drop_last()) + escape_class_char(s.last())
    }
}

/// Decimal text of an integer, with a leading `-` when negative.
pub open spec fn decimal(n: int) -> Seq<char> {
    if n < 0 {
        seq!['-'] + digits((-n) as nat)
    } else {
        digits(n as nat)
    }
}

/// The shortest quantifier token for the bounds.
pub open spec fn quant_token(min: int, max: Option<int>) -> Seq<char> {
    match max {
        None => if min == 0 {
            "*"@
        } else if min == 1 {
            "+"@
        } else {
            "{"@ + decimal(min) + ",}"@
        },
        Some(x) => if min == 0 && x == 1 {
            "?"@
        } else if min == x {
            "{"@ + decimal(min) + "}"@
        } else {
            "{"@ + decimal(min) + ","@ + decimal(x) + "}"@
        },
    }
}

/// The suffix that selects a quantifier mode.
pub open spec fn mode_suffix(mode: Seq<char>) -> Seq<char> {
    if mode == "Lazy"@ {
        "?"@
    } else if mode == "Possessive"@ {
        "+"@
    } else {
        seq![]
    }
}

/// Whether an anchor name is one the emitter knows.
pub open spec fn anchor_known(at: Seq<char>) -> bool {
    at == "Start"@ || at == "End"@ || at == "WordBoundary"@ || at == "NotWordBoundary"@ || at
        == "AbsoluteStart"@ || at == "EndBeforeFinalNewline"@ || at == "AbsoluteEnd"@
}

/// The PCRE2 token of a known anchor.
pub open spec fn anchor_token(at: Seq<char>) -> Seq<char> {
    if at == "Start"@ {
        "^"@
    } else if at == "End"@ {
        "$"@
    } else if at == "WordBoundary"@ {
        "\\b"@
    } else if at == "NotWordBoundary"@ {
        "\\B"@
    } else if at == "AbsoluteStart"@ {
        "\\A"@
    } else if at == "EndBeforeFinalNewline"@ {
        "\\Z"@
    } else {
        "\\z"@
    }
}

/// The opening of a lookaround.
pub open spec fn look_open(dir: Seq<char>, neg: bool) -> Seq<char> {
    if dir == "Ahead"@ {
        if neg {
            "(?!"@
        } else {
            "(?="@
        }
    } else if neg {
        "(?<!"@
    } else {
        "(?<="@
    }
}

/// A class escape as text: backslash, kind, and the property in braces.
pub open spec fn escape_item_text(kind: Seq<char>, property: Option<Seq<char>>) -> Seq<char> {
    match property {
        Some(p) => "\\"@ + kind + "{"@ + p + "}"@,
        None => "\\"@ + kind,
    }
}

/// A class member as PCRE2 text.
pub open spec fn emit_item(it: IrItem) -> Seq<char> {
    match it {
        IrItem::Char { ch } => escape_class_text(ch),
        IrItem::Range { from, to } => escape_class_text(from) + "-"@ + escape_class_text(to),
        IrItem::Esc { kind, property } => escape_item_text(kind, property),
    }
}

/// Whether a kind is a one-letter shorthand or property escape.
pub open spec fn shorthand_kind(kind: Seq<char>) -> bool {
    kind == "d"@ || kind == "D"@ || kind == "w"@ || kind == "W"@ || kind == "s"@ || kind == "S"@
        || kind == "p"@ || kind == "P"@
}

/// The kind of the complementary escape (`d` and `D`, and so on).
pub open spec fn flip_kind(kind: Seq<char>) -> Seq<char> {
    if kind == "d"@ {
        "D"@
    } else if kind == "D"@ {
        "d"@
    } else if kind == "w"@ {
        "W"@
    } else if kind == "W"@ {
        "w"@
    } else if kind == "s"@ {
        "S"@
    } else if kind == "S"@ {
        "s"@
    } else if kind == "p"@ {
        "P"@
    } else {
        "p"@
    }
}

/// Concatenation of the members of a class.
pub open spec fn emit_items(items: Seq<IrItem>) -> Seq<char> {
    join(items.map_values(|it: IrItem| emit_item(it)), seq![])
}

/// A character class as PCRE2 text. A class whose only member is a
/// shorthand or property escape is written as that escape alone, with the
/// complementary escape when the class is negated (`\w`, `\D`, `\p{L}`).
pub open spec fn emit_class(negated: bool, items: Seq<IrItem>) -> Seq<char> {
    let bracketed = "["@ + (if negated {
        "^"@
    } else {
        seq![]
    }) + emit_items(items) + "]"@;
    if items.len() == 1 {
        match items[0] {
            IrItem::Esc { kind, property } => if shorthand_kind(kind) {
                escape_item_text(
                    if negated {
                        flip_kind(kind)
                    } else {
                        kind
                    },
                    property,
                )
            } else {
                bracketed
            },
            _ => bracketed,
        }
    } else {
        bracketed
    }
}

/// PCRE2 text of each of a list of trees.
pub open spec fn emit_each(ts: Seq<IrTerm>) -> Seq<Seq<char>>
    decreases ts,
{
    Seq::new(
        ts.len(),
        |i: int|
            if 0 <= i < ts.len() {
                emit(ts[i])
            } else {
                seq![]
            },
    )
}

/// PCRE2 text of an IR tree.
pub open spec fn emit(t: IrTerm) -> Seq<char>
    decreases t,
{
    match t {
        IrTerm::Lit { value } => escape_text(value),
        IrTerm::Dot => "."@,
        IrTerm::Anchor { at } => anchor_token(at),
        IrTerm::Cat { parts } => join(emit_each(parts), seq![]),
        IrTerm::Alt { branches } => join(emit_each(branches), "|"@),
        IrTerm::Quant { child, min, max, mode } => emit(*child) + quant_token(min, max) + mode_suffix(mode),
        IrTerm::Group { capturing, name, atomic, body } => if atomic {
            "(?>"@ + emit(*body) + ")"@
        } else if name is Some {
            "(?<"@ + name->0 + ">"@ + emit(*body) + ")"@
        } else if !capturing {
            "(?:"@ + emit(*body) + ")"@
        } else {
            "("@ + emit(*body) + ")"@
        },
        IrTerm::Look { dir, neg, body } => look_open(dir, neg) + emit(*body) + ")"@,
        IrTerm::Backref { by_index, by_name } => match by_name {
            Some(n) => "\\k<"@ + n + ">"@,
            None => "\\"@ + decimal(by_index->0),
        },
        IrTerm::Class { negated, items } => emit_class(negated, items),
    }
}

/// Whether the emitter can render `t`: every anchor is known, every
/// lookaround looks ahead or behind, every backreference has a name or an
/// index.
pub open spec fn emittable(t: IrTerm) -> bool
    decreases t,
{
    match t {
        IrTerm::Anchor { at } => anchor_known(at),
        IrTerm::Cat { parts } => forall|i: int| 0 <= i < parts.len() ==> emittable(#[trigger] parts[i]),
        IrTerm::Alt { branches } => forall|i: int| 0 <= i < branches.len() ==> emittable(#[trigger] branches[i]),
        IrTerm::Quant { child, .. } => emittable(*child),
        IrTerm::Group { body, .. } => emittable(*body),
        IrTerm::Look { dir, body, .. } => (dir == "Ahead"@ || dir == "Behind"@) && emittable(*body),
        IrTerm::Backref { by_index, by_name } => by_index is Some || by_name is Some,
        _ => true,
    }
}

/// The letters of the set flags, in the order `i`, `m`, `s`, `u`, `x`.
pub open spec fn flag_letters(f: Flags) -> Seq<char> {
    (if f.ignore_case {
        seq!['i']
    } else {
        seq![]
    }) + (if f.multiline {
        seq!['m']
    } else {
        seq![]
    }) + (if f.dot_all {
        seq!['s']
    } else {
        seq![]
    }) + (if f.unicode {
        seq!['u']
    } else {
        seq![]
    }) + (if f.extended {
        seq!['x']
    } else {
        seq![]
    })
}

/// Emitter of PCRE2 patterns.
pub struct PCRE2Emitter {
    flags: Flags,
}

impl PCRE2Emitter {
    /// The flags this emitter reports.
    pub closed spec fn flags(&self) -> Flags {
        self.flags
    }

    /// A new emitter with the given flags.
    pub fn new(flags: Flags) -> (r: Self)
        ensures
            r.flags() == flags,
    {
        Self { flags }
    }

    /// The PCRE2 pattern text of `ir`.
    pub fn emit(&self, ir: &IROp) -> (r: String)
        requires
            emittable(ir.term()),
        ensures
            r@ == emit(ir.term()),
    {
        self.emit_node(ir)
    }

    /// Whether `emit` accepts `ir`.
    pub fn can_emit(&self, ir: &IROp) -> (r: bool)
        ensures
            r == emittable(ir.term()),
        decreases ir, 1nat,
    {
        match ir {
            IROp::Anchor(a) => {
                let at = a.at.as_str();
                proof {
                    reveal_strlit("Start");
                }
                str_eq(at, "Start") || str_eq(at, "End") || str_eq(at, "WordBoundary") || str_eq(
                    at,
                    "NotWordBoundary",
                ) || str_eq(at, "AbsoluteStart") || str_eq(at, "EndBeforeFinalNewline") || str_eq(
                    at,
                    "AbsoluteEnd",
                )
            },
            IROp::Sequence(s) => {
                let r = self.can_emit_all(&s.parts);
                proof {
                    if let IrTerm::Cat { parts } = ir.term() {
                        assert(parts =~= terms_of(s.parts@));
                    }
                }
                r
            },
            IROp::Alt(a) => {
                let r = self.can_emit_all(&a.branches);
                proof {
                    if let IrTerm::Alt { branches } = ir.term() {
                        assert(branches =~= terms_of(a.branches@));
                    }
                }
                r
            },
            IROp::Quant(q) => self.can_emit(&q.child),
            IROp::Group(g) => self.can_emit(&g.body),
            IROp::Look(l) => (str_eq(l.dir.as_str(), "Ahead") || str_eq(l.dir.as_str(), "Behind"))
                && self.can_emit(&l.body),
            IROp::Backref(b) => b.by_index.is_some() || b.by_name.is_some(),
            _ => true,
        }
    }

    /// Whether `emit` accepts each of `ops`.
    fn can_emit_all(&self, ops: &Vec<IROp>) -> (r: bool)
        ensures
            r == forall|i: int| 0 <= i < ops.len() ==> emittable(#[trigger] terms_of(ops@)[i]),
        decreases ops, 0nat,
    {
        let mut i: usize = 0;
        while i < ops.len()
            invariant
                i <= ops.len(),
                forall|j: int| 0 <= j < i ==> emittable(#[trigger] terms_of(ops@)[j]),
            decreases ops.len() - i,
        {
            if !self.can_emit(&ops[i]) {
                assert(terms_of(ops@)[i as int] == ops@[i as int].term());
                return false;
            }
            i = i + 1;
        }
        true
    }

    /// PCRE2 text of the parts of a sequence or the branches of an
    /// alternation, joined by `sep`.
    fn emit_joined(&self, ops: &Vec<IROp>, sep: &str) -> (r: String)
        requires
            forall|i: int| 0 <= i < ops.len() ==> emittable(#[trigger] terms_of(ops@)[i]),
        ensures
            r@ == join(emit_each(terms_of(ops@)), sep@),
        decreases ops, 0nat,
    {
        let ghost es = emit_each(terms_of(ops@));
        let mut out = String::new();
        let mut i: usize = 0;
        while i < ops.len()
            invariant
                i <= ops.len(),
                es == emit_each(terms_of(ops@)),
                forall|j: int| 0 <= j < ops.len() ==> emittable(#[trigger] terms_of(ops@)[j]),
                out@ == join(es.take(i as int), sep@),
            decreases ops.len() - i,
        {
            assert(emittable(terms_of(ops@)[i as int]));
            if i > 0 {
                push_text(&mut out, sep);
            }
            let part = self.emit_node(&ops[i]);
            push_text(&mut out, part.as_str());
            proof {
                assert(es.take(i + 1).drop_last() =~= es.take(i as int));
                assert(es[i as int] == part@);
                if i == 0 {
                    assert(es.take(1) =~= seq![part@]);
                    assert(Seq::<char>::empty() + part@ =~= part@);
                }
            }
            i = i + 1;
        }
        proof {
            assert(es.take(ops.len() as int) =~= es);
        }
        out
    }

    /// PCRE2 text of one node.
    fn emit_node(&self, node: &IROp) -> (r: String)
        requires
            emittable(node.term()),
        ensures
            r@ == emit(node.term()),
        decreases node, 1nat,
    {
        match node {
            IROp::Lit(lit) => {
                let r = self.emit_literal(lit.value.as_str());
                assert(r@ == emit(node.term()));
                r
            },
            IROp::Dot(_) => {
                let r = String::from_str(".");
                assert(r@ == emit(node.term()));
                r
            },
            IROp::Anchor(anchor) => {
                let at = anchor.at.as_str();
                let r = if str_eq(at, "Start") {
                    String::from_str("^")
                } else if str_eq(at, "End") {
                    String::from_str("$")
                } else if str_eq(at, "WordBoundary") {
                    String::from_str("\\b")
                } else if str_eq(at, "NotWordBoundary") {
                    String::from_str("\\B")
                } else if str_eq(at, "AbsoluteStart") {
                    String::from_str("\\A")
                } else if str_eq(at, "EndBeforeFinalNewline") {
                    String::from_str("\\Z")
                } else {
                    String::from_str("\\z")
                };
                assert(r@ == emit(node.term()));
                r
            },
            IROp::Sequence(seq) => {
                proof {
                    reveal_strlit("");
                    assert(""@ =~= Seq::<char>::empty());
                    if let IrTerm::Cat { parts } = node.term() {
                        assert(parts =~= terms_of(seq.parts@));
                    }
                }
                let r = self.emit_joined(&seq.parts, "");
                assert(r@ == emit(node.term()));
                r
            },
            IROp::Alt(alt) => {
                proof {
                    if let IrTerm::Alt { branches } = node.term() {
                        assert(branches =~= terms_of(alt.branches@));
                    }
                }
                let r = self.emit_joined(&alt.branches, "|");
                assert(r@ == emit(node.term()));
                r
            },
            IROp::Quant(quant) => {
                let mut out = self.emit_node(&quant.child);
                let max = match &quant.max {
                    IRMaxBound::Finite(n) => Some(*n),
                    IRMaxBound::Infinite(_) => None,
                };
                let min = quant.min;
                match max {
                    None => {
                        if min == 0 {
                            push_text(&mut out, "*");
                        } else if min == 1 {
                            push_text(&mut out, "+");
                        } else {
                            push_text(&mut out, "{");
                            push_decimal(&mut out, min);
                            push_text(&mut out, ",}");
                        }
                    },
                    Some(x) => {
                        if min == 0 && x == 1 {
                            push_text(&mut out, "?");
                        } else if min == x {
                            push_text(&mut out, "{");
                            push_decimal(&mut out, min);
                            push_text(&mut out, "}");
                        } else {
                            push_text(&mut out, "{");
                            push_decimal(&mut out, min);
                            push_text(&mut out, ",");
                            push_decimal(&mut out, x);
                            push_text(&mut out, "}");
                        }
                    },
                }
                if str_eq(quant.mode.as_str(), "Lazy") {
                    push_text(&mut out, "?");
                } else if str_eq(quant.mode.as_str(), "Possessive") {
                    push_text(&mut out, "+");
                }
                proof {
                    let t = node.term();
                    assert(out@ =~= emit(quant.child.term()) + quant_token(min as int, quant.max.bound()) + mode_suffix(quant.mode@));
                }
                out
            },
            IROp::Group(group) => {
                let body = self.emit_node(&group.body);
                let mut out = String::new();
                if group.atomic {
                    push_text(&mut out, "(?>");
                } else {
                    match &group.name {
                        Some(name) => {
                            push_text(&mut out, "(?<");
                            push_text(&mut out, name.as_str());
                            push_text(&mut out, ">");
                        },
                        None => {
                            if !group.capturing {
                                push_text(&mut out, "(?:");
                            } else {
                                push_text(&mut out, "(");
                            }
                        },
                    }
                }
                push_text(&mut out, body.as_str());
                push_text(&mut out, ")");
                proof {
                    assert(out@ =~= emit(node.term()));
                }
                out
            },
            IROp::Look(look) => {
                let body = self.emit_node(&look.body);
                let mut out = String::new();
                if str_eq(look.dir.as_str(), "Ahead") {
                    if look.neg {
                        push_text(&mut out, "(?!");
                    } else {
                        push_text(&mut out, "(?=");
                    }
                } else if look.neg {
                    push_text(&mut out, "(?<!");
                } else {
                    push_text(&mut out, "(?<=");
                }
                push_text(&mut out, body.as_str());
                push_text(&mut out, ")");
                proof {
                    assert(out@ =~= emit(node.term()));
                }
                out
            },
            IROp::Backref(backref) => {
                let mut out = String::new();
                match &backref.by_name {
                    Some(name) => {
                        push_text(&mut out, "\\k<");
                        push_text(&mut out, name.as_str());
                        push_text(&mut out, ">");
                    },
                    None => {
                        let index = match backref.by_index {
                            Some(n) => n,
                            None => 0,
                        };
                        push_text(&mut out, "\\");
                        push_decimal(&mut out, index);
                    },
                }
                proof {
                    assert(out@ =~= emit(node.term()));
                }
                out
            },
            IROp::CharClass(cc) => {
                let r = self.emit_class(cc.negated, &cc.items);
                assert(r@ == emit(node.term()));
                r
            },
        }
    }

    /// PCRE2 text of a character class.
    fn emit_class(&self, negated: bool, items: &Vec<IRClassItem>) -> (r: String)
        ensures
            r@ == emit_class(negated, items_of(items@)),
    {
        let ghost its = items_of(items@);
        if items.len() == 1 {
            match &items[0] {
                IRClassItem::Esc(esc) => {
                    let kind = esc.escape_type.as_str();
                    proof {
                        reveal_strlit("d");
                        reveal_strlit("D");
                        reveal_strlit("w");
                        reveal_strlit("W");
                        reveal_strlit("s");
                        reveal_strlit("S");
                        reveal_strlit("p");
                        reveal_strlit("P");
                    }
                    if str_eq(kind, "d") || str_eq(kind, "D") || str_eq(kind, "w") || str_eq(kind, "W")
                        || str_eq(kind, "s") || str_eq(kind, "S") || str_eq(kind, "p") || str_eq(kind, "P") {
                        let shown = if !negated {
                            String::from_str(kind)
                        } else if str_eq(kind, "d") {
                            String::from_str("D")
                        } else if str_eq(kind, "D") {
                            String::from_str("d")
                        } else if str_eq(kind, "w") {
                            String::from_str("W")
                        } else if str_eq(kind, "W") {
                            String::from_str("w")
                        } else if str_eq(kind, "s") {
                            String::from_str("S")
                        } else if str_eq(kind, "S") {
                            String::from_str("s")
                        } else if str_eq(kind, "p") {
                            String::from_str("P")
                        } else {
                            String::from_str("p")
                        };
                        let r = escape_item_string(shown.as_str(), &esc.property);
                        proof {
                            assert(its[0] == items@[0].item());
                        }
                        return r;
                    }
                },
                _ => {},
            }
        }
        let mut out = String::new();
        push_text(&mut out, "[");
        if negated {
            push_text(&mut out, "^");
        }
        let ghost es = its.map_values(|it: IrItem| emit_item(it));
        let ghost start = out@;
        let mut i: usize = 0;
        while i < items.len()
            invariant
                i <= items.len(),
                its == items_of(items@),
                es == its.map_values(|it: IrItem| emit_item(it)),
                out@ == start + join(es.take(i as int), seq![]),
            decreases items.len() - i,
        {
            let part = self.emit_class_item(&items[i]);
            let ghost before = out@;
            push_text(&mut out, part.as_str());
            proof {
                assert(es[i as int] == part@);
                assert(es.take(i + 1).drop_last() =~= es.take(i as int));
                if i == 0 {
                    assert(es.take(1) =~= seq![part@]);
                    assert(join(es.take(0), seq![]) =~= Seq::<char>::empty());
                    assert(out@ =~= start + join(es.take(1), seq![]));
                } else {
                    assert(join(es.take(i + 1), seq![]) == join(es.take(i as int), seq![]) + Seq::<char>::empty() + part@);
                    assert(out@ =~= start + join(es.take(i + 1), seq![]));
                }
            }
            i = i + 1;
        }
        push_text(&mut out, "]");
        proof {
            assert(es.take(items.len() as int) =~= es);
            assert(out@ =~= emit_class(negated, its));
        }
        out
    }

    /// PCRE2 text of one class member.
    fn emit_class_item(&self, item: &IRClassItem) -> (r: String)
        ensures
            r@ == emit_item(item.item()),
    {
        match item {
            IRClassItem::Char(lit) => self.escape_class_char(lit.ch.as_str()),
            IRClassItem::Range(range) => {
                let mut out = self.escape_class_char(range.from_ch.as_str());
                push_text(&mut out, "-");
                let to = self.escape_class_char(range.to_ch.as_str());
                push_text(&mut out, to.as_str());
                out
            },
            IRClassItem::Esc(esc) => escape_item_string(esc.escape_type.as_str(), &esc.property),
        }
    }

    /// Literal text escaped for PCRE2.
    fn emit_literal(&self, s: &str) -> (r: String)
        ensures
            r@ == escape_text(s@),
    {
        let mut result = String::new();
        let n = s.unicode_len();
        let mut i: usize = 0;
        while i < n
            invariant
                n == s@.len(),
                i <= n,
                result@ == escape_text(s@.take(i as int)),
            decreases n - i,
        {
            let ch = s.get_char(i);
            let e = self.escape_char(ch);
            push_text(&mut result, e.as_str());
            proof {
                assert(s@.take(i + 1).drop_last() =~= s@.take(i as int));
            }
            i = i + 1;
        }
        proof {
            assert(s@.take(n as int) =~= s@);
        }
        result
    }

    /// One literal character escaped for PCRE2.
    fn escape_char(&self, ch: char) -> (r: String)
        ensures
            r@ == escape_lit_char(ch),
    {
        let mut out = String::new();
        if ch == '.' || ch == '*' || ch == '+' || ch == '?' || ch == '^' || ch == '$' || ch == '|'
            || ch == '(' || ch == ')' || ch == '[' || ch == ']' || ch == '{' || ch == '}' || ch == '\\' {
            push_char(&mut out, '\\');
            push_char(&mut out, ch);
        } else {
            push_control_or_char(&mut out, ch);
        }
        out
    }

    /// Class-member text escaped for use inside a class.
    fn escape_class_char(&self, s: &str) -> (r: String)
        ensures
            r@ == escape_class_text(s@),
    {
        let mut result = String::new();
        let n = s.unicode_len();
        let mut i: usize = 0;
        while i < n
            invariant
                n == s@.len(),
                i <= n,
                result@ == escape_class_text(s@.take(i as int)),
            decreases n - i,
        {
            let ch = s.get_char(i);
            let ghost before = result@;
            if ch == ']' || ch == '\\' || ch == '^' || ch == '-' {
                push_char(&mut result, '\\');
                push_char(&mut result, ch);
            } else {
                push_control_or_char(&mut result, ch);
            }
            proof {
                assert(s@.take(i + 1).drop_last() =~= s@.take(i as int));
                assert(result@ =~= before + escape_class_char(ch));
            }
            i = i + 1;
        }
        proof {
            assert(s@.take(n as int) =~= s@);
        }
        result
    }

    /// The letters of the set flags, in the order `i`, `m`, `s`, `u`, `x`.
    pub fn get_flags_string(&self) -> (r: String)
        ensures
            r@ == flag_letters(self.flags()),
    {
        let mut flags = String::new();
        if self.flags.ignore_case {
            push_char(&mut flags, 'i');
        }
        if self.flags.multiline {
            push_char(&mut flags, 'm');
        }
        if self.flags.dot_all {
            push_char(&mut flags, 's');
        }
        if self.flags.unicode {
            push_char(&mut flags, 'u');
        }
        if self.flags.extended {
            push_char(&mut flags, 'x');
        }
        proof {
            assert(flags@ =~= flag_letters(self.flags));
        }
        flags
    }
}

/// Appends the backslash form of a control character, or the character
/// itself.
fn push_control_or_char(out: &mut String, ch: char)
    ensures
        control_letter(ch) is Some ==> final(out)@ == old(out)@ + seq!['\\', control_letter(ch)->0],
        control_letter(ch) is None ==> final(out)@ == old(out)@.push(ch),
{
    if ch == '\n' {
        push_char(out, '\\');
        push_char(out, 'n');
    } else if ch == '\r' {
        push_char(out, '\\');
        push_char(out, 'r');
    } else if ch == '\t' {
        push_char(out, '\\');
        push_char(out, 't');
    } else if ch == '\x0C' {
        push_char(out, '\\');
        push_char(out, 'f');
    } else if ch == '\x0B' {
        push_char(out, '\\');
        push_char(out, 'v');
    } else {
        push_char(out, ch);
    }
    proof {
        assert(final(out)@ =~= old(out)@ + seq!['\\', control_letter(ch)->0] || control_letter(ch) is None);
    }
}

/// A class escape as text.
fn escape_item_string(kind: &str, property: &Option<String>) -> (r: String)
    ensures
        r@ == escape_item_text(kind@, crate::ir::opt_chars(*property)),
{
    let mut out = String::new();
    push_text(&mut out, "\\");
    push_text(&mut out, kind);
    match property {
        Some(p) => {
            push_text(&mut out, "{");
            push_text(&mut out, p.as_str());
            push_text(&mut out, "}");
        },
        None => {},
    }
    out
}

/// Appends the decimal text of `n`.
fn push_decimal(out: &mut String, n: i32)
    ensures
        final(out)@ == old(out)@ + decimal(n as int),
{
    if n < 0 {
        push_char(out, '-');
        let m: u32 = if n == i32::MIN {
            2147483648u32
        } else {
            (-n) as u32
        };
        let ghost mid = out@;
        push_digits(out, m as u128);
        proof {
            assert(final(out)@ =~= old(out)@ + decimal(n as int));
        }
    } else {
        push_digits(out, n as u128);
    }
}

} // verus!
