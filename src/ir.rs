//! Intermediate representation: the normalized, dialect-agnostic operation
//! tree produced by the compiler and consumed by the emitters.
//!
//! Each executable IR type has a ghost counterpart (`IrTerm`, `IrItem`) built
//! from sequences instead of vectors and strings; contracts are stated over it.
use vstd::prelude::*;
use crate::json::{JsonTerm, JsonValue};

verus! {

/// Alternation: matches any one of the branches.
#[derive(Debug, PartialEq)]
pub struct IRAlt {
    pub branches: Vec<IROp>,
}

/// Sequence: matches the parts one after another.
#[derive(Debug, PartialEq)]
pub struct IRSeq {
    pub parts: Vec<IROp>,
}

/// Literal string.
#[derive(Debug, Clone, PartialEq, Eq)]
pub struct IRLit {
    pub value: String,
}

/// Any single character.
#[derive(Debug, Clone, PartialEq, Eq)]
pub struct IRDot;

/// Zero-width position assertion ("Start", "End", "WordBoundary", ...).
#[derive(Debug, Clone, PartialEq, Eq)]
pub struct IRAnchor {
    pub at: String,
}

/// Character range inside a class.
#[derive(Debug, Clone, PartialEq, Eq)]
pub struct IRClassRange {
    pub from_ch: String,
    pub to_ch: String,
}

/// Literal character inside a class.
#[derive(Debug, Clone, PartialEq, Eq)]
pub struct IRClassLiteral {
    pub ch: String,
}

/// Shorthand class escape (`d`, `D`, `w`, `W`, `s`, `S`) or property escape
/// (`p`, `P` with a property name).
#[derive(Debug, Clone, PartialEq, Eq)]
pub struct IRClassEscape {
    pub escape_type: String,
    pub property: Option<String>,
}

/// One member of a character class.
#[derive(Debug, Clone, PartialEq, Eq)]
pub enum IRClassItem {
    Range(IRClassRange),
    Char(IRClassLiteral),
    Esc(IRClassEscape),
}

/// Character class.
#[derive(Debug, Clone, PartialEq, Eq)]
pub struct IRCharClass {
    pub negated: bool,
    pub items: Vec<IRClassItem>,
}

/// Upper bound of a quantifier.
#[derive(Debug, Clone, PartialEq, Eq)]
pub enum IRMaxBound {
    Finite(i32),
    Infinite(String),
}

/// Repetition of `child` between `min` and `max` times; `mode` is
/// "Greedy", "Lazy" or "Possessive".
#[derive(Debug, PartialEq)]
pub struct IRQuant {
    pub child: Box<IROp>,
    pub min: i32,
    pub max: IRMaxBound,
    pub mode: String,
}

/// Group: capturing or not, optionally named, optionally atomic.
#[derive(Debug, PartialEq)]
pub struct IRGroup {
    pub capturing: bool,
    pub body: Box<IROp>,
    pub name: Option<String>,
    pub atomic: bool,
}

/// Backreference by index or by name.
#[derive(Debug, Clone, PartialEq, Eq)]
pub struct IRBackref {
    pub by_index: Option<i32>,
    pub by_name: Option<String>,
}

/// Lookaround: `dir` is "Ahead" or "Behind", `neg` marks the negative form.
#[derive(Debug, PartialEq)]
pub struct IRLook {
    pub dir: String,
    pub neg: bool,
    pub body: Box<IROp>,
}

/// An IR operation.
#[derive(Debug, PartialEq)]
pub enum IROp {
    Alt(IRAlt),
    Sequence(IRSeq),
    Lit(IRLit),
    Dot(IRDot),
    Anchor(IRAnchor),
    CharClass(IRCharClass),
    Quant(IRQuant),
    Group(IRGroup),
    Backref(IRBackref),
    Look(IRLook),
}

/// Ghost form of a class member.
pub enum IrItem {
    Range { from: Seq<char>, to: Seq<char> },
    Char { ch: Seq<char> },
    Esc { kind: Seq<char>, property: Option<Seq<char>> },
}

/// Ghost form of an IR tree; a `max` of `None` is unbounded.
pub enum IrTerm {
    Alt { branches: Seq<IrTerm> },
    Cat { parts: Seq<IrTerm> },
    Lit { value: Seq<char> },
    Dot,
    Anchor { at: Seq<char> },
    Class { negated: bool, items: Seq<IrItem> },
    Quant { child: Box<IrTerm>, min: int, max: Option<int>, mode: Seq<char> },
    Group { capturing: bool, name: Option<Seq<char>>, atomic: bool, body: Box<IrTerm> },
    Backref { by_index: Option<int>, by_name: Option<Seq<char>> },
    Look { dir: Seq<char>, neg: bool, body: Box<IrTerm> },
}

/// The characters of an optional string.
pub open spec fn opt_chars(o: Option<String>) -> Option<Seq<char>> {
    match o {
        Some(s) => Some(s@),
        None => None,
    }
}

/// An optional `i32` as an optional integer.
pub open spec fn opt_int(o: Option<i32>) -> Option<int> {
    match o {
        Some(n) => Some(n as int),
        None => None,
    }
}

impl IRMaxBound {
    /// `None` for an unbounded maximum.
    pub open spec fn bound(&self) -> Option<int> {
        match self {
            IRMaxBound::Finite(n) => Some(*n as int),
            IRMaxBound::Infinite(_) => None,
        }
    }
}

impl IRClassItem {
    pub open spec fn item(&self) -> IrItem {
        match self {
            IRClassItem::Range(r) => IrItem::Range { from: r.from_ch@, to: r.to_ch@ },
            IRClassItem::Char(c) => IrItem::Char { ch: c.ch@ },
            IRClassItem::Esc(e) => IrItem::Esc { kind: e.escape_type@, property: opt_chars(e.property) },
        }
    }
}

/// The ghost forms of a list of class members.
pub open spec fn items_of(v: Seq<IRClassItem>) -> Seq<IrItem> {
    v.map_values(|it: IRClassItem| it.item())
}

impl IROp {
    /// The ghost form of this tree.
    pub open spec fn term(&self) -> IrTerm
        decreases self,
    {
        match self {
            IROp::Alt(a) => IrTerm::Alt {
                branches: Seq::new(
                    a.branches.len() as nat,
                    |i: int|
                        if 0 <= i < a.branches.len() {
                            a.branches[i].term()
                        } else {
                            IrTerm::Dot
                        },
                ),
            },
            IROp::Sequence(s) => IrTerm::Cat {
                parts: Seq::new(
                    s.parts.len() as nat,
                    |i: int|
                        if 0 <= i < s.parts.len() {
                            s.parts[i].term()
                        } else {
                            IrTerm::Dot
                        },
                ),
            },
            IROp::Lit(l) => IrTerm::Lit { value: l.value@ },
            IROp::Dot(_) => IrTerm::Dot,
            IROp::Anchor(a) => IrTerm::Anchor { at: a.at@ },
            IROp::CharClass(c) => IrTerm::Class { negated: c.negated, items: items_of(c.items@) },
            IROp::Quant(q) => IrTerm::Quant {
                child: Box::new(q.child.term()),
                min: q.min as int,
                max: q.max.bound(),
                mode: q.mode@,
            },
            IROp::Group(g) => IrTerm::Group {
                capturing: g.capturing,
                name: opt_chars(g.name),
                atomic: g.atomic,
                body: Box::new(g.body.term()),
            },
            IROp::Backref(b) => IrTerm::Backref { by_index: opt_int(b.by_index), by_name: opt_chars(b.by_name) },
            IROp::Look(l) => IrTerm::Look { dir: l.dir@, neg: l.neg, body: Box::new(l.body.term()) },
        }
    }
}

/// The ghost forms of a list of IR trees.
pub open spec fn terms_of(v: Seq<IROp>) -> Seq<IrTerm> {
    v.map_values(|op: IROp| op.term())
}

/// A JSON object member.
pub open spec fn member(k: Seq<char>, v: JsonTerm) -> (Seq<char>, JsonTerm) {
    (k, v)
}

/// The `"ir"` member naming a node kind.
pub open spec fn tag_member(kind: Seq<char>) -> (Seq<char>, JsonTerm) {
    member("ir"@, JsonTerm::Str(kind))
}

/// The members for an optional string: one member when present.
pub open spec fn opt_str_member(k: Seq<char>, v: Option<Seq<char>>) -> Seq<(Seq<char>, JsonTerm)> {
    match v {
        Some(x) => seq![member(k, JsonTerm::Str(x))],
        None => seq![],
    }
}

/// Interchange form of a class member.
pub open spec fn item_json(it: IrItem) -> JsonTerm {
    match it {
        IrItem::Range { from, to } => JsonTerm::Object(
            seq![tag_member("Range"@), member("from"@, JsonTerm::Str(from)), member("to"@, JsonTerm::Str(to))],
        ),
        IrItem::Char { ch } => JsonTerm::Object(seq![tag_member("Char"@), member("char"@, JsonTerm::Str(ch))]),
        IrItem::Esc { kind, property } => JsonTerm::Object(
            seq![tag_member("Esc"@), member("type"@, JsonTerm::Str(kind))] + opt_str_member("property"@, property),
        ),
    }
}

/// Interchange forms of class members.
pub open spec fn items_json(items: Seq<IrItem>) -> Seq<JsonTerm> {
    items.map_values(|it: IrItem| item_json(it))
}

/// Interchange forms of a list of trees.
pub open spec fn json_each(ts: Seq<IrTerm>) -> Seq<JsonTerm>
    decreases ts,
{
    Seq::new(
        ts.len(),
        |i: int|
            if 0 <= i < ts.len() {
                ir_json(ts[i])
            } else {
                JsonTerm::Null
            },
    )
}

/// Interchange form of an IR tree: an object whose `"ir"` member names the
/// kind, with the kind's own fields; an unbounded maximum is `"Inf"`.
pub open spec fn ir_json(t: IrTerm) -> JsonTerm
    decreases t,
{
    match t {
        IrTerm::Alt { branches } => JsonTerm::Object(
            seq![tag_member("Alt"@), member("branches"@, JsonTerm::Array(json_each(branches)))],
        ),
        IrTerm::Cat { parts } => JsonTerm::Object(
            seq![tag_member("Seq"@), member("parts"@, JsonTerm::Array(json_each(parts)))],
        ),
        IrTerm::Lit { value } => JsonTerm::Object(seq![tag_member("Lit"@), member("value"@, JsonTerm::Str(value))]),
        IrTerm::Dot => JsonTerm::Object(seq![tag_member("Dot"@)]),
        IrTerm::Anchor { at } => JsonTerm::Object(seq![tag_member("Anchor"@), member("at"@, JsonTerm::Str(at))]),
        IrTerm::Class { negated, items } => JsonTerm::Object(
            seq![
                tag_member("CharClass"@),
                member("negated"@, JsonTerm::Bool(negated)),
                member("items"@, JsonTerm::Array(items_json(items))),
            ],
        ),
        IrTerm::Quant { child, min, max, mode } => JsonTerm::Object(
            seq![
                tag_member("Quant"@),
                member("child"@, ir_json(*child)),
                member("min"@, JsonTerm::Int(min)),
                member(
                    "max"@,
                    match max {
                        Some(n) => JsonTerm::Int(n),
                        None => JsonTerm::Str("Inf"@),
                    },
                ),
                member("mode"@, JsonTerm::Str(mode)),
            ],
        ),
        IrTerm::Group { capturing, name, atomic, body } => JsonTerm::Object(
            seq![
                tag_member("Group"@),
                member("capturing"@, JsonTerm::Bool(capturing)),
                member("body"@, ir_json(*body)),
            ] + opt_str_member("name"@, name) + if atomic {
                seq![member("atomic"@, JsonTerm::Bool(true))]
            } else {
                seq![]
            },
        ),
        IrTerm::Backref { by_index, by_name } => JsonTerm::Object(
            seq![tag_member("Backref"@)] + match by_index {
                Some(n) => seq![member("byIndex"@, JsonTerm::Int(n))],
                None => seq![],
            } + opt_str_member("byName"@, by_name),
        ),
        IrTerm::Look { dir, neg, body } => JsonTerm::Object(
            seq![
                tag_member("Look"@),
                member("dir"@, JsonTerm::Str(dir)),
                member("neg"@, JsonTerm::Bool(neg)),
                member("body"@, ir_json(*body)),
            ],
        ),
    }
}

/// The ghost forms of a list of object members.
pub open spec fn members_of(v: Seq<(String, JsonValue)>) -> Seq<(Seq<char>, JsonTerm)> {
    v.map_values(|m: (String, JsonValue)| (m.0@, m.1.term()))
}

/// An object from its members.
fn object(members: Vec<(String, JsonValue)>) -> (r: JsonValue)
    ensures
        r.term() == JsonTerm::Object(members_of(members@)),
{
    let r = JsonValue::Object(members);
    proof {
        if let JsonTerm::Object(ms) = r.term() {
            assert(ms =~= members_of(members@));
        }
    }
    r
}

/// Appends the member `key: value`.
fn add_member(members: &mut Vec<(String, JsonValue)>, key: &str, value: JsonValue)
    ensures
        members_of(final(members)@) == members_of(old(members)@).push((key@, value.term())),
{
    let ghost vt = value.term();
    members.push((String::from_str(key), value));
    proof {
        assert(members_of(members@) =~= members_of(old(members)@).push((key@, vt)));
    }
}

/// Appends the member `key: value` when `value` is present.
fn add_opt_member(members: &mut Vec<(String, JsonValue)>, key: &str, value: &Option<String>)
    ensures
        members_of(final(members)@) == members_of(old(members)@) + opt_str_member(key@, opt_chars(*value)),
{
    match value {
        Some(v) => add_member(members, key, JsonValue::Str(v.clone())),
        None => {},
    }
    proof {
        assert(members_of(members@) =~= members_of(old(members)@) + opt_str_member(key@, opt_chars(*value)));
    }
}

impl IRClassRange {
    /// Interchange form.
    pub fn to_dict(&self) -> (r: JsonValue)
        ensures
            r.term() == item_json(IrItem::Range { from: self.from_ch@, to: self.to_ch@ }),
    {
        let mut m: Vec<(String, JsonValue)> = Vec::new();
        add_member(&mut m, "ir", JsonValue::Str(String::from_str("Range")));
        add_member(&mut m, "from", JsonValue::Str(self.from_ch.clone()));
        add_member(&mut m, "to", JsonValue::Str(self.to_ch.clone()));
        proof {
            assert(members_of(m@) =~= seq![tag_member("Range"@), member("from"@, JsonTerm::Str(self.from_ch@)), member("to"@, JsonTerm::Str(self.to_ch@))]);
        }
        object(m)
    }
}

impl IRClassLiteral {
    /// Interchange form.
    pub fn to_dict(&self) -> (r: JsonValue)
        ensures
            r.term() == item_json(IrItem::Char { ch: self.ch@ }),
    {
        let mut m: Vec<(String, JsonValue)> = Vec::new();
        add_member(&mut m, "ir", JsonValue::Str(String::from_str("Char")));
        add_member(&mut m, "char", JsonValue::Str(self.ch.clone()));
        proof {
            assert(members_of(m@) =~= seq![tag_member("Char"@), member("char"@, JsonTerm::Str(self.ch@))]);
        }
        object(m)
    }
}

impl IRClassEscape {
    /// Interchange form.
    pub fn to_dict(&self) -> (r: JsonValue)
        ensures
            r.term() == item_json(IrItem::Esc { kind: self.escape_type@, property: opt_chars(self.property) }),
    {
        let mut m: Vec<(String, JsonValue)> = Vec::new();
        add_member(&mut m, "ir", JsonValue::Str(String::from_str("Esc")));
        add_member(&mut m, "type", JsonValue::Str(self.escape_type.clone()));
        proof {
            assert(members_of(m@) =~= seq![tag_member("Esc"@), member("type"@, JsonTerm::Str(self.escape_type@))]);
        }
        add_opt_member(&mut m, "property", &self.property);
        object(m)
    }
}

impl IRClassItem {
    /// Interchange form.
    pub fn to_dict(&self) -> (r: JsonValue)
        ensures
            r.term() == item_json(self.item()),
    {
        match self {
            IRClassItem::Range(r) => r.to_dict(),
            IRClassItem::Char(c) => c.to_dict(),
            IRClassItem::Esc(e) => e.to_dict(),
        }
    }
}

/// Interchange forms of a list of trees.
fn dicts_of(ops: &Vec<IROp>) -> (r: JsonValue)
    ensures
        r.term() == JsonTerm::Array(json_each(terms_of(ops@))),
    decreases ops, 0nat,
{
    let mut out: Vec<JsonValue> = Vec::new();
    let mut i: usize = 0;
    while i < ops.len()
        invariant
            i <= ops.len(),
            out.len() == i,
            forall|j: int| 0 <= j < i ==> (#[trigger] out[j]).term() == ir_json(ops[j].term()),
        decreases ops.len() - i,
    {
        out.push(ops[i].to_dict());
        i = i + 1;
    }
    let r = JsonValue::Array(out);
    proof {
        if let JsonTerm::Array(ts) = r.term() {
            assert(ts =~= json_each(terms_of(ops@)));
        }
    }
    r
}

impl IROp {
    /// Interchange form of this tree.
    pub fn to_dict(&self) -> (r: JsonValue)
        ensures
            r.term() == ir_json(self.term()),
        decreases self, 1nat,
    {
        let mut m: Vec<(String, JsonValue)> = Vec::new();
        let ghost t = self.term();
        match self {
            IROp::Alt(a) => {
                add_member(&mut m, "ir", JsonValue::Str(String::from_str("Alt")));
                add_member(&mut m, "branches", dicts_of(&a.branches));
                proof {
                    assert(terms_of(a.branches@) =~= t->Alt_branches);
                    assert(members_of(m@) =~= seq![tag_member("Alt"@), member("branches"@, JsonTerm::Array(json_each(t->Alt_branches)))]);
                }
            },
            IROp::Sequence(sq) => {
                add_member(&mut m, "ir", JsonValue::Str(String::from_str("Seq")));
                add_member(&mut m, "parts", dicts_of(&sq.parts));
                proof {
                    assert(terms_of(sq.parts@) =~= t->Cat_parts);
                    assert(members_of(m@) =~= seq![tag_member("Seq"@), member("parts"@, JsonTerm::Array(json_each(t->Cat_parts)))]);
                }
            },
            IROp::Lit(l) => {
                add_member(&mut m, "ir", JsonValue::Str(String::from_str("Lit")));
                add_member(&mut m, "value", JsonValue::Str(l.value.clone()));
                proof {
                    assert(members_of(m@) =~= seq![tag_member("Lit"@), member("value"@, JsonTerm::Str(l.value@))]);
                }
            },
            IROp::Dot(_) => {
                add_member(&mut m, "ir", JsonValue::Str(String::from_str("Dot")));
                proof {
                    assert(members_of(m@) =~= seq![tag_member("Dot"@)]);
                }
            },
            IROp::Anchor(a) => {
                add_member(&mut m, "ir", JsonValue::Str(String::from_str("Anchor")));
                add_member(&mut m, "at", JsonValue::Str(a.at.clone()));
                proof {
                    assert(members_of(m@) =~= seq![tag_member("Anchor"@), member("at"@, JsonTerm::Str(a.at@))]);
                }
            },
            IROp::CharClass(c) => {
                let mut items: Vec<JsonValue> = Vec::new();
                let mut i: usize = 0;
                while i < c.items.len()
                    invariant
                        i <= c.items.len(),
                        items.len() == i,
                        forall|j: int| 0 <= j < i ==> (#[trigger] items[j]).term() == item_json(c.items@[j].item()),
                    decreases c.items.len() - i,
                {
                    items.push(c.items[i].to_dict());
                    i = i + 1;
                }
                let arr = JsonValue::Array(items);
                proof {
                    if let JsonTerm::Array(ts) = arr.term() {
                        assert(ts =~= items_json(items_of(c.items@)));
                    }
                }
                add_member(&mut m, "ir", JsonValue::Str(String::from_str("CharClass")));
                add_member(&mut m, "negated", JsonValue::Bool(c.negated));
                add_member(&mut m, "items", arr);
                proof {
                    assert(members_of(m@) =~= seq![
                        tag_member("CharClass"@),
                        member("negated"@, JsonTerm::Bool(c.negated)),
                        member("items"@, JsonTerm::Array(items_json(items_of(c.items@)))),
                    ]);
                }
            },
            IROp::Quant(q) => {
                let max = match &q.max {
                    IRMaxBound::Finite(n) => JsonValue::Int(*n as i64),
                    IRMaxBound::Infinite(_) => JsonValue::Str(String::from_str("Inf")),
                };
                add_member(&mut m, "ir", JsonValue::Str(String::from_str("Quant")));
                add_member(&mut m, "child", q.child.to_dict());
                add_member(&mut m, "min", JsonValue::Int(q.min as i64));
                add_member(&mut m, "max", max);
                add_member(&mut m, "mode", JsonValue::Str(q.mode.clone()));
                proof {
                    assert(members_of(m@) =~= ir_json(t)->Object_0);
                }
            },
            IROp::Group(g) => {
                add_member(&mut m, "ir", JsonValue::Str(String::from_str("Group")));
                add_member(&mut m, "capturing", JsonValue::Bool(g.capturing));
                add_member(&mut m, "body", g.body.to_dict());
                let ghost base = members_of(m@);
                add_opt_member(&mut m, "name", &g.name);
                let ghost named = members_of(m@);
                if g.atomic {
                    add_member(&mut m, "atomic", JsonValue::Bool(true));
                }
                proof {
                    assert(base =~= seq![tag_member("Group"@), member("capturing"@, JsonTerm::Bool(g.capturing)), member("body"@, ir_json(g.body.term()))]);
                    if g.atomic {
                        assert(members_of(m@) =~= named + seq![member("atomic"@, JsonTerm::Bool(true))]);
                    } else {
                        assert(members_of(m@) =~= named + Seq::<(Seq<char>, JsonTerm)>::empty());
                    }
                }
            },
            IROp::Backref(b) => {
                add_member(&mut m, "ir", JsonValue::Str(String::from_str("Backref")));
                let ghost base = members_of(m@);
                match b.by_index {
                    Some(n) => add_member(&mut m, "byIndex", JsonValue::Int(n as i64)),
                    None => {},
                }
                let ghost indexed = members_of(m@);
                proof {
                    assert(base =~= seq![tag_member("Backref"@)]);
                    match b.by_index {
                        Some(n) => {
                            assert(indexed =~= base + seq![member("byIndex"@, JsonTerm::Int(n as int))]);
                        },
                        None => {
                            assert(indexed =~= base + Seq::<(Seq<char>, JsonTerm)>::empty());
                        },
                    }
                }
                add_opt_member(&mut m, "byName", &b.by_name);
            },
            IROp::Look(l) => {
                add_member(&mut m, "ir", JsonValue::Str(String::from_str("Look")));
                add_member(&mut m, "dir", JsonValue::Str(l.dir.clone()));
                add_member(&mut m, "neg", JsonValue::Bool(l.neg));
                add_member(&mut m, "body", l.body.to_dict());
                proof {
                    assert(members_of(m@) =~= ir_json(t)->Object_0);
                }
            },
        }
        object(m)
    }
}

} // verus!
