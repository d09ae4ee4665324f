//! Compiler: lowers an AST to IR, normalizes the IR (flattening nested
//! sequences, coalescing adjacent literals, collapsing one-part sequences)
//! and records which advanced features the IR uses.
use vstd::prelude::*;
use crate::ir::{
    items_of, terms_of, IRAlt, IRAnchor, IRCharClass, IRClassEscape, IRClassItem, IRClassLiteral,
    IRBackref, IRClassRange, IRDot, IRGroup, IRLit, IRLook, IRMaxBound, IRQuant, IROp, IRSeq, IrItem,
    IrTerm,
};
use crate::nodes::{AstItem, AstMax, AstTerm, ClassItem, MaxBound, Node};
use crate::text::{clone_opt, push_text, str_eq};

verus! {

// ---------------------------------------------------------------------------
// Lowering
// ---------------------------------------------------------------------------

/// The canonical spelling of an anchor name.
pub open spec fn canonical_anchor(at: Seq<char>) -> Seq<char> {
    if at == "NonWordBoundary"@ {
        "NotWordBoundary"@
    } else {
        at
    }
}

/// The IR mode chosen by a quantifier's flags.
pub open spec fn mode_of(lazy: bool, possessive: bool) -> Seq<char> {
    if possessive {
        "Possessive"@
    } else if lazy {
        "Lazy"@
    } else {
        "Greedy"@
    }
}

/// The IR bound of an AST bound; `None` is unbounded.
pub open spec fn lower_max(m: AstMax) -> Option<int> {
    match m {
        AstMax::Finite(n) => Some(n),
        _ => None,
    }
}

/// Lowering of one class member.
pub open spec fn lower_item(it: AstItem) -> IrItem {
    match it {
        AstItem::Range { from, to } => IrItem::Range { from, to },
        AstItem::Char { ch } => IrItem::Char { ch },
        AstItem::Esc { kind, property } => IrItem::Esc { kind, property },
        AstItem::Prop { value, negated, .. } => IrItem::Esc {
            kind: if negated { "P"@ } else { "p"@ },
            property: Some(value),
        },
    }
}

/// Lowering of each of a list of trees.
pub open spec fn lower_each(ts: Seq<AstTerm>) -> Seq<IrTerm>
    decreases ts,
{
    Seq::new(
        ts.len(),
        |i: int|
            if 0 <= i < ts.len() {
                lower(ts[i])
            } else {
                IrTerm::Dot
            },
    )
}

/// Lowering: the structural AST-to-IR translation.
pub open spec fn lower(t: AstTerm) -> IrTerm
    decreases t,
{
    match t {
        AstTerm::Alt { branches } => IrTerm::Alt { branches: lower_each(branches) },
        AstTerm::Cat { parts } => IrTerm::Cat { parts: lower_each(parts) },
        AstTerm::Lit { value } => IrTerm::Lit { value },
        AstTerm::Dot => IrTerm::Dot,
        AstTerm::Anchor { at } => IrTerm::Anchor { at: canonical_anchor(at) },
        AstTerm::Class { negated, items } => IrTerm::Class {
            negated,
            items: items.map_values(|it: AstItem| lower_item(it)),
        },
        AstTerm::Quant { child, min, max, lazy, possessive, .. } => IrTerm::Quant {
            child: Box::new(lower(*child)),
            min,
            max: lower_max(max),
            mode: mode_of(lazy, possessive),
        },
        AstTerm::Group { capturing, name, atomic, body } => IrTerm::Group {
            capturing,
            name,
            atomic: atomic == Some(true),
            body: Box::new(lower(*body)),
        },
        AstTerm::Backref { by_index, by_name } => IrTerm::Backref { by_index, by_name },
        AstTerm::Ahead { body } => IrTerm::Look { dir: "Ahead"@, neg: false, body: Box::new(lower(*body)) },
        AstTerm::NotAhead { body } => IrTerm::Look { dir: "Ahead"@, neg: true, body: Box::new(lower(*body)) },
        AstTerm::Behind { body } => IrTerm::Look { dir: "Behind"@, neg: false, body: Box::new(lower(*body)) },
        AstTerm::NotBehind { body } => IrTerm::Look { dir: "Behind"@, neg: true, body: Box::new(lower(*body)) },
    }
}

// ---------------------------------------------------------------------------
// Normalization
// ---------------------------------------------------------------------------

/// What a normalized part contributes to its enclosing sequence: the parts
/// of a sequence, or the part itself.
pub open spec fn pieces(t: IrTerm) -> Seq<IrTerm> {
    match t {
        IrTerm::Cat { parts } => parts,
        _ => seq![t],
    }
}

/// Flattening: every sequence among `ps` is replaced by its parts.
pub open spec fn splice(ps: Seq<IrTerm>) -> Seq<IrTerm>
    decreases ps.len(),
{
    if ps.len() == 0 {
        seq![]
    } else {
        splice(ps.drop_last()) + pieces(ps.last())
    }
}

/// `out` with the pending literal text appended as one literal, if any.
pub open spec fn flush(out: Seq<IrTerm>, pending: Seq<char>) -> Seq<IrTerm> {
    if pending.len() > 0 {
        out.push(IrTerm::Lit { value: pending })
    } else {
        out
    }
}

/// The left-to-right coalescing scan over `ps`: the parts emitted so far and
/// the literal text still pending.
pub open spec fn coalesce_scan(ps: Seq<IrTerm>) -> (Seq<IrTerm>, Seq<char>)
    decreases ps.len(),
{
    if ps.len() == 0 {
        (seq![], seq![])
    } else {
        let (out, pending) = coalesce_scan(ps.drop_last());
        match ps.last() {
            IrTerm::Lit { value } => (out, pending + value),
            p => (flush(out, pending).push(p), seq![]),
        }
    }
}

/// Coalescing: runs of adjacent literals become one literal holding their
/// concatenation; empty runs vanish.
pub open spec fn coalesce(ps: Seq<IrTerm>) -> Seq<IrTerm> {
    flush(coalesce_scan(ps).0, coalesce_scan(ps).1)
}

/// Collapsing: a one-part sequence is its part.
pub open spec fn collapse(ps: Seq<IrTerm>) -> IrTerm {
    if ps.len() == 1 {
        ps[0]
    } else {
        IrTerm::Cat { parts: ps }
    }
}

/// Normalization of each of a list of trees.
pub open spec fn normalize_each(ts: Seq<IrTerm>) -> Seq<IrTerm>
    decreases ts,
{
    Seq::new(
        ts.len(),
        |i: int|
            if 0 <= i < ts.len() {
                normalize(ts[i])
            } else {
                IrTerm::Dot
            },
    )
}

/// Normalization, bottom-up.
pub open spec fn normalize(t: IrTerm) -> IrTerm
    decreases t,
{
    match t {
        IrTerm::Cat { parts } => collapse(coalesce(splice(normalize_each(parts)))),
        IrTerm::Alt { branches } => IrTerm::Alt { branches: normalize_each(branches) },
        IrTerm::Quant { child, min, max, mode } => IrTerm::Quant {
            child: Box::new(normalize(*child)),
            min,
            max,
            mode,
        },
        IrTerm::Group { capturing, name, atomic, body } => IrTerm::Group {
            capturing,
            name,
            atomic,
            body: Box::new(normalize(*body)),
        },
        IrTerm::Look { dir, neg, body } => IrTerm::Look { dir, neg, body: Box::new(normalize(*body)) },
        _ => t,
    }
}

// ---------------------------------------------------------------------------
// Features
// ---------------------------------------------------------------------------

/// Whether a class member is a Unicode property escape.
pub open spec fn is_property_item(it: IrItem) -> bool {
    match it {
        IrItem::Esc { kind, .. } => kind == "p"@ || kind == "P"@,
        _ => false,
    }
}

/// Whether `t` itself (not counting its children) is an instance of the
/// feature named `tag`.
pub open spec fn shows(t: IrTerm, tag: Seq<char>) -> bool {
    match t {
        IrTerm::Group { atomic, name, .. } => (tag == "atomic_group"@ && atomic) || (tag
            == "named_group"@ && name is Some && name->0.len() > 0),
        IrTerm::Quant { mode, .. } => tag == "possessive_quantifier"@ && mode == "Possessive"@,
        IrTerm::Look { dir, .. } => (tag == "lookahead"@ && dir == "Ahead"@) || (tag
            == "lookbehind"@ && dir == "Behind"@),
        IrTerm::Backref { .. } => tag == "backreference"@,
        IrTerm::Class { items, .. } => tag == "unicode_property"@ && exists|i: int|
            0 <= i < items.len() && is_property_item(#[trigger] items[i]),
        _ => false,
    }
}

/// Whether the feature named `tag` occurs anywhere in `t`.
pub open spec fn uses(t: IrTerm, tag: Seq<char>) -> bool
    decreases t,
{
    shows(t, tag) || match t {
        IrTerm::Alt { branches } => exists|i: int| 0 <= i < branches.len() && uses(#[trigger] branches[i], tag),
        IrTerm::Cat { parts } => exists|i: int| 0 <= i < parts.len() && uses(#[trigger] parts[i], tag),
        IrTerm::Quant { child, .. } => uses(*child, tag),
        IrTerm::Group { body, .. } => uses(*body, tag),
        IrTerm::Look { body, .. } => uses(*body, tag),
        _ => false,
    }
}

/// `seq![tag]` when `present`, else nothing.
pub open spec fn listed(present: bool, tag: Seq<char>) -> Seq<Seq<char>> {
    if present {
        seq![tag]
    } else {
        seq![]
    }
}

/// `seq![tag]` when `t` uses the feature, else nothing.
pub open spec fn tag_if(t: IrTerm, tag: Seq<char>) -> Seq<Seq<char>> {
    listed(uses(t, tag), tag)
}

/// The features that `t` uses, each once, in a fixed order.
pub open spec fn features_of(t: IrTerm) -> Seq<Seq<char>> {
    tag_if(t, "atomic_group"@) + tag_if(t, "named_group"@) + tag_if(t, "possessive_quantifier"@)
        + tag_if(t, "lookahead"@) + tag_if(t, "lookbehind"@) + tag_if(t, "backreference"@) + tag_if(
        t,
        "unicode_property"@,
    )
}

/// The characters of each string.
pub open spec fn texts(v: Seq<String>) -> Seq<Seq<char>> {
    v.map_values(|s: String| s@)
}

/// Result of compilation with metadata.
#[derive(Debug)]
pub struct CompileResult {
    pub ir: IROp,
    pub metadata: Metadata,
}

/// The features a compiled pattern uses.
#[derive(Debug, Clone)]
pub struct Metadata {
    pub features_used: Vec<String>,
}

/// Which features a traversal has met so far.
struct FeatureScan {
    atomic_group: bool,
    named_group: bool,
    possessive_quantifier: bool,
    lookahead: bool,
    lookbehind: bool,
    backreference: bool,
    unicode_property: bool,
}

/// Appends `tag` to `features` when `present`.
fn add_feature(features: &mut Vec<String>, present: bool, tag: &str)
    ensures
        texts(final(features)@) == texts(old(features)@) + listed(present, tag@),
{
    if present {
        features.push(String::from_str(tag));
    }
    assert(texts(features@) =~= texts(old(features)@) + listed(present, tag@));
}

/// The names of the features a scan has met, in the order of `features_of`.
fn feature_list(scan: &FeatureScan) -> (r: Vec<String>)
    ensures
        texts(r@) == listed(scan.atomic_group, "atomic_group"@) + listed(scan.named_group, "named_group"@)
            + listed(scan.possessive_quantifier, "possessive_quantifier"@) + listed(scan.lookahead, "lookahead"@)
            + listed(scan.lookbehind, "lookbehind"@) + listed(scan.backreference, "backreference"@)
            + listed(scan.unicode_property, "unicode_property"@),
{
    let mut features: Vec<String> = Vec::new();
    add_feature(&mut features, scan.atomic_group, "atomic_group");
    assert(texts(features@) =~= listed(scan.atomic_group, "atomic_group"@));
    add_feature(&mut features, scan.named_group, "named_group");
    add_feature(&mut features, scan.possessive_quantifier, "possessive_quantifier");
    add_feature(&mut features, scan.lookahead, "lookahead");
    add_feature(&mut features, scan.lookbehind, "lookbehind");
    add_feature(&mut features, scan.backreference, "backreference");
    add_feature(&mut features, scan.unicode_property, "unicode_property");
    features
}

impl FeatureScan {
    /// Whether the scan has met the feature named `tag`.
    spec fn has(&self, tag: Seq<char>) -> bool {
        if tag == "atomic_group"@ {
            self.atomic_group
        } else if tag == "named_group"@ {
            self.named_group
        } else if tag == "possessive_quantifier"@ {
            self.possessive_quantifier
        } else if tag == "lookahead"@ {
            self.lookahead
        } else if tag == "lookbehind"@ {
            self.lookbehind
        } else if tag == "backreference"@ {
            self.backreference
        } else if tag == "unicode_property"@ {
            self.unicode_property
        } else {
            false
        }
    }
}

/// AST-to-IR compiler. It keeps no state between calls.
pub struct Compiler {}

impl Compiler {
    /// A new compiler.
    pub fn new() -> (r: Compiler) {
        Compiler {  }
    }

    /// Lowers, normalizes and analyzes `root_node`.
    pub fn compile_with_metadata(&mut self, root_node: &Node) -> (r: CompileResult)
        ensures
            r.ir.term() == normalize(lower(root_node.term())),
            texts(r.metadata.features_used@) == features_of(r.ir.term()),
            *final(self) == *old(self),
    {
        let lowered = self.lower(root_node);
        let ir_root = self.normalize(&lowered);
        let mut scan = FeatureScan {
            atomic_group: false,
            named_group: false,
            possessive_quantifier: false,
            lookahead: false,
            lookbehind: false,
            backreference: false,
            unicode_property: false,
        };
        self.analyze_features(&ir_root, &mut scan);
        let ghost t = ir_root.term();
        proof {
            lemma_tags_distinct();
            assert(scan.has("atomic_group"@) == scan.atomic_group);
            assert(scan.has("named_group"@) == scan.named_group);
            assert(scan.has("possessive_quantifier"@) == scan.possessive_quantifier);
            assert(scan.has("lookahead"@) == scan.lookahead);
            assert(scan.has("lookbehind"@) == scan.lookbehind);
            assert(scan.has("backreference"@) == scan.backreference);
            assert(scan.has("unicode_property"@) == scan.unicode_property);
        }
        let features = feature_list(&scan);
        CompileResult { ir: ir_root, metadata: Metadata { features_used: features } }
    }

    /// Lowers and normalizes `root`.
    pub fn compile(&mut self, root: &Node) -> (r: IROp)
        ensures
            r.term() == normalize(lower(root.term())),
            *final(self) == *old(self),
    {
        let ir = self.lower(root);
        self.normalize(&ir)
    }

    /// Lowers one class member.
    fn lower_class_item(&self, item: &ClassItem) -> (r: IRClassItem)
        ensures
            r.item() == lower_item(item.item()),
    {
        match item {
            ClassItem::Char(lit) => IRClassItem::Char(IRClassLiteral { ch: lit.ch.clone() }),
            ClassItem::Range(range) => IRClassItem::Range(
                IRClassRange { from_ch: range.from_ch.clone(), to_ch: range.to_ch.clone() },
            ),
            ClassItem::Esc(esc) => IRClassItem::Esc(
                IRClassEscape { escape_type: esc.escape_type.clone(), property: clone_opt(&esc.property) },
            ),
            ClassItem::UnicodeProperty(up) => {
                let etype = if up.negated {
                    String::from_str("P")
                } else {
                    String::from_str("p")
                };
                IRClassItem::Esc(IRClassEscape { escape_type: etype, property: Some(up.value.clone()) })
            },
        }
    }

    /// Lowers a list of nodes.
    fn lower_all(&self, nodes: &Vec<Node>) -> (r: Vec<IROp>)
        ensures
            r.len() == nodes.len(),
            forall|i: int| 0 <= i < nodes.len() ==> (#[trigger] r[i]).term() == lower(nodes[i].term()),
        decreases nodes, 0nat,
    {
        let mut out: Vec<IROp> = Vec::new();
        let mut i: usize = 0;
        while i < nodes.len()
            invariant
                i <= nodes.len(),
                out.len() == i,
                forall|j: int| 0 <= j < i ==> (#[trigger] out[j]).term() == lower(nodes[j].term()),
            decreases nodes.len() - i,
        {
            let op = self.lower(&nodes[i]);
            out.push(op);
            i = i + 1;
        }
        out
    }

    /// Lowers an AST node to IR.
    pub fn lower(&self, node: &Node) -> (r: IROp)
        ensures
            r.term() == lower(node.term()),
        decreases node, 1nat,
    {
        match node {
            Node::Literal(lit) => IROp::Lit(IRLit { value: lit.value.clone() }),
            Node::Dot(_) => IROp::Dot(IRDot),
            Node::Anchor(anchor) => {
                let at = if str_eq(anchor.at.as_str(), "NonWordBoundary") {
                    String::from_str("NotWordBoundary")
                } else {
                    anchor.at.clone()
                };
                IROp::Anchor(IRAnchor { at })
            },
            Node::Sequence(seq) => {
                let parts = self.lower_all(&seq.parts);
                let r = IROp::Sequence(IRSeq { parts });
                proof {
                    if let IrTerm::Cat { parts: ps } = r.term() {
                        if let AstTerm::Cat { parts: qs } = node.term() {
                            assert(ps =~= lower_each(qs));
                        }
                    }
                }
                r
            },
            Node::Alternation(alt) => {
                let branches = self.lower_all(&alt.branches);
                let r = IROp::Alt(IRAlt { branches });
                proof {
                    if let IrTerm::Alt { branches: ps } = r.term() {
                        if let AstTerm::Alt { branches: qs } = node.term() {
                            assert(ps =~= lower_each(qs));
                        }
                    }
                }
                r
            },
            Node::Quantifier(quant) => {
                let max = match &quant.max {
                    MaxBound::Finite(n) => IRMaxBound::Finite(*n),
                    MaxBound::Infinite(s) => IRMaxBound::Infinite(s.clone()),
                    MaxBound::Null(_) => IRMaxBound::Infinite(String::from_str("Inf")),
                };
                let mode = if quant.possessive {
                    String::from_str("Possessive")
                } else if quant.lazy {
                    String::from_str("Lazy")
                } else {
                    String::from_str("Greedy")
                };
                let child = self.lower(&quant.target.child);
                IROp::Quant(IRQuant { child: Box::new(child), min: quant.min, max, mode })
            },
            Node::Group(group) => {
                let atomic = match group.atomic {
                    Some(a) => a,
                    None => false,
                };
                let body = self.lower(&group.body);
                IROp::Group(IRGroup { capturing: group.capturing, name: clone_opt(&group.name), atomic, body: Box::new(body) })
            },
            Node::Lookahead(look) => {
                let body = self.lower(&look.body);
                IROp::Look(IRLook { dir: String::from_str("Ahead"), neg: false, body: Box::new(body) })
            },
            Node::NegativeLookahead(look) => {
                let body = self.lower(&look.body);
                IROp::Look(IRLook { dir: String::from_str("Ahead"), neg: true, body: Box::new(body) })
            },
            Node::Lookbehind(look) => {
                let body = self.lower(&look.body);
                IROp::Look(IRLook { dir: String::from_str("Behind"), neg: false, body: Box::new(body) })
            },
            Node::NegativeLookbehind(look) => {
                let body = self.lower(&look.body);
                IROp::Look(IRLook { dir: String::from_str("Behind"), neg: true, body: Box::new(body) })
            },
            Node::Backreference(backref) => IROp::Backref(
                IRBackref { by_index: backref.by_index, by_name: clone_opt(&backref.by_name) },
            ),
            Node::CharacterClass(cc) => {
                let mut items: Vec<IRClassItem> = Vec::new();
                let mut i: usize = 0;
                while i < cc.items.len()
                    invariant
                        i <= cc.items.len(),
                        items@ .len() == i,
                        forall|j: int| 0 <= j < i ==> (#[trigger] items@[j]).item() == lower_item(cc.items@[j].item()),
                    decreases cc.items.len() - i,
                {
                    items.push(self.lower_class_item(&cc.items[i]));
                    i = i + 1;
                }
                let r = IROp::CharClass(IRCharClass { negated: cc.negated, items });
                proof {
                    assert(items_of(items@) =~= cc.items@.map_values(|it: ClassItem| it.item()).map_values(|it: AstItem| lower_item(it)));
                }
                r
            },
        }
    }

    /// Normalizes each tree of a list.
    fn normalize_all(&self, ops: &Vec<IROp>) -> (r: Vec<IROp>)
        ensures
            r.len() == ops.len(),
            forall|i: int| 0 <= i < ops.len() ==> (#[trigger] r[i]).term() == normalize(ops[i].term()),
        decreases ops, 0nat,
    {
        let mut out: Vec<IROp> = Vec::new();
        let mut i: usize = 0;
        while i < ops.len()
            invariant
                i <= ops.len(),
                out.len() == i,
                forall|j: int| 0 <= j < i ==> (#[trigger] out[j]).term() == normalize(ops[j].term()),
            decreases ops.len() - i,
        {
            let op = self.normalize(&ops[i]);
            out.push(op);
            i = i + 1;
        }
        out
    }

    /// Flattens, coalesces and collapses already-normalized parts.
    fn join_parts(&self, normed: Vec<IROp>) -> (r: IROp)
        ensures
            r.term() == collapse(coalesce(splice(terms_of(normed@)))),
    {
        let ghost nt = terms_of(normed@);
        let ghost n = normed.len();
        // Flatten.
        let mut rest = normed;
        let mut flat: Vec<IROp> = Vec::new();
        while rest.len() > 0
            invariant
                rest.len() <= n,
                n == nt.len(),
                terms_of(rest@) == nt.skip(n - rest.len()),
                terms_of(flat@) == splice(nt.take(n - rest.len())),
            decreases rest.len(),
        {
            let ghost k = n - rest.len();
            let ghost prev = rest@;
            let part = rest.remove(0);
            proof {
                assert(rest@ =~= prev.subrange(1, prev.len() as int));
                assert(terms_of(prev)[0] == nt[k]);
                assert forall|j: int| 0 <= j < rest.len() implies terms_of(rest@)[j] == nt.skip(k + 1)[j] by {
                    assert(terms_of(prev)[j + 1] == nt.skip(k)[j + 1]);
                }
                assert(terms_of(rest@) =~= nt.skip(k + 1));
                assert(nt.take(k + 1).drop_last() =~= nt.take(k));
                assert(nt.take(k + 1).last() == nt[k]);
            }
            match part {
                IROp::Sequence(inner) => {
                    let mut inner_parts = inner.parts;
                    let ghost before = flat@;
                    proof {
                        assert(pieces(nt[k]) =~= terms_of(inner_parts@));
                    }
                    flat.append(&mut inner_parts);
                    proof {
                        assert(terms_of(flat@) =~= terms_of(before) + pieces(nt[k]));
                    }
                },
                other => {
                    let ghost before = flat@;
                    proof {
                        assert(pieces(nt[k]) =~= seq![other.term()]);
                    }
                    flat.push(other);
                    proof {
                        assert(terms_of(flat@) =~= terms_of(before) + pieces(nt[k]));
                    }
                },
            }
        }
        proof {
            assert(nt.take(n as int) =~= nt);
        }
        let ghost spliced = splice(nt);
        // Coalesce.
        let mut coalesced: Vec<IROp> = Vec::new();
        let mut pending_lit = String::new();
        let ghost m = flat.len();
        while flat.len() > 0
            invariant
                flat.len() <= m,
                m == spliced.len(),
                terms_of(flat@) == spliced.skip(m - flat.len()),
                (terms_of(coalesced@), pending_lit@) == coalesce_scan(spliced.take(m - flat.len())),
            decreases flat.len(),
        {
            let ghost k = m - flat.len();
            let ghost prev = flat@;
            let part = flat.remove(0);
            proof {
                assert(flat@ =~= prev.subrange(1, prev.len() as int));
                assert(terms_of(prev)[0] == spliced[k]);
                assert forall|j: int| 0 <= j < flat.len() implies terms_of(flat@)[j] == spliced.skip(k + 1)[j] by {
                    assert(terms_of(prev)[j + 1] == spliced.skip(k)[j + 1]);
                }
                assert(terms_of(flat@) =~= spliced.skip(k + 1));
                assert(spliced.take(k + 1).drop_last() =~= spliced.take(k));
                assert(spliced.take(k + 1).last() == part.term());
            }
            match part {
                IROp::Lit(lit) => {
                    push_text(&mut pending_lit, lit.value.as_str());
                },
                other => {
                    let ghost before = coalesced@;
                    if pending_lit.as_str().unicode_len() > 0 {
                        let value = pending_lit;
                        pending_lit = String::new();
                        coalesced.push(IROp::Lit(IRLit { value }));
                    }
                    coalesced.push(other);
                    proof {
                        assert(terms_of(coalesced@) =~= flush(terms_of(before), coalesce_scan(spliced.take(k)).1).push(other.term()));
                    }
                },
            }
        }
        proof {
            assert(spliced.take(m as int) =~= spliced);
        }
        let ghost before = coalesced@;
        if pending_lit.as_str().unicode_len() > 0 {
            coalesced.push(IROp::Lit(IRLit { value: pending_lit }));
        }
        proof {
            assert(terms_of(coalesced@) =~= coalesce(spliced));
        }
        // Collapse.
        if coalesced.len() == 1 {
            let only = coalesced.remove(0);
            only
        } else {
            let r = IROp::Sequence(IRSeq { parts: coalesced });
            proof {
                if let IrTerm::Cat { parts: ps } = r.term() {
                    assert(ps =~= terms_of(coalesced@));
                }
            }
            r
        }
    }

    /// A copy of a class member.
    fn copy_item(&self, it: &IRClassItem) -> (r: IRClassItem)
        ensures
            r.item() == it.item(),
    {
        match it {
            IRClassItem::Range(x) => IRClassItem::Range(IRClassRange { from_ch: x.from_ch.clone(), to_ch: x.to_ch.clone() }),
            IRClassItem::Char(x) => IRClassItem::Char(IRClassLiteral { ch: x.ch.clone() }),
            IRClassItem::Esc(x) => IRClassItem::Esc(IRClassEscape { escape_type: x.escape_type.clone(), property: clone_opt(&x.property) }),
        }
    }

    /// Normalizes an IR tree: flattens sequences, coalesces adjacent literals,
    /// collapses one-part sequences.
    pub fn normalize(&self, node: &IROp) -> (r: IROp)
        ensures
            r.term() == normalize(node.term()),
        decreases node, 1nat,
    {
        match node {
            IROp::Sequence(seq) => {
                let normed = self.normalize_all(&seq.parts);
                proof {
                    if let IrTerm::Cat { parts: ps } = node.term() {
                        assert(terms_of(normed@) =~= normalize_each(ps));
                    }
                }
                self.join_parts(normed)
            },
            IROp::Alt(alt) => {
                let branches = self.normalize_all(&alt.branches);
                let r = IROp::Alt(IRAlt { branches });
                proof {
                    if let IrTerm::Alt { branches: ps } = r.term() {
                        if let IrTerm::Alt { branches: qs } = node.term() {
                            assert(ps =~= normalize_each(qs));
                        }
                    }
                }
                r
            },
            IROp::Quant(quant) => {
                let child = self.normalize(&quant.child);
                let max = match &quant.max {
                    IRMaxBound::Finite(n) => IRMaxBound::Finite(*n),
                    IRMaxBound::Infinite(s) => IRMaxBound::Infinite(s.clone()),
                };
                IROp::Quant(IRQuant { child: Box::new(child), min: quant.min, max, mode: quant.mode.clone() })
            },
            IROp::Group(group) => {
                let body = self.normalize(&group.body);
                IROp::Group(IRGroup { capturing: group.capturing, body: Box::new(body), name: clone_opt(&group.name), atomic: group.atomic })
            },
            IROp::Look(look) => {
                let body = self.normalize(&look.body);
                IROp::Look(IRLook { dir: look.dir.clone(), neg: look.neg, body: Box::new(body) })
            },
            IROp::Lit(lit) => IROp::Lit(IRLit { value: lit.value.clone() }),
            IROp::Dot(_) => IROp::Dot(IRDot),
            IROp::Anchor(a) => IROp::Anchor(IRAnchor { at: a.at.clone() }),
            IROp::Backref(b) => IROp::Backref(IRBackref { by_index: b.by_index, by_name: clone_opt(&b.by_name) }),
            IROp::CharClass(cc) => {
                let mut items: Vec<IRClassItem> = Vec::new();
                let mut i: usize = 0;
                while i < cc.items.len()
                    invariant
                        i <= cc.items.len(),
                        items.len() == i,
                        forall|j: int| 0 <= j < i ==> (#[trigger] items@[j]).item() == cc.items@[j].item(),
                    decreases cc.items.len() - i,
                {
                    items.push(self.copy_item(&cc.items[i]));
                    i = i + 1;
                }
                let r = IROp::CharClass(IRCharClass { negated: cc.negated, items });
                proof {
                    assert(items_of(items@) =~= items_of(cc.items@));
                }
                r
            },
        }
    }

    /// Records in `scan` every feature that one of `ops` uses.
    fn analyze_all(&self, ops: &Vec<IROp>, scan: &mut FeatureScan)
        ensures
            forall|tag: Seq<char>| #[trigger] final(scan).has(tag) == (old(scan).has(tag) || exists|j: int| 0 <= j < ops.len() && uses(#[trigger] ops[j].term(), tag)),
        decreases ops, 0nat,
    {
        let ghost start = *scan;
        let mut i: usize = 0;
        while i < ops.len()
            invariant
                i <= ops.len(),
                forall|tag: Seq<char>| #[trigger] scan.has(tag) == (start.has(tag) || exists|j: int| 0 <= j < i && uses(#[trigger] ops[j].term(), tag)),
            decreases ops.len() - i,
        {
            self.analyze_features(&ops[i], scan);
            proof {
                assert forall|tag: Seq<char>| #[trigger] scan.has(tag) == (start.has(tag) || exists|j: int| 0 <= j < i + 1 && uses(#[trigger] ops[j].term(), tag)) by {
                    if exists|j: int| 0 <= j < i + 1 && uses(#[trigger] ops[j].term(), tag) {
                        let j = choose|j: int| 0 <= j < i + 1 && uses(#[trigger] ops[j].term(), tag);
                        if j < i {
                            assert(exists|j: int| 0 <= j < i && uses(#[trigger] ops[j].term(), tag));
                        }
                    }
                    if exists|j: int| 0 <= j < i && uses(#[trigger] ops[j].term(), tag) {
                        let j = choose|j: int| 0 <= j < i && uses(#[trigger] ops[j].term(), tag);
                        assert(0 <= j < i + 1 && uses(ops[j].term(), tag));
                    }
                }
            }
            i = i + 1;
        }
    }

    /// Records in `scan` every feature that `node` uses.
    fn analyze_features(&self, node: &IROp, scan: &mut FeatureScan)
        ensures
            forall|tag: Seq<char>| #[trigger] final(scan).has(tag) == (old(scan).has(tag) || uses(node.term(), tag)),
        decreases node, 1nat,
    {
        proof {
            lemma_tags_distinct();
        }
        let ghost before = *scan;
        match node {
            IROp::Group(group) => {
                if group.atomic {
                    scan.atomic_group = true;
                }
                match &group.name {
                    Some(name) => {
                        if name.as_str().unicode_len() > 0 {
                            scan.named_group = true;
                        }
                    },
                    None => {},
                }
                proof {
                    assert forall|tag: Seq<char>| #[trigger] scan.has(tag) == (before.has(tag) || shows(node.term(), tag)) by {}
                }
                self.analyze_features(&group.body, scan);
            },
            IROp::Quant(quant) => {
                if str_eq(quant.mode.as_str(), "Possessive") {
                    scan.possessive_quantifier = true;
                }
                proof {
                    assert forall|tag: Seq<char>| #[trigger] scan.has(tag) == (before.has(tag) || shows(node.term(), tag)) by {}
                }
                self.analyze_features(&quant.child, scan);
            },
            IROp::Look(look) => {
                if str_eq(look.dir.as_str(), "Behind") {
                    scan.lookbehind = true;
                } else if str_eq(look.dir.as_str(), "Ahead") {
                    scan.lookahead = true;
                }
                proof {
                    assert forall|tag: Seq<char>| #[trigger] scan.has(tag) == (before.has(tag) || shows(node.term(), tag)) by {}
                }
                self.analyze_features(&look.body, scan);
            },
            IROp::Backref(_) => {
                scan.backreference = true;
                proof {
                    assert forall|tag: Seq<char>| #[trigger] scan.has(tag) == (before.has(tag) || uses(node.term(), tag)) by {}
                }
            },
            IROp::CharClass(cc) => {
                let ghost items = items_of(cc.items@);
                let mut i: usize = 0;
                let mut found = false;
                while i < cc.items.len()
                    invariant
                        i <= cc.items.len(),
                        items == items_of(cc.items@),
                        found == exists|j: int| 0 <= j < i && is_property_item(#[trigger] items[j]),
                    decreases cc.items.len() - i,
                {
                    proof {
                        reveal_strlit("p");
                        reveal_strlit("P");
                    }
                    match &cc.items[i] {
                        IRClassItem::Esc(esc) => {
                            if str_eq(esc.escape_type.as_str(), "p") || str_eq(esc.escape_type.as_str(), "P") {
                                found = true;
                            }
                        },
                        _ => {},
                    }
                    proof {
                        assert(items[i as int] == cc.items@[i as int].item());
                        if exists|j: int| 0 <= j < i + 1 && is_property_item(#[trigger] items[j]) {
                            let j = choose|j: int| 0 <= j < i + 1 && is_property_item(#[trigger] items[j]);
                            if j < i {
                                assert(exists|j: int| 0 <= j < i && is_property_item(#[trigger] items[j]));
                            }
                        }
                    }
                    i = i + 1;
                }
                if found {
                    scan.unicode_property = true;
                }
                proof {
                    assert forall|tag: Seq<char>| #[trigger] scan.has(tag) == (before.has(tag) || uses(node.term(), tag)) by {
                        if let IrTerm::Class { items: its, .. } = node.term() {
                            assert(its == items);
                        }
                    }
                }
            },
            IROp::Sequence(seq) => {
                self.analyze_all(&seq.parts, scan);
                proof {
                    if let IrTerm::Cat { parts: ps } = node.term() {
                        assert(ps =~= terms_of(seq.parts@));
                        assert forall|tag: Seq<char>| uses(node.term(), tag) == exists|j: int| 0 <= j < seq.parts.len() && uses(#[trigger] seq.parts[j].term(), tag) by {
                            if uses(node.term(), tag) {
                                let j = choose|j: int| 0 <= j < ps.len() && uses(#[trigger] ps[j], tag);
                                assert(uses(seq.parts[j].term(), tag));
                            }
                            if exists|j: int| 0 <= j < seq.parts.len() && uses(#[trigger] seq.parts[j].term(), tag) {
                                let j = choose|j: int| 0 <= j < seq.parts.len() && uses(#[trigger] seq.parts[j].term(), tag);
                                assert(uses(ps[j], tag));
                            }
                        }
                    }
                }
            },
            IROp::Alt(alt) => {
                self.analyze_all(&alt.branches, scan);
                proof {
                    if let IrTerm::Alt { branches: ps } = node.term() {
                        assert(ps =~= terms_of(alt.branches@));
                        assert forall|tag: Seq<char>| uses(node.term(), tag) == exists|j: int| 0 <= j < alt.branches.len() && uses(#[trigger] alt.branches[j].term(), tag) by {
                            if uses(node.term(), tag) {
                                let j = choose|j: int| 0 <= j < ps.len() && uses(#[trigger] ps[j], tag);
                                assert(uses(alt.branches[j].term(), tag));
                            }
                            if exists|j: int| 0 <= j < alt.branches.len() && uses(#[trigger] alt.branches[j].term(), tag) {
                                let j = choose|j: int| 0 <= j < alt.branches.len() && uses(#[trigger] alt.branches[j].term(), tag);
                                assert(uses(ps[j], tag));
                            }
                        }
                    }
                }
            },
            _ => {},
        }
    }
}

/// The seven feature tags are pairwise different.
pub proof fn lemma_tags_distinct()
    ensures
        "atomic_group"@.len() == 12,
        "named_group"@.len() == 11,
        "possessive_quantifier"@.len() == 21,
        "lookahead"@.len() == 9,
        "lookbehind"@.len() == 10,
        "backreference"@.len() == 13,
        "unicode_property"@.len() == 16,
        "Ahead"@.len() == 5,
        "Behind"@.len() == 6,
{
    reveal_strlit("Ahead");
    reveal_strlit("Behind");
    reveal_strlit("atomic_group");
    reveal_strlit("named_group");
    reveal_strlit("possessive_quantifier");
    reveal_strlit("lookahead");
    reveal_strlit("lookbehind");
    reveal_strlit("backreference");
    reveal_strlit("unicode_property");
}

impl Default for Compiler {
    fn default() -> (r: Compiler) {
        Compiler::new()
    }
}

} // verus!
