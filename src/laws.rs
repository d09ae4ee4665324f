//! Properties of the compiler's normalization, proved over the ghost IR.
use vstd::prelude::*;
use crate::compiler::{
    coalesce, coalesce_scan, collapse, flush, is_property_item, lemma_tags_distinct, lower, lower_each,
    features_of, lower_item, mode_of, normalize, normalize_each, pieces, shows, splice, uses,
};
use crate::nodes::AstItem;
use crate::ir::IrTerm;
use crate::directives::directive_body;
use crate::errors::STRlingParseError;
use crate::hint_engine::hint_chars;
use crate::nodes::AstTerm;
use crate::parser::{is_error, parse_outcome, Outcome};

verus! {

/// A part that may stand directly inside a normalized sequence: not itself a
/// sequence, and not an empty literal.
pub open spec fn part_ok(p: IrTerm) -> bool {
    &&& !(p is Cat)
    &&& (p matches IrTerm::Lit { value } ==> value.len() > 0)
}

/// The parts of a normalized sequence: each `part_ok`, no two literals side
/// by side.
pub open spec fn good_parts(ps: Seq<IrTerm>) -> bool {
    &&& forall|i: int| 0 <= i < ps.len() ==> part_ok(#[trigger] ps[i])
    &&& forall|i: int| 0 <= i < ps.len() - 1 ==> !(#[trigger] ps[i] is Lit && ps[i + 1] is Lit)
}

/// Normal form: what normalization produces.
pub open spec fn is_normal(t: IrTerm) -> bool
    decreases t,
{
    match t {
        IrTerm::Cat { parts } => parts.len() != 1 && good_parts(parts) && forall|i: int|
            0 <= i < parts.len() ==> is_normal(#[trigger] parts[i]),
        IrTerm::Alt { branches } => forall|i: int| 0 <= i < branches.len() ==> is_normal(#[trigger] branches[i]),
        IrTerm::Quant { child, .. } => is_normal(*child),
        IrTerm::Group { body, .. } => is_normal(*body),
        IrTerm::Look { body, .. } => is_normal(*body),
        _ => true,
    }
}

/// No sequence directly contains another sequence, anywhere in the tree.
pub open spec fn no_nested_seq(t: IrTerm) -> bool
    decreases t,
{
    match t {
        IrTerm::Cat { parts } => forall|i: int|
            0 <= i < parts.len() ==> !(#[trigger] parts[i] is Cat) && no_nested_seq(parts[i]),
        IrTerm::Alt { branches } => forall|i: int| 0 <= i < branches.len() ==> no_nested_seq(#[trigger] branches[i]),
        IrTerm::Quant { child, .. } => no_nested_seq(*child),
        IrTerm::Group { body, .. } => no_nested_seq(*body),
        IrTerm::Look { body, .. } => no_nested_seq(*body),
        _ => true,
    }
}

/// Splicing a list without sequences changes nothing.
proof fn lemma_splice_flat(ps: Seq<IrTerm>)
    requires
        forall|i: int| 0 <= i < ps.len() ==> !(#[trigger] ps[i] is Cat),
    ensures
        splice(ps) == ps,
    decreases ps.len(),
{
    if ps.len() > 0 {
        lemma_splice_flat(ps.drop_last());
        assert(pieces(ps.last()) == seq![ps.last()]);
        assert(ps.drop_last() + seq![ps.last()] =~= ps);
    }
}

/// The coalescing scan over parts already in normal order.
proof fn lemma_scan_good(ps: Seq<IrTerm>)
    requires
        good_parts(ps),
    ensures
        ps.len() > 0 && ps.last() is Lit ==> coalesce_scan(ps) == (ps.drop_last(), ps.last()->Lit_value),
        !(ps.len() > 0 && ps.last() is Lit) ==> coalesce_scan(ps) == (ps, Seq::<char>::empty()),
    decreases ps.len(),
{
    if ps.len() > 0 {
        let q = ps.drop_last();
        assert(good_parts(q)) by {
            assert forall|i: int| 0 <= i < q.len() implies part_ok(#[trigger] q[i]) by {
                assert(part_ok(ps[i]));
            }
            assert forall|i: int| 0 <= i < q.len() - 1 implies !(#[trigger] q[i] is Lit && q[i + 1] is Lit) by {
                assert(!(ps[i] is Lit && ps[i + 1] is Lit));
            }
        }
        lemma_scan_good(q);
        assert(part_ok(ps[ps.len() - 1]));
        if q.len() > 0 {
            assert(part_ok(ps[q.len() - 1]));
            assert(!(ps[q.len() - 1] is Lit && ps[q.len() as int] is Lit));
        }
        if q.len() > 0 && q.last() is Lit {
            assert(q.drop_last().push(IrTerm::Lit { value: q.last()->Lit_value }) =~= q);
        }
        if ps.last() is Lit {
            assert(Seq::<char>::empty() + ps.last()->Lit_value =~= ps.last()->Lit_value);
        }
        assert(q.push(ps.last()) =~= ps);
    }
}

/// A tree in normal form is left unchanged by normalization.
pub proof fn lemma_normal_fixed(t: IrTerm)
    requires
        is_normal(t),
    ensures
        normalize(t) == t,
    decreases t,
{
    match t {
        IrTerm::Cat { parts } => {
            assert forall|i: int| 0 <= i < parts.len() implies normalize(#[trigger] parts[i]) == parts[i] by {
                lemma_normal_fixed(parts[i]);
            }
            assert(normalize_each(parts) =~= parts);
            assert forall|i: int| 0 <= i < parts.len() implies !(#[trigger] parts[i] is Cat) by {
                assert(part_ok(parts[i]));
            }
            lemma_splice_flat(parts);
            lemma_scan_good(parts);
            if parts.len() > 0 && parts.last() is Lit {
                assert(part_ok(parts[parts.len() - 1]));
                assert(parts.drop_last().push(IrTerm::Lit { value: parts.last()->Lit_value }) =~= parts);
            }
            assert(coalesce(parts) == parts);
        },
        IrTerm::Alt { branches } => {
            assert forall|i: int| 0 <= i < branches.len() implies normalize(#[trigger] branches[i]) == branches[i] by {
                lemma_normal_fixed(branches[i]);
            }
            assert(normalize_each(branches) =~= branches);
        },
        IrTerm::Quant { child, .. } => {
            lemma_normal_fixed(*child);
        },
        IrTerm::Group { body, .. } => {
            lemma_normal_fixed(*body);
        },
        IrTerm::Look { body, .. } => {
            lemma_normal_fixed(*body);
        },
        _ => {},
    }
}

/// Splicing normal trees gives normal trees that are not sequences.
proof fn lemma_splice_normal(ps: Seq<IrTerm>)
    requires
        forall|i: int| 0 <= i < ps.len() ==> is_normal(#[trigger] ps[i]),
    ensures
        forall|j: int| 0 <= j < splice(ps).len() ==> !(#[trigger] splice(ps)[j] is Cat) && is_normal(splice(ps)[j]),
    decreases ps.len(),
{
    if ps.len() > 0 {
        let q = ps.drop_last();
        assert forall|i: int| 0 <= i < q.len() implies is_normal(#[trigger] q[i]) by {
            assert(is_normal(ps[i]));
        }
        lemma_splice_normal(q);
        let last = ps.last();
        assert(is_normal(ps[ps.len() - 1]));
        let s = splice(ps);
        assert(s == splice(q) + pieces(last));
        assert forall|j: int| 0 <= j < s.len() implies !(#[trigger] s[j] is Cat) && is_normal(s[j]) by {
            if j < splice(q).len() {
                assert(s[j] == splice(q)[j]);
            } else {
                let k = j - splice(q).len();
                assert(s[j] == pieces(last)[k]);
                if let IrTerm::Cat { parts } = last {
                    assert(part_ok(parts[k]));
                }
            }
        }
    }
}

/// The coalescing scan over normal non-sequence trees.
proof fn lemma_scan_normal(ps: Seq<IrTerm>)
    requires
        forall|i: int| 0 <= i < ps.len() ==> !(#[trigger] ps[i] is Cat) && is_normal(ps[i]),
    ensures
        good_parts(coalesce_scan(ps).0),
        forall|j: int| 0 <= j < coalesce_scan(ps).0.len() ==> is_normal(#[trigger] coalesce_scan(ps).0[j]),
        coalesce_scan(ps).0.len() > 0 ==> !(coalesce_scan(ps).0.last() is Lit),
    decreases ps.len(),
{
    if ps.len() > 0 {
        let q = ps.drop_last();
        assert forall|i: int| 0 <= i < q.len() implies !(#[trigger] q[i] is Cat) && is_normal(q[i]) by {
            assert(!(ps[i] is Cat) && is_normal(ps[i]));
        }
        lemma_scan_normal(q);
        let (out, pending) = coalesce_scan(q);
        assert(!(ps[ps.len() - 1] is Cat) && is_normal(ps[ps.len() - 1]));
        if !(ps.last() is Lit) {
            let f = flush(out, pending);
            assert(good_parts(f) && forall|j: int| 0 <= j < f.len() ==> is_normal(#[trigger] f[j])) by {
                if pending.len() > 0 {
                    assert forall|j: int| 0 <= j < f.len() implies part_ok(#[trigger] f[j]) by {
                        if j < out.len() {
                            assert(f[j] == out[j]);
                        }
                    }
                    assert forall|j: int| 0 <= j < f.len() - 1 implies !(#[trigger] f[j] is Lit && f[j + 1] is Lit) by {
                        assert(f[j] == out[j]);
                        if j + 1 < out.len() {
                            assert(f[j + 1] == out[j + 1]);
                        }
                    }
                    assert forall|j: int| 0 <= j < f.len() implies is_normal(#[trigger] f[j]) by {
                        if j < out.len() {
                            assert(f[j] == out[j]);
                        }
                    }
                }
            }
            let g = f.push(ps.last());
            assert forall|j: int| 0 <= j < g.len() implies part_ok(#[trigger] g[j]) by {
                if j < f.len() {
                    assert(g[j] == f[j]);
                }
            }
            assert forall|j: int| 0 <= j < g.len() - 1 implies !(#[trigger] g[j] is Lit && g[j + 1] is Lit) by {
                assert(g[j] == f[j]);
                if j + 1 < f.len() {
                    assert(g[j + 1] == f[j + 1]);
                }
            }
            assert forall|j: int| 0 <= j < g.len() implies is_normal(#[trigger] g[j]) by {
                if j < f.len() {
                    assert(g[j] == f[j]);
                }
            }
        }
    }
}

/// Normalization always produces a tree in normal form.
pub proof fn lemma_normalize_normal(t: IrTerm)
    ensures
        is_normal(normalize(t)),
    decreases t,
{
    match t {
        IrTerm::Cat { parts } => {
            let ns = normalize_each(parts);
            assert forall|i: int| 0 <= i < ns.len() implies is_normal(#[trigger] ns[i]) by {
                lemma_normalize_normal(parts[i]);
            }
            lemma_splice_normal(ns);
            let sp = splice(ns);
            lemma_scan_normal(sp);
            let (out, pending) = coalesce_scan(sp);
            let c = coalesce(sp);
            assert(good_parts(c) && forall|j: int| 0 <= j < c.len() ==> is_normal(#[trigger] c[j])) by {
                if pending.len() > 0 {
                    assert forall|j: int| 0 <= j < c.len() implies part_ok(#[trigger] c[j]) by {
                        if j < out.len() {
                            assert(c[j] == out[j]);
                        }
                    }
                    assert forall|j: int| 0 <= j < c.len() - 1 implies !(#[trigger] c[j] is Lit && c[j + 1] is Lit) by {
                        assert(c[j] == out[j]);
                        if j + 1 < out.len() {
                            assert(c[j + 1] == out[j + 1]);
                        }
                    }
                    assert forall|j: int| 0 <= j < c.len() implies is_normal(#[trigger] c[j]) by {
                        if j < out.len() {
                            assert(c[j] == out[j]);
                        }
                    }
                }
            }
            if c.len() == 1 {
                assert(is_normal(c[0]));
            }
        },
        IrTerm::Alt { branches } => {
            let ns = normalize_each(branches);
            assert forall|i: int| 0 <= i < ns.len() implies is_normal(#[trigger] ns[i]) by {
                lemma_normalize_normal(branches[i]);
            }
        },
        IrTerm::Quant { child, .. } => {
            lemma_normalize_normal(*child);
        },
        IrTerm::Group { body, .. } => {
            lemma_normalize_normal(*body);
        },
        IrTerm::Look { body, .. } => {
            lemma_normalize_normal(*body);
        },
        _ => {},
    }
}

/// Normalization is idempotent: normalizing a normalized tree changes
/// nothing.
pub proof fn normalize_idempotent(t: IrTerm)
    ensures
        normalize(normalize(t)) == normalize(t),
{
    lemma_normalize_normal(t);
    lemma_normal_fixed(normalize(t));
}

/// A tree in normal form has no sequence directly inside a sequence.
proof fn lemma_normal_not_nested(t: IrTerm)
    requires
        is_normal(t),
    ensures
        no_nested_seq(t),
    decreases t,
{
    match t {
        IrTerm::Cat { parts } => {
            assert forall|i: int| 0 <= i < parts.len() implies !(#[trigger] parts[i] is Cat) && no_nested_seq(parts[i]) by {
                assert(part_ok(parts[i]));
                lemma_normal_not_nested(parts[i]);
            }
        },
        IrTerm::Alt { branches } => {
            assert forall|i: int| 0 <= i < branches.len() implies no_nested_seq(#[trigger] branches[i]) by {
                lemma_normal_not_nested(branches[i]);
            }
        },
        IrTerm::Quant { child, .. } => {
            lemma_normal_not_nested(*child);
        },
        IrTerm::Group { body, .. } => {
            lemma_normal_not_nested(*body);
        },
        IrTerm::Look { body, .. } => {
            lemma_normal_not_nested(*body);
        },
        _ => {},
    }
}

/// Compiling any AST yields IR in which no sequence directly contains
/// another sequence.
pub proof fn compiled_sequences_are_flat(n: AstTerm)
    ensures
        no_nested_seq(normalize(lower(n))),
{
    lemma_normalize_normal(lower(n));
    lemma_normal_not_nested(normalize(lower(n)));
}

/// Whether every node of `ps` is a one-character literal.
pub open spec fn single_char_literals(ps: Seq<AstTerm>) -> bool {
    forall|i: int| 0 <= i < ps.len() ==> (#[trigger] ps[i] matches AstTerm::Lit { value } && value.len() == 1)
}

/// The concatenated text of the literals among `ps`.
pub open spec fn literal_text(ps: Seq<AstTerm>) -> Seq<char>
    decreases ps.len(),
{
    if ps.len() == 0 {
        seq![]
    } else {
        literal_text(ps.drop_last()) + match ps.last() {
            AstTerm::Lit { value } => value,
            _ => seq![],
        }
    }
}

/// The coalescing scan over literals only keeps all their text pending.
proof fn lemma_scan_literals(ps: Seq<AstTerm>)
    requires
        single_char_literals(ps),
    ensures
        coalesce_scan(normalize_each(lower_each(ps))) == (Seq::<IrTerm>::empty(), literal_text(ps)),
        literal_text(ps).len() == ps.len(),
    decreases ps.len(),
{
    if ps.len() > 0 {
        let q = ps.drop_last();
        assert(single_char_literals(q)) by {
            assert forall|i: int| 0 <= i < q.len() implies (#[trigger] q[i] matches AstTerm::Lit { value } && value.len() == 1) by {
                assert(q[i] == ps[i]);
            }
        }
        lemma_scan_literals(q);
        let ns = normalize_each(lower_each(ps));
        assert(ns.drop_last() =~= normalize_each(lower_each(q)));
        assert(ps[ps.len() - 1] matches AstTerm::Lit { value } && value.len() == 1);
        assert(ns.last() == IrTerm::Lit { value: ps.last()->Lit_value });
    }
}

/// Compiling a sequence of one-character literals (at least one) gives a
/// single literal holding their concatenation.
pub proof fn compiled_literal_run_coalesces(parts: Seq<AstTerm>)
    requires
        parts.len() >= 1,
        single_char_literals(parts),
    ensures
        normalize(lower(AstTerm::Cat { parts })) == (IrTerm::Lit { value: literal_text(parts) }),
{
    let ns = normalize_each(lower_each(parts));
    assert forall|i: int| 0 <= i < ns.len() implies !(#[trigger] ns[i] is Cat) by {
        assert(parts[i] matches AstTerm::Lit { .. });
    }
    lemma_splice_flat(ns);
    lemma_scan_literals(parts);
}

/// Parsing is deterministic: any two errors that parsing the same text may
/// return carry the same message, position, text and hint.
pub proof fn parse_errors_are_deterministic(text: Seq<char>, e1: STRlingParseError, e2: STRlingParseError)
    requires
        parse_outcome(text) matches Outcome::Failed { message, pos } && is_error(e1, message, pos, directive_body(text))
            && is_error(e2, message, pos, directive_body(text)),
    ensures
        e1.message@ == e2.message@,
        e1.pos == e2.pos,
        e1.text@ == e2.text@,
        hint_chars(e1.hint) == hint_chars(e2.hint),
{
}

/// Whether a class member of the AST is a Unicode property reference.
pub open spec fn is_ast_property_item(it: AstItem) -> bool {
    match it {
        AstItem::Esc { kind, .. } => kind == "p"@ || kind == "P"@,
        AstItem::Prop { .. } => true,
        _ => false,
    }
}

/// Whether the AST node `t` itself is an instance of the feature `tag`.
pub open spec fn ast_shows(t: AstTerm, tag: Seq<char>) -> bool {
    match t {
        AstTerm::Group { atomic, name, .. } => (tag == "atomic_group"@ && atomic == Some(true)) || (tag
            == "named_group"@ && name is Some && name->0.len() > 0),
        AstTerm::Quant { possessive, .. } => tag == "possessive_quantifier"@ && possessive,
        AstTerm::Ahead { .. } => tag == "lookahead"@,
        AstTerm::NotAhead { .. } => tag == "lookahead"@,
        AstTerm::Behind { .. } => tag == "lookbehind"@,
        AstTerm::NotBehind { .. } => tag == "lookbehind"@,
        AstTerm::Backref { .. } => tag == "backreference"@,
        AstTerm::Class { items, .. } => tag == "unicode_property"@ && exists|i: int|
            0 <= i < items.len() && is_ast_property_item(#[trigger] items[i]),
        _ => false,
    }
}

/// Whether the feature `tag` occurs anywhere in the AST `t`.
pub open spec fn ast_uses(t: AstTerm, tag: Seq<char>) -> bool
    decreases t,
{
    ast_shows(t, tag) || match t {
        AstTerm::Alt { branches } => exists|i: int| 0 <= i < branches.len() && ast_uses(#[trigger] branches[i], tag),
        AstTerm::Cat { parts } => exists|i: int| 0 <= i < parts.len() && ast_uses(#[trigger] parts[i], tag),
        AstTerm::Quant { child, .. } => ast_uses(*child, tag),
        AstTerm::Group { body, .. } => ast_uses(*body, tag),
        AstTerm::Ahead { body } => ast_uses(*body, tag),
        AstTerm::NotAhead { body } => ast_uses(*body, tag),
        AstTerm::Behind { body } => ast_uses(*body, tag),
        AstTerm::NotBehind { body } => ast_uses(*body, tag),
        _ => false,
    }
}

/// Whether some tree of `ps` uses the feature `tag`.
pub open spec fn any_uses(ps: Seq<IrTerm>, tag: Seq<char>) -> bool {
    exists|i: int| 0 <= i < ps.len() && uses(#[trigger] ps[i], tag)
}

/// A sequence uses a feature exactly when one of its parts does.
proof fn lemma_cat_uses(t: IrTerm, tag: Seq<char>)
    requires
        t is Cat,
    ensures
        uses(t, tag) == any_uses(t->Cat_parts, tag),
{
    let ps = t->Cat_parts;
    if uses(t, tag) {
        let i = choose|i: int| 0 <= i < ps.len() && uses(#[trigger] ps[i], tag);
    }
    if any_uses(ps, tag) {
        let i = choose|i: int| 0 <= i < ps.len() && uses(#[trigger] ps[i], tag);
        assert(uses(ps[i], tag));
    }
}

/// The child of a quantifier, group or lookaround.
pub open spec fn inner(t: IrTerm) -> IrTerm {
    match t {
        IrTerm::Quant { child, .. } => *child,
        IrTerm::Group { body, .. } => *body,
        IrTerm::Look { body, .. } => *body,
        _ => t,
    }
}

/// A quantifier, group or lookaround uses a feature when it shows it or its
/// child uses it.
proof fn lemma_wrapped_uses(t: IrTerm, tag: Seq<char>)
    requires
        t is Quant || t is Group || t is Look,
    ensures
        uses(t, tag) == (shows(t, tag) || uses(inner(t), tag)),
{
}

/// An alternation uses a feature exactly when one of its branches does.
proof fn lemma_alt_uses(t: IrTerm, tag: Seq<char>)
    requires
        t is Alt,
    ensures
        uses(t, tag) == any_uses(t->Alt_branches, tag),
{
    let ps = t->Alt_branches;
    if uses(t, tag) {
        let i = choose|i: int| 0 <= i < ps.len() && uses(#[trigger] ps[i], tag);
    }
    if any_uses(ps, tag) {
        let i = choose|i: int| 0 <= i < ps.len() && uses(#[trigger] ps[i], tag);
        assert(uses(ps[i], tag));
    }
}

proof fn lemma_any_concat(a: Seq<IrTerm>, b: Seq<IrTerm>, tag: Seq<char>)
    ensures
        any_uses(a + b, tag) == (any_uses(a, tag) || any_uses(b, tag)),
{
    let c = a + b;
    if any_uses(c, tag) {
        let i = choose|i: int| 0 <= i < c.len() && uses(#[trigger] c[i], tag);
        if i < a.len() {
            assert(c[i] == a[i]);
        } else {
            assert(c[i] == b[i - a.len()]);
        }
    }
    if any_uses(a, tag) {
        let i = choose|i: int| 0 <= i < a.len() && uses(#[trigger] a[i], tag);
        assert(c[i] == a[i]);
    }
    if any_uses(b, tag) {
        let i = choose|i: int| 0 <= i < b.len() && uses(#[trigger] b[i], tag);
        assert(c[i + a.len()] == b[i]);
    }
}

proof fn lemma_any_single(t: IrTerm, tag: Seq<char>)
    ensures
        any_uses(seq![t], tag) == uses(t, tag),
{
    if uses(t, tag) {
        assert(seq![t][0] == t);
    }
}

/// Splicing keeps the features of a list.
proof fn lemma_splice_uses(ps: Seq<IrTerm>, tag: Seq<char>)
    ensures
        any_uses(splice(ps), tag) == any_uses(ps, tag),
    decreases ps.len(),
{
    if ps.len() > 0 {
        let q = ps.drop_last();
        lemma_splice_uses(q, tag);
        lemma_any_concat(splice(q), pieces(ps.last()), tag);
        match ps.last() {
            IrTerm::Cat { parts } => {
                assert(uses(ps.last(), tag) == any_uses(parts, tag));
            },
            _ => {
                lemma_any_single(ps.last(), tag);
            },
        }
        assert(q.push(ps.last()) =~= ps);
        lemma_any_concat(q, seq![ps.last()], tag);
        lemma_any_single(ps.last(), tag);
    } else {
        assert(splice(ps) =~= ps);
    }
}

/// The coalescing scan keeps the features of a list.
proof fn lemma_scan_uses(ps: Seq<IrTerm>, tag: Seq<char>)
    ensures
        any_uses(coalesce_scan(ps).0, tag) == any_uses(ps, tag),
    decreases ps.len(),
{
    if ps.len() > 0 {
        let q = ps.drop_last();
        lemma_scan_uses(q, tag);
        let (out, pending) = coalesce_scan(q);
        assert(q.push(ps.last()) =~= ps);
        lemma_any_concat(q, seq![ps.last()], tag);
        lemma_any_single(ps.last(), tag);
        lemma_any_single(IrTerm::Lit { value: pending }, tag);
        lemma_any_concat(out, seq![IrTerm::Lit { value: pending }], tag);
        assert(!uses(IrTerm::Lit { value: pending }, tag));
        if !(ps.last() is Lit) {
            let f = flush(out, pending);
            if pending.len() > 0 {
                assert(f =~= out + seq![IrTerm::Lit { value: pending }]);
            }
            assert(any_uses(f, tag) == any_uses(out, tag));
            assert(f.push(ps.last()) =~= f + seq![ps.last()]);
            lemma_any_concat(f, seq![ps.last()], tag);
        } else {
            assert(!uses(ps.last(), tag));
        }
    }
}

/// Normalization keeps the features of a tree.
pub proof fn lemma_normalize_uses(t: IrTerm, tag: Seq<char>)
    ensures
        uses(normalize(t), tag) == uses(t, tag),
    decreases t,
{
    match t {
        IrTerm::Cat { parts } => {
            let ns = normalize_each(parts);
            assert forall|i: int| 0 <= i < ns.len() implies uses(#[trigger] ns[i], tag) == uses(parts[i], tag) by {
                lemma_normalize_uses(parts[i], tag);
            }
            assert(any_uses(ns, tag) == any_uses(parts, tag)) by {
                if any_uses(ns, tag) {
                    let i = choose|i: int| 0 <= i < ns.len() && uses(#[trigger] ns[i], tag);
                    assert(uses(parts[i], tag));
                }
                if any_uses(parts, tag) {
                    let i = choose|i: int| 0 <= i < parts.len() && uses(#[trigger] parts[i], tag);
                    assert(uses(ns[i], tag));
                }
            }
            let sp = splice(ns);
            lemma_splice_uses(ns, tag);
            lemma_scan_uses(sp, tag);
            let (out, pending) = coalesce_scan(sp);
            lemma_any_single(IrTerm::Lit { value: pending }, tag);
            lemma_any_concat(out, seq![IrTerm::Lit { value: pending }], tag);
            let c = coalesce(sp);
            assert(!uses(IrTerm::Lit { value: pending }, tag));
            if pending.len() > 0 {
                assert(c =~= out + seq![IrTerm::Lit { value: pending }]);
            }
            assert(any_uses(c, tag) == any_uses(out, tag));
            if c.len() == 1 {
                lemma_any_single(c[0], tag);
                assert(c =~= seq![c[0]]);
            }
            lemma_cat_uses(t, tag);
            assert(uses(t, tag) == any_uses(parts, tag));
            assert(normalize(t) == collapse(c));
            if c.len() != 1 {
                lemma_cat_uses(normalize(t), tag);
                assert(normalize(t)->Cat_parts == c);
            }
            assert(uses(normalize(t), tag) == any_uses(c, tag));
            assert(any_uses(c, tag) == any_uses(sp, tag));
            assert(any_uses(sp, tag) == any_uses(parts, tag));
        },
        IrTerm::Alt { branches } => {
            let ns = normalize_each(branches);
            assert forall|i: int| 0 <= i < ns.len() implies uses(#[trigger] ns[i], tag) == uses(branches[i], tag) by {
                lemma_normalize_uses(branches[i], tag);
            }
            lemma_alt_uses(t, tag);
            lemma_alt_uses(normalize(t), tag);
            assert(normalize(t)->Alt_branches == ns);
            if any_uses(ns, tag) {
                let i = choose|i: int| 0 <= i < ns.len() && uses(#[trigger] ns[i], tag);
                assert(uses(branches[i], tag));
            }
            if any_uses(branches, tag) {
                let i = choose|i: int| 0 <= i < branches.len() && uses(#[trigger] branches[i], tag);
                assert(uses(ns[i], tag));
            }
        },
        IrTerm::Quant { child, .. } => {
            lemma_normalize_uses(*child, tag);
            lemma_wrapped_uses(t, tag);
            lemma_wrapped_uses(normalize(t), tag);
        },
        IrTerm::Group { body, .. } => {
            lemma_normalize_uses(*body, tag);
            lemma_wrapped_uses(t, tag);
            lemma_wrapped_uses(normalize(t), tag);
        },
        IrTerm::Look { body, .. } => {
            lemma_normalize_uses(*body, tag);
            lemma_wrapped_uses(t, tag);
            lemma_wrapped_uses(normalize(t), tag);
        },
        _ => {},
    }
}

/// Whether some tree of `ps` uses the feature `tag`.
pub open spec fn ast_any_uses(ps: Seq<AstTerm>, tag: Seq<char>) -> bool {
    exists|i: int| 0 <= i < ps.len() && ast_uses(#[trigger] ps[i], tag)
}

/// The parts of an AST sequence or the branches of an alternation.
pub open spec fn ast_children(t: AstTerm) -> Seq<AstTerm> {
    match t {
        AstTerm::Cat { parts } => parts,
        AstTerm::Alt { branches } => branches,
        _ => seq![],
    }
}

/// The child of an AST quantifier, group or lookaround.
pub open spec fn ast_inner(t: AstTerm) -> AstTerm {
    match t {
        AstTerm::Quant { child, .. } => *child,
        AstTerm::Group { body, .. } => *body,
        AstTerm::Ahead { body } => *body,
        AstTerm::NotAhead { body } => *body,
        AstTerm::Behind { body } => *body,
        AstTerm::NotBehind { body } => *body,
        _ => t,
    }
}

/// An AST sequence or alternation uses a feature when one of its children does.
proof fn lemma_ast_list_uses(t: AstTerm, tag: Seq<char>)
    requires
        t is Cat || t is Alt,
    ensures
        ast_uses(t, tag) == ast_any_uses(ast_children(t), tag),
{
    let ps = ast_children(t);
    if ast_uses(t, tag) {
        let i = choose|i: int| 0 <= i < ps.len() && ast_uses(#[trigger] ps[i], tag);
    }
    if ast_any_uses(ps, tag) {
        let i = choose|i: int| 0 <= i < ps.len() && ast_uses(#[trigger] ps[i], tag);
        assert(ast_uses(ps[i], tag));
    }
}

/// An AST quantifier, group or lookaround uses a feature when it shows it or
/// its child uses it.
proof fn lemma_ast_wrapped_uses(t: AstTerm, tag: Seq<char>)
    requires
        t is Quant || t is Group || t is Ahead || t is NotAhead || t is Behind || t is NotBehind,
    ensures
        ast_uses(t, tag) == (ast_shows(t, tag) || ast_uses(ast_inner(t), tag)),
{
}

/// A tree without children uses a feature exactly when it shows it.
proof fn lemma_leaf_uses(t: IrTerm, tag: Seq<char>)
    requires
        !(t is Cat || t is Alt || t is Quant || t is Group || t is Look),
    ensures
        uses(t, tag) == shows(t, tag),
{
}

/// An AST node without children uses a feature exactly when it shows it.
proof fn lemma_ast_leaf_uses(t: AstTerm, tag: Seq<char>)
    requires
        !(t is Cat || t is Alt || t is Quant || t is Group || t is Ahead || t is NotAhead || t is Behind
            || t is NotBehind),
    ensures
        ast_uses(t, tag) == ast_shows(t, tag),
{
}

/// Lowering keeps the features of a tree.
pub proof fn lemma_lower_uses(t: AstTerm, tag: Seq<char>)
    ensures
        uses(lower(t), tag) == ast_uses(t, tag),
    decreases t,
{
    lemma_tags_distinct();
    reveal_strlit("Lazy");
    reveal_strlit("Greedy");
    reveal_strlit("Possessive");
    reveal_strlit("p");
    reveal_strlit("P");
    assert("Lazy"@.len() == 4 && "Greedy"@.len() == 6 && "Possessive"@.len() == 10);
    match t {
        AstTerm::Cat { parts } => {
            let ls = lower_each(parts);
            assert(lower(t) == IrTerm::Cat { parts: ls });
            lemma_cat_uses(lower(t), tag);
            lemma_ast_list_uses(t, tag);
            assert forall|i: int| 0 <= i < ls.len() implies uses(#[trigger] ls[i], tag) == ast_uses(parts[i], tag) by {
                lemma_lower_uses(parts[i], tag);
            }
            if any_uses(ls, tag) {
                let i = choose|i: int| 0 <= i < ls.len() && uses(#[trigger] ls[i], tag);
                assert(ast_uses(parts[i], tag));
            }
            if ast_any_uses(parts, tag) {
                let i = choose|i: int| 0 <= i < parts.len() && ast_uses(#[trigger] parts[i], tag);
                assert(uses(ls[i], tag));
            }
        },
        AstTerm::Alt { branches } => {
            let ls = lower_each(branches);
            assert(lower(t) == IrTerm::Alt { branches: ls });
            lemma_alt_uses(lower(t), tag);
            lemma_ast_list_uses(t, tag);
            assert forall|i: int| 0 <= i < ls.len() implies uses(#[trigger] ls[i], tag) == ast_uses(branches[i], tag) by {
                lemma_lower_uses(branches[i], tag);
            }
            if any_uses(ls, tag) {
                let i = choose|i: int| 0 <= i < ls.len() && uses(#[trigger] ls[i], tag);
                assert(ast_uses(branches[i], tag));
            }
            if ast_any_uses(branches, tag) {
                let i = choose|i: int| 0 <= i < branches.len() && ast_uses(#[trigger] branches[i], tag);
                assert(uses(ls[i], tag));
            }
        },
        AstTerm::Class { items, .. } => {
            lemma_leaf_uses(lower(t), tag);
            lemma_ast_leaf_uses(t, tag);
            let lt = lower(t);
            let ls = lt->Class_items;
            assert(ls.len() == items.len());
            assert forall|i: int| 0 <= i < items.len() implies is_property_item(#[trigger] ls[i]) == is_ast_property_item(items[i]) by {
                assert(ls[i] == lower_item(items[i]));
            }
            if uses(lower(t), tag) && tag == "unicode_property"@ {
                let i = choose|i: int| 0 <= i < ls.len() && is_property_item(#[trigger] ls[i]);
                assert(is_ast_property_item(items[i]));
            }
            if ast_uses(t, tag) {
                let i = choose|i: int| 0 <= i < items.len() && is_ast_property_item(#[trigger] items[i]);
                assert(is_property_item(ls[i]));
            }
        },
        AstTerm::Quant { child, lazy, possessive, .. } => {
            lemma_lower_uses(*child, tag);
            lemma_ast_wrapped_uses(t, tag);
            lemma_wrapped_uses(lower(t), tag);
            assert((mode_of(lazy, possessive) == "Possessive"@) == possessive);
        },
        AstTerm::Group { body, .. } => {
            lemma_lower_uses(*body, tag);
            lemma_ast_wrapped_uses(t, tag);
            lemma_wrapped_uses(lower(t), tag);
        },
        AstTerm::Ahead { body } => {
            lemma_lower_uses(*body, tag);
            lemma_ast_wrapped_uses(t, tag);
            lemma_wrapped_uses(lower(t), tag);
        },
        AstTerm::NotAhead { body } => {
            lemma_lower_uses(*body, tag);
            lemma_ast_wrapped_uses(t, tag);
            lemma_wrapped_uses(lower(t), tag);
        },
        AstTerm::Behind { body } => {
            lemma_lower_uses(*body, tag);
            lemma_ast_wrapped_uses(t, tag);
            lemma_wrapped_uses(lower(t), tag);
        },
        AstTerm::NotBehind { body } => {
            lemma_lower_uses(*body, tag);
            lemma_ast_wrapped_uses(t, tag);
            lemma_wrapped_uses(lower(t), tag);
        },
        _ => {
            lemma_leaf_uses(lower(t), tag);
            lemma_ast_leaf_uses(t, tag);
        },
    }
}

/// The compiled pattern uses a feature exactly when the AST does, whatever
/// the number of occurrences or their depth.
pub proof fn compiled_features_match_ast(n: AstTerm, tag: Seq<char>)
    ensures
        uses(normalize(lower(n)), tag) == ast_uses(n, tag),
{
    lemma_lower_uses(n, tag);
    lemma_normalize_uses(lower(n), tag);
}

/// The seven feature tags.
pub open spec fn is_feature_tag(tag: Seq<char>) -> bool {
    tag == "atomic_group"@ || tag == "named_group"@ || tag == "possessive_quantifier"@ || tag
        == "lookahead"@ || tag == "lookbehind"@ || tag == "backreference"@ || tag == "unicode_property"@
}

/// The feature list of a compiled pattern is a set: no tag twice, and only
/// the seven feature tags.
pub proof fn feature_list_is_a_set(t: IrTerm)
    ensures
        features_of(t).no_duplicates(),
        forall|i: int| 0 <= i < features_of(t).len() ==> is_feature_tag(#[trigger] features_of(t)[i]),
{
    lemma_tags_distinct();
    let f = features_of(t);
    assert forall|i: int, j: int| 0 <= i < f.len() && 0 <= j < f.len() && i != j implies f[i] != f[j] by {
        assert(f[i].len() != f[j].len());
    }
}

/// Two ASTs that use the same features compile to the same feature list,
/// however often or deeply the features occur.
pub proof fn feature_list_depends_on_features_only(n1: AstTerm, n2: AstTerm)
    requires
        forall|tag: Seq<char>| ast_uses(n1, tag) == ast_uses(n2, tag),
    ensures
        features_of(normalize(lower(n1))) == features_of(normalize(lower(n2))),
{
    lemma_tags_distinct();
    compiled_features_match_ast(n1, "atomic_group"@);
    compiled_features_match_ast(n2, "atomic_group"@);
    compiled_features_match_ast(n1, "named_group"@);
    compiled_features_match_ast(n2, "named_group"@);
    compiled_features_match_ast(n1, "possessive_quantifier"@);
    compiled_features_match_ast(n2, "possessive_quantifier"@);
    compiled_features_match_ast(n1, "lookahead"@);
    compiled_features_match_ast(n2, "lookahead"@);
    compiled_features_match_ast(n1, "lookbehind"@);
    compiled_features_match_ast(n2, "lookbehind"@);
    compiled_features_match_ast(n1, "backreference"@);
    compiled_features_match_ast(n2, "backreference"@);
    compiled_features_match_ast(n1, "unicode_property"@);
    compiled_features_match_ast(n2, "unicode_property"@);
}

} // verus!
