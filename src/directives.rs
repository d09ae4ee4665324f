//! Directive preprocessing: leading `%`-lines configure the flags and are
//! removed from the text the parser reads.
use vstd::prelude::*;
use crate::nodes::Flags;
use crate::text::{join, push_char};

verus! {

/// Unicode `White_Space`, as `char::is_whitespace` and `str::trim` use it.
pub open spec fn is_white(c: char) -> bool {
    ('\u{9}' <= c && c <= '\u{d}') || c == ' ' || c == '\u{85}' || c == '\u{a0}' || c == '\u{1680}'
        || ('\u{2000}' <= c && c <= '\u{200a}') || c == '\u{2028}' || c == '\u{2029}' || c
        == '\u{202f}' || c == '\u{205f}' || c == '\u{3000}'
}

/// Whether `c` is white space.
pub fn white_char(c: char) -> (r: bool)
    ensures
        r == is_white(c),
{
    ('\u{9}' <= c && c <= '\u{d}') || c == ' ' || c == '\u{85}' || c == '\u{a0}' || c == '\u{1680}'
        || ('\u{2000}' <= c && c <= '\u{200a}') || c == '\u{2028}' || c == '\u{2029}' || c
        == '\u{202f}' || c == '\u{205f}' || c == '\u{3000}'
}

/// Index of the first newline at or after `p`, or the length.
pub open spec fn next_newline(t: Seq<char>, p: int) -> int
    decreases t.len() - p,
{
    if p >= t.len() || p < 0 {
        t.len() as int
    } else if t[p] == '\n' {
        p
    } else {
        next_newline(t, p + 1)
    }
}

/// The next newline is not before `p`.
pub proof fn lemma_next_newline_bounds(t: Seq<char>, p: int)
    requires
        0 <= p,
    ensures
        p <= next_newline(t, p) <= t.len() || p > t.len(),
    decreases t.len() - p,
{
    if p < t.len() && t[p] != '\n' {
        lemma_next_newline_bounds(t, p + 1);
    }
}

/// The line from `p` to `e`, without the `\r` of a `\r\n` ending.
pub open spec fn line_text(t: Seq<char>, p: int, e: int) -> Seq<char> {
    if e < t.len() && e > p && t[e - 1] == '\r' {
        t.subrange(p, e - 1)
    } else {
        t.subrange(p, e)
    }
}

/// The lines of `t` from offset `p` on, split as `str::lines` splits them.
pub open spec fn lines_from(t: Seq<char>, p: int) -> Seq<Seq<char>>
    decreases t.len() - p,
{
    if p >= t.len() || p < 0 {
        seq![]
    } else {
        let e = next_newline(t, p);
        proof {
            lemma_next_newline_bounds(t, p);
        }
        if e >= t.len() {
            seq![line_text(t, p, e)]
        } else {
            seq![line_text(t, p, e)] + lines_from(t, e + 1)
        }
    }
}

/// Index of the first character of `l` that is not white space, or its length.
pub open spec fn first_non_white(l: Seq<char>, k: int) -> int
    decreases l.len() - k,
{
    if k >= l.len() || k < 0 {
        l.len() as int
    } else if is_white(l[k]) {
        first_non_white(l, k + 1)
    } else {
        k
    }
}

/// Whether every character of `l` is white space.
pub open spec fn all_white(l: Seq<char>) -> bool {
    forall|i: int| 0 <= i < l.len() ==> is_white(#[trigger] l[i])
}

/// Characters allowed in the flag list of a `%flags` directive.
pub open spec fn is_flag_char(c: char) -> bool {
    c == ' ' || c == ',' || c == '\t' || c == '[' || c == ']' || c == 'i' || c == 'm' || c == 's'
        || c == 'u' || c == 'x' || c == 'I' || c == 'M' || c == 'S' || c == 'U' || c == 'X'
}

/// Length of the run of flag-list characters at the start of `l`.
pub open spec fn flag_run(l: Seq<char>, k: int) -> int
    decreases l.len() - k,
{
    if k >= l.len() || k < 0 {
        l.len() as int
    } else if is_flag_char(l[k]) {
        flag_run(l, k + 1)
    } else {
        k
    }
}

/// The flags named in a flag list, letters in either case.
pub open spec fn flags_of_token(tok: Seq<char>) -> Flags {
    Flags {
        ignore_case: tok.contains('i') || tok.contains('I'),
        multiline: tok.contains('m') || tok.contains('M'),
        dot_all: tok.contains('s') || tok.contains('S'),
        unicode: tok.contains('u') || tok.contains('U'),
        extended: tok.contains('x') || tok.contains('X'),
    }
}

/// State of the directive scan: the flags so far, whether the pattern body
/// has begun, and the pattern lines kept.
pub struct DirectiveState {
    pub flags: Flags,
    pub in_pattern: bool,
    pub lines: Seq<Seq<char>>,
}

/// One line of the directive scan.
pub open spec fn directive_step(st: DirectiveState, line: Seq<char>) -> DirectiveState {
    let k = first_non_white(line, 0);
    if !st.in_pattern && (k == line.len() || line[k] == '#') {
        st
    } else if !st.in_pattern && k + 6 <= line.len() && line.subrange(k, k + 6) == "%flags"@ {
        let after = line.skip(k + 6);
        let j = flag_run(after, 0);
        let rest = after.skip(j);
        if all_white(rest) {
            DirectiveState { flags: flags_of_token(after.take(j)), ..st }
        } else {
            DirectiveState { flags: flags_of_token(after.take(j)), in_pattern: true, lines: st.lines.push(rest) }
        }
    } else if !st.in_pattern && line[k] == '%' {
        st
    } else {
        DirectiveState { in_pattern: true, lines: st.lines.push(line), ..st }
    }
}

/// The directive scan over a list of lines.
pub open spec fn directive_scan(lines: Seq<Seq<char>>) -> DirectiveState
    decreases lines.len(),
{
    if lines.len() == 0 {
        DirectiveState {
            flags: Flags { ignore_case: false, multiline: false, dot_all: false, unicode: false, extended: false },
            in_pattern: false,
            lines: seq![],
        }
    } else {
        directive_step(directive_scan(lines.drop_last()), lines.last())
    }
}

/// The flags that the directives of `text` set.
pub open spec fn directive_flags(text: Seq<char>) -> Flags {
    directive_scan(lines_from(text, 0)).flags
}

/// The pattern body of `text`: its lines without the leading directives,
/// blank lines and comment lines, joined by newlines.
pub open spec fn directive_body(text: Seq<char>) -> Seq<char> {
    join(directive_scan(lines_from(text, 0)).lines, "\n"@)
}

/// The lines from `p` on: the line ending at the next newline, then the rest.
proof fn lemma_lines_from_step(t: Seq<char>, p: int)
    requires
        0 <= p < t.len(),
    ensures
        next_newline(t, p) < t.len() ==> lines_from(t, p) == seq![line_text(t, p, next_newline(t, p))]
            + lines_from(t, next_newline(t, p) + 1),
        next_newline(t, p) >= t.len() ==> lines_from(t, p) == seq![line_text(t, p, next_newline(t, p))]
            + lines_from(t, t.len() as int),
{
    if next_newline(t, p) >= t.len() {
        assert(lines_from(t, t.len() as int) == Seq::<Seq<char>>::empty());
        assert(seq![line_text(t, p, next_newline(t, p))] + Seq::<Seq<char>>::empty() =~= seq![line_text(t, p, next_newline(t, p))]);
    }
}

/// Executable state of the directive scan.
struct ScanState {
    flags: Flags,
    in_pattern: bool,
    pattern: String,
    count: usize,
}

impl ScanState {
    /// The executable state stands for `st`.
    spec fn holds(&self, st: DirectiveState) -> bool {
        &&& self.flags == st.flags
        &&& self.in_pattern == st.in_pattern
        &&& self.count == st.lines.len()
        &&& self.pattern@ == join(st.lines, "\n"@)
    }

    /// Appends `cs[from..to]` as one more pattern line.
    fn keep_line(&mut self, cs: &Vec<char>, from: usize, to: usize, Ghost(st): Ghost<DirectiveState>)
        requires
            old(self).holds(st),
            from <= to <= cs.len(),
            old(self).count < usize::MAX,
        ensures
            final(self).holds(DirectiveState { in_pattern: true, lines: st.lines.push(cs@.subrange(from as int, to as int)), ..st }),
    {
        proof {
            reveal_strlit("\n");
        }
        if self.count > 0 {
            push_char(&mut self.pattern, '\n');
        }
        let mut r = from;
        while r < to
            invariant
                from <= r <= to <= cs.len(),
                self.count == st.lines.len(),
                st.lines.len() < usize::MAX,
                self.flags == st.flags,
                self.pattern@ == old_pattern_plus(join(st.lines, "\n"@), st.lines.len() > 0, cs@.subrange(from as int, r as int)),
            decreases to - r,
        {
            push_char(&mut self.pattern, cs[r]);
            proof {
                assert(cs@.subrange(from as int, r + 1) =~= cs@.subrange(from as int, r as int).push(cs@[r as int]));
            }
            r = r + 1;
        }
        self.in_pattern = true;
        self.count = self.count + 1;
        proof {
            lemma_join_push(st.lines, cs@.subrange(from as int, to as int));
        }
    }

    /// Handles the `%flags` directive whose list starts at `a`.
    fn flags_line(&mut self, cs: &Vec<char>, a: usize, end: usize, Ghost(st): Ghost<DirectiveState>)
        requires
            old(self).holds(st),
            a <= end <= cs.len(),
            old(self).count < usize::MAX,
        ensures
            ({
                let after = cs@.subrange(a as int, end as int);
                let j = flag_run(after, 0);
                let rest = after.skip(j);
                final(self).holds(
                    if all_white(rest) {
                        DirectiveState { flags: flags_of_token(after.take(j)), ..st }
                    } else {
                        DirectiveState { flags: flags_of_token(after.take(j)), in_pattern: true, lines: st.lines.push(rest) }
                    },
                )
            }),
    {
        let ghost after = cs@.subrange(a as int, end as int);
        let mut j = a;
        let mut tok_flags = Flags { ignore_case: false, multiline: false, dot_all: false, unicode: false, extended: false };
        while j < end && (cs[j] == ' ' || cs[j] == ',' || cs[j] == '\t' || cs[j] == '[' || cs[j] == ']'
            || cs[j] == 'i' || cs[j] == 'm' || cs[j] == 's' || cs[j] == 'u' || cs[j] == 'x' || cs[j]
            == 'I' || cs[j] == 'M' || cs[j] == 'S' || cs[j] == 'U' || cs[j] == 'X')
            invariant
                a <= j <= end <= cs.len(),
                after == cs@.subrange(a as int, end as int),
                flag_run(after, (j - a) as int) == flag_run(after, 0),
                tok_flags == flags_of_token(after.take((j - a) as int)),
            decreases end - j,
        {
            let c = cs[j];
            proof {
                let tk = after.take((j - a) as int);
                assert(after.take((j - a) as int + 1) =~= tk.push(c));
                crate::nodes::lemma_push_contains(tk, c, 'i');
                crate::nodes::lemma_push_contains(tk, c, 'I');
                crate::nodes::lemma_push_contains(tk, c, 'm');
                crate::nodes::lemma_push_contains(tk, c, 'M');
                crate::nodes::lemma_push_contains(tk, c, 's');
                crate::nodes::lemma_push_contains(tk, c, 'S');
                crate::nodes::lemma_push_contains(tk, c, 'u');
                crate::nodes::lemma_push_contains(tk, c, 'U');
                crate::nodes::lemma_push_contains(tk, c, 'x');
                crate::nodes::lemma_push_contains(tk, c, 'X');
            }
            if c == 'i' || c == 'I' {
                tok_flags.ignore_case = true;
            } else if c == 'm' || c == 'M' {
                tok_flags.multiline = true;
            } else if c == 's' || c == 'S' {
                tok_flags.dot_all = true;
            } else if c == 'u' || c == 'U' {
                tok_flags.unicode = true;
            } else if c == 'x' || c == 'X' {
                tok_flags.extended = true;
            }
            j = j + 1;
        }
        let ghost jj = (j - a) as int;
        proof {
            assert(jj == flag_run(after, 0));
        }
        self.flags = tok_flags;
        let mut q = j;
        while q < end && white_char(cs[q])
            invariant
                j <= q <= end <= cs.len(),
                forall|i: int| j <= i < q ==> is_white(#[trigger] cs@[i]),
            decreases end - q,
        {
            q = q + 1;
        }
        let ghost rest = after.skip(jj);
        proof {
            assert(rest =~= cs@.subrange(j as int, end as int));
            if q == end {
                assert forall|i: int| 0 <= i < rest.len() implies is_white(#[trigger] rest[i]) by {
                    assert(rest[i] == cs@[j + i]);
                }
            } else {
                assert(!is_white(rest[q - j]));
            }
        }
        if q < end {
            self.keep_line(cs, j, end, Ghost(DirectiveState { flags: tok_flags, ..st }));
        }
    }

    /// Handles the line `cs[p..end]`.
    fn line(&mut self, cs: &Vec<char>, p: usize, end: usize, Ghost(st): Ghost<DirectiveState>)
        requires
            old(self).holds(st),
            p <= end <= cs.len(),
            old(self).count < usize::MAX,
        ensures
            final(self).holds(directive_step(st, cs@.subrange(p as int, end as int))),
    {
        let ghost line = cs@.subrange(p as int, end as int);
        let mut k = p;
        while k < end && white_char(cs[k])
            invariant
                p <= k <= end <= cs.len(),
                line == cs@.subrange(p as int, end as int),
                first_non_white(line, (k - p) as int) == first_non_white(line, 0),
            decreases end - k,
        {
            k = k + 1;
        }
        let ghost kk = (k - p) as int;
        proof {
            assert(kk == first_non_white(line, 0));
            reveal_strlit("%flags");
        }
        if !self.in_pattern && (k == end || cs[k] == '#') {
        } else if !self.in_pattern && end - k >= 6 && cs[k] == '%' && cs[k + 1] == 'f' && cs[k + 2] == 'l'
            && cs[k + 3] == 'a' && cs[k + 4] == 'g' && cs[k + 5] == 's' {
            proof {
                assert(line.subrange(kk, kk + 6) =~= "%flags"@);
                assert(line.skip(kk + 6) =~= cs@.subrange(k + 6, end as int));
            }
            self.flags_line(cs, k + 6, end, Ghost(st));
        } else if !self.in_pattern && cs[k] == '%' {
            proof {
                if kk + 6 <= line.len() && line.subrange(kk, kk + 6) == "%flags"@ {
                    assert(line.subrange(kk, kk + 6)[1] == 'f');
                    assert(line.subrange(kk, kk + 6)[2] == 'l');
                    assert(line.subrange(kk, kk + 6)[3] == 'a');
                    assert(line.subrange(kk, kk + 6)[4] == 'g');
                    assert(line.subrange(kk, kk + 6)[5] == 's');
                }
            }
        } else {
            proof {
                if !st.in_pattern && kk + 6 <= line.len() && line.subrange(kk, kk + 6) == "%flags"@ {
                    assert(line.subrange(kk, kk + 6)[0] == '%');
                }
            }
            self.keep_line(cs, p, end, Ghost(st));
        }
    }
}

/// Scans a directive-bearing text: returns the flags it sets and its pattern
/// body.
pub fn split_directives(cs: &Vec<char>) -> (r: (Flags, String))
    ensures
        r.0 == directive_flags(cs@),
        r.1@ == directive_body(cs@),
{
    let ghost t = cs@;
    let mut scan = ScanState {
        flags: Flags { ignore_case: false, multiline: false, dot_all: false, unicode: false, extended: false },
        in_pattern: false,
        pattern: String::new(),
        count: 0,
    };
    let ghost mut done: Seq<Seq<char>> = seq![];
    let mut p: usize = 0;
    while p < cs.len()
        invariant
            t == cs@,
            p <= cs.len(),
            done + lines_from(t, p as int) == lines_from(t, 0),
            scan.holds(directive_scan(done)),
            scan.count <= p,
        decreases cs.len() - p,
    {
        let mut e = p;
        while e < cs.len() && cs[e] != '\n'
            invariant
                p <= e <= cs.len(),
                next_newline(cs@, e as int) == next_newline(cs@, p as int),
            decreases cs.len() - e,
        {
            e = e + 1;
        }
        let end = if e < cs.len() && e > p && cs[e - 1] == '\r' {
            e - 1
        } else {
            e
        };
        let ghost line = line_text(t, p as int, e as int);
        proof {
            assert(line =~= t.subrange(p as int, end as int));
            lemma_lines_from_step(t, p as int);
        }
        scan.line(cs, p, end, Ghost(directive_scan(done)));
        proof {
            assert(done.push(line).drop_last() =~= done);
            done = done.push(line);
            if e < cs.len() {
                assert(done + lines_from(t, e + 1) =~= lines_from(t, 0));
            } else {
                assert(done + lines_from(t, cs.len() as int) =~= lines_from(t, 0));
            }
        }
        p = if e < cs.len() {
            e + 1
        } else {
            cs.len()
        };
    }
    proof {
        assert(lines_from(t, p as int) == Seq::<Seq<char>>::empty());
        assert(done =~= lines_from(t, 0));
    }
    (scan.flags, scan.pattern)
}

/// `base`, then a newline when `sep`, then `tail`.
pub open spec fn old_pattern_plus(base: Seq<char>, sep: bool, tail: Seq<char>) -> Seq<char> {
    if sep {
        base + "\n"@ + tail
    } else {
        base + tail
    }
}

/// Joining one more line.
proof fn lemma_join_push(lines: Seq<Seq<char>>, l: Seq<char>)
    ensures
        join(lines.push(l), "\n"@) == old_pattern_plus(join(lines, "\n"@), lines.len() > 0, l),
{
    assert(lines.push(l).drop_last() =~= lines);
    if lines.len() == 0 {
        assert(lines.push(l) =~= seq![l]);
        assert(Seq::<char>::empty() + l =~= l);
    }
}

} // verus!
