//! Parse errors: a value carrying the message, the position, the source text
//! and an optional hint, with a human rendering and an LSP-style record.
use vstd::prelude::*;
use crate::text::{chars_of, digits, push_char, push_digits, push_text, string_of};

verus! {

/// What `str::to_lowercase` returns for a string.
pub uninterp spec fn lower_of(s: Seq<char>) -> Seq<char>;

/// Relies on `str::to_lowercase`: the result depends on the characters
/// alone.
#[verifier::external_body]
fn lowercase(s: &str) -> (r: String)
    ensures
        r@ == lower_of(s@),
{
    s.to_lowercase()
}

/// A parse error.
#[derive(Debug, Clone)]
pub struct STRlingParseError {
    /// What went wrong.
    pub message: String,
    /// Character offset (0-based) in `text` where it went wrong.
    pub pos: usize,
    /// The source text that was parsed.
    pub text: String,
    /// How to fix it, if known.
    pub hint: Option<String>,
}

/// A zero-based line and column.
#[derive(Debug, Clone, Copy, PartialEq, Eq)]
pub struct LspPosition {
    pub line: usize,
    pub character: usize,
}

/// A range between two positions.
#[derive(Debug, Clone, Copy, PartialEq, Eq)]
pub struct LspRange {
    pub start: LspPosition,
    pub end: LspPosition,
}

/// A diagnostic in the shape of the Language Server Protocol.
#[derive(Debug, Clone)]
pub struct LspDiagnostic {
    pub range: LspRange,
    /// 1 = Error.
    pub severity: u32,
    pub message: String,
    pub source: String,
    pub code: String,
}

/// The number of newlines in `s`.
pub open spec fn count_newlines(s: Seq<char>) -> nat
    decreases s.len(),
{
    if s.len() == 0 {
        0
    } else {
        count_newlines(s.drop_last()) + if s.last() == '\n' {
            1nat
        } else {
            0nat
        }
    }
}

/// Start of the line holding offset `p`: just after the last newline before
/// `p`, or 0.
pub open spec fn line_start(text: Seq<char>, p: int) -> int
    decreases p,
{
    if p <= 0 {
        0
    } else if text[p - 1] == '\n' {
        p
    } else {
        line_start(text, p - 1)
    }
}

/// End of the line that starts at `s`: the next newline, or the end of text.
pub open spec fn line_end(text: Seq<char>, s: int) -> int
    decreases text.len() - s,
{
    if s >= text.len() || s < 0 {
        text.len() as int
    } else if text[s] == '\n' {
        s
    } else {
        line_end(text, s + 1)
    }
}

/// The error position, clamped to the text.
pub open spec fn clamped(pos: nat, text: Seq<char>) -> int {
    if pos > text.len() {
        text.len() as int
    } else {
        pos as int
    }
}

/// `n` spaces.
pub open spec fn spaces(n: nat) -> Seq<char> {
    Seq::new(n, |i: int| ' ')
}

/// Whether `c` separates words of an error code.
pub open spec fn is_code_separator(c: char) -> bool {
    c == ' ' || c == '\'' || c == '"' || c == '(' || c == ')' || c == '[' || c == ']' || c == '{'
        || c == '}' || c == '\\' || c == '/' || c == '_'
}

/// Scan building an error code: the code so far, and whether a separator is
/// owed before the next word character.
pub open spec fn code_scan(s: Seq<char>) -> (Seq<char>, bool)
    decreases s.len(),
{
    if s.len() == 0 {
        (seq![], false)
    } else {
        let (out, owed) = code_scan(s.drop_last());
        if is_code_separator(s.last()) {
            (out, out.len() > 0)
        } else {
            (
                if owed {
                    out.push('_')
                } else {
                    out
                }.push(s.last()),
                false,
            )
        }
    }
}

/// The error code of already-lowercased text: its words (runs of characters
/// other than separators) joined by single underscores.
pub open spec fn code_text(s: Seq<char>) -> Seq<char> {
    code_scan(s).0
}

/// Builds the error code of already-lowercased message text.
pub fn error_code(lowered: &str) -> (r: String)
    ensures
        r@ == code_text(lowered@),
{
    let cs = chars_of(lowered);
    let mut out = String::new();
    let mut owed = false;
    let mut i: usize = 0;
    while i < cs.len()
        invariant
            cs@ == lowered@,
            i <= cs.len(),
            (out@, owed) == code_scan(cs@.take(i as int)),
        decreases cs.len() - i,
    {
        let c = cs[i];
        proof {
            assert(cs@.take(i + 1).drop_last() =~= cs@.take(i as int));
        }
        if c == ' ' || c == '\'' || c == '"' || c == '(' || c == ')' || c == '[' || c == ']' || c == '{'
            || c == '}' || c == '\\' || c == '/' || c == '_' {
            owed = out.as_str().unicode_len() > 0;
        } else {
            if owed {
                push_char(&mut out, '_');
            }
            push_char(&mut out, c);
            owed = false;
        }
        i = i + 1;
    }
    proof {
        assert(cs@.take(cs.len() as int) =~= cs@);
    }
    out
}

impl STRlingParseError {
    /// The human rendering: for empty text, the message and the position;
    /// otherwise a header, the numbered line holding the position, a caret
    /// under the position, and the hint if there is one.
    pub open spec fn formatted(&self) -> Seq<char> {
        let text = self.text@;
        if text.len() == 0 {
            self.message@ + " at position "@ + digits(self.pos as nat)
        } else {
            let p = clamped(self.pos as nat, text);
            let s = line_start(text, p);
            "STRling Parse Error: "@ + self.message@ + "\n\n> "@ + digits(count_newlines(text.take(p)) + 1)
                + " | "@ + text.subrange(s, line_end(text, s)) + "\n>   | "@ + spaces((p - s) as nat) + "^"@
                + match self.hint {
                Some(h) => "\n\nHint: "@ + h@,
                None => seq![],
            }
        }
    }

    /// Zero-based line of the error position.
    pub open spec fn line_index(&self) -> nat {
        count_newlines(self.text@.take(clamped(self.pos as nat, self.text@)))
    }

    /// Zero-based column of the error position.
    pub open spec fn column(&self) -> nat {
        if self.text@.len() == 0 {
            self.pos as nat
        } else {
            let p = clamped(self.pos as nat, self.text@);
            (p - line_start(self.text@, p)) as nat
        }
    }

    /// A new error.
    pub fn new(message: String, pos: usize, text: String, hint: Option<String>) -> (r: Self)
        ensures
            r.message == message,
            r.pos == pos,
            r.text == text,
            r.hint == hint,
    {
        STRlingParseError { message, pos, text, hint }
    }

    /// Where the error's line starts, where the position falls, and how many
    /// newlines come before it.
    fn locate(&self, cs: &Vec<char>) -> (r: (usize, usize, usize))
        requires
            cs@ == self.text@,
        ensures
            r.0 == clamped(self.pos as nat, self.text@),
            r.1 == line_start(self.text@, r.0 as int),
            r.2 == count_newlines(self.text@.take(r.0 as int)),
    {
        let p = if self.pos > cs.len() {
            cs.len()
        } else {
            self.pos
        };
        let mut start: usize = 0;
        let mut newlines: usize = 0;
        let mut i: usize = 0;
        while i < p
            invariant
                p <= cs.len(),
                cs@ == self.text@,
                i <= p,
                start == line_start(cs@, i as int),
                newlines == count_newlines(cs@.take(i as int)),
                newlines <= i,
            decreases p - i,
        {
            proof {
                assert(cs@.take(i + 1).drop_last() =~= cs@.take(i as int));
            }
            if cs[i] == '\n' {
                start = i + 1;
                newlines = newlines + 1;
            }
            i = i + 1;
        }
        (p, start, newlines)
    }

    /// Where the line starting at `s` ends.
    fn end_of_line(cs: &Vec<char>, s: usize) -> (r: usize)
        requires
            s <= cs.len(),
        ensures
            r == line_end(cs@, s as int),
            s <= r <= cs.len(),
    {
        let mut e = s;
        while e < cs.len() && cs[e] != '\n'
            invariant
                s <= e <= cs.len(),
                line_end(cs@, e as int) == line_end(cs@, s as int),
            decreases cs.len() - e,
        {
            e = e + 1;
        }
        e
    }

    /// The human rendering.
    fn format_error(&self) -> (r: String)
        ensures
            r@ == self.formatted(),
    {
        let cs = chars_of(self.text.as_str());
        let mut out = String::new();
        if cs.len() == 0 {
            push_text(&mut out, self.message.as_str());
            push_text(&mut out, " at position ");
            push_digits(&mut out, self.pos as u128);
            return out;
        }
        let (p, s, newlines) = self.locate(&cs);
        proof {
            lemma_line_start_bounds(cs@, p as int);
        }
        let e = Self::end_of_line(&cs, s);
        push_text(&mut out, "STRling Parse Error: ");
        push_text(&mut out, self.message.as_str());
        push_text(&mut out, "\n\n> ");
        push_digits(&mut out, newlines as u128 + 1);
        push_text(&mut out, " | ");
        let line = string_of(&cs, s, e);
        push_text(&mut out, line.as_str());
        push_text(&mut out, "\n>   | ");
        let ghost before = out@;
        let mut k: usize = 0;
        while k < p - s
            invariant
                s <= p,
                k <= p - s,
                out@ == before + spaces(k as nat),
            decreases p - s - k,
        {
            push_char(&mut out, ' ');
            proof {
                assert(spaces((k + 1) as nat) =~= spaces(k as nat).push(' '));
            }
            k = k + 1;
        }
        push_text(&mut out, "^");
        match &self.hint {
            Some(h) => {
                push_text(&mut out, "\n\nHint: ");
                push_text(&mut out, h.as_str());
            },
            None => {},
        }
        proof {
            assert(out@ =~= self.formatted());
        }
        out
    }

    /// The human rendering of the error.
    pub fn to_formatted_string(&self) -> (r: String)
        ensures
            r@ == self.formatted(),
    {
        self.format_error()
    }

    /// The error as an LSP diagnostic: a one-character range at the error's
    /// zero-based line and column, severity 1, source "STRling", the message
    /// followed by the hint, and a code made from the lowercased message.
    pub fn to_lsp_diagnostic(&self) -> (r: LspDiagnostic)
        requires
            self.pos < usize::MAX,
        ensures
            r.range.start.line == self.line_index(),
            r.range.start.character == self.column(),
            r.range.end.line == self.line_index(),
            r.range.end.character == self.column() + 1,
            r.severity == 1,
            r.source@ == "STRling"@,
            r.message@ == self.message@ + match self.hint {
                Some(h) => "\n\nHint: "@ + h@,
                None => seq![],
            },
            r.code@ == code_text(lower_of(self.message@)),
    {
        let cs = chars_of(self.text.as_str());
        let (p, s, newlines) = self.locate(&cs);
        proof {
            lemma_line_start_bounds(cs@, p as int);
        }
        let character = if cs.len() == 0 {
            self.pos
        } else {
            p - s
        };
        let mut message = self.message.clone();
        match &self.hint {
            Some(h) => {
                push_text(&mut message, "\n\nHint: ");
                push_text(&mut message, h.as_str());
            },
            None => {},
        }
        proof {
            assert(message@ =~= self.message@ + match self.hint {
                Some(h) => "\n\nHint: "@ + h@,
                None => seq![],
            });
        }
        let lowered = lowercase(self.message.as_str());
        let code = error_code(lowered.as_str());
        let start = LspPosition { line: newlines, character };
        let end = LspPosition { line: newlines, character: character + 1 };
        LspDiagnostic {
            range: LspRange { start, end },
            severity: 1,
            message,
            source: String::from_str("STRling"),
            code,
        }
    }
}

/// A line starts no later than the offset it holds.
proof fn lemma_line_start_bounds(text: Seq<char>, p: int)
    requires
        0 <= p <= text.len(),
    ensures
        0 <= line_start(text, p) <= p,
    decreases p,
{
    if p > 0 && text[p - 1] != '\n' {
        lemma_line_start_bounds(text, p - 1);
    }
}

} // verus!
