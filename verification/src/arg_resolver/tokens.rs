//! The two token alphabets of the template language and their lexers.
//!
//! A template string is cut into placeholder spans, free text and escaped
//! runs; the interior of one placeholder span is then cut into braces, index
//! numbers and separator runs. Both lexers use maximal munch; the three
//! template-level token classes are disjoint in their first character, so the
//! next token is decided by the character at the cursor.

use vstd::prelude::*;

use crate::is_brace;
use crate::text::{digits_val, is_digit, parse_usize, run_end};

verus! {

// ---------------------------------------------------------------------------
// Token and error types
// ---------------------------------------------------------------------------

/// One token of a whole template string.
#[derive(Debug, Clone, Copy, PartialEq, Eq, Structural)]
pub enum ArgTemplateToken {
    /// A balanced `{...}` span with no nested brace.
    ArgPlaceholder,
    /// A maximal run without `{`, `}` or `\`.
    FreeText,
    /// A `\`-prefixed run that stands for its text after the backslash.
    EscapedText,
}

/// One token of the interior of a placeholder span.
#[derive(Debug, Clone, PartialEq, Eq)]
pub enum ArgPlaceholderToken {
    BraceOpen,
    BraceClose,
    /// A run of decimal digits, as a field or piece index.
    Index(usize),
    /// A non-empty run of characters that are neither digits nor braces.
    Separator(String),
}

/// Why lexing a template failed.
#[derive(Default, Debug, Clone, PartialEq, Eq)]
pub enum LexingError {
    /// An index token's digits overflow `usize`; the payload is a reason for
    /// diagnostics only.
    InvalidInteger(String),
    /// Malformed placeholder syntax: an unmatched brace or a token sequence
    /// outside the placeholder grammar.
    #[default]
    InvalidDefinition,
}

/// Mathematical value of an [`ArgPlaceholderToken`].
pub enum PlaceholderTokenView {
    BraceOpen,
    BraceClose,
    Index(usize),
    Separator(Seq<char>),
}

impl View for ArgPlaceholderToken {
    type V = PlaceholderTokenView;

    open spec fn view(&self) -> PlaceholderTokenView {
        match self {
            ArgPlaceholderToken::BraceOpen => PlaceholderTokenView::BraceOpen,
            ArgPlaceholderToken::BraceClose => PlaceholderTokenView::BraceClose,
            ArgPlaceholderToken::Index(i) => PlaceholderTokenView::Index(*i),
            ArgPlaceholderToken::Separator(s) => PlaceholderTokenView::Separator(s@),
        }
    }
}

impl DeepView for ArgPlaceholderToken {
    type V = PlaceholderTokenView;

    open spec fn deep_view(&self) -> PlaceholderTokenView {
        self.view()
    }
}

/// Mathematical value of a [`LexingError`].
pub enum LexingErrorView {
    InvalidInteger(Seq<char>),
    InvalidDefinition,
}

impl View for LexingError {
    type V = LexingErrorView;

    open spec fn view(&self) -> LexingErrorView {
        match self {
            LexingError::InvalidInteger(s) => LexingErrorView::InvalidInteger(s@),
            LexingError::InvalidDefinition => LexingErrorView::InvalidDefinition,
        }
    }
}

// ---------------------------------------------------------------------------
// Character runs
// ---------------------------------------------------------------------------

/// The character classes whose maximal runs the lexers scan over.
#[derive(Debug, Clone, Copy, PartialEq, Eq, Structural)]
pub enum CharClass {
    /// Free text: neither a brace nor a backslash.
    Free,
    /// Anything but a brace.
    NonBrace,
    /// Opening braces.
    OpenBrace,
    /// Closing braces.
    CloseBrace,
    /// Decimal digits.
    Digit,
    /// Separator text: neither a digit nor a brace.
    Separator,
}

pub open spec fn class_pred(k: CharClass) -> spec_fn(char) -> bool {
    match k {
        CharClass::Free => |c: char| !is_brace(c) && c != '\\',
        CharClass::NonBrace => |c: char| !is_brace(c),
        CharClass::OpenBrace => |c: char| c == '{',
        CharClass::CloseBrace => |c: char| c == '}',
        CharClass::Digit => |c: char| is_digit(c),
        CharClass::Separator => |c: char| !is_brace(c) && !is_digit(c),
    }
}

fn class_test(k: CharClass, c: char) -> (b: bool)
    ensures
        b == class_pred(k)(c),
{
    match k {
        CharClass::Free => !(c == '{' || c == '}') && c != '\\',
        CharClass::NonBrace => !(c == '{' || c == '}'),
        CharClass::OpenBrace => c == '{',
        CharClass::CloseBrace => c == '}',
        CharClass::Digit => '0' <= c && c <= '9',
        CharClass::Separator => !(c == '{' || c == '}') && !('0' <= c && c <= '9'),
    }
}

/// `run_end` stays within bounds and delimits a maximal satisfying run.
proof fn lemma_run_end(s: Seq<char>, i: int, pred: spec_fn(char) -> bool)
    requires
        0 <= i <= s.len(),
    ensures
        i <= run_end(s, i, pred) <= s.len(),
        forall|k: int| i <= k < run_end(s, i, pred) ==> pred(s[k]),
        run_end(s, i, pred) < s.len() ==> !pred(s[run_end(s, i, pred)]),
    decreases s.len() - i,
{
    if i == s.len() || !pred(s[i]) {
    } else {
        lemma_run_end(s, i + 1, pred);
    }
}

/// End of the maximal run of class `k` starting at `from`.
fn scan_run(s: &str, from: usize, k: CharClass) -> (r: usize)
    requires
        from <= s@.len(),
    ensures
        r == run_end(s@, from as int, class_pred(k)),
        from <= r <= s@.len(),
{
    let n: usize = s.unicode_len();
    let mut i: usize = from;
    proof {
        lemma_run_end(s@, from as int, class_pred(k));
    }
    while i < n
        invariant
            from <= i <= n,
            n == s@.len(),
            run_end(s@, from as int, class_pred(k)) == run_end(s@, i as int, class_pred(k)),
            i <= run_end(s@, from as int, class_pred(k)),
        decreases n - i,
    {
        if !class_test(k, s.get_char(i)) {
            proof {
                assert(run_end(s@, i as int, class_pred(k)) == i as int);
            }
            return i;
        }
        proof {
            assert(run_end(s@, i as int, class_pred(k)) == run_end(
                s@,
                i + 1,
                class_pred(k),
            ));
            lemma_run_end(s@, i + 1, class_pred(k));
        }
        i = i + 1;
    }
    proof {
        assert(run_end(s@, i as int, class_pred(k)) == i as int);
    }
    i
}

// ---------------------------------------------------------------------------
// Template-level lexing
// ---------------------------------------------------------------------------

/// The token starting at position `pos` of a template, and the position just
/// after it. `None` is a lexing failure — an unmatched `{` or a stray `}` —
/// which consumes one character, so that lexing can go on past it.
///
/// The tie-break order of the grammar is built in: a balanced brace span is a
/// placeholder whatever it contains, a backslash always starts an escaped
/// run, and free text is the maximal run that neither of those claims.
pub open spec fn template_step(s: Seq<char>, pos: int) -> (Option<ArgTemplateToken>, int)
    recommends
        0 <= pos < s.len(),
{
    let c = s[pos];
    if c == '}' {
        (None, pos + 1)
    } else if c == '{' {
        let e = run_end(s, pos + 1, class_pred(CharClass::NonBrace));
        if e < s.len() && s[e] == '}' {
            (Some(ArgTemplateToken::ArgPlaceholder), e + 1)
        } else {
            (None, pos + 1)
        }
    } else if c == '\\' {
        let q1 = run_end(s, pos + 1, class_pred(CharClass::OpenBrace));
        let q2 = run_end(s, q1, class_pred(CharClass::NonBrace));
        let q3 = run_end(s, q2, class_pred(CharClass::CloseBrace));
        (Some(ArgTemplateToken::EscapedText), q3)
    } else {
        (Some(ArgTemplateToken::FreeText), run_end(s, pos, class_pred(CharClass::Free)))
    }
}

/// Escape fidelity: a backslash always starts an escaped run, never a
/// placeholder and never free text, whatever follows it.
pub proof fn lemma_escape_never_placeholder(s: Seq<char>, pos: int)
    requires
        0 <= pos < s.len(),
        s[pos] == '\\',
    ensures
        template_step(s, pos).0 == Some(ArgTemplateToken::EscapedText),
{
}

/// A template step consumes at least one character and stays within bounds.
pub proof fn lemma_template_step_bounds(s: Seq<char>, pos: int)
    requires
        0 <= pos < s.len(),
    ensures
        pos < template_step(s, pos).1 <= s.len(),
{
    let c = s[pos];
    if c == '}' {
    } else if c == '{' {
        lemma_run_end(s, pos + 1, class_pred(CharClass::NonBrace));
    } else if c == '\\' {
        let q1 = run_end(s, pos + 1, class_pred(CharClass::OpenBrace));
        lemma_run_end(s, pos + 1, class_pred(CharClass::OpenBrace));
        lemma_run_end(s, q1, class_pred(CharClass::NonBrace));
        lemma_run_end(s, run_end(s, q1, class_pred(CharClass::NonBrace)), class_pred(
            CharClass::CloseBrace,
        ));
    } else {
        lemma_run_end(s, pos, class_pred(CharClass::Free));
    }
}

/// A stepping lexer over one template string, yielding template-level tokens
/// with their spans, in the style of a lazy token stream: `next` advances to
/// the following token, `slice` returns the text of the last one.
pub struct TemplateLexer {
    /// The template being lexed.
    pub src: String,
    /// Start of the most recent token's span.
    pub token_start: usize,
    /// End of the most recent token's span; the next scan starts here.
    pub pos: usize,
}

impl TemplateLexer {
    /// Positions are within the source, the span non-empty runs forward.
    pub open spec fn wf(&self) -> bool {
        self.token_start <= self.pos <= self.src@.len()
    }

    pub fn new(src: &str) -> (r: TemplateLexer)
        ensures
            r.src@ == src@,
            r.token_start == 0,
            r.pos == 0,
            r.wf(),
    {
        TemplateLexer { src: src.to_owned(), token_start: 0, pos: 0 }
    }

    /// The next token, or `None` at the end of the template. A failure is
    /// reported as `Err(InvalidDefinition)` and lexing can continue after it.
    pub fn next(&mut self) -> (r: Option<Result<ArgTemplateToken, LexingError>>)
        requires
            old(self).wf(),
        ensures
            final(self).src == old(self).src,
            final(self).wf(),
            match r {
                None => old(self).pos == old(self).src@.len() && *final(self) == *old(self),
                Some(tr) => {
                    &&& old(self).pos < old(self).src@.len()
                    &&& final(self).token_start == old(self).pos
                    &&& final(self).pos == template_step(old(self).src@, old(self).pos as int).1
                    &&& match tr {
                        Ok(t) => template_step(old(self).src@, old(self).pos as int).0 == Some(t),
                        Err(e) => template_step(old(self).src@, old(self).pos as int).0
                            is None && e == LexingError::InvalidDefinition,
                    }
                },
            },
    {
        let n: usize = self.src.as_str().unicode_len();
        let pos: usize = self.pos;
        if pos == n {
            return None;
        }
        proof {
            lemma_template_step_bounds(self.src@, pos as int);
        }
        let c: char = self.src.as_str().get_char(pos);
        if c == '}' {
            self.token_start = pos;
            self.pos = pos + 1;
            Some(Err(LexingError::InvalidDefinition))
        } else if c == '{' {
            let e: usize = scan_run(self.src.as_str(), pos + 1, CharClass::NonBrace);
            if e < n && self.src.as_str().get_char(e) == '}' {
                self.token_start = pos;
                self.pos = e + 1;
                Some(Ok(ArgTemplateToken::ArgPlaceholder))
            } else {
                self.token_start = pos;
                self.pos = pos + 1;
                Some(Err(LexingError::InvalidDefinition))
            }
        } else if c == '\\' {
            let q1: usize = scan_run(self.src.as_str(), pos + 1, CharClass::OpenBrace);
            let q2: usize = scan_run(self.src.as_str(), q1, CharClass::NonBrace);
            let q3: usize = scan_run(self.src.as_str(), q2, CharClass::CloseBrace);
            self.token_start = pos;
            self.pos = q3;
            Some(Ok(ArgTemplateToken::EscapedText))
        } else {
            let e: usize = scan_run(self.src.as_str(), pos, CharClass::Free);
            self.token_start = pos;
            self.pos = e;
            Some(Ok(ArgTemplateToken::FreeText))
        }
    }

    /// The text of the most recent token.
    pub fn slice(&self) -> (r: String)
        requires
            self.wf(),
        ensures
            r@ == self.src@.subrange(self.token_start as int, self.pos as int),
    {
        self.src.as_str().substring_char(self.token_start, self.pos).to_owned()
    }
}

// ---------------------------------------------------------------------------
// Placeholder-level lexing
// ---------------------------------------------------------------------------

/// The token starting at position `pos` of a placeholder span, and the
/// position just after it. Every character belongs to some token class, so
/// the only failure is an index whose digits overflow `usize`.
pub open spec fn placeholder_step(s: Seq<char>, pos: int) -> (Result<
    PlaceholderTokenView,
    LexingErrorView,
>, int)
    recommends
        0 <= pos < s.len(),
{
    let c = s[pos];
    if c == '{' {
        (Ok(PlaceholderTokenView::BraceOpen), pos + 1)
    } else if c == '}' {
        (Ok(PlaceholderTokenView::BraceClose), pos + 1)
    } else if is_digit(c) {
        let e = run_end(s, pos, class_pred(CharClass::Digit));
        let v = digits_val(s.subrange(pos, e));
        if v <= usize::MAX {
            (Ok(PlaceholderTokenView::Index(v as usize)), e)
        } else {
            (Err(LexingErrorView::InvalidInteger("overflow error"@)), e)
        }
    } else {
        let e = run_end(s, pos, class_pred(CharClass::Separator));
        (Ok(PlaceholderTokenView::Separator(s.subrange(pos, e))), e)
    }
}

/// A placeholder step consumes at least one character and stays in bounds.
pub proof fn lemma_placeholder_step_bounds(s: Seq<char>, pos: int)
    requires
        0 <= pos < s.len(),
    ensures
        pos < placeholder_step(s, pos).1 <= s.len(),
{
    let c = s[pos];
    if c == '{' || c == '}' {
    } else if is_digit(c) {
        lemma_run_end(s, pos, class_pred(CharClass::Digit));
    } else {
        lemma_run_end(s, pos, class_pred(CharClass::Separator));
    }
}

/// A stepping lexer over the interior alphabet of one placeholder span.
pub struct PlaceholderLexer {
    /// The placeholder span being lexed, braces included.
    pub src: String,
    /// Start of the most recent token's span.
    pub token_start: usize,
    /// End of the most recent token's span; the next scan starts here.
    pub pos: usize,
}

impl PlaceholderLexer {
    pub open spec fn wf(&self) -> bool {
        self.token_start <= self.pos <= self.src@.len()
    }

    pub fn new(src: &str) -> (r: PlaceholderLexer)
        ensures
            r.src@ == src@,
            r.token_start == 0,
            r.pos == 0,
            r.wf(),
    {
        PlaceholderLexer { src: src.to_owned(), token_start: 0, pos: 0 }
    }

    /// The next token, or `None` at the end of the span; `Err` only for an
    /// index whose digits overflow `usize`.
    pub fn next(&mut self) -> (r: Option<Result<ArgPlaceholderToken, LexingError>>)
        requires
            old(self).wf(),
        ensures
            final(self).src == old(self).src,
            final(self).wf(),
            match r {
                None => old(self).pos == old(self).src@.len() && *final(self) == *old(self),
                Some(tr) => {
                    &&& old(self).pos < old(self).src@.len()
                    &&& final(self).token_start == old(self).pos
                    &&& final(self).pos == placeholder_step(old(self).src@, old(self).pos as int).1
                    &&& match tr {
                        Ok(t) => placeholder_step(old(self).src@, old(self).pos as int).0 == Ok::<
                            PlaceholderTokenView,
                            LexingErrorView,
                        >(t@),
                        Err(e) => placeholder_step(old(self).src@, old(self).pos as int).0 == Err::<
                            PlaceholderTokenView,
                            LexingErrorView,
                        >(e@),
                    }
                },
            },
    {
        let n: usize = self.src.as_str().unicode_len();
        let pos: usize = self.pos;
        if pos == n {
            return None;
        }
        proof {
            lemma_placeholder_step_bounds(self.src@, pos as int);
        }
        let c: char = self.src.as_str().get_char(pos);
        if c == '{' {
            self.token_start = pos;
            self.pos = pos + 1;
            Some(Ok(ArgPlaceholderToken::BraceOpen))
        } else if c == '}' {
            self.token_start = pos;
            self.pos = pos + 1;
            Some(Ok(ArgPlaceholderToken::BraceClose))
        } else if class_test(CharClass::Digit, c) {
            let e: usize = scan_run(self.src.as_str(), pos, CharClass::Digit);
            self.token_start = pos;
            self.pos = e;
            proof {
                lemma_run_end(self.src@, pos as int, class_pred(CharClass::Digit));
            }
            match parse_usize(self.src.as_str(), pos, e) {
                Some(v) => Some(Ok(ArgPlaceholderToken::Index(v))),
                None => Some(Err(LexingError::InvalidInteger(String::from_str(
                    "overflow error",
                )))),
            }
        } else {
            let e: usize = scan_run(self.src.as_str(), pos, CharClass::Separator);
            let sep: String = self.src.as_str().substring_char(pos, e).to_owned();
            self.token_start = pos;
            self.pos = e;
            Some(Ok(ArgPlaceholderToken::Separator(sep)))
        }
    }

    /// The text of the most recent token.
    pub fn slice(&self) -> (r: String)
        requires
            self.wf(),
        ensures
            r@ == self.src@.subrange(self.token_start as int, self.pos as int),
    {
        self.src.as_str().substring_char(self.token_start, self.pos).to_owned()
    }
}

} // verus!
