//! Single-pass scanner: source text in, spanned tokens out.
//!
//! The cursor is an explicit character index over the immutable source,
//! together with the byte offset that the index corresponds to. Spans are
//! byte-offset ranges; the pending span's start is reset to its end after
//! every emitted token and after skipped whitespace.

use vstd::prelude::*;

use crate::span::Span;
use crate::token::{spec_keyword_of, KeyWord, OpKind, Token};

verus! {

/// The number of bytes the UTF-8 encoding of `c` occupies.
pub open spec fn spec_char_len(c: char) -> int {
    if (c as u32) < 0x80 {
        1
    } else if (c as u32) < 0x800 {
        2
    } else if (c as u32) < 0x10000 {
        3
    } else {
        4
    }
}

/// The byte length of the first `i` characters of `s`.
pub open spec fn prefix_bytes(s: Seq<char>, i: int) -> int
    decreases i,
{
    if i <= 0 {
        0
    } else {
        prefix_bytes(s, i - 1) + spec_char_len(s[i - 1])
    }
}

/// Byte counts capped at the machine word, the value an in-memory source
/// text can actually reach.
pub open spec fn sat_usize(n: int) -> usize {
    if n > usize::MAX {
        usize::MAX
    } else if n < 0 {
        0
    } else {
        n as usize
    }
}

/// The capped byte length of a whole source text.
pub open spec fn spec_src_bytes(s: Seq<char>) -> usize {
    sat_usize(prefix_bytes(s, s.len() as int))
}

pub proof fn lemma_char_len_bounds(c: char)
    ensures
        1 <= spec_char_len(c) <= 4,
{
}

pub proof fn lemma_prefix_bytes_mono(s: Seq<char>, i: int, j: int)
    requires
        i <= j,
    ensures
        prefix_bytes(s, i) <= prefix_bytes(s, j),
    decreases j - i,
{
    if i < j {
        lemma_prefix_bytes_mono(s, i, j - 1);
        lemma_char_len_bounds(s[j - 1]);
    }
}

/// Decimal digit.
pub open spec fn is_digit(c: char) -> bool {
    48 <= (c as u32) <= 57
}

/// ASCII letter.
pub open spec fn is_alpha(c: char) -> bool {
    (65 <= (c as u32) <= 90) || (97 <= (c as u32) <= 122)
}

/// Character allowed inside a number lexeme: digit, underscore or dot.
pub open spec fn is_num_char(c: char) -> bool {
    is_digit(c) || c == '_' || c == '.'
}

/// Character allowed inside an identifier after the leading letter.
pub open spec fn is_id_char(c: char) -> bool {
    is_alpha(c) || is_digit(c) || c == '_'
}

/// Whitespace the scanner skips.
pub open spec fn is_space(c: char) -> bool {
    c == ' ' || c == '\n'
}

pub open spec fn seq_contains_char(s: Seq<char>, c: char) -> bool {
    exists|i: int| 0 <= i < s.len() && s[i] == c
}

/// Appending one character adds exactly that character to the membership of
/// a sequence.
pub proof fn lemma_contains_push(s: Seq<char>, c: char, t: char)
    ensures
        seq_contains_char(s.push(c), t) <==> (seq_contains_char(s, t) || c == t),
{
    if seq_contains_char(s, t) {
        let i = choose|i: int| 0 <= i < s.len() && s[i] == t;
        assert(s.push(c)[i] == t);
    }
    if c == t {
        assert(s.push(c)[s.len() as int] == t);
    }
    if seq_contains_char(s.push(c), t) {
        let i = choose|i: int| 0 <= i < s.push(c).len() && s.push(c)[i] == t;
        if i < s.len() {
            assert(s[i] == t);
        }
    }
}

/// Single-pass scanner over one source text.
pub struct Scanner<'a> {
    /// The source being scanned; never changes.
    pub src: &'a str,
    /// Number of characters in `src`.
    pub n: usize,
    /// Character index of the next character to consume.
    pub pos: usize,
    /// Character index where the pending span began.
    pub start_pos: usize,
    /// Byte offset of `start_pos`.
    pub start_byte: usize,
    /// Byte offset of `pos`.
    pub end_byte: usize,
}

impl<'a> Scanner<'a> {
    /// Cursor and span bookkeeping are in step with the source.
    pub open spec fn wf(self) -> bool {
        &&& self.n == self.src@.len()
        &&& self.start_pos <= self.pos <= self.n
        &&& self.start_byte == sat_usize(prefix_bytes(self.src@, self.start_pos as int))
        &&& self.end_byte == sat_usize(prefix_bytes(self.src@, self.pos as int))
        &&& self.start_byte <= self.end_byte
    }

    /// Between tokens the pending span is empty.
    pub open spec fn ready(self) -> bool {
        self.wf() && self.start_pos == self.pos
    }

    pub fn new(src: &'a str) -> (r: Scanner<'a>)
        ensures
            r.ready(),
            r.src@ == src@,
            r.pos == 0,
    {
        let n = src.unicode_len();
        Scanner { src, n, pos: 0, start_pos: 0, start_byte: 0, end_byte: 0 }
    }

    /// The next character, or NUL at end of input.
    pub fn peek_char(&self) -> (c: char)
        requires
            self.wf(),
        ensures
            self.pos < self.n ==> c == self.src@[self.pos as int],
            self.pos == self.n ==> c == '\0',
    {
        if self.pos < self.n {
            self.src.get_char(self.pos)
        } else {
            '\0'
        }
    }

    /// The character after the next one, or NUL.
    pub fn peek_char2(&self) -> (c: char)
        requires
            self.wf(),
        ensures
            self.pos + 1 < self.n ==> c == self.src@[self.pos + 1],
            self.pos + 1 >= self.n ==> c == '\0',
    {
        if self.pos < self.n && self.pos + 1 < self.n {
            self.src.get_char(self.pos + 1)
        } else {
            '\0'
        }
    }

    /// Consume one character, keeping the byte offset in step.
    pub fn advance(&mut self)
        requires
            old(self).wf(),
            old(self).pos < old(self).n,
        ensures
            final(self).wf(),
            final(self).pos == old(self).pos + 1,
            final(self).src == old(self).src,
            final(self).n == old(self).n,
            final(self).start_pos == old(self).start_pos,
            final(self).start_byte == old(self).start_byte,
            final(self).end_byte >= old(self).end_byte,
    {
        let c = self.src.get_char(self.pos);
        proof {
            lemma_char_len_bounds(c);
            lemma_prefix_bytes_mono(self.src@, 0, self.pos as int);
            assert(prefix_bytes(self.src@, self.pos + 1) == prefix_bytes(
                self.src@,
                self.pos as int,
            ) + spec_char_len(c));
        }
        self.end_byte = self.end_byte.saturating_add(char_utf8_len(c));
        self.pos = self.pos + 1;
        proof {
            assert(self.end_byte == sat_usize(prefix_bytes(self.src@, self.pos as int)));
        }
    }

    /// Reset the pending span's start to the cursor.
    pub fn reset_span(&mut self)
        requires
            old(self).wf(),
        ensures
            final(self).ready(),
            final(self).src == old(self).src,
            final(self).n == old(self).n,
            final(self).pos == old(self).pos,
            final(self).end_byte == old(self).end_byte,
    {
        self.start_pos = self.pos;
        self.start_byte = self.end_byte;
    }

    /// Take the pending span and reset it.
    pub fn span(&mut self) -> (r: Span)
        requires
            old(self).wf(),
        ensures
            final(self).ready(),
            final(self).src == old(self).src,
            final(self).n == old(self).n,
            final(self).pos == old(self).pos,
            final(self).end_byte == old(self).end_byte,
            r.start == old(self).start_byte,
            r.end == old(self).end_byte,
            r.wf(),
            r.end <= spec_src_bytes(final(self).src@),
    {
        proof {
            lemma_prefix_bytes_mono(self.src@, self.pos as int, self.src@.len() as int);
        }
        let r = Span { start: self.start_byte, end: self.end_byte };
        self.reset_span();
        r
    }
}


/// The byte-offset span of the characters `[a, b)`.
pub open spec fn tok_span(s: Seq<char>, a: int, b: int) -> Span {
    Span {
        start: sat_usize(prefix_bytes(s, a)),
        end: sat_usize(prefix_bytes(s, b)),
    }
}

/// The index of the line break (or the end) that closes a comment open at
/// `pos`.
pub open spec fn spec_comment_end(s: Seq<char>, pos: int) -> int
    decreases s.len() - pos,
    when 0 <= pos <= s.len()
{
    if pos >= s.len() || s[pos] == '\n' {
        pos
    } else if pos + 1 <= s.len() {
        spec_comment_end(s, pos + 1)
    } else {
        pos
    }
}

/// A comment closes strictly after it opens and within the text.
pub proof fn lemma_comment_end_bounds(s: Seq<char>, pos: int)
    requires
        0 <= pos < s.len(),
        s[pos] != '\n',
    ensures
        pos < spec_comment_end(s, pos) <= s.len(),
    decreases s.len() - pos,
{
    assert(spec_comment_end(s, pos) == spec_comment_end(s, pos + 1));
    if pos + 1 < s.len() && s[pos + 1] != '\n' {
        lemma_comment_end_bounds(s, pos + 1);
    } else {
        assert(spec_comment_end(s, pos + 1) == pos + 1);
    }
}

/// The index of the first character that neither whitespace skipping nor a
/// line comment consumes.
pub open spec fn spec_skip(s: Seq<char>, pos: int) -> int
    decreases s.len() - pos, 1int,
    when 0 <= pos <= s.len()
{
    if pos >= s.len() {
        pos
    } else if is_space(s[pos]) {
        spec_skip(s, pos + 1)
    } else if s[pos] == '-' && pos + 1 < s.len() && s[pos + 1] == '-' {
        let ce = spec_comment_end(s, pos);
        if pos < ce <= s.len() {
            spec_skip(s, ce)
        } else {
            pos
        }
    } else {
        pos
    }
}

/// The end of the maximal run of number characters from `pos`.
pub open spec fn spec_num_end(s: Seq<char>, pos: int) -> int
    decreases s.len() - pos,
    when 0 <= pos <= s.len()
{
    if pos < s.len() && is_num_char(s[pos]) {
        spec_num_end(s, pos + 1)
    } else {
        pos
    }
}

/// A maximal run of number characters ends exactly where scanning ends.
pub proof fn lemma_num_end(s: Seq<char>, pos: int, e: int)
    requires
        0 <= pos <= e <= s.len(),
        forall|k: int| pos <= k < e ==> is_num_char(#[trigger] s[k]),
        e == s.len() || !is_num_char(s[e]),
    ensures
        spec_num_end(s, pos) == e,
    decreases e - pos,
{
    if pos < e {
        lemma_num_end(s, pos + 1, e);
    }
}

/// The end of the maximal run of identifier characters from `pos`.
pub open spec fn spec_id_end(s: Seq<char>, pos: int) -> int
    decreases s.len() - pos,
    when 0 <= pos <= s.len()
{
    if pos < s.len() && is_id_char(s[pos]) {
        spec_id_end(s, pos + 1)
    } else {
        pos
    }
}

/// A maximal run of identifier characters ends exactly where scanning
/// ends.
pub proof fn lemma_id_end(s: Seq<char>, pos: int, e: int)
    requires
        0 <= pos <= e <= s.len(),
        forall|k: int| pos <= k < e ==> is_id_char(#[trigger] s[k]),
        e == s.len() || !is_id_char(s[e]),
    ensures
        spec_id_end(s, pos) == e,
    decreases e - pos,
{
    if pos < e {
        lemma_id_end(s, pos + 1, e);
    }
}

/// The index of the closing quote (or the end) of a literal open before
/// `pos`.
pub open spec fn spec_str_end(s: Seq<char>, pos: int, quote: char) -> int
    decreases s.len() - pos,
    when 0 <= pos <= s.len()
{
    if pos < s.len() && s[pos] != quote {
        spec_str_end(s, pos + 1, quote)
    } else {
        pos
    }
}

/// A quote-free run ends exactly at the closing quote or the end.
pub proof fn lemma_str_end(s: Seq<char>, pos: int, e: int, quote: char)
    requires
        0 <= pos <= e <= s.len(),
        forall|k: int| pos <= k < e ==> #[trigger] s[k] != quote,
        e == s.len() || s[e] == quote,
    ensures
        spec_str_end(s, pos, quote) == e,
    decreases e - pos,
{
    if pos < e {
        lemma_str_end(s, pos + 1, e, quote);
    }
}

/// The two-character operator lexemes, longest match first.
pub open spec fn spec_op2(a: char, b: char) -> Option<OpKind> {
    if a == '-' && b == '>' {
        Some(OpKind::Arrow)
    } else if a == '=' && b == '>' {
        Some(OpKind::FatArrow)
    } else if a == '<' && b == '-' {
        Some(OpKind::BackArrow)
    } else if a == '<' && b == '=' {
        Some(OpKind::LesEq)
    } else if a == '>' && b == '=' {
        Some(OpKind::GrtEq)
    } else if a == '=' && b == '=' {
        Some(OpKind::EqEq)
    } else if a == '!' && b == '=' {
        Some(OpKind::NotEq)
    } else if a == ':' && b == ':' {
        Some(OpKind::ColonColon)
    } else if a == '|' && b == '>' {
        Some(OpKind::Pipe)
    } else {
        None
    }
}

/// The single-character operator and punctuation lexemes.
pub open spec fn spec_op1(c: char) -> Option<OpKind> {
    if c == '\\' || c == '\u{3bb}' {
        Some(OpKind::Lambda)
    } else if c == '|' {
        Some(OpKind::Bar)
    } else if c == '!' {
        Some(OpKind::Bang)
    } else if c == '<' {
        Some(OpKind::Les)
    } else if c == '>' {
        Some(OpKind::Grt)
    } else if c == '+' {
        Some(OpKind::Plus)
    } else if c == '-' {
        Some(OpKind::Minus)
    } else if c == '=' {
        Some(OpKind::Equal)
    } else if c == '*' {
        Some(OpKind::Mult)
    } else if c == '/' {
        Some(OpKind::Div)
    } else if c == ':' {
        Some(OpKind::Colon)
    } else if c == ';' {
        Some(OpKind::Semicolon)
    } else if c == ',' {
        Some(OpKind::Comma)
    } else if c == '(' {
        Some(OpKind::LParen)
    } else if c == ')' {
        Some(OpKind::RParen)
    } else if c == '[' {
        Some(OpKind::LBracket)
    } else if c == ']' {
        Some(OpKind::RBracket)
    } else if c == '{' {
        Some(OpKind::LBrace)
    } else if c == '}' {
        Some(OpKind::RBrace)
    } else {
        None
    }
}

/// The token beginning at the skip-stable index `j`, and the index just
/// past it.
pub open spec fn spec_token_at(s: Seq<char>, j: int) -> (crate::token::TokenV, int) {
    if j >= s.len() {
        (crate::token::TokenV::Eof(tok_span(s, j, j)), j)
    } else {
        let c = s[j];
        if is_digit(c) {
            let e = spec_num_end(s, j);
            let lex = s.subrange(j, e);
            if seq_contains_char(lex, '.') {
                (crate::token::TokenV::Float(lex, tok_span(s, j, e)), e)
            } else {
                (crate::token::TokenV::Int(lex, tok_span(s, j, e)), e)
            }
        } else if is_alpha(c) {
            let e = spec_id_end(s, j);
            let lex = s.subrange(j, e);
            match crate::token::spec_keyword_of(lex) {
                Some(k) => (crate::token::TokenV::KeyWord(k, tok_span(s, j, e)), e),
                None => (crate::token::TokenV::Id(lex, tok_span(s, j, e)), e),
            }
        } else if j + 1 < s.len() && spec_op2(c, s[j + 1]) is Some {
            match spec_op2(c, s[j + 1]) {
                Some(k) => (crate::token::TokenV::Op(k, tok_span(s, j, j + 2)), j + 2),
                None => (crate::token::TokenV::Eof(tok_span(s, j, j)), j),
            }
        } else if c == '"' {
            let ce = spec_str_end(s, j + 1, '"');
            let e = if ce < s.len() {
                ce + 1
            } else {
                ce
            };
            (crate::token::TokenV::Str(s.subrange(j + 1, ce), tok_span(s, j, e)), e)
        } else if c == '\'' {
            let ce = spec_str_end(s, j + 1, '\'');
            let e = if ce < s.len() {
                ce + 1
            } else {
                ce
            };
            (crate::token::TokenV::Char(s.subrange(j + 1, ce), tok_span(s, j, e)), e)
        } else {
            match spec_op1(c) {
                Some(k) => (crate::token::TokenV::Op(k, tok_span(s, j, j + 1)), j + 1),
                None => (
                    crate::token::TokenV::Error(s.subrange(j, j + 1), tok_span(s, j, j + 1)),
                    j + 1,
                ),
            }
        }
    }
}

/// One scanning step from `pos`: skip, then the token there.
pub open spec fn spec_next(s: Seq<char>, pos: int) -> (crate::token::TokenV, int) {
    spec_token_at(s, spec_skip(s, pos))
}

/// Every token from `pos` on, ending with the end-of-input token.
pub open spec fn spec_scan_from(s: Seq<char>, pos: int) -> Seq<crate::token::TokenV>
    decreases s.len() - pos, 2int,
    when 0 <= pos <= s.len()
{
    let (t, p2) = spec_next(s, pos);
    if t is Eof {
        seq![t]
    } else if pos < p2 <= s.len() {
        seq![t] + spec_scan_from(s, p2)
    } else {
        seq![t]
    }
}

/// What scanning a whole source text yields.
pub open spec fn spec_scan(s: Seq<char>) -> Seq<crate::token::TokenV> {
    spec_scan_from(s, 0)
}

impl<'a> Scanner<'a> {
    /// Copy of the source text between two character indices.
    fn lexeme(&self, from: usize, to: usize) -> (r: String)
        requires
            self.wf(),
            from <= to <= self.n,
        ensures
            r@ == self.src@.subrange(from as int, to as int),
    {
        self.src.substring_char(from, to).to_owned()
    }

    /// A run of digits, underscores and dots: a float when a dot occurs,
    /// an integer otherwise. Lexically greedy; the lexeme is not validated
    /// further.
    pub fn number(&mut self) -> (r: Token)
        requires
            old(self).ready(),
            old(self).pos < old(self).n,
            is_digit(old(self).src@[old(self).pos as int]),
        ensures
            final(self).ready(),
            final(self).src == old(self).src,
            final(self).n == old(self).n,
            old(self).pos < final(self).pos <= final(self).n,
            final(self).pos == final(self).n || !is_num_char(
                final(self).src@[final(self).pos as int],
            ),
            forall|i: int|
                old(self).pos <= i < final(self).pos ==> is_num_char(final(self).src@[i]),
            (r is Int) || (r is Float),
            r.spec_lexeme() == old(self).src@.subrange(
                old(self).pos as int,
                final(self).pos as int,
            ),
            (r is Float) <==> seq_contains_char(r.spec_lexeme(), '.'),
            r.spec_span().wf(),
            r.spec_span().start == old(self).start_byte,
            r.spec_span().end == final(self).end_byte,
            r.spec_span().end <= spec_src_bytes(final(self).src@),
    {
        let lex_start = self.pos;
        let mut saw_dot = false;
        loop
            invariant
                self.wf(),
                self.src == old(self).src,
                self.n == old(self).n,
                self.start_pos == old(self).start_pos,
                self.start_byte == old(self).start_byte,
                lex_start == old(self).pos,
                lex_start <= self.pos <= self.n,
                forall|i: int| lex_start <= i < self.pos ==> is_num_char(self.src@[i]),
                saw_dot == seq_contains_char(
                    self.src@.subrange(lex_start as int, self.pos as int),
                    '.',
                ),
                lex_start < self.pos || self.pos < self.n,
                is_digit(self.src@[lex_start as int]),
            ensures
                lex_start < self.pos,
                self.pos == self.n || !is_num_char(self.src@[self.pos as int]),
            decreases self.n - self.pos,
        {
            if self.pos == self.n {
                break;
            }
            let c = self.peek_char();
            let u = c as u32;
            if (48 <= u && u <= 57) || c == '_' || c == '.' {
                let ghost before = self.pos as int;
                let ghost sub_old = self.src@.subrange(lex_start as int, before);
                self.advance();
                if c == '.' {
                    saw_dot = true;
                }
                proof {
                    let sub_new = self.src@.subrange(lex_start as int, self.pos as int);
                    assert(sub_new =~= sub_old.push(c));
                    lemma_contains_push(sub_old, c, '.');
                }
            } else {
                break;
            }
        }
        let lexeme = self.lexeme(lex_start, self.pos);
        let span = self.span();
        if saw_dot {
            Token::Float(lexeme, span)
        } else {
            Token::Int(lexeme, span)
        }
    }

    /// A letter followed by alphanumerics and underscores; checked against
    /// the keyword table to decide identifier vs keyword.
    pub fn id(&mut self) -> (r: Token)
        requires
            old(self).ready(),
            old(self).pos < old(self).n,
            is_alpha(old(self).src@[old(self).pos as int]),
        ensures
            final(self).ready(),
            final(self).src == old(self).src,
            final(self).n == old(self).n,
            old(self).pos < final(self).pos <= final(self).n,
            final(self).pos == final(self).n || !is_id_char(
                final(self).src@[final(self).pos as int],
            ),
            forall|i: int| old(self).pos <= i < final(self).pos ==> is_id_char(final(self).src@[i]),
            ({
                let lx = old(self).src@.subrange(old(self).pos as int, final(self).pos as int);
                match spec_keyword_of(lx) {
                    Some(k) => r matches Token::KeyWord(k2, _) && k2 == k,
                    None => r matches Token::Id(l, _) && l@ == lx,
                }
            }),
            r.spec_span().wf(),
            r.spec_span().start == old(self).start_byte,
            r.spec_span().end == final(self).end_byte,
            r.spec_span().end <= spec_src_bytes(final(self).src@),
    {
        let lex_start = self.pos;
        loop
            invariant
                self.wf(),
                self.src == old(self).src,
                self.n == old(self).n,
                self.start_pos == old(self).start_pos,
                self.start_byte == old(self).start_byte,
                lex_start == old(self).pos,
                lex_start <= self.pos <= self.n,
                forall|i: int| lex_start <= i < self.pos ==> is_id_char(self.src@[i]),
                lex_start < self.pos || self.pos < self.n,
                is_alpha(self.src@[lex_start as int]),
            ensures
                lex_start < self.pos,
                self.pos == self.n || !is_id_char(self.src@[self.pos as int]),
            decreases self.n - self.pos,
        {
            if self.pos == self.n {
                break;
            }
            let c = self.peek_char();
            let u = c as u32;
            if (65 <= u && u <= 90) || (97 <= u && u <= 122) || (48 <= u && u <= 57) || c == '_' {
                self.advance();
            } else {
                break;
            }
        }
        let lexeme = self.lexeme(lex_start, self.pos);
        let span = self.span();
        match keyword_of(&lexeme) {
            Some(k) => Token::KeyWord(k, span),
            None => Token::Id(lexeme, span),
        }
    }

    /// A literal run terminated by the given quote character; no escape
    /// processing. The lexeme is the run without the quotes; the span covers
    /// the quotes.
    fn quoted(&mut self, quote: char) -> (r: (String, Span))
        requires
            old(self).ready(),
            old(self).pos < old(self).n,
            old(self).src@[old(self).pos as int] == quote,
        ensures
            final(self).ready(),
            final(self).src == old(self).src,
            final(self).n == old(self).n,
            old(self).pos < final(self).pos <= final(self).n,
            forall|i: int| 0 <= i < r.0@.len() ==> r.0@[i] != quote,
            r.0@ == old(self).src@.subrange(
                old(self).pos + 1,
                old(self).pos + 1 + r.0@.len() as int,
            ),
            ({
                let ce = spec_str_end(old(self).src@, old(self).pos + 1, quote);
                &&& old(self).pos + 1 + r.0@.len() == ce
                &&& final(self).pos as int == (if ce < old(self).src@.len() {
                    ce + 1
                } else {
                    ce
                })
            }),
            r.1.wf(),
            r.1.start == old(self).start_byte,
            r.1.end == final(self).end_byte,
            r.1.end <= spec_src_bytes(final(self).src@),
    {
        self.advance();
        let lex_start = self.pos;
        loop
            invariant
                self.wf(),
                self.src == old(self).src,
                self.n == old(self).n,
                self.start_pos == old(self).start_pos,
                self.start_byte == old(self).start_byte,
                lex_start <= self.pos <= self.n,
                old(self).pos + 1 == lex_start,
                forall|i: int| lex_start <= i < self.pos ==> self.src@[i] != quote,
            ensures
                lex_start <= self.pos <= self.n,
                forall|i: int| lex_start <= i < self.pos ==> self.src@[i] != quote,
                self.pos == self.n || self.src@[self.pos as int] == quote,
            decreases self.n - self.pos,
        {
            if self.pos == self.n {
                break;
            }
            let c = self.peek_char();
            if c == quote {
                break;
            }
            self.advance();
        }
        let lexeme = self.lexeme(lex_start, self.pos);
        proof {
            lemma_str_end(self.src@, lex_start as int, self.pos as int, quote);
        }
        if self.pos < self.n {
            self.advance();
        }
        let span = self.span();
        (lexeme, span)
    }

    /// Discard the rest of the line after a `--` comment opener.
    pub fn line_comment(&mut self)
        requires
            old(self).wf(),
            old(self).pos < old(self).n,
            old(self).src@[old(self).pos as int] != '\n',
        ensures
            final(self).ready(),
            final(self).src == old(self).src,
            final(self).n == old(self).n,
            old(self).pos < final(self).pos <= final(self).n,
            final(self).end_byte >= old(self).end_byte,
            final(self).pos as int == spec_comment_end(old(self).src@, old(self).pos as int),
    {
        loop
            invariant
                self.wf(),
                self.src == old(self).src,
                self.n == old(self).n,
                old(self).pos <= self.pos <= self.n,
                old(self).end_byte <= self.end_byte,
                old(self).pos < self.pos || (self.pos < self.n && self.src@[self.pos as int]
                    != '\n'),
                spec_comment_end(self.src@, old(self).pos as int) == spec_comment_end(
                    self.src@,
                    self.pos as int,
                ),
            ensures
                old(self).pos < self.pos <= self.n,
                self.pos as int == spec_comment_end(self.src@, old(self).pos as int),
            decreases self.n - self.pos,
        {
            if self.pos == self.n {
                break;
            }
            let c = self.peek_char();
            if c == '\n' {
                break;
            }
            self.advance();
        }
        self.reset_span();
    }

    /// Emit an operator/punctuation token of the given width in characters.
    pub fn op_token(&mut self, kind: OpKind, width: usize) -> (r: Token)
        requires
            old(self).ready(),
            old(self).pos + width <= old(self).n,
            1 <= width,
        ensures
            final(self).ready(),
            final(self).src == old(self).src,
            final(self).n == old(self).n,
            final(self).pos == old(self).pos + width,
            r matches Token::Op(k, _) && k == kind,
            r.spec_span().wf(),
            r.spec_span().start == old(self).start_byte,
            r.spec_span().end == final(self).end_byte,
            r.spec_span().end <= spec_src_bytes(final(self).src@),
    {
        let mut taken: usize = 0;
        while taken < width
            invariant
                self.wf(),
                self.src == old(self).src,
                self.n == old(self).n,
                self.start_pos == old(self).start_pos,
                self.start_byte == old(self).start_byte,
                taken <= width,
                self.pos == old(self).pos + taken,
                old(self).pos + width <= self.n,
            decreases width - taken,
        {
            self.advance();
            taken = taken + 1;
        }
        let span = self.span();
        Token::Op(kind, span)
    }

    /// An unrecognized character becomes an error token, never an abort.
    pub fn err(&mut self) -> (r: Token)
        requires
            old(self).ready(),
            old(self).pos < old(self).n,
        ensures
            final(self).ready(),
            final(self).src == old(self).src,
            final(self).n == old(self).n,
            final(self).pos == old(self).pos + 1,
            r matches Token::Error(l, _) && l@ == old(self).src@.subrange(
                old(self).pos as int,
                old(self).pos + 1,
            ),
            r.spec_span().wf(),
            r.spec_span().start == old(self).start_byte,
            r.spec_span().end == final(self).end_byte,
            r.spec_span().end <= spec_src_bytes(final(self).src@),
    {
        let lex_start = self.pos;
        self.advance();
        let lexeme = self.lexeme(lex_start, self.pos);
        let span = self.span();
        Token::Error(lexeme, span)
    }

    /// Scan one token. Whitespace and line comments are skipped; the end of
    /// input is itself a token, so the caller can stop.
    pub fn next_token(&mut self) -> (r: Token)
        requires
            old(self).ready(),
        ensures
            final(self).ready(),
            final(self).src == old(self).src,
            final(self).n == old(self).n,
            old(self).pos <= final(self).pos <= final(self).n,
            !(r is Eof) ==> old(self).pos < final(self).pos,
            r is Eof ==> final(self).pos == final(self).n,
            r.spec_span().wf(),
            old(self).end_byte <= r.spec_span().start,
            r.spec_span().end == final(self).end_byte,
            r.spec_span().end <= spec_src_bytes(final(self).src@),
            crate::token::token_view(r) == spec_next(old(self).src@, old(self).pos as int).0,
            final(self).pos as int == spec_next(old(self).src@, old(self).pos as int).1,
    {
        loop
            invariant
                self.ready(),
                self.src == old(self).src,
                self.n == old(self).n,
                old(self).pos <= self.pos <= self.n,
                old(self).end_byte <= self.end_byte,
                spec_skip(self.src@, old(self).pos as int) == spec_skip(
                    self.src@,
                    self.pos as int,
                ),
            decreases self.n - self.pos,
        {
            if self.pos == self.n {
                proof {
                    lemma_prefix_bytes_mono(self.src@, self.pos as int, self.src@.len() as int);
                    assert(spec_skip(self.src@, self.pos as int) == self.pos as int);
                }
                let span = self.span();
                return Token::Eof(span);
            }
            let c = self.peek_char();
            let u = c as u32;
            if c == ' ' || c == '\n' {
                self.advance();
                self.reset_span();
                continue;
            }
            proof {
                if self.pos < self.n && !(self.src@[self.pos as int] == '-' && self.pos + 1
                    < self.n && self.src@[self.pos + 1] == '-') {
                    assert(spec_skip(self.src@, self.pos as int) == self.pos as int);
                }
            }
            if 48 <= u && u <= 57 {
                let ghost j = self.pos as int;
                let r = self.number();
                proof {
                    lemma_num_end(self.src@, j, self.pos as int);
                    assert(crate::token::token_view(r) == spec_token_at(self.src@, j).0);
                    assert(self.pos as int == spec_token_at(self.src@, j).1);
                }
                return r;
            }
            if (65 <= u && u <= 90) || (97 <= u && u <= 122) {
                let ghost j = self.pos as int;
                let r = self.id();
                proof {
                    lemma_id_end(self.src@, j, self.pos as int);
                    assert(crate::token::token_view(r) == spec_token_at(self.src@, j).0);
                    assert(self.pos as int == spec_token_at(self.src@, j).1);
                }
                return r;
            }
            let c2 = self.peek_char2();
            if c == '-' && c2 == '-' {
                proof {
                    lemma_comment_end_bounds(self.src@, self.pos as int);
                }
                self.line_comment();
                continue;
            }
            if c == '-' && c2 == '>' {
                let ghost j = self.pos as int;
                let r = self.op_token(OpKind::Arrow, 2);
                proof {
                    assert(crate::token::token_view(r) == spec_token_at(self.src@, j).0);
                    assert(self.pos as int == spec_token_at(self.src@, j).1);
                }
                return r;
            }
            if c == '=' && c2 == '>' {
                let ghost j = self.pos as int;
                let r = self.op_token(OpKind::FatArrow, 2);
                proof {
                    assert(crate::token::token_view(r) == spec_token_at(self.src@, j).0);
                    assert(self.pos as int == spec_token_at(self.src@, j).1);
                }
                return r;
            }
            if c == '<' && c2 == '-' {
                let ghost j = self.pos as int;
                let r = self.op_token(OpKind::BackArrow, 2);
                proof {
                    assert(crate::token::token_view(r) == spec_token_at(self.src@, j).0);
                    assert(self.pos as int == spec_token_at(self.src@, j).1);
                }
                return r;
            }
            if c == '<' && c2 == '=' {
                let ghost j = self.pos as int;
                let r = self.op_token(OpKind::LesEq, 2);
                proof {
                    assert(crate::token::token_view(r) == spec_token_at(self.src@, j).0);
                    assert(self.pos as int == spec_token_at(self.src@, j).1);
                }
                return r;
            }
            if c == '>' && c2 == '=' {
                let ghost j = self.pos as int;
                let r = self.op_token(OpKind::GrtEq, 2);
                proof {
                    assert(crate::token::token_view(r) == spec_token_at(self.src@, j).0);
                    assert(self.pos as int == spec_token_at(self.src@, j).1);
                }
                return r;
            }
            if c == '=' && c2 == '=' {
                let ghost j = self.pos as int;
                let r = self.op_token(OpKind::EqEq, 2);
                proof {
                    assert(crate::token::token_view(r) == spec_token_at(self.src@, j).0);
                    assert(self.pos as int == spec_token_at(self.src@, j).1);
                }
                return r;
            }
            if c == '!' && c2 == '=' {
                let ghost j = self.pos as int;
                let r = self.op_token(OpKind::NotEq, 2);
                proof {
                    assert(crate::token::token_view(r) == spec_token_at(self.src@, j).0);
                    assert(self.pos as int == spec_token_at(self.src@, j).1);
                }
                return r;
            }
            if c == ':' && c2 == ':' {
                let ghost j = self.pos as int;
                let r = self.op_token(OpKind::ColonColon, 2);
                proof {
                    assert(crate::token::token_view(r) == spec_token_at(self.src@, j).0);
                    assert(self.pos as int == spec_token_at(self.src@, j).1);
                }
                return r;
            }
            if c == '|' && c2 == '>' {
                let ghost j = self.pos as int;
                let r = self.op_token(OpKind::Pipe, 2);
                proof {
                    assert(crate::token::token_view(r) == spec_token_at(self.src@, j).0);
                    assert(self.pos as int == spec_token_at(self.src@, j).1);
                }
                return r;
            }
            if c == '"' {
                let ghost j = self.pos as int;
                let (lexeme, span) = self.quoted('"');
                let r = Token::Str(lexeme, span);
                proof {
                    assert(crate::token::token_view(r) == spec_token_at(self.src@, j).0);
                    assert(self.pos as int == spec_token_at(self.src@, j).1);
                }
                return r;
            }
            if c == '\'' {
                let ghost j = self.pos as int;
                let (lexeme, span) = self.quoted('\'');
                let r = Token::Char(lexeme, span);
                proof {
                    assert(crate::token::token_view(r) == spec_token_at(self.src@, j).0);
                    assert(self.pos as int == spec_token_at(self.src@, j).1);
                }
                return r;
            }
            let kind = match c {
                '\\' => Some(OpKind::Lambda),
                '\u{3bb}' => Some(OpKind::Lambda),
                '|' => Some(OpKind::Bar),
                '!' => Some(OpKind::Bang),
                '<' => Some(OpKind::Les),
                '>' => Some(OpKind::Grt),
                '+' => Some(OpKind::Plus),
                '-' => Some(OpKind::Minus),
                '=' => Some(OpKind::Equal),
                '*' => Some(OpKind::Mult),
                '/' => Some(OpKind::Div),
                ':' => Some(OpKind::Colon),
                ';' => Some(OpKind::Semicolon),
                ',' => Some(OpKind::Comma),
                '(' => Some(OpKind::LParen),
                ')' => Some(OpKind::RParen),
                '[' => Some(OpKind::LBracket),
                ']' => Some(OpKind::RBracket),
                '{' => Some(OpKind::LBrace),
                '}' => Some(OpKind::RBrace),
                _ => None,
            };
            proof {
                assert(spec_op2(self.src@[self.pos as int], if self.pos + 1 < self.n {
                    self.src@[self.pos + 1]
                } else {
                    c2
                }) is None || self.pos + 1 >= self.n);
            }
            match kind {
                Some(k) => {
                    let ghost j = self.pos as int;
                    let r = self.op_token(k, 1);
                    proof {
                        assert(crate::token::token_view(r) == spec_token_at(self.src@, j).0);
                        assert(self.pos as int == spec_token_at(self.src@, j).1);
                    }
                    return r;
                },
                None => {
                    let ghost j = self.pos as int;
                    let r = self.err();
                    proof {
                        assert(crate::token::token_view(r) == spec_token_at(self.src@, j).0);
                        assert(self.pos as int == spec_token_at(self.src@, j).1);
                    }
                    return r;
                },
            }
        }
    }
}

/// Whether a token is the end-of-input marker.
pub fn token_is_eof(t: &Token) -> (r: bool)
    ensures
        r == t.is_eof(),
{
    match t {
        Token::Eof(_) => true,
        _ => false,
    }
}

/// The keyword for an identifier lexeme, if any.
pub fn keyword_of(s: &String) -> (r: Option<KeyWord>)
    ensures
        r == spec_keyword_of(s@),
{
    if *s == String::from_str("if") {
        Some(KeyWord::If)
    } else if *s == String::from_str("then") {
        Some(KeyWord::Then)
    } else if *s == String::from_str("else") {
        Some(KeyWord::Else)
    } else if *s == String::from_str("enum") {
        Some(KeyWord::Enum)
    } else if *s == String::from_str("true") {
        Some(KeyWord::True)
    } else if *s == String::from_str("false") {
        Some(KeyWord::False)
    } else if *s == String::from_str("let") {
        Some(KeyWord::Let)
    } else if *s == String::from_str("in") {
        Some(KeyWord::In)
    } else {
        None
    }
}

/// Scan a whole source text into tokens. The result always ends with the
/// end-of-input token and with it alone; token spans do not run backwards,
/// lie within the byte length of the source, and come in source order.
pub fn tokenize(src: &str) -> (r: Vec<Token>)
    ensures
        crate::token::tokens_view(r@) == spec_scan(src@),
        r@.len() >= 1,
        r@[r@.len() - 1] is Eof,
        forall|i: int| 0 <= i < r@.len() - 1 ==> !(r@[i] is Eof),
        forall|i: int|
            0 <= i < r@.len() ==> (#[trigger] r@[i].spec_span()).wf() && r@[i].spec_span().end
                <= spec_src_bytes(src@),
        forall|i: int, j: int|
            0 <= i < j < r@.len() ==> r@[i].spec_span().end <= r@[j].spec_span().start,
{
    let mut sc = Scanner::new(src);
    let mut tokens: Vec<Token> = Vec::new();
    loop
        invariant_except_break
            forall|i: int| 0 <= i < tokens@.len() ==> !(tokens@[i] is Eof),
            spec_scan(src@) == crate::token::tokens_view(tokens@) + spec_scan_from(
                src@,
                sc.pos as int,
            ),
        invariant
            sc.ready(),
            sc.src@ == src@,
            forall|i: int|
                0 <= i < tokens@.len() ==> (#[trigger] tokens@[i].spec_span()).wf()
                    && tokens@[i].spec_span().end <= spec_src_bytes(src@),
            forall|i: int|
                0 <= i < tokens@.len() ==> tokens@[i].spec_span().end <= sc.end_byte,
            forall|i: int, j: int|
                0 <= i < j < tokens@.len() ==> tokens@[i].spec_span().end
                    <= tokens@[j].spec_span().start,
        ensures
            crate::token::tokens_view(tokens@) == spec_scan(src@),
            tokens@.len() >= 1,
            tokens@[tokens@.len() - 1] is Eof,
            forall|i: int| 0 <= i < tokens@.len() - 1 ==> !(tokens@[i] is Eof),
            forall|i: int|
                0 <= i < tokens@.len() ==> (#[trigger] tokens@[i].spec_span()).wf()
                    && tokens@[i].spec_span().end <= spec_src_bytes(src@),
            forall|i: int, j: int|
                0 <= i < j < tokens@.len() ==> tokens@[i].spec_span().end
                    <= tokens@[j].spec_span().start,
        decreases sc.n - sc.pos + 1,
    {
        let ghost p0 = sc.pos as int;
        let ghost tlist = crate::token::tokens_view(tokens@);
        let t = sc.next_token();
        let is_eof = token_is_eof(&t);
        proof {
            crate::token::lemma_token_view_ctor(t);
            assert(tokens@.push(t).drop_last() =~= tokens@);
            assert(crate::token::tokens_view(tokens@.push(t)) == tlist.push(
                crate::token::token_view(t),
            ));
            if is_eof {
                assert(spec_scan_from(src@, p0) =~= seq![crate::token::token_view(t)]);
                assert(tlist + spec_scan_from(src@, p0) =~= tlist.push(
                    crate::token::token_view(t),
                ));
            } else {
                assert(spec_scan_from(src@, p0) =~= seq![crate::token::token_view(t)]
                    + spec_scan_from(src@, sc.pos as int));
                assert(tlist + spec_scan_from(src@, p0) =~= tlist.push(
                    crate::token::token_view(t),
                ) + spec_scan_from(src@, sc.pos as int));
            }
        }
        tokens.push(t);
        if is_eof {
            break;
        }
    }
    tokens
}

/// The UTF-8 byte length of one character.
pub fn char_utf8_len(c: char) -> (r: usize)
    ensures
        r == spec_char_len(c),
{
    let u = c as u32;
    if u < 0x80 {
        1
    } else if u < 0x800 {
        2
    } else if u < 0x10000 {
        3
    } else {
        4
    }
}

} // verus!
