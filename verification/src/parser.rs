//! Recursive-descent parser with precedence climbing over the token buffer.
//!
//! The token cursor is an explicit index over an immutable token list, which
//! gives the lookahead and backtracking that alternation needs. Errors are
//! accumulated, never thrown: a malformed declaration yields an error node
//! and scanning resynchronizes at the next statement terminator.

use vstd::prelude::*;

use crate::ast::{expr_view, exprs_view, Atom, AtomV, Expr, ExprV, Op, TypeInfo};
use crate::scanner::tokenize;
use crate::span::Span;
use crate::token::{token_view, tokens_view, KeyWord, OpKind, Token, TokenV};

verus! {

broadcast use vstd::seq::group_seq_axioms, vstd::std_specs::vec::group_vec_axioms;

/// A parse diagnostic: a human-readable message and the span of the
/// offending token.
#[derive(Debug)]
pub struct ParseError {
    pub msg: String,
    pub span: Span,
}

/// Well-formed token buffers: produced by the scanner, ending in the
/// end-of-input token and with it alone, spans valid and in source order.
pub open spec fn tokens_wf(ts: Seq<Token>) -> bool {
    &&& ts.len() >= 1
    &&& ts[ts.len() - 1] is Eof
    &&& forall|i: int| 0 <= i < ts.len() - 1 ==> !((#[trigger] ts[i]) is Eof)
    &&& forall|i: int| 0 <= i < ts.len() ==> (#[trigger] ts[i].spec_span()).wf()
    &&& forall|i: int, j: int|
        0 <= i < j < ts.len() ==> ts[i].spec_span().end <= ts[j].spec_span().start
}

/// A top-level declaration: a named definition, an enum or type
/// declaration, or an error placeholder for a malformed one.
pub open spec fn is_declaration(e: ExprV) -> bool {
    ||| e matches ExprV::Func(_, _, _, _)
    ||| e matches ExprV::Enum(_, _, _)
    ||| e matches ExprV::TypeDec(_, _, _)
    ||| e matches ExprV::Error(_)
}

/// Every span in the tree does not run backwards.
pub open spec fn spans_wf(e: ExprV) -> bool
    decreases e,
{
    e.span().wf() && match e {
        ExprV::Atom(_, _) => true,
        ExprV::Unary(_, r, _) => spans_wf(*r),
        ExprV::Binary(_, l, r, _) => spans_wf(*l) && spans_wf(*r),
        ExprV::IfElse(c, t, f, _) => spans_wf(*c) && spans_wf(*t) && spans_wf(*f),
        ExprV::Closure(h, b, _) => spans_wf(*h) && spans_wf(*b),
        ExprV::Func(_, _, b, _) => spans_wf(*b),
        ExprV::App(c, args, _) => spans_wf(*c) && spans_wf_list(args),
        ExprV::Array(items, _) => spans_wf_list(items),
        ExprV::Enum(_, _, _) => true,
        ExprV::TypeDec(_, _, _) => true,
        ExprV::Error(_) => true,
    }
}

/// Every span in each tree of the list does not run backwards.
pub open spec fn spans_wf_list(s: Seq<ExprV>) -> bool
    decreases s,
{
    s.len() == 0 || (spans_wf_list(s.drop_last()) && spans_wf(s.last()))
}

/// The element-wise view of a list of spanned names.
pub open spec fn names_view(s: Seq<(String, Span)>) -> Seq<(Seq<char>, Span)>
    decreases s,
{
    if s.len() == 0 {
        Seq::empty()
    } else {
        names_view(s.drop_last()).push((s.last().0@, s.last().1))
    }
}

/// `names_view` maps the list element by element.
pub proof fn lemma_names_view(s: Seq<(String, Span)>)
    ensures
        names_view(s).len() == s.len(),
        forall|i: int|
            0 <= i < s.len() ==> names_view(s)[i] == ((#[trigger] s[i]).0@, s[i].1),
    decreases s,
{
    if s.len() > 0 {
        lemma_names_view(s.drop_last());
        assert forall|i: int|
            0 <= i < s.len() implies names_view(s)[i] == ((#[trigger] s[i]).0@, s[i].1) by {
            if i < s.len() - 1 {
                assert(s.drop_last()[i] == s[i]);
            }
        }
    }
}

/// The element-wise view of an enum-declaration variant list.
pub open spec fn variants_view(s: Seq<(String, Vec<String>)>) -> Seq<(Seq<char>, Seq<Seq<char>>)>
    decreases s,
{
    if s.len() == 0 {
        Seq::empty()
    } else {
        variants_view(s.drop_last()).push(
            (s.last().0@, crate::eval::strs_view(s.last().1@)),
        )
    }
}

/// The two formulations of a variant list's view agree.
pub proof fn lemma_variants_views_agree(s: Seq<(String, Vec<String>)>)
    ensures
        Seq::new(s.len(), |i: int| crate::ast::variant_view(s[i])) == variants_view(s),
    decreases s,
{
    if s.len() > 0 {
        lemma_variants_views_agree(s.drop_last());
        crate::eval::lemma_strs_view(s.last().1@);
        assert(crate::ast::variant_view(s.last()).1 =~= crate::eval::strs_view(s.last().1@));
        assert forall|i: int|
            0 <= i < s.len() implies Seq::new(
            s.len(),
            |j: int| crate::ast::variant_view(s[j]),
        )[i] == variants_view(s)[i] by {
            if i < s.len() - 1 {
                assert(s.drop_last()[i] == s[i]);
                assert(Seq::new(
                    s.drop_last().len(),
                    |j: int| crate::ast::variant_view(s.drop_last()[j]),
                )[i] == variants_view(s.drop_last())[i]);
            } else {
                assert(crate::ast::variant_view(s[i]) == (
                s.last().0@,
                crate::eval::strs_view(s.last().1@),
                ));
            }
        }
        assert(Seq::new(s.len(), |i: int| crate::ast::variant_view(s[i])) =~= variants_view(s));
    } else {
        assert(Seq::new(s.len(), |i: int| crate::ast::variant_view(s[i])) =~= variants_view(s));
    }
}

/// The element-wise view of the recorded type declarations.
pub open spec fn tdecs_view(s: Seq<(String, Vec<TypeInfo>)>) -> Seq<
    (Seq<char>, Seq<crate::ast::TypeInfoV>),
>
    decreases s,
{
    if s.len() == 0 {
        Seq::empty()
    } else {
        tdecs_view(s.drop_last()).push(
            (s.last().0@, crate::java::types_view(s.last().1@)),
        )
    }
}

/// `tdecs_view` maps the list element by element.
pub proof fn lemma_tdecs_view(s: Seq<(String, Vec<TypeInfo>)>)
    ensures
        tdecs_view(s).len() == s.len(),
        forall|i: int|
            0 <= i < s.len() ==> tdecs_view(s)[i] == ((#[trigger] s[i]).0@,
            crate::java::types_view(s[i].1@)),
    decreases s,
{
    if s.len() > 0 {
        lemma_tdecs_view(s.drop_last());
        assert forall|i: int|
            0 <= i < s.len() implies tdecs_view(s)[i] == ((#[trigger] s[i]).0@,
        crate::java::types_view(s[i].1@)) by {
            if i < s.len() - 1 {
                assert(s.drop_last()[i] == s[i]);
            }
        }
    }
}

/// The parser: an immutable token buffer, a cursor, and the diagnostics
/// accumulated so far.
pub struct Parser {
    pub tokens: Vec<Token>,
    pub idx: usize,
    pub errors: Vec<ParseError>,
}

impl Parser {
    /// The cursor stays on a valid token; the buffer is scanner output.
    pub open spec fn wf(self) -> bool {
        &&& tokens_wf(self.tokens@)
        &&& self.idx < self.tokens@.len()
    }

    /// The token under the cursor.
    pub open spec fn cur(self) -> Token {
        self.tokens@[self.idx as int]
    }

    /// Start of the token under the cursor: everything already parsed ends
    /// at or before this byte, everything still to parse starts at or after
    /// it.
    pub open spec fn mark(self) -> usize {
        self.cur().spec_span().start
    }

    /// What one parsing step may do to the state: the buffer never changes,
    /// the cursor only moves forward, and diagnostics are only appended.
    pub open spec fn advances(self, post: Parser) -> bool {
        &&& post.wf()
        &&& post.tokens == self.tokens
        &&& self.idx <= post.idx
        &&& self.errors@.len() <= post.errors@.len()
        &&& forall|i: int|
            0 <= i < self.errors@.len() ==> post.errors@[i] == #[trigger] self.errors@[i]
    }

    /// The cursor only moves toward later tokens, so the mark only grows.
    pub proof fn lemma_mark_mono(self, post: Parser)
        requires
            self.wf(),
            self.advances(post),
        ensures
            self.mark() <= post.mark(),
            self.cur().spec_span().end <= post.mark() || self.idx == post.idx,
    {
        if self.idx < post.idx {
            assert(self.tokens@[self.idx as int].spec_span().end
                <= self.tokens@[post.idx as int].spec_span().start);
        }
    }

    pub fn new(src: &str) -> (r: Parser)
        ensures
            r.wf(),
            r.idx == 0,
            r.errors@.len() == 0,
            r.tv() == crate::scanner::spec_scan(src@),
    {
        let tokens = tokenize(src);
        Parser { tokens, idx: 0, errors: Vec::new() }
    }

    /// Reference to the token under the cursor.
    fn cur_token(&self) -> (r: &Token)
        requires
            self.wf(),
        ensures
            *r == self.cur(),
    {
        &self.tokens[self.idx]
    }

    /// Span of the token under the cursor.
    fn cur_span(&self) -> (r: Span)
        requires
            self.wf(),
        ensures
            r == self.cur().spec_span(),
            r.wf(),
    {
        self.tokens[self.idx].span()
    }

    /// Consume the token under the cursor; the end-of-input token is never
    /// consumed.
    fn bump(&mut self)
        requires
            old(self).wf(),
        ensures
            old(self).advances(*final(self)),
            final(self).errors == old(self).errors,
            !(old(self).cur() is Eof) ==> final(self).idx == old(self).idx + 1,
            old(self).cur() is Eof ==> final(self).idx == old(self).idx,
    {
        let at_end = crate::scanner::token_is_eof(&self.tokens[self.idx]);
        if !at_end {
            proof {
                assert(self.tokens@[self.tokens@.len() - 1] is Eof);
                assert(self.idx != self.tokens@.len() - 1);
                assert(self.tokens@.len() == self.tokens.len());
            }
            self.idx = self.idx + 1;
        }
    }

    /// Record a diagnostic.
    fn error(&mut self, msg: &str, span: Span)
        requires
            old(self).wf(),
        ensures
            old(self).advances(*final(self)),
            final(self).idx == old(self).idx,
            final(self).errors@.len() == old(self).errors@.len() + 1,
    {
        self.errors.push(ParseError { msg: String::from_str(msg), span });
    }
}

impl Parser {
    /// The view of the token buffer.
    pub open spec fn tv(self) -> Seq<TokenV> {
        tokens_view(self.tokens@)
    }

    /// How an executable parse step relates to its specification: the same
    /// tree, the same stopping index, and exactly the specified number of
    /// diagnostics appended.
    pub open spec fn mirrors(pre: Parser, post: Parser, r: Expr, s: (ExprV, int, int)) -> bool {
        &&& r@ == s.0
        &&& post.idx as int == s.1
        &&& post.errors@.len() == pre.errors@.len() + s.2
    }

    /// What every expression-parsing step guarantees: the state advances,
    /// the tree's spans are valid, and the tree lies between the byte where
    /// parsing started and the byte where it stopped.
    pub open spec fn parsed(pre: Parser, post: Parser, r: Expr) -> bool {
        &&& pre.advances(post)
        &&& spans_wf(r@)
        &&& pre.mark() <= r@.span().start
        &&& r@.span().end <= post.mark()
        &&& !(pre.cur() is Eof) ==> post.idx > pre.idx
    }

    /// The operator lexeme under the cursor, if any.
    fn cur_op(&self) -> (r: Option<OpKind>)
        requires
            self.wf(),
        ensures
            match self.cur() {
                Token::Op(k, _) => r == Some(k),
                _ => r is None,
            },
    {
        match &self.tokens[self.idx] {
            Token::Op(k, _) => Some(*k),
            _ => None,
        }
    }

    /// The keyword under the cursor, if any.
    fn cur_keyword(&self) -> (r: Option<KeyWord>)
        requires
            self.wf(),
        ensures
            match self.cur() {
                Token::KeyWord(k, _) => r == Some(k),
                _ => r is None,
            },
    {
        match &self.tokens[self.idx] {
            Token::KeyWord(k, _) => Some(*k),
            _ => None,
        }
    }

    /// The identifier lexeme under the cursor, if any.
    fn cur_id_lexeme(&self) -> (r: Option<String>)
        requires
            self.wf(),
        ensures
            match self.cur() {
                Token::Id(l, _) => r matches Some(l2) && l2@ == l@,
                _ => r is None,
            },
    {
        match &self.tokens[self.idx] {
            Token::Id(l, _) => Some(l.clone()),
            _ => None,
        }
    }

    /// The float lexeme under the cursor, if any.
    fn cur_float_lexeme(&self) -> (r: Option<String>)
        requires
            self.wf(),
        ensures
            match self.cur() {
                Token::Float(l, _) => r matches Some(l2) && l2@ == l@,
                _ => r is None,
            },
    {
        match &self.tokens[self.idx] {
            Token::Float(l, _) => Some(l.clone()),
            _ => None,
        }
    }

    /// The string lexeme under the cursor, if any.
    fn cur_str_lexeme(&self) -> (r: Option<String>)
        requires
            self.wf(),
        ensures
            match self.cur() {
                Token::Str(l, _) => r matches Some(l2) && l2@ == l@,
                _ => r is None,
            },
    {
        match &self.tokens[self.idx] {
            Token::Str(l, _) => Some(l.clone()),
            _ => None,
        }
    }

    /// The character lexeme under the cursor, if any.
    fn cur_char_lexeme(&self) -> (r: Option<String>)
        requires
            self.wf(),
        ensures
            match self.cur() {
                Token::Char(l, _) => r matches Some(l2) && l2@ == l@,
                _ => r is None,
            },
    {
        match &self.tokens[self.idx] {
            Token::Char(l, _) => Some(l.clone()),
            _ => None,
        }
    }

    /// The lexeme of the integer token under the cursor, if any.
    fn cur_int_lexeme(&self) -> (r: Option<String>)
        requires
            self.wf(),
        ensures
            match self.cur() {
                Token::Int(l, _) => r matches Some(l2) && l2@ == l@,
                _ => r is None,
            },
    {
        match &self.tokens[self.idx] {
            Token::Int(l, _) => Some(l.clone()),
            _ => None,
        }
    }

    /// Whether the token after the cursor closes a parenthesis.
    fn next_is_rparen(&self) -> (r: bool)
        requires
            self.wf(),
        ensures
            r == (self.idx + 1 < self.tokens@.len() && self.tokens@[self.idx + 1] matches Token::Op(
                OpKind::RParen,
                _,
            )),
    {
        if self.idx < self.tokens.len() - 1 {
            match &self.tokens[self.idx + 1] {
                Token::Op(OpKind::RParen, _) => true,
                _ => false,
            }
        } else {
            false
        }
    }
}

/// The binary operator, its precedence and whether it is right-associative,
/// for the operator lexemes that act as binary operators. The pipe binds
/// loosest, then comparisons, then additive, then multiplicative operators;
/// all are left-associative.
pub open spec fn spec_binary_op(k: OpKind) -> Option<(Op, u8, bool)> {
    match k {
        OpKind::Pipe => Some((Op::Pipe, 1u8, false)),
        OpKind::EqEq => Some((Op::Eq, 2u8, false)),
        OpKind::NotEq => Some((Op::Neq, 2u8, false)),
        OpKind::Les => Some((Op::Les, 2u8, false)),
        OpKind::LesEq => Some((Op::LesEq, 2u8, false)),
        OpKind::Grt => Some((Op::Grt, 2u8, false)),
        OpKind::GrtEq => Some((Op::GrtEq, 2u8, false)),
        OpKind::Plus => Some((Op::Plus, 3u8, false)),
        OpKind::Minus => Some((Op::Minus, 3u8, false)),
        OpKind::Mult => Some((Op::Mult, 4u8, false)),
        OpKind::Div => Some((Op::Div, 4u8, false)),
        _ => None,
    }
}

/// Executable form of the binary operator table.
pub fn binary_op(k: OpKind) -> (r: Option<(Op, u8, bool)>)
    ensures
        r == spec_binary_op(k),
{
    match k {
        OpKind::Pipe => Some((Op::Pipe, 1u8, false)),
        OpKind::EqEq => Some((Op::Eq, 2u8, false)),
        OpKind::NotEq => Some((Op::Neq, 2u8, false)),
        OpKind::Les => Some((Op::Les, 2u8, false)),
        OpKind::LesEq => Some((Op::LesEq, 2u8, false)),
        OpKind::Grt => Some((Op::Grt, 2u8, false)),
        OpKind::GrtEq => Some((Op::GrtEq, 2u8, false)),
        OpKind::Plus => Some((Op::Plus, 3u8, false)),
        OpKind::Minus => Some((Op::Minus, 3u8, false)),
        OpKind::Mult => Some((Op::Mult, 4u8, false)),
        OpKind::Div => Some((Op::Div, 4u8, false)),
        _ => None,
    }
}

/// Whether a token can start a prefix term, and so continue a juxtaposed
/// argument list.
pub open spec fn spec_term_start(t: TokenV) -> bool {
    match t {
        TokenV::Int(_, _) => true,
        TokenV::Float(_, _) => true,
        TokenV::Id(_, _) => true,
        TokenV::Str(_, _) => true,
        TokenV::Char(_, _) => true,
        TokenV::KeyWord(k, _) => k == KeyWord::True || k == KeyWord::False,
        TokenV::Op(k, _) => k == OpKind::LParen || k == OpKind::LBracket || k == OpKind::Lambda,
        _ => false,
    }
}

/// Executable form of the term-start test.
pub fn term_start(t: &Token) -> (r: bool)
    ensures
        r == spec_term_start(token_view(*t)),
{
    proof {
        crate::token::lemma_token_view_ctor(*t);
    }
    match t {
        Token::Int(_, _) => true,
        Token::Float(_, _) => true,
        Token::Id(_, _) => true,
        Token::Str(_, _) => true,
        Token::Char(_, _) => true,
        Token::KeyWord(k, _) => *k == KeyWord::True || *k == KeyWord::False,
        Token::Op(k, _) => *k == OpKind::LParen || *k == OpKind::LBracket || *k
            == OpKind::Lambda,
        _ => false,
    }
}

/// The numeric value of a digit-and-underscore lexeme, underscores ignored.
pub open spec fn spec_digits_val(s: Seq<char>) -> int
    decreases s,
{
    if s.len() == 0 {
        0
    } else if s.last() == '_' {
        spec_digits_val(s.drop_last())
    } else {
        spec_digits_val(s.drop_last()) * 10 + (s.last() as u32 - 48)
    }
}

pub proof fn lemma_digits_val_nonneg(s: Seq<char>)
    requires
        forall|i: int| 0 <= i < s.len() ==> crate::scanner::is_digit(#[trigger] s[i]) || s[i]
            == '_',
    ensures
        spec_digits_val(s) >= 0,
    decreases s,
{
    if s.len() > 0 {
        assert(forall|i: int|
            0 <= i < s.drop_last().len() ==> crate::scanner::is_digit(#[trigger] s.drop_last()[i])
                || s.drop_last()[i] == '_');
        lemma_digits_val_nonneg(s.drop_last());
    }
}

/// Convert an integer lexeme of digits and underscores to a machine
/// integer; too large a value is reported, not wrapped.
pub fn parse_int_lexeme(s: &String) -> (r: Option<i64>)
    ensures
        match r {
            Some(v) => {
                &&& forall|i: int|
                    0 <= i < s@.len() ==> crate::scanner::is_digit(#[trigger] s@[i]) || s@[i]
                        == '_'
                &&& v == spec_digits_val(s@)
                &&& spec_digits_val(s@) <= i64::MAX
            },
            None => (exists|i: int|
                0 <= i < s@.len() && !crate::scanner::is_digit(#[trigger] s@[i]) && s@[i] != '_')
                || spec_digits_val(s@) > i64::MAX,
        },
{
    let n = s.as_str().unicode_len();
    let mut acc: i64 = 0;
    let mut i: usize = 0;
    proof {
        assert(s@.take(0) =~= Seq::<char>::empty());
    }
    while i < n
        invariant
            i <= n == s@.len(),
            forall|k: int|
                0 <= k < i ==> crate::scanner::is_digit(#[trigger] s@[k]) || s@[k] == '_',
            0 <= acc == spec_digits_val(s@.take(i as int)),
        decreases n - i,
    {
        let c = s.as_str().get_char(i);
        let ghost pre = s@.take(i as int);
        proof {
            assert(s@.take(i + 1).drop_last() =~= pre);
            assert(s@.take(i + 1).last() == s@[i as int]);
        }
        if c == '_' {
            i = i + 1;
            continue;
        }
        let u = c as u32;
        if !(48 <= u && u <= 57) {
            return None;
        }
        proof {
            lemma_val_prefix_nonneg(s@, i as int);
            lemma_val_step(s@, i as int);
        }
        let d = u - 48;
        let step = match acc.checked_mul(10) {
            Some(m) => m.checked_add(d as i64),
            None => None,
        };
        match step {
            Some(v) => {
                acc = v;
            },
            None => {
                proof {
                    if forall|k: int|
                        0 <= k < s@.len() ==> crate::scanner::is_digit(#[trigger] s@[k]) || s@[k]
                            == '_' {
                        lemma_val_prefix_nonneg(s@, i as int);
                        lemma_val_step(s@, i as int);
                        lemma_grow(s@, i as int);
                    }
                }
                return None;
            },
        }
        i = i + 1;
    }
    proof {
        assert(s@.take(n as int) =~= s@);
    }
    Some(acc)
}

impl Parser {
    /// Parse one prefix term: a literal or identifier atom, a unary
    /// application, a parenthesized expression (parentheses are
    /// transparent), an array literal, a lambda, a conditional or a
    /// let-binding. Anything else becomes an error node and a diagnostic.
    #[verifier::loop_isolation(false)]
    pub fn prefix(&mut self) -> (r: Expr)
        requires
            old(self).wf(),
        ensures
            Parser::parsed(*old(self), *final(self), r),
            Parser::mirrors(
                *old(self),
                *final(self),
                r,
                spec_prefix(old(self).tv(), old(self).idx as int),
            ),
        decreases old(self).tokens@.len() - old(self).idx, 1int,
    {
        let ghost pre = *self;
        let ghost tvv = pre.tv();
        let ghost i0 = pre.idx as int;
        proof {
            crate::token::lemma_tokens_view(self.tokens@);
            crate::token::lemma_token_view_ctor(pre.cur());
            assert(tvv[i0] == token_view(pre.cur()));
        }
        let sp = self.cur_span();
        if crate::scanner::token_is_eof(self.cur_token()) {
            let zp = Span::new(sp.start, sp.start);
            self.error("unexpected end of input", zp);
            return Expr::Error(zp);
        }
        if let Some(l) = self.cur_int_lexeme() {
            self.bump();
            match parse_int_lexeme(&l) {
                Some(v) => {
                    proof {
                        assert(int_lexeme_ok(l@));
                    }
                    return Expr::Atom(Atom::Int(v), sp);
                },
                None => {
                    proof {
                        if int_lexeme_ok(l@) {
                            assert(false);
                        }
                    }
                    self.error("integer literal out of range", sp);
                    return Expr::Error(sp);
                },
            }
        }
        if let Some(l) = self.cur_float_lexeme() {
            self.bump();
            return Expr::Atom(Atom::Float(l), sp);
        }
        if let Some(l) = self.cur_id_lexeme() {
            self.bump();
            return Expr::Atom(Atom::Id(l), sp);
        }
        if let Some(l) = self.cur_str_lexeme() {
            self.bump();
            return Expr::Atom(Atom::Str(l), sp);
        }
        if let Some(l) = self.cur_char_lexeme() {
            self.bump();
            return Expr::Atom(Atom::Char(l), sp);
        }
        if let Some(k) = self.cur_keyword() {
            match k {
                KeyWord::True => {
                    self.bump();
                    return Expr::Atom(Atom::Bool(true), sp);
                },
                KeyWord::False => {
                    self.bump();
                    return Expr::Atom(Atom::Bool(false), sp);
                },
                KeyWord::If => {
                    return self.conditional();
                },
                KeyWord::Let => {
                    return self.let_expr();
                },
                _ => {
                    self.bump();
                    self.error("unexpected keyword", sp);
                    return Expr::Error(sp);
                },
            }
        }
        if let Some(k) = self.cur_op() {
            match k {
                OpKind::Minus => {
                    self.bump();
                    let ghost mid = *self;
                    let operand = self.prefix();
                    proof {
                        pre.lemma_mark_mono(mid);
                    }
                    let osp = operand.span();
                    return Expr::Unary(Op::Minus, Box::new(operand), sp.to(osp));
                },
                OpKind::Bang => {
                    self.bump();
                    let ghost mid = *self;
                    let operand = self.prefix();
                    proof {
                        pre.lemma_mark_mono(mid);
                    }
                    let osp = operand.span();
                    return Expr::Unary(Op::Not, Box::new(operand), sp.to(osp));
                },
                OpKind::Lambda => {
                    return self.lambda_term();
                },
                OpKind::LParen => {
                    return self.paren_term();
                },
                OpKind::LBracket => {
                    return self.array_term();
                },
                _ => {
                    self.bump();
                    self.error("unexpected operator", sp);
                    return Expr::Error(sp);
                },
            }
        }
        self.bump();
        self.error("unrecognized character", sp);
        Expr::Error(sp)
    }


    /// A lambda: the glyph, a parameter name, an arrow and a body.
    #[verifier::loop_isolation(false)]
    fn lambda_term(&mut self) -> (r: Expr)
        requires
            old(self).wf(),
            old(self).cur() matches Token::Op(OpKind::Lambda, _),
        ensures
            Parser::parsed(*old(self), *final(self), r),
            Parser::mirrors(
                *old(self),
                *final(self),
                r,
                spec_lambda(old(self).tv(), old(self).idx as int, old(self).cur().spec_span()),
            ),
        decreases old(self).tokens@.len() - old(self).idx, 0int,
    {
        let ghost pre = *self;
        let ghost tvv = pre.tv();
        let ghost i0 = pre.idx as int;
        proof {
            crate::token::lemma_tokens_view(self.tokens@);
            crate::token::lemma_token_view_ctor(pre.cur());
            assert(tvv[i0] == token_view(pre.cur()));
        }
        let sp = self.cur_span();
            self.bump();
            let ghost mid = *self;
            proof {
                crate::token::lemma_token_view_ctor(self.cur());
                assert(tvv[i0 + 1] == token_view(self.cur()));
            }
            if let Some(name) = self.cur_id_lexeme() {
                let psp = self.cur_span();
                self.bump();
                let param = Expr::Atom(Atom::Id(name), psp);
                proof {
                    crate::token::lemma_token_view_ctor(self.cur());
                    assert(tvv[i0 + 2] == token_view(self.cur()));
                }
                if let Some(OpKind::Arrow) = self.cur_op() {
                    self.bump();
                } else {
                    let asp = self.cur_span();
                    self.error("expected '->' after lambda parameter", asp);
                }
                let ghost mid2 = *self;
                let body = self.expression(0);
                proof {
                    pre.lemma_mark_mono(mid);
                    mid.lemma_mark_mono(mid2);
                    assert(pre.advances(*self));
                    assert(spans_wf(expr_view(param)));
                    assert(spans_wf(expr_view(body)));
                    assert(sp.end <= mid.mark());
                    assert(psp.end <= mid2.mark());
                    assert(mid2.mark() <= expr_view(body).span().start);
                }
                let bsp = body.span();
                let r = Expr::Closure(Box::new(param), Box::new(body), sp.to(bsp));
                proof {
                    assert(Parser::mirrors(pre, *self, r, spec_lambda(tvv, i0, sp)));
                }
                return r;
            } else {
                let asp = self.cur_span();
                self.error("expected a parameter name after lambda", asp);
                return Expr::Error(sp);
            }
        
    }

    /// A parenthesized group: a lone operator becomes a first-class name; otherwise the group is transparent.
    #[verifier::loop_isolation(false)]
    fn paren_term(&mut self) -> (r: Expr)
        requires
            old(self).wf(),
            old(self).cur() matches Token::Op(OpKind::LParen, _),
        ensures
            Parser::parsed(*old(self), *final(self), r),
            Parser::mirrors(
                *old(self),
                *final(self),
                r,
                spec_paren(old(self).tv(), old(self).idx as int, old(self).cur().spec_span()),
            ),
        decreases old(self).tokens@.len() - old(self).idx, 0int,
    {
        let ghost pre = *self;
        let ghost tvv = pre.tv();
        let ghost i0 = pre.idx as int;
        proof {
            crate::token::lemma_tokens_view(self.tokens@);
            crate::token::lemma_token_view_ctor(pre.cur());
            assert(tvv[i0] == token_view(pre.cur()));
        }
        let sp = self.cur_span();
            self.bump();
            let ghost mid = *self;
            proof {
                crate::token::lemma_token_view_ctor(self.cur());
                assert(tvv[i0 + 1] == token_view(self.cur()));
                if mid.idx + 1 < mid.tokens@.len() {
                    crate::token::lemma_token_view_ctor(self.tokens@[mid.idx + 1]);
                    assert(tvv[i0 + 2] == token_view(self.tokens@[mid.idx + 1]));
                }
            }
            if let Some(k2) = self.cur_op() {
                if binary_op(k2).is_some() && self.next_is_rparen() {
                    let mut name = String::from_str("(");
                    match binary_op(k2) {
                        Some((op, _, _)) => {
                            name.append(crate::display::op_str(op));
                        },
                        None => {},
                    }
                    name.append(")");
                    self.bump();
                    let rsp = self.cur_span();
                    self.bump();
                    proof {
                        pre.lemma_mark_mono(mid);
                        mid.lemma_mark_mono(*self);
                    }
                    let r = Expr::Atom(Atom::Id(name), sp.to(rsp));
                    proof {
                        match spec_binary_op(k2) {
                            Some((op, _, _)) => {
                                assert(name@ =~= "("@ + crate::display::spec_op_str(op)
                                    + ")"@);
                            },
                            None => {},
                        }
                        assert(Parser::mirrors(pre, *self, r, spec_paren(tvv, i0, sp)));
                    }
                    return r;
                }
            }
            let e = self.expression(0);
            proof {
                pre.lemma_mark_mono(mid);
                crate::token::lemma_token_view_ctor(self.cur());
                assert(tvv[self.idx as int] == token_view(self.cur()));
            }
            if let Some(OpKind::RParen) = self.cur_op() {
                let ghost before_close = *self;
                self.bump();
                proof {
                    before_close.lemma_mark_mono(*self);
                    assert(Parser::mirrors(pre, *self, e, spec_paren(tvv, i0, sp)));
                }
                return e;
            } else {
                self.error("unterminated parenthesis", sp);
                proof {
                    assert(Parser::mirrors(pre, *self, e, spec_paren(tvv, i0, sp)));
                }
                return e;
            }
        
    }

    /// An array literal: bracketed, comma-separated elements.
    #[verifier::loop_isolation(false)]
    fn array_term(&mut self) -> (r: Expr)
        requires
            old(self).wf(),
            old(self).cur() matches Token::Op(OpKind::LBracket, _),
        ensures
            Parser::parsed(*old(self), *final(self), r),
            Parser::mirrors(
                *old(self),
                *final(self),
                r,
                spec_array(old(self).tv(), old(self).idx as int, old(self).cur().spec_span()),
            ),
        decreases old(self).tokens@.len() - old(self).idx, 0int,
    {
        let ghost pre = *self;
        let ghost tvv = pre.tv();
        let ghost i0 = pre.idx as int;
        proof {
            crate::token::lemma_tokens_view(self.tokens@);
            crate::token::lemma_token_view_ctor(pre.cur());
            assert(tvv[i0] == token_view(pre.cur()));
        }
        let sp = self.cur_span();
            self.bump();
            let ghost mid = *self;
            proof {
                pre.lemma_mark_mono(mid);
                crate::token::lemma_token_view_ctor(self.cur());
                assert(tvv[i0 + 1] == token_view(self.cur()));
            }
            let mut items: Vec<Expr> = Vec::new();
            let mut close_sp = Span::new(sp.start, sp.start);
            if let Some(OpKind::RBracket) = self.cur_op() {
                close_sp = self.cur_span();
                self.bump();
                proof {
                    mid.lemma_mark_mono(*self);
                }
            } else {
                let ghost e_mid = mid.errors@.len();
                let mut done = false;
                while !done
                    invariant
                        spans_wf_list(exprs_view(items@)),
                        mid.advances(*self),
                        done ==> close_sp.wf() && close_sp.end <= self.mark()
                            && mid.mark() <= close_sp.end,
                        !done ==> {
                            &&& spec_array_items(tvv, mid.idx as int, sp).0
                                == exprs_view(items@) + spec_array_items(
                                tvv,
                                self.idx as int,
                                sp,
                            ).0
                            &&& spec_array_items(tvv, mid.idx as int, sp).1
                                == spec_array_items(tvv, self.idx as int, sp).1
                            &&& spec_array_items(tvv, mid.idx as int, sp).2
                                == spec_array_items(tvv, self.idx as int, sp).2
                            &&& spec_array_items(tvv, mid.idx as int, sp).3 == (
                            self.errors@.len() - e_mid) + spec_array_items(
                                tvv,
                                self.idx as int,
                                sp,
                            ).3
                        },
                        done ==> {
                            &&& spec_array_items(tvv, mid.idx as int, sp).0
                                == exprs_view(items@)
                            &&& spec_array_items(tvv, mid.idx as int, sp).1 == close_sp
                            &&& spec_array_items(tvv, mid.idx as int, sp).2
                                == self.idx as int
                            &&& spec_array_items(tvv, mid.idx as int, sp).3 == (
                            self.errors@.len() - e_mid)
                        },
                    decreases self.tokens@.len() - self.idx, (if done {
                        0int
                    } else {
                        1int
                    }),
                {
                    let ghost it0 = *self;
                    let e = self.expression(0);
                    proof {
                        let vlist = exprs_view(items@);
                        assert(items@.push(e).drop_last() =~= items@);
                        assert(exprs_view(items@.push(e)) == vlist.push(expr_view(e)));
                        assert(vlist.push(expr_view(e)).drop_last() =~= vlist);
                        assert(vlist.push(expr_view(e)).last() == expr_view(e));
                        assert(spans_wf_list(exprs_view(items@.push(e))));
                        crate::token::lemma_token_view_ctor(self.cur());
                        assert(tvv[self.idx as int] == token_view(self.cur()));
                    }
                    items.push(e);
                    if let Some(OpKind::Comma) = self.cur_op() {
                        let ghost before = *self;
                        self.bump();
                        proof {
                            before.lemma_mark_mono(*self);
                            assert(spec_array_items(tvv, it0.idx as int, sp).0
                                =~= seq![expr_view(e)] + spec_array_items(
                                tvv,
                                self.idx as int,
                                sp,
                            ).0);
                            assert(spec_array_items(tvv, mid.idx as int, sp).0
                                =~= exprs_view(items@) + spec_array_items(
                                tvv,
                                self.idx as int,
                                sp,
                            ).0);
                        }
                    } else {
                        if let Some(OpKind::RBracket) = self.cur_op() {
                            close_sp = self.cur_span();
                            let ghost before = *self;
                            self.bump();
                            proof {
                                before.lemma_mark_mono(*self);
                                mid.lemma_mark_mono(before);
                                assert(spec_array_items(tvv, it0.idx as int, sp).0
                                    =~= seq![expr_view(e)]);
                                assert(spec_array_items(tvv, mid.idx as int, sp).0
                                    =~= exprs_view(items@));
                            }
                        } else {
                            let here = self.cur_span();
                            close_sp = Span::new(here.start, here.start);
                            self.error("unterminated array literal", sp);
                            proof {
                                mid.lemma_mark_mono(*self);
                                assert(spec_array_items(tvv, it0.idx as int, sp).0
                                    =~= seq![expr_view(e)]);
                                assert(spec_array_items(tvv, mid.idx as int, sp).0
                                    =~= exprs_view(items@));
                            }
                        }
                        done = true;
                    }
                }
            }
            proof {
                pre.lemma_mark_mono(mid);
                assert(sp.end <= mid.mark());
                assert(sp.start <= close_sp.end);
                assert(pre.advances(*self));
                let rv = ExprV::Array(
                    exprs_view(items@),
                    Span { start: sp.start, end: close_sp.end },
                );
                assert(rv.span().wf());
                assert(spans_wf_list(exprs_view(items@)));
                assert(spans_wf(rv));
                assert(pre.mark() <= rv.span().start);
                assert(rv.span().end <= self.mark());
                assert(self.idx > pre.idx);
                if tvv[i0 + 1] matches TokenV::Op(OpKind::RBracket, _) {
                    assert(exprs_view(items@) =~= Seq::<ExprV>::empty());
                }
                assert((rv, self.idx as int, self.errors@.len() - pre.errors@.len())
                    == spec_array(tvv, i0, sp));
            }
            return Expr::Array(items, sp.to(close_sp));
        
    }

    /// Parse a term: one prefix term, then every directly adjacent term is
    /// collected into a single application's argument list.
    #[verifier::loop_isolation(false)]
    pub fn term(&mut self) -> (r: Expr)
        requires
            old(self).wf(),
        ensures
            Parser::parsed(*old(self), *final(self), r),
            Parser::mirrors(
                *old(self),
                *final(self),
                r,
                spec_term(old(self).tv(), old(self).idx as int),
            ),
        decreases old(self).tokens@.len() - old(self).idx, 2int,
    {
        let ghost pre = *self;
        let ghost tvv = pre.tv();
        proof {
            crate::token::lemma_tokens_view(self.tokens@);
        }
        let left = self.prefix();
        let ghost mid = *self;
        let ghost e_mid = mid.errors@.len();
        let mut args: Vec<Expr> = Vec::new();
        let mut done = false;
        while !done
            invariant
                self.wf(),
                mid.advances(*self),
                mid.wf(),
                pre.wf(),
                pre.advances(mid),
                spans_wf_list(exprs_view(args@)),
                args@.len() > 0 ==> exprs_view(args@).last().span().end <= self.mark(),
                args@.len() > 0 ==> mid.mark() <= exprs_view(args@).last().span().end,
                pre.cur() is Eof ==> args@.len() == 0,
                !done ==> {
                    &&& spec_args(tvv, mid.idx as int).0 == exprs_view(args@) + spec_args(
                        tvv,
                        self.idx as int,
                    ).0
                    &&& spec_args(tvv, mid.idx as int).1 == spec_args(tvv, self.idx as int).1
                    &&& spec_args(tvv, mid.idx as int).2 == (self.errors@.len() - e_mid)
                        + spec_args(tvv, self.idx as int).2
                },
                done ==> {
                    &&& spec_args(tvv, mid.idx as int).0 == exprs_view(args@)
                    &&& spec_args(tvv, mid.idx as int).1 == self.idx as int
                    &&& spec_args(tvv, mid.idx as int).2 == self.errors@.len() - e_mid
                },
            decreases self.tokens@.len() - self.idx, (if done {
                0int
            } else {
                1int
            }),
        {
            let go = term_start(self.cur_token());
            proof {
                assert(tvv[self.idx as int] == token_view(self.cur()));
            }
            if !go {
                proof {
                    assert(spec_args(tvv, self.idx as int).0 =~= Seq::<ExprV>::empty());
                    assert(spec_args(tvv, mid.idx as int).0 =~= exprs_view(args@));
                }
                done = true;
            } else {
                let ghost it0 = *self;
                let a = self.prefix();
                proof {
                    assert(!(it0.cur() is Eof));
                    mid.lemma_mark_mono(it0);
                    let vlist = exprs_view(args@);
                    assert(args@.push(a).drop_last() =~= args@);
                    assert(exprs_view(args@.push(a)) == vlist.push(expr_view(a)));
                    assert(vlist.push(expr_view(a)).drop_last() =~= vlist);
                    assert(vlist.push(expr_view(a)).last() == expr_view(a));
                    assert(spans_wf_list(exprs_view(args@.push(a))));
                    crate::ast::lemma_exprs_view(args@.push(a));
                    assert(spec_args(tvv, it0.idx as int).0 =~= seq![expr_view(a)] + spec_args(
                        tvv,
                        self.idx as int,
                    ).0);
                    assert(spec_args(tvv, mid.idx as int).0 =~= exprs_view(args@.push(a))
                        + spec_args(tvv, self.idx as int).0);
                }
                args.push(a);
            }
        }
        proof {
            crate::ast::lemma_exprs_view(args@);
        }
        if args.len() > 0 {
            let last_sp = args[args.len() - 1].span();
            proof {
                pre.lemma_mark_mono(mid);
            }
            let lsp = left.span();
            let span = lsp.to(last_sp);
            proof {
                assert(exprs_view(args@).last() == exprs_view(args@)[args@.len() - 1]);
            }
            let r = Expr::App(Box::new(left), args, span);
            proof {
                assert(Parser::mirrors(pre, *self, r, spec_term(tvv, pre.idx as int)));
            }
            r
        } else {
            proof {
                assert(exprs_view(args@) =~= Seq::<ExprV>::empty());
                assert(Parser::mirrors(pre, *self, left, spec_term(tvv, pre.idx as int)));
            }
            left
        }
    }

    /// Precedence climbing: parse a term, then fold in every binary
    /// operator whose precedence is at least `min_prec`, recursing with a
    /// higher bound on the right for left-associative operators.
    #[verifier::loop_isolation(false)]
    pub fn expression(&mut self, min_prec: u8) -> (r: Expr)
        requires
            old(self).wf(),
        ensures
            Parser::parsed(*old(self), *final(self), r),
            Parser::mirrors(
                *old(self),
                *final(self),
                r,
                spec_expression(old(self).tv(), old(self).idx as int, min_prec),
            ),
        decreases old(self).tokens@.len() - old(self).idx, 3int,
    {
        let ghost pre = *self;
        let ghost tvv = pre.tv();
        proof {
            crate::token::lemma_tokens_view(self.tokens@);
        }
        let mut left = self.term();
        let ghost ls = *self;
        let ghost left0 = left@;
        let ghost e_ls = ls.errors@.len();
        let mut done = false;
        while !done
            invariant
                self.wf(),
                pre.wf(),
                pre.advances(*self),
                spans_wf(left@),
                pre.mark() <= left@.span().start,
                left@.span().end <= self.mark(),
                !(pre.cur() is Eof) ==> self.idx > pre.idx,
                pre.cur() is Eof ==> left@ matches ExprV::Error(_),
                !done ==> {
                    &&& spec_binops(tvv, ls.idx as int, left0, min_prec).0 == spec_binops(
                        tvv,
                        self.idx as int,
                        left@,
                        min_prec,
                    ).0
                    &&& spec_binops(tvv, ls.idx as int, left0, min_prec).1 == spec_binops(
                        tvv,
                        self.idx as int,
                        left@,
                        min_prec,
                    ).1
                    &&& spec_binops(tvv, ls.idx as int, left0, min_prec).2 == (
                    self.errors@.len() - e_ls) + spec_binops(
                        tvv,
                        self.idx as int,
                        left@,
                        min_prec,
                    ).2
                },
                done ==> {
                    &&& spec_binops(tvv, ls.idx as int, left0, min_prec).0 == left@
                    &&& spec_binops(tvv, ls.idx as int, left0, min_prec).1 == self.idx as int
                    &&& spec_binops(tvv, ls.idx as int, left0, min_prec).2 == self.errors@.len()
                        - e_ls
                },
            decreases self.tokens@.len() - self.idx, (if done {
                0int
            } else {
                1int
            }),
        {
            proof {
                crate::token::lemma_token_view_ctor(self.cur());
                assert(tvv[self.idx as int] == token_view(self.cur()));
            }
            let stop = match self.cur_op() {
                Some(k) => match binary_op(k) {
                    Some((op, prec, right_assoc)) => {
                        if prec < min_prec {
                            true
                        } else {
                            let ghost at_op = *self;
                            self.bump();
                            let ghost after_op = *self;
                            let next_min = if right_assoc {
                                prec
                            } else {
                                prec + 1
                            };
                            let rhs = self.expression(next_min);
                            proof {
                                at_op.lemma_mark_mono(after_op);
                            }
                            let lsp = left.span();
                            let rsp = rhs.span();
                            let folded = Expr::Binary(op, Box::new(left), Box::new(rhs), lsp.to(
                                rsp,
                            ));
                            proof {
                                assert(spec_binops(tvv, at_op.idx as int, left@, min_prec).0
                                    == spec_binops(
                                    tvv,
                                    self.idx as int,
                                    expr_view(folded),
                                    min_prec,
                                ).0);
                            }
                            left = folded;
                            false
                        }
                    },
                    None => true,
                },
                None => true,
            };
            if stop {
                proof {
                    assert(spec_binops(tvv, self.idx as int, left@, min_prec) == (
                    left@,
                    self.idx as int,
                    0int,
                    ));
                }
                done = true;
            }
        }
        proof {
            if pre.idx < ls.idx {
                assert(Parser::mirrors(
                    pre,
                    *self,
                    left,
                    spec_expression(tvv, pre.idx as int, min_prec),
                ));
            } else {
                assert(ls.idx == pre.idx);
                assert(Parser::mirrors(
                    pre,
                    *self,
                    left,
                    spec_expression(tvv, pre.idx as int, min_prec),
                ));
            }
        }
        left
    }

    /// The call-expression entry point: an expression at the given minimum
    /// precedence, application included.
    pub fn call(&mut self, min_prec: u8) -> (r: Expr)
        requires
            old(self).wf(),
        ensures
            Parser::parsed(*old(self), *final(self), r),
            Parser::mirrors(
                *old(self),
                *final(self),
                r,
                spec_expression(old(self).tv(), old(self).idx as int, min_prec),
            ),
        decreases old(self).tokens@.len() - old(self).idx, 4int,
    {
        self.expression(min_prec)
    }

    /// Parse `if condition then consequence else alternative`; both
    /// keywords are mandatory.
    pub fn conditional(&mut self) -> (r: Expr)
        requires
            old(self).wf(),
        ensures
            Parser::parsed(*old(self), *final(self), r),
            Parser::mirrors(
                *old(self),
                *final(self),
                r,
                spec_conditional(old(self).tv(), old(self).idx as int),
            ),
        decreases old(self).tokens@.len() - old(self).idx, 0int,
    {
        let ghost pre = *self;
        let ghost tvv = pre.tv();
        let ghost i0 = pre.idx as int;
        proof {
            crate::token::lemma_tokens_view(self.tokens@);
            crate::token::lemma_token_view_ctor(pre.cur());
            assert(tvv[i0] == token_view(pre.cur()));
        }
        let sp = self.cur_span();
        let is_if = match self.cur_keyword() {
            Some(KeyWord::If) => true,
            _ => false,
        };
        if !is_if {
            self.bump();
            let zp = Span::new(sp.start, sp.start);
            self.error("expected 'if'", zp);
            return Expr::Error(zp);
        }
        self.bump();
        let ghost s1 = *self;
        let cond = self.expression(0);
        proof {
            pre.lemma_mark_mono(s1);
            crate::token::lemma_token_view_ctor(self.cur());
            assert(tvv[self.idx as int] == token_view(self.cur()));
        }
        if let Some(KeyWord::Then) = self.cur_keyword() {
            let ghost b = *self;
            self.bump();
            proof {
                b.lemma_mark_mono(*self);
            }
        } else {
            let here = self.cur_span();
            self.error("expected 'then'", here);
        }
        let ghost s2 = *self;
        proof {
            s1.lemma_mark_mono(s2);
        }
        let thenb = self.expression(0);
        proof {
            crate::token::lemma_token_view_ctor(self.cur());
            assert(tvv[self.idx as int] == token_view(self.cur()));
        }
        if let Some(KeyWord::Else) = self.cur_keyword() {
            let ghost b = *self;
            self.bump();
            proof {
                b.lemma_mark_mono(*self);
            }
        } else {
            let here = self.cur_span();
            self.error("expected 'else'", here);
        }
        let ghost s3 = *self;
        proof {
            s2.lemma_mark_mono(s3);
        }
        let elseb = self.expression(0);
        let esp = elseb.span();
        let r = Expr::IfElse(Box::new(cond), Box::new(thenb), Box::new(elseb), sp.to(esp));
        proof {
            assert(Parser::mirrors(pre, *self, r, spec_conditional(tvv, i0)));
        }
        r
    }

    /// The bindings of a `let`: names and values, comma-separated.
    #[verifier::loop_isolation(false)]
    fn let_bindings(&mut self) -> (r: (Vec<(String, Span)>, Vec<Expr>))
        requires
            old(self).wf(),
        ensures
            old(self).advances(*final(self)),
            r.0@.len() == r.1@.len(),
            forall|i: int| 0 <= i < r.0@.len() ==> (#[trigger] r.0@[i]).1.wf(),
            spans_wf_list(exprs_view(r.1@)),
            names_view(r.0@) == spec_bindings(old(self).tv(), old(self).idx as int).0,
            exprs_view(r.1@) == spec_bindings(old(self).tv(), old(self).idx as int).1,
            final(self).idx as int == spec_bindings(old(self).tv(), old(self).idx as int).2,
            final(self).errors@.len() == old(self).errors@.len() + spec_bindings(
                old(self).tv(),
                old(self).idx as int,
            ).3,
        decreases old(self).tokens@.len() - old(self).idx, 0int,
    {
        let ghost s1 = *self;
        let ghost tvv = s1.tv();
        let ghost e_s1 = s1.errors@.len();
        proof {
            crate::token::lemma_tokens_view(self.tokens@);
        }
        let mut names: Vec<(String, Span)> = Vec::new();
        let mut vals: Vec<Expr> = Vec::new();
        let mut done = false;
        while !done
            invariant
                self.wf(),
                s1.wf(),
                s1.advances(*self),
                names@.len() == vals@.len(),
                forall|i: int| 0 <= i < names@.len() ==> (#[trigger] names@[i]).1.wf(),
                spans_wf_list(exprs_view(vals@)),
                !done ==> {
                    &&& spec_bindings(tvv, s1.idx as int).0 == names_view(names@)
                        + spec_bindings(tvv, self.idx as int).0
                    &&& spec_bindings(tvv, s1.idx as int).1 == exprs_view(vals@)
                        + spec_bindings(tvv, self.idx as int).1
                    &&& spec_bindings(tvv, s1.idx as int).2 == spec_bindings(
                        tvv,
                        self.idx as int,
                    ).2
                    &&& spec_bindings(tvv, s1.idx as int).3 == (self.errors@.len() - e_s1)
                        + spec_bindings(tvv, self.idx as int).3
                },
                done ==> {
                    &&& spec_bindings(tvv, s1.idx as int).0 == names_view(names@)
                    &&& spec_bindings(tvv, s1.idx as int).1 == exprs_view(vals@)
                    &&& spec_bindings(tvv, s1.idx as int).2 == self.idx as int
                    &&& spec_bindings(tvv, s1.idx as int).3 == self.errors@.len() - e_s1
                },
            decreases self.tokens@.len() - self.idx, (if done {
                0int
            } else {
                1int
            }),
        {
            proof {
                crate::token::lemma_token_view_ctor(self.cur());
                assert(tvv[self.idx as int] == token_view(self.cur()));
            }
            let name = match self.cur_id_lexeme() {
                Some(n) => Some(n),
                None => None,
            };
            match name {
                None => {
                    let here = self.cur_span();
                    self.error("expected a binding name", here);
                    proof {
                        assert(spec_bindings(tvv, s1.idx as int).0 =~= names_view(names@));
                        assert(spec_bindings(tvv, s1.idx as int).1 =~= exprs_view(vals@));
                    }
                    done = true;
                },
                Some(name) => {
                    let ghost b0 = *self;
                    let ghost nl = name@;
                    let ghost old_names = names@;
                    let ghost old_vals = vals@;
                    let nsp = self.cur_span();
                    self.bump();
                    proof {
                        crate::token::lemma_token_view_ctor(self.cur());
                        assert(tvv[self.idx as int] == token_view(self.cur()));
                    }
                    if let Some(OpKind::Equal) = self.cur_op() {
                        self.bump();
                    } else {
                        let here = self.cur_span();
                        self.error("expected '=' in binding", here);
                    }
                    let v = self.expression(0);
                    let ghost vv = v@;
                    names.push((name, nsp));
                    proof {
                        let vlist = exprs_view(old_vals);
                        assert(old_vals.push(v).drop_last() =~= old_vals);
                        assert(exprs_view(old_vals.push(v)) == vlist.push(expr_view(v)));
                        assert(vlist.push(expr_view(v)).drop_last() =~= vlist);
                        assert(vlist.push(expr_view(v)).last() == expr_view(v));
                        assert(spans_wf_list(exprs_view(old_vals.push(v))));
                        crate::token::lemma_token_view_ctor(self.cur());
                        assert(tvv[self.idx as int] == token_view(self.cur()));
                        assert(names@.drop_last() =~= old_names);
                        assert(names_view(names@) =~= names_view(old_names).push((nl, nsp)));
                    }
                    vals.push(v);
                    proof {
                        assert(vals@.drop_last() =~= old_vals);
                        assert(exprs_view(vals@) =~= exprs_view(old_vals).push(vv));
                    }
                    if let Some(OpKind::Comma) = self.cur_op() {
                        self.bump();
                        proof {
                            assert(spec_bindings(tvv, b0.idx as int).0 =~= seq![(nl, nsp)]
                                + spec_bindings(tvv, self.idx as int).0);
                            assert(spec_bindings(tvv, b0.idx as int).1 =~= seq![vv]
                                + spec_bindings(tvv, self.idx as int).1);
                            assert(names_view(old_names) + spec_bindings(
                                tvv,
                                b0.idx as int,
                            ).0 =~= names_view(names@) + spec_bindings(tvv, self.idx as int).0);
                            assert(exprs_view(old_vals) + spec_bindings(tvv, b0.idx as int).1
                                =~= exprs_view(vals@) + spec_bindings(tvv, self.idx as int).1);
                            assert(spec_bindings(tvv, s1.idx as int).0 == names_view(names@)
                                + spec_bindings(tvv, self.idx as int).0);
                            assert(spec_bindings(tvv, s1.idx as int).1 == exprs_view(vals@)
                                + spec_bindings(tvv, self.idx as int).1);
                        }
                    } else {
                        proof {
                            assert(spec_bindings(tvv, b0.idx as int).0 =~= seq![(nl, nsp)]);
                            assert(spec_bindings(tvv, b0.idx as int).1 =~= seq![vv]);
                            assert(names_view(old_names) + spec_bindings(
                                tvv,
                                b0.idx as int,
                            ).0 =~= names_view(names@));
                            assert(exprs_view(old_vals) + spec_bindings(tvv, b0.idx as int).1
                                =~= exprs_view(vals@));
                            assert(spec_bindings(tvv, s1.idx as int).0 == names_view(names@));
                            assert(spec_bindings(tvv, s1.idx as int).1 == exprs_view(vals@));
                        }
                        done = true;
                    }
                },
            }
        }
        (names, vals)
    }

    /// Parse `let name = value, … in body` and desugar each binding into an
    /// immediately applied single-parameter closure around the body.
    #[verifier::loop_isolation(false)]
    pub fn let_expr(&mut self) -> (r: Expr)
        requires
            old(self).wf(),
        ensures
            Parser::parsed(*old(self), *final(self), r),
            Parser::mirrors(
                *old(self),
                *final(self),
                r,
                spec_let(old(self).tv(), old(self).idx as int),
            ),
        decreases old(self).tokens@.len() - old(self).idx, 0int,
    {
        let ghost pre = *self;
        let ghost tvv = pre.tv();
        let ghost i0 = pre.idx as int;
        proof {
            crate::token::lemma_tokens_view(self.tokens@);
            crate::token::lemma_token_view_ctor(pre.cur());
            assert(tvv[i0] == token_view(pre.cur()));
        }
        let sp = self.cur_span();
        let is_let = match self.cur_keyword() {
            Some(KeyWord::Let) => true,
            _ => false,
        };
        if !is_let {
            self.bump();
            let zp = Span::new(sp.start, sp.start);
            self.error("expected 'let'", zp);
            return Expr::Error(zp);
        }
        self.bump();
        let ghost s1 = *self;
        proof {
            pre.lemma_mark_mono(s1);
        }
        let (names, vals) = self.let_bindings();
        proof {
            crate::token::lemma_token_view_ctor(self.cur());
            assert(tvv[self.idx as int] == token_view(self.cur()));
        }
        if let Some(KeyWord::In) = self.cur_keyword() {
            self.bump();
        } else {
            let here = self.cur_span();
            self.error("expected 'in'", here);
        }
        let ghost s2 = *self;
        let body = self.expression(0);
        proof {
            s1.lemma_mark_mono(s2);
        }
        let bsp = body.span();
        let whole = sp.to(bsp);
        proof {
            s2.lemma_mark_mono(*self);
        }
        if vals.len() == 0 {
            proof {
                assert(exprs_view(vals@) =~= Seq::<ExprV>::empty());
                assert(Parser::mirrors(pre, *self, body, spec_let(tvv, i0)));
            }
            return body;
        }
        // One application site binds every name of the `let` at once, so
        // the body sees all of them in its call frame.
        let chain = wrap_closures(names, body, whole);
        let r = Expr::App(Box::new(chain), vals, whole);
        proof {
            assert(spans_wf(r@));
            assert(Parser::mirrors(pre, *self, r, spec_let(tvv, i0)));
        }
        r
    }
}

/// Wrap a body in one single-parameter closure per name, outermost name
/// first, every node carrying the whole construct's span.
#[verifier::loop_isolation(false)]
pub fn wrap_closures(names: Vec<(String, Span)>, body: Expr, whole: Span) -> (r: Expr)
    requires
        whole.wf(),
        spans_wf(body@),
        forall|i: int| 0 <= i < names@.len() ==> (#[trigger] names@[i]).1.wf(),
    ensures
        r@ == spec_wrap_closures(names_view(names@), body@, whole),
        spans_wf(r@),
        names@.len() == 0 ==> r@ == body@,
        names@.len() > 0 ==> r@.span() == whole,
{
    let ghost names0 = names@;
    let ghost bodyv = body@;
    let mut names = names;
    proof {
        lemma_names_view(names0);
        assert(names_view(names0).skip(names0.len() as int) =~= Seq::<
            (Seq<char>, Span),
        >::empty());
        assert(spec_wrap_closures(
            names_view(names0).skip(names0.len() as int),
            bodyv,
            whole,
        ) == bodyv);
        assert(names0.take(names0.len() as int) =~= names0);
    }
    let mut acc = body;
    loop
        invariant
            spans_wf(acc@),
            forall|i: int| 0 <= i < names@.len() ==> (#[trigger] names@[i]).1.wf(),
            names@.len() <= names0.len(),
            names@ == names0.take(names@.len() as int),
            acc@ == spec_wrap_closures(
                names_view(names0).skip(names@.len() as int),
                bodyv,
                whole,
            ),
            names@.len() < names0.len() ==> acc@.span() == whole,
            names@.len() == names0.len() ==> acc@ == bodyv,
        decreases names@.len(),
    {
        proof {
            lemma_names_view(names0);
        }
        match names.pop() {
            Some((name, nsp)) => {
                let param = Expr::Atom(Atom::Id(name), nsp);
                proof {
                    assert(spans_wf(expr_view(param)));
                    let k = names@.len() as int;
                    assert(names0.take(k + 1).last() == names0[k]);
                    assert(names0.take(k + 1).drop_last() =~= names0.take(k));
                    assert(names_view(names0).skip(k)[0] == (names0[k].0@, names0[k].1));
                    assert(names_view(names0).skip(k).drop_first() =~= names_view(
                        names0,
                    ).skip(k + 1));
                }
                acc = Expr::Closure(Box::new(param), Box::new(acc), whole);
                proof {
                    assert(spans_wf(expr_view(acc)));
                    assert(acc@ == spec_wrap_closures(
                        names_view(names0).skip(names@.len() as int),
                        bodyv,
                        whole,
                    ));
                }
            },
            None => {
                break;
            },
        }
    }
    proof {
        assert(names_view(names0).skip(0) =~= names_view(names0));
    }
    acc
}

/// The declared type a type name denotes; unknown names are custom types.
pub open spec fn spec_type_info_of(s: Seq<char>) -> crate::ast::TypeInfoV {
    if s == "Int"@ {
        crate::ast::TypeInfoV::Int
    } else if s == "Float"@ {
        crate::ast::TypeInfoV::Float
    } else if s == "Bool"@ {
        crate::ast::TypeInfoV::Bool
    } else if s == "String"@ {
        crate::ast::TypeInfoV::Str
    } else if s == "Char"@ {
        crate::ast::TypeInfoV::Char
    } else {
        crate::ast::TypeInfoV::Custom(s)
    }
}

/// Executable form of the type-name table.
pub fn type_info_of(s: String) -> (r: TypeInfo)
    ensures
        r@ == spec_type_info_of(s@),
{
    if s == String::from_str("Int") {
        TypeInfo::Int
    } else if s == String::from_str("Float") {
        TypeInfo::Float
    } else if s == String::from_str("Bool") {
        TypeInfo::Bool
    } else if s == String::from_str("String") {
        TypeInfo::Str
    } else if s == String::from_str("Char") {
        TypeInfo::Char
    } else {
        TypeInfo::Custom(s)
    }
}


/// The end of a parse step: the tree built, the index of the next
/// unconsumed token, and how many diagnostics the step recorded.
pub open spec fn spec_bump(tv: Seq<TokenV>, i: int) -> int {
    if tv[i] is Eof {
        i
    } else {
        i + 1
    }
}

/// Whether an integer lexeme denotes a machine integer: digits and
/// underscores only, value in range.
pub open spec fn int_lexeme_ok(l: Seq<char>) -> bool {
    &&& forall|k: int|
        0 <= k < l.len() ==> crate::scanner::is_digit(#[trigger] l[k]) || l[k] == '_'
    &&& spec_digits_val(l) <= i64::MAX
}

/// The tree a prefix term parse yields from the tokens at `i`, with the
/// next index and the number of diagnostics recorded. This and the
/// functions below are the parser: each executable method is proved to
/// return exactly what its specification function says.
pub open spec fn spec_prefix(tv: Seq<TokenV>, i: int) -> (ExprV, int, int)
    decreases tv.len() - i, 1int, 0int,
    when 0 <= i <= tv.len()
{
    match tv[i] {
        TokenV::Eof(sp) => {
            let zp = Span { start: sp.start, end: sp.start };
            (ExprV::Error(zp), i, 1)
        },
        TokenV::Int(l, sp) => {
            if int_lexeme_ok(l) {
                (ExprV::Atom(AtomV::Int(spec_digits_val(l) as i64), sp), i + 1, 0)
            } else {
                (ExprV::Error(sp), i + 1, 1)
            }
        },
        TokenV::Float(l, sp) => (ExprV::Atom(AtomV::Float(l), sp), i + 1, 0),
        TokenV::Id(l, sp) => (ExprV::Atom(AtomV::Id(l), sp), i + 1, 0),
        TokenV::Str(l, sp) => (ExprV::Atom(AtomV::Str(l), sp), i + 1, 0),
        TokenV::Char(l, sp) => (ExprV::Atom(AtomV::Char(l), sp), i + 1, 0),
        TokenV::KeyWord(k, sp) => {
            if k == KeyWord::True {
                (ExprV::Atom(AtomV::Bool(true), sp), i + 1, 0)
            } else if k == KeyWord::False {
                (ExprV::Atom(AtomV::Bool(false), sp), i + 1, 0)
            } else if k == KeyWord::If {
                spec_conditional(tv, i)
            } else if k == KeyWord::Let {
                spec_let(tv, i)
            } else {
                (ExprV::Error(sp), i + 1, 1)
            }
        },
        TokenV::Op(k, sp) => {
            if k == OpKind::Minus {
                if i + 1 <= tv.len() {
                    let (o, i1, e1) = spec_prefix(tv, i + 1);
                    (
                        ExprV::Unary(
                            Op::Minus,
                            Box::new(o),
                            Span { start: sp.start, end: o.span().end },
                        ),
                        i1,
                        e1,
                    )
                } else {
                    (ExprV::Error(sp), i + 1, 1)
                }
            } else if k == OpKind::Bang {
                if i + 1 <= tv.len() {
                    let (o, i1, e1) = spec_prefix(tv, i + 1);
                    (
                        ExprV::Unary(
                            Op::Not,
                            Box::new(o),
                            Span { start: sp.start, end: o.span().end },
                        ),
                        i1,
                        e1,
                    )
                } else {
                    (ExprV::Error(sp), i + 1, 1)
                }
            } else if k == OpKind::Lambda {
                spec_lambda(tv, i, sp)
            } else if k == OpKind::LParen {
                spec_paren(tv, i, sp)
            } else if k == OpKind::LBracket {
                spec_array(tv, i, sp)
            } else {
                (ExprV::Error(sp), i + 1, 1)
            }
        },
        TokenV::Error(_, sp) => (ExprV::Error(sp), i + 1, 1),
    }
}

/// A lambda at `i`: the glyph, a parameter name, an arrow, and a body
/// that extends as far as an expression can.
pub open spec fn spec_lambda(tv: Seq<TokenV>, i: int, sp: Span) -> (ExprV, int, int)
    decreases tv.len() - i, 0int, 0int,
    when 0 <= i <= tv.len()
{
    match tv[i + 1] {
        TokenV::Id(l, psp) => {
            let param = ExprV::Atom(AtomV::Id(l), psp);
            let (bi, e0) = if tv[i + 2] matches TokenV::Op(OpKind::Arrow, _) {
                (i + 3, 0int)
            } else {
                (i + 2, 1int)
            };
            if bi <= tv.len() {
                let (body, i2, e1) = spec_expression(tv, bi, 0);
                (
                    ExprV::Closure(
                        Box::new(param),
                        Box::new(body),
                        Span { start: sp.start, end: body.span().end },
                    ),
                    i2,
                    e0 + e1,
                )
            } else {
                (ExprV::Error(sp), i + 2, e0)
            }
        },
        _ => (ExprV::Error(sp), i + 1, 1),
    }
}

/// A parenthesized group at `i`: a lone binary operator becomes a
/// first-class name; otherwise the group is transparent and adds no node.
pub open spec fn spec_paren(tv: Seq<TokenV>, i: int, sp: Span) -> (ExprV, int, int)
    decreases tv.len() - i, 0int, 0int,
    when 0 <= i <= tv.len()
{
    if i + 2 < tv.len() && (tv[i + 1] matches TokenV::Op(k2, _)) && spec_binary_op(
        tv[i + 1]->Op_0,
    ) is Some && (tv[i + 2] matches TokenV::Op(OpKind::RParen, _)) {
        match spec_binary_op(tv[i + 1]->Op_0) {
            Some((op, _, _)) => {
                let name = "("@ + crate::display::spec_op_str(op) + ")"@;
                (
                    ExprV::Atom(
                        AtomV::Id(name),
                        Span { start: sp.start, end: tv[i + 2].span().end },
                    ),
                    i + 3,
                    0,
                )
            },
            None => (ExprV::Error(sp), i + 1, 1),
        }
    } else {
        if i + 1 <= tv.len() {
            let (e, i1, e1) = spec_expression(tv, i + 1, 0);
            if tv[i1] matches TokenV::Op(OpKind::RParen, _) {
                (e, i1 + 1, e1)
            } else {
                (e, i1, e1 + 1)
            }
        } else {
            (ExprV::Error(sp), i + 1, 1)
        }
    }
}

/// An array literal at `i`: the elements and the closing span.
pub open spec fn spec_array(tv: Seq<TokenV>, i: int, sp: Span) -> (ExprV, int, int)
    decreases tv.len() - i, 0int, 0int,
    when 0 <= i <= tv.len()
{
    if tv[i + 1] matches TokenV::Op(OpKind::RBracket, _) {
        (
            ExprV::Array(
                Seq::empty(),
                Span { start: sp.start, end: tv[i + 1].span().end },
            ),
            i + 2,
            0,
        )
    } else {
        if i + 1 <= tv.len() {
            let (items, close, i1, e1) = spec_array_items(tv, i + 1, sp);
            (
                ExprV::Array(items, Span { start: sp.start, end: close.end }),
                i1,
                e1,
            )
        } else {
            (ExprV::Error(sp), i + 1, 1)
        }
    }
}

/// Comma-separated array elements, then the closing bracket or a
/// diagnostic for an unterminated literal.
pub open spec fn spec_array_items(tv: Seq<TokenV>, i: int, open_sp: Span) -> (
    Seq<ExprV>,
    Span,
    int,
    int,
)
    decreases tv.len() - i, 5int, 0int,
    when 0 <= i <= tv.len()
{
    let (e, i1, e1) = spec_expression(tv, i, 0);
    if tv[i1] matches TokenV::Op(OpKind::Comma, _) {
        if i < i1 + 1 <= tv.len() {
            let (rest, close, i2, e2) = spec_array_items(tv, i1 + 1, open_sp);
            (seq![e] + rest, close, i2, e1 + e2)
        } else {
            (seq![e], open_sp, i1, e1)
        }
    } else if tv[i1] matches TokenV::Op(OpKind::RBracket, _) {
        (seq![e], tv[i1].span(), i1 + 1, e1)
    } else {
        let here = tv[i1].span();
        (seq![e], Span { start: here.start, end: here.start }, i1, e1 + 1)
    }
}

/// The juxtaposed arguments after a callee: prefix terms, as long as the
/// next token can start one.
pub open spec fn spec_args(tv: Seq<TokenV>, i: int) -> (Seq<ExprV>, int, int)
    decreases tv.len() - i, 2int, 0int,
    when 0 <= i <= tv.len()
{
    if spec_term_start(tv[i]) {
        let (a, i1, e1) = spec_prefix(tv, i);
        if i < i1 <= tv.len() {
            let (rest, i2, e2) = spec_args(tv, i1);
            (seq![a] + rest, i2, e1 + e2)
        } else {
            (seq![a], i1, e1)
        }
    } else {
        (Seq::empty(), i, 0)
    }
}

/// A term: one prefix term, every directly adjacent term collected into a
/// single application's argument list.
pub open spec fn spec_term(tv: Seq<TokenV>, i: int) -> (ExprV, int, int)
    decreases tv.len() - i, 3int, 0int,
    when 0 <= i <= tv.len()
{
    let (left, i1, e1) = spec_prefix(tv, i);
    if i <= i1 <= tv.len() {
        let (args, i2, e2) = spec_args(tv, i1);
        if args.len() > 0 {
            (
                ExprV::App(
                    Box::new(left),
                    args,
                    Span { start: left.span().start, end: args.last().span().end },
                ),
                i2,
                e1 + e2,
            )
        } else {
            (left, i1, e1)
        }
    } else {
        (left, i1, e1)
    }
}

/// Precedence climbing from `min_prec`: a term, then every binary
/// operator of precedence at least `min_prec` folded in, the right
/// operand parsed with a higher bound for left-associative operators.
pub open spec fn spec_expression(tv: Seq<TokenV>, i: int, min_prec: u8) -> (ExprV, int, int)
    decreases tv.len() - i, 4int, 0int,
    when 0 <= i <= tv.len()
{
    let (left, i1, e1) = spec_term(tv, i);
    if i < i1 <= tv.len() {
        let (r, i2, e2) = spec_binops(tv, i1, left, min_prec);
        (r, i2, e1 + e2)
    } else {
        (left, i1, e1)
    }
}

/// The operator-folding loop of precedence climbing, `left` the tree
/// built so far.
pub open spec fn spec_binops(tv: Seq<TokenV>, i: int, left: ExprV, min_prec: u8) -> (
    ExprV,
    int,
    int,
)
    decreases tv.len() - i, 5int, 0int,
    when 0 <= i <= tv.len()
{
    if tv[i] matches TokenV::Op(k, _) && spec_binary_op(tv[i]->Op_0) is Some {
        match spec_binary_op(tv[i]->Op_0) {
            Some((op, prec, right_assoc)) => {
                if prec < min_prec {
                    (left, i, 0)
                } else if i + 1 <= tv.len() {
                    let next_min = if right_assoc {
                        prec
                    } else {
                        (prec + 1) as u8
                    };
                    let (rhs, i1, e1) = spec_expression(tv, i + 1, next_min);
                    let folded = ExprV::Binary(
                        op,
                        Box::new(left),
                        Box::new(rhs),
                        Span { start: left.span().start, end: rhs.span().end },
                    );
                    if i < i1 <= tv.len() {
                        let (r, i2, e2) = spec_binops(tv, i1, folded, min_prec);
                        (r, i2, e1 + e2)
                    } else {
                        (folded, i1, e1)
                    }
                } else {
                    (left, i, 0)
                }
            },
            None => (left, i, 0),
        }
    } else {
        (left, i, 0)
    }
}

/// A conditional at `i`: `if`, condition, `then`, consequence, `else`,
/// alternative; a missing keyword is one diagnostic each.
pub open spec fn spec_conditional(tv: Seq<TokenV>, i: int) -> (ExprV, int, int)
    decreases tv.len() - i, 0int, 0int,
    when 0 <= i <= tv.len()
{
    let sp = tv[i].span();
    if !(tv[i] matches TokenV::KeyWord(KeyWord::If, _)) {
        let zp = Span { start: sp.start, end: sp.start };
        (ExprV::Error(zp), spec_bump(tv, i), 1)
    } else if i + 1 <= tv.len() {
        let (cond, i1, e1) = spec_expression(tv, i + 1, 0);
        let (i2, e2) = if tv[i1] matches TokenV::KeyWord(KeyWord::Then, _) {
            (i1 + 1, 0int)
        } else {
            (i1, 1int)
        };
        if i < i2 <= tv.len() {
            let (thenb, i3, e3) = spec_expression(tv, i2, 0);
            let (i4, e4) = if tv[i3] matches TokenV::KeyWord(KeyWord::Else, _) {
                (i3 + 1, 0int)
            } else {
                (i3, 1int)
            };
            if i < i4 <= tv.len() {
                let (elseb, i5, e5) = spec_expression(tv, i4, 0);
                (
                    ExprV::IfElse(
                        Box::new(cond),
                        Box::new(thenb),
                        Box::new(elseb),
                        Span { start: sp.start, end: elseb.span().end },
                    ),
                    i5,
                    e1 + e2 + e3 + e4 + e5,
                )
            } else {
                (ExprV::Error(sp), i4, e1 + e2 + e3 + e4)
            }
        } else {
            (ExprV::Error(sp), i2, e1 + e2)
        }
    } else {
        (ExprV::Error(sp), i + 1, 0)
    }
}

/// The bindings of a `let`: names, values, and the commas between them.
pub open spec fn spec_bindings(tv: Seq<TokenV>, i: int) -> (
    Seq<(Seq<char>, Span)>,
    Seq<ExprV>,
    int,
    int,
)
    decreases tv.len() - i, 0int, 0int,
    when 0 <= i <= tv.len()
{
    match tv[i] {
        TokenV::Id(l, nsp) => {
            let (vi, e0) = if tv[i + 1] matches TokenV::Op(OpKind::Equal, _) {
                (i + 2, 0int)
            } else {
                (i + 1, 1int)
            };
            if vi <= tv.len() {
                let (v, i1, e1) = spec_expression(tv, vi, 0);
                if tv[i1] matches TokenV::Op(OpKind::Comma, _) {
                    if i < i1 + 1 <= tv.len() {
                        let (ns, vs, i2, e2) = spec_bindings(tv, i1 + 1);
                        (seq![(l, nsp)] + ns, seq![v] + vs, i2, e0 + e1 + e2)
                    } else {
                        (seq![(l, nsp)], seq![v], i1 + 1, e0 + e1)
                    }
                } else {
                    (seq![(l, nsp)], seq![v], i1, e0 + e1)
                }
            } else {
                (Seq::empty(), Seq::empty(), i + 1, e0)
            }
        },
        _ => (Seq::empty(), Seq::empty(), i, 1),
    }
}

/// The closure chain a `let`'s names wrap around its body, outermost name
/// first.
pub open spec fn spec_wrap_closures(
    names: Seq<(Seq<char>, Span)>,
    body: ExprV,
    whole: Span,
) -> ExprV
    decreases names,
{
    if names.len() == 0 {
        body
    } else {
        ExprV::Closure(
            Box::new(ExprV::Atom(AtomV::Id(names[0].0), names[0].1)),
            Box::new(spec_wrap_closures(names.drop_first(), body, whole)),
            whole,
        )
    }
}

/// A `let` at `i`: bindings, `in`, a body; desugared to one application
/// binding every name at a single site.
pub open spec fn spec_let(tv: Seq<TokenV>, i: int) -> (ExprV, int, int)
    decreases tv.len() - i, 0int, 1int,
    when 0 <= i <= tv.len()
{
    let sp = tv[i].span();
    if !(tv[i] matches TokenV::KeyWord(KeyWord::Let, _)) {
        let zp = Span { start: sp.start, end: sp.start };
        (ExprV::Error(zp), spec_bump(tv, i), 1)
    } else if i + 1 <= tv.len() {
        let (names, vals, i1, e1) = spec_bindings(tv, i + 1);
        let (i2, e2) = if tv[i1] matches TokenV::KeyWord(KeyWord::In, _) {
            (i1 + 1, 0int)
        } else {
            (i1, 1int)
        };
        if i < i2 <= tv.len() {
            let (body, i3, e3) = spec_expression(tv, i2, 0);
            if vals.len() == 0 {
                (body, i3, e1 + e2 + e3)
            } else {
                let whole = Span { start: sp.start, end: body.span().end };
                (
                    ExprV::App(
                        Box::new(spec_wrap_closures(names, body, whole)),
                        vals,
                        whole,
                    ),
                    i3,
                    e1 + e2 + e3,
                )
            }
        } else {
            (ExprV::Error(sp), i2, e1 + e2)
        }
    } else {
        (ExprV::Error(sp), i + 1, 0)
    }
}

/// The leading parameter names of a definition.
pub open spec fn spec_def_params(tv: Seq<TokenV>, i: int) -> (Seq<(Seq<char>, Span)>, int)
    decreases tv.len() - i, 1int, 0int,
    when 0 <= i <= tv.len()
{
    match tv[i] {
        TokenV::Id(l, psp) => {
            if i + 1 <= tv.len() {
                let (rest, i1) = spec_def_params(tv, i + 1);
                (seq![(l, psp)] + rest, i1)
            } else {
                (seq![(l, psp)], i + 1)
            }
        },
        _ => (Seq::empty(), i),
    }
}

/// A definition after its name: parameters, `=`, a body, `;`; parameters
/// desugar right to left into nested single-parameter closures.
pub open spec fn spec_function(
    tv: Seq<TokenV>,
    i: int,
    name: Seq<char>,
    start: Span,
    types: Seq<crate::ast::TypeInfoV>,
) -> (ExprV, int, int)
    decreases tv.len() - i, 6int, 0int,
    when 0 <= i <= tv.len()
{
    let (params, i1) = spec_def_params(tv, i);
    let (i2, e2) = if tv[i1] matches TokenV::Op(OpKind::Equal, _) {
        (i1 + 1, 0int)
    } else {
        (i1, 1int)
    };
    if i <= i2 <= tv.len() {
        let (body, i3, e3) = spec_expression(tv, i2, 0);
        let (i4, e4) = if tv[i3] matches TokenV::Op(OpKind::Semicolon, _) {
            (i3 + 1, 0int)
        } else {
            (i3, 1int)
        };
        let whole = Span { start: start.start, end: body.span().end };
        (
            ExprV::Func(name, types, Box::new(spec_wrap_closures(params, body, whole)), whole),
            i4,
            e2 + e3 + e4,
        )
    } else {
        (ExprV::Func(name, types, Box::new(ExprV::Error(start)), start), i2, e2)
    }
}

/// The field-type names of one enum variant.
pub open spec fn spec_variant_fields(tv: Seq<TokenV>, i: int) -> (Seq<Seq<char>>, int)
    decreases tv.len() - i, 0int, 0int,
    when 0 <= i <= tv.len()
{
    match tv[i] {
        TokenV::Id(l, _) => {
            if i + 1 <= tv.len() {
                let (rest, i1) = spec_variant_fields(tv, i + 1);
                (seq![l] + rest, i1)
            } else {
                (seq![l], i + 1)
            }
        },
        _ => (Seq::empty(), i),
    }
}

/// The bar-separated variants of an enum declaration.
pub open spec fn spec_variants(tv: Seq<TokenV>, i: int) -> (
    Seq<(Seq<char>, Seq<Seq<char>>)>,
    int,
    int,
)
    decreases tv.len() - i, 1int, 0int,
    when 0 <= i <= tv.len()
{
    match tv[i] {
        TokenV::Id(l, _) => {
            if i + 1 <= tv.len() {
                let (fields, i1) = spec_variant_fields(tv, i + 1);
                if tv[i1] matches TokenV::Op(OpKind::Bar, _) {
                    if i < i1 + 1 <= tv.len() {
                        let (rest, i2, e2) = spec_variants(tv, i1 + 1);
                        (seq![(l, fields)] + rest, i2, e2)
                    } else {
                        (seq![(l, fields)], i1 + 1, 0)
                    }
                } else {
                    (seq![(l, fields)], i1, 0)
                }
            } else {
                (seq![(l, Seq::empty())], i + 1, 0)
            }
        },
        _ => (Seq::empty(), i, 1),
    }
}

/// An enum declaration at `i`: the keyword, the name, `=`, the variants,
/// `;`.
pub open spec fn spec_enum(tv: Seq<TokenV>, i: int) -> (ExprV, int, int)
    decreases tv.len() - i, 2int, 0int,
    when 0 <= i <= tv.len()
{
    let sp = tv[i].span();
    if !(tv[i] matches TokenV::KeyWord(KeyWord::Enum, _)) {
        let zp = Span { start: sp.start, end: sp.start };
        (ExprV::Error(zp), spec_bump(tv, i), 1)
    } else {
        match tv[i + 1] {
            TokenV::Id(l, _) => {
                let (vi, e0) = if tv[i + 2] matches TokenV::Op(OpKind::Equal, _) {
                    (i + 3, 0int)
                } else {
                    (i + 2, 1int)
                };
                if vi <= tv.len() {
                    let (variants, i1, e1) = spec_variants(tv, vi);
                    let (end_sp, i2, e2) = if tv[i1] matches TokenV::Op(
                        OpKind::Semicolon,
                        _,
                    ) {
                        (tv[i1].span(), i1 + 1, 0int)
                    } else {
                        (
                            Span { start: tv[i1].span().start, end: tv[i1].span().start },
                            i1,
                            1int,
                        )
                    };
                    (
                        ExprV::Enum(l, variants, Span { start: sp.start, end: end_sp.end }),
                        i2,
                        e0 + e1 + e2,
                    )
                } else {
                    (ExprV::Error(sp), i + 2, e0)
                }
            },
            _ => {
                let here = tv[i + 1].span();
                let zp = Span { start: here.start, end: here.start };
                (ExprV::Error(zp), i + 1, 1)
            },
        }
    }
}

/// The arrow-separated type names of a type declaration.
pub open spec fn spec_type_list(tv: Seq<TokenV>, i: int) -> (
    Seq<crate::ast::TypeInfoV>,
    int,
    int,
)
    decreases tv.len() - i, 1int, 0int,
    when 0 <= i <= tv.len()
{
    match tv[i] {
        TokenV::Id(l, _) => {
            if tv[i + 1] matches TokenV::Op(OpKind::Arrow, _) {
                if i + 2 <= tv.len() {
                    let (rest, i1, e1) = spec_type_list(tv, i + 2);
                    (seq![spec_type_info_of(l)] + rest, i1, e1)
                } else {
                    (seq![spec_type_info_of(l)], i + 2, 0)
                }
            } else {
                (seq![spec_type_info_of(l)], i + 1, 0)
            }
        },
        _ => (Seq::empty(), i, 1),
    }
}

/// A type declaration after `name ::`: the ordered type list and the
/// closing `;`.
pub open spec fn spec_type_dec(
    tv: Seq<TokenV>,
    i: int,
    name: Seq<char>,
    nsp: Span,
) -> (ExprV, int, int)
    decreases tv.len() - i, 2int, 0int,
    when 0 <= i <= tv.len()
{
    let (types, i1, e1) = spec_type_list(tv, i);
    if i <= i1 <= tv.len() {
        let (end_sp, i2, e2) = if tv[i1] matches TokenV::Op(OpKind::Semicolon, _) {
            (tv[i1].span(), i1 + 1, 0int)
        } else {
            (Span { start: tv[i1].span().start, end: tv[i1].span().start }, i1, 1int)
        };
        (
            ExprV::TypeDec(name, types, Span { start: nsp.start, end: end_sp.end }),
            i2,
            e1 + e2,
        )
    } else {
        (ExprV::TypeDec(name, types, nsp), i1, e1)
    }
}

/// The declared types recorded so far for a name, first recording wins;
/// empty when none was recorded.
pub open spec fn spec_find_types(
    tdecs: Seq<(Seq<char>, Seq<crate::ast::TypeInfoV>)>,
    name: Seq<char>,
) -> Seq<crate::ast::TypeInfoV>
    decreases tdecs,
{
    if tdecs.len() == 0 {
        Seq::empty()
    } else if tdecs[0].0 == name {
        tdecs[0].1
    } else {
        spec_find_types(tdecs.drop_first(), name)
    }
}

/// The index just past the next statement terminator, where parsing
/// resynchronizes after a malformed declaration.
pub open spec fn spec_resync(tv: Seq<TokenV>, i: int) -> int
    decreases tv.len() - i, 0int, 0int,
    when 0 <= i <= tv.len()
{
    if i >= tv.len() || tv[i] is Eof {
        i
    } else if tv[i] matches TokenV::Op(OpKind::Semicolon, _) {
        i + 1
    } else {
        spec_resync(tv, i + 1)
    }
}

/// The top-level pass from `i`: the ordered declarations and the total
/// diagnostic count, threading the type declarations seen so far into the
/// definitions that follow them.
pub open spec fn spec_decls(
    tv: Seq<TokenV>,
    i: int,
    tdecs: Seq<(Seq<char>, Seq<crate::ast::TypeInfoV>)>,
) -> (Seq<ExprV>, int)
    decreases tv.len() - i, 7int, 0int,
    when 0 <= i <= tv.len()
{
    if i >= tv.len() || tv[i] is Eof {
        (Seq::empty(), 0)
    } else {
        match tv[i] {
            TokenV::KeyWord(KeyWord::Enum, _) => {
                let (d, i1, e1) = spec_enum(tv, i);
                if i < i1 <= tv.len() {
                    let (rest, e2) = spec_decls(tv, i1, tdecs);
                    (seq![d] + rest, e1 + e2)
                } else {
                    (seq![d], e1)
                }
            },
            TokenV::Id(l, nsp) => {
                if tv[i + 1] matches TokenV::Op(OpKind::ColonColon, _) {
                    if i + 2 <= tv.len() {
                        let (td, i1, e1) = spec_type_dec(tv, i + 2, l, nsp);
                        let tdecs2 = tdecs.push((td->TypeDec_0, td->TypeDec_1));
                        if i < i1 <= tv.len() {
                            let (rest, e2) = spec_decls(tv, i1, tdecs2);
                            (seq![td] + rest, e1 + e2)
                        } else {
                            (seq![td], e1)
                        }
                    } else {
                        (Seq::empty(), 0)
                    }
                } else {
                    if i + 1 <= tv.len() {
                        let types = spec_find_types(tdecs, l);
                        let (f, i1, e1) = spec_function(tv, i + 1, l, nsp, types);
                        if i < i1 <= tv.len() {
                            let (rest, e2) = spec_decls(tv, i1, tdecs);
                            (seq![f] + rest, e1 + e2)
                        } else {
                            (seq![f], e1)
                        }
                    } else {
                        (Seq::empty(), 0)
                    }
                }
            },
            _ => {
                let sp = tv[i].span();
                let r = spec_resync(tv, spec_bump(tv, i));
                if i < r <= tv.len() {
                    let (rest, e2) = spec_decls(tv, r, tdecs);
                    (seq![ExprV::Error(sp)] + rest, 1 + e2)
                } else {
                    (seq![ExprV::Error(sp)], 1)
                }
            },
        }
    }
}

/// What parsing a token sequence means: the declarations of the whole
/// pass, and how many diagnostics it records. The pass succeeds exactly
/// when that count is zero.
pub open spec fn spec_parse(tv: Seq<TokenV>) -> (Seq<ExprV>, int) {
    spec_decls(tv, 0, Seq::empty())
}

impl Parser {
    /// Parse `param… = body ;` and desugar the parameters right-to-left
    /// into nested single-parameter closures wrapped in one named
    /// definition with the given declared-type list.
    #[verifier::loop_isolation(false)]
    fn function_with(&mut self, name: String, start: Span, types: Vec<TypeInfo>) -> (r: Expr)
        requires
            old(self).wf(),
            start.wf(),
            start.end <= old(self).mark(),
        ensures
            old(self).advances(*final(self)),
            spans_wf(r@),
            start.start <= r@.span().start,
            r@.span().end <= final(self).mark(),
            r@ matches ExprV::Func(n, t, _, _) && n == name@ && t == crate::java::types_view(
                types@,
            ),
            Parser::mirrors(
                *old(self),
                *final(self),
                r,
                spec_function(
                    old(self).tv(),
                    old(self).idx as int,
                    name@,
                    start,
                    crate::java::types_view(types@),
                ),
            ),
        decreases old(self).tokens@.len() - old(self).idx, 6int,
    {
        let ghost pre = *self;
        let ghost tvv = pre.tv();
        let ghost i0 = pre.idx as int;
        proof {
            crate::token::lemma_tokens_view(self.tokens@);
        }
        let mut params: Vec<(String, Span)> = Vec::new();
        let mut done = false;
        while !done
            invariant
                self.wf(),
                pre.advances(*self),
                self.errors == pre.errors,
                forall|i: int| 0 <= i < params@.len() ==> (#[trigger] params@[i]).1.wf(),
                !done ==> {
                    &&& spec_def_params(tvv, i0).0 == names_view(params@) + spec_def_params(
                        tvv,
                        self.idx as int,
                    ).0
                    &&& spec_def_params(tvv, i0).1 == spec_def_params(tvv, self.idx as int).1
                },
                done ==> {
                    &&& spec_def_params(tvv, i0).0 == names_view(params@)
                    &&& spec_def_params(tvv, i0).1 == self.idx as int
                },
            decreases self.tokens@.len() - self.idx, (if done {
                0int
            } else {
                1int
            }),
        {
            proof {
                crate::token::lemma_token_view_ctor(self.cur());
                assert(tvv[self.idx as int] == token_view(self.cur()));
            }
            let p = match self.cur_id_lexeme() {
                Some(p) => Some(p),
                None => None,
            };
            match p {
                None => {
                    proof {
                        assert(spec_def_params(tvv, i0).0 =~= names_view(params@));
                    }
                    done = true;
                },
                Some(p) => {
                    let ghost b0 = *self;
                    let ghost pl = p@;
                    let ghost old_params = params@;
                    let psp = self.cur_span();
                    self.bump();
                    params.push((p, psp));
                    proof {
                        assert(params@.drop_last() =~= old_params);
                        assert(names_view(params@) =~= names_view(old_params).push((pl, psp)));
                        assert(spec_def_params(tvv, b0.idx as int).0 =~= seq![(pl, psp)]
                            + spec_def_params(tvv, self.idx as int).0);
                        assert(names_view(old_params) + spec_def_params(tvv, b0.idx as int).0
                            =~= names_view(params@) + spec_def_params(tvv, self.idx as int).0);
                        assert(spec_def_params(tvv, i0).0 == names_view(params@)
                            + spec_def_params(tvv, self.idx as int).0);
                    }
                },
            }
        }
        proof {
            crate::token::lemma_token_view_ctor(self.cur());
            assert(tvv[self.idx as int] == token_view(self.cur()));
        }
        if let Some(OpKind::Equal) = self.cur_op() {
            self.bump();
        } else {
            let here = self.cur_span();
            self.error("expected '=' in definition", here);
        }
        let ghost s1 = *self;
        let body = self.expression(0);
        proof {
            crate::token::lemma_token_view_ctor(self.cur());
            assert(tvv[self.idx as int] == token_view(self.cur()));
        }
        if let Some(OpKind::Semicolon) = self.cur_op() {
            let ghost b = *self;
            self.bump();
            proof {
                b.lemma_mark_mono(*self);
            }
        } else {
            let here = self.cur_span();
            self.error("expected ';' after definition", here);
        }
        let bsp = body.span();
        let whole = Span::new(start.start, bsp.end);
        proof {
            pre.lemma_mark_mono(s1);
        }
        let ghost pv = names_view(params@);
        let ghost bodyv = body@;
        let chain = wrap_closures(params, body, whole);
        let r = Expr::Func(name, types, Box::new(chain), whole);
        proof {
            assert(spans_wf(r@));
            let se = spec_function(tvv, i0, r@->Func_0, start, crate::java::types_view(types@));
            assert(spec_def_params(tvv, i0).0 == pv);
            assert(chain@ == spec_wrap_closures(pv, bodyv, whole));
            assert(se.0 == r@);
            assert(se.1 == self.idx as int);
            assert(se.2 == self.errors@.len() - pre.errors@.len());
        }
        r
    }

    /// Parse a function definition whose name the caller supplies: the
    /// parameters, `=`, the body and the closing `;`.
    pub fn function(&mut self, name: &str) -> (r: Expr)
        requires
            old(self).wf(),
        ensures
            old(self).advances(*final(self)),
            spans_wf(r@),
            r@.span().end <= final(self).mark(),
            Parser::mirrors(
                *old(self),
                *final(self),
                r,
                spec_function(
                    old(self).tv(),
                    old(self).idx as int,
                    name@,
                    Span {
                        start: old(self).cur().spec_span().start,
                        end: old(self).cur().spec_span().start,
                    },
                    Seq::empty(),
                ),
            ),
        decreases old(self).tokens@.len() - old(self).idx, 7int,
    {
        let sp = self.cur_span();
        let start = Span::new(sp.start, sp.start);
        let empty_types: Vec<TypeInfo> = Vec::new();
        proof {
            assert(crate::java::types_view(empty_types@) =~= Seq::<
                crate::ast::TypeInfoV,
            >::empty());
        }
        self.function_with(String::from_str(name), start, empty_types)
    }

    /// Parse `enum Name = Variant T… | … ;` into the ordered variant list.
    #[verifier::loop_isolation(false)]
    pub fn enum_def(&mut self) -> (r: Expr)
        requires
            old(self).wf(),
        ensures
            Parser::parsed(*old(self), *final(self), r),
            r@ matches ExprV::Enum(_, _, _) || r@ matches ExprV::Error(_),
            Parser::mirrors(
                *old(self),
                *final(self),
                r,
                spec_enum(old(self).tv(), old(self).idx as int),
            ),
        decreases old(self).tokens@.len() - old(self).idx, 5int,
    {
        let ghost pre = *self;
        let ghost tvv = pre.tv();
        let ghost i0 = pre.idx as int;
        proof {
            crate::token::lemma_tokens_view(self.tokens@);
            crate::token::lemma_token_view_ctor(pre.cur());
            assert(tvv[i0] == token_view(pre.cur()));
        }
        let sp = self.cur_span();
        let is_enum = match self.cur_keyword() {
            Some(KeyWord::Enum) => true,
            _ => false,
        };
        if !is_enum {
            self.bump();
            let zp = Span::new(sp.start, sp.start);
            self.error("expected 'enum'", zp);
            return Expr::Error(zp);
        }
        self.bump();
        proof {
            pre.lemma_mark_mono(*self);
            crate::token::lemma_token_view_ctor(self.cur());
            assert(tvv[i0 + 1] == token_view(self.cur()));
        }
        let name = match self.cur_id_lexeme() {
            Some(n) => n,
            None => {
                let here = self.cur_span();
                let zp = Span::new(here.start, here.start);
                self.error("expected an enum name", zp);
                return Expr::Error(zp);
            },
        };
        self.bump();
        proof {
            crate::token::lemma_token_view_ctor(self.cur());
            assert(tvv[i0 + 2] == token_view(self.cur()));
        }
        if let Some(OpKind::Equal) = self.cur_op() {
            self.bump();
        } else {
            let here = self.cur_span();
            self.error("expected '=' in enum declaration", here);
        }
        let ghost vs0 = *self;
        let mut variants: Vec<(String, Vec<String>)> = Vec::new();
        let mut done = false;
        let ghost e_vs0 = vs0.errors@.len();
        while !done
            invariant
                self.wf(),
                pre.advances(*self),
                pre.idx < self.idx,
                !done ==> {
                    &&& spec_variants(tvv, vs0.idx as int).0 == variants_view(variants@)
                        + spec_variants(tvv, self.idx as int).0
                    &&& spec_variants(tvv, vs0.idx as int).1 == spec_variants(
                        tvv,
                        self.idx as int,
                    ).1
                    &&& spec_variants(tvv, vs0.idx as int).2 == (self.errors@.len() - e_vs0)
                        + spec_variants(tvv, self.idx as int).2
                },
                done ==> {
                    &&& spec_variants(tvv, vs0.idx as int).0 == variants_view(variants@)
                    &&& spec_variants(tvv, vs0.idx as int).1 == self.idx as int
                    &&& spec_variants(tvv, vs0.idx as int).2 == self.errors@.len() - e_vs0
                },
            decreases self.tokens@.len() - self.idx, (if done {
                0int
            } else {
                1int
            }),
        {
            proof {
                crate::token::lemma_token_view_ctor(self.cur());
                assert(tvv[self.idx as int] == token_view(self.cur()));
            }
            let vname = match self.cur_id_lexeme() {
                Some(v) => Some(v),
                None => None,
            };
            match vname {
                None => {
                    let here = self.cur_span();
                    self.error("expected a variant name", here);
                    proof {
                        assert(spec_variants(tvv, self.idx as int).0
                            =~= Seq::<(Seq<char>, Seq<Seq<char>>)>::empty());
                        assert(spec_variants(tvv, self.idx as int).1 == self.idx as int);
                        assert(spec_variants(tvv, self.idx as int).2 == 1);
                        assert(spec_variants(tvv, vs0.idx as int).0 =~= variants_view(
                            variants@,
                        ));
                        assert(spec_variants(tvv, vs0.idx as int).1 == self.idx as int);
                        assert(spec_variants(tvv, vs0.idx as int).2 == self.errors@.len()
                            - e_vs0);
                    }
                    done = true;
                },
                Some(vname) => {
                    let ghost b0 = *self;
                    let ghost vl = vname@;
                    let ghost old_variants = variants@;
                    self.bump();
                    let ghost fs0 = *self;
                    let mut fields: Vec<String> = Vec::new();
                    let mut fdone = false;
                    while !fdone
                        invariant
                            self.wf(),
                            pre.advances(*self),
                            self.errors == fs0.errors,
                            fs0.idx <= self.idx,
                            pre.idx < self.idx,
                            !fdone ==> {
                                &&& spec_variant_fields(tvv, fs0.idx as int).0 == crate::eval::strs_view(
                                    fields@,
                                ) + spec_variant_fields(tvv, self.idx as int).0
                                &&& spec_variant_fields(tvv, fs0.idx as int).1
                                    == spec_variant_fields(tvv, self.idx as int).1
                            },
                            fdone ==> {
                                &&& spec_variant_fields(tvv, fs0.idx as int).0 == crate::eval::strs_view(
                                    fields@,
                                )
                                &&& spec_variant_fields(tvv, fs0.idx as int).1
                                    == self.idx as int
                            },
                        decreases self.tokens@.len() - self.idx, (if fdone {
                            0int
                        } else {
                            1int
                        }),
                    {
                        proof {
                            crate::token::lemma_token_view_ctor(self.cur());
                            assert(tvv[self.idx as int] == token_view(self.cur()));
                        }
                        let f = match self.cur_id_lexeme() {
                            Some(f) => Some(f),
                            None => None,
                        };
                        match f {
                            None => {
                                proof {
                                    assert(spec_variant_fields(tvv, fs0.idx as int).0
                                        =~= crate::eval::strs_view(fields@));
                                }
                                fdone = true;
                            },
                            Some(f) => {
                                let ghost fb0 = *self;
                                let ghost fl = f@;
                                let ghost old_fields = fields@;
                                fields.push(f);
                                self.bump();
                                proof {
                                    assert(fields@.drop_last() =~= old_fields);
                                    assert(crate::eval::strs_view(fields@) =~= crate::eval::strs_view(
                                        old_fields,
                                    ).push(fl));
                                    assert(spec_variant_fields(tvv, fb0.idx as int).0
                                        =~= seq![fl] + spec_variant_fields(
                                        tvv,
                                        self.idx as int,
                                    ).0);
                                    assert(crate::eval::strs_view(old_fields) + spec_variant_fields(
                                        tvv,
                                        fb0.idx as int,
                                    ).0 =~= crate::eval::strs_view(fields@) + spec_variant_fields(
                                        tvv,
                                        self.idx as int,
                                    ).0);
                                    assert(spec_variant_fields(tvv, fs0.idx as int).0
                                        == crate::eval::strs_view(fields@) + spec_variant_fields(
                                        tvv,
                                        self.idx as int,
                                    ).0);
                                }
                            },
                        }
                    }
                    let ghost fview = crate::eval::strs_view(fields@);
                    variants.push((vname, fields));
                    proof {
                        assert(variants@.drop_last() =~= old_variants);
                        assert(variants_view(variants@) =~= variants_view(old_variants).push(
                            (vl, fview),
                        ));
                        crate::token::lemma_token_view_ctor(self.cur());
                        assert(tvv[self.idx as int] == token_view(self.cur()));
                    }
                    if let Some(OpKind::Bar) = self.cur_op() {
                        self.bump();
                        proof {
                            assert(spec_variants(tvv, b0.idx as int).0 =~= seq![(vl, fview)]
                                + spec_variants(tvv, self.idx as int).0);
                            assert(variants_view(old_variants) + spec_variants(
                                tvv,
                                b0.idx as int,
                            ).0 =~= variants_view(variants@) + spec_variants(
                                tvv,
                                self.idx as int,
                            ).0);
                            assert(spec_variants(tvv, vs0.idx as int).0 == variants_view(
                                variants@,
                            ) + spec_variants(tvv, self.idx as int).0);
                            assert(spec_variants(tvv, b0.idx as int).1 == spec_variants(
                                tvv,
                                self.idx as int,
                            ).1);
                            assert(spec_variants(tvv, b0.idx as int).2 == spec_variants(
                                tvv,
                                self.idx as int,
                            ).2);
                        }
                    } else {
                        proof {
                            assert(spec_variants(tvv, b0.idx as int).0 =~= seq![(vl, fview)]);
                            assert(variants_view(old_variants) + spec_variants(
                                tvv,
                                b0.idx as int,
                            ).0 =~= variants_view(variants@));
                            assert(spec_variants(tvv, vs0.idx as int).0 == variants_view(
                                variants@,
                            ));
                            assert(spec_variants(tvv, b0.idx as int).1 == self.idx as int);
                            assert(spec_variants(tvv, b0.idx as int).2 == 0);
                            assert(spec_variants(tvv, vs0.idx as int).1 == self.idx as int);
                            assert(spec_variants(tvv, vs0.idx as int).2 == self.errors@.len()
                                - e_vs0);
                        }
                        done = true;
                    }
                },
            }
        }
        proof {
            crate::token::lemma_token_view_ctor(self.cur());
            assert(tvv[self.idx as int] == token_view(self.cur()));
        }
        let mut end_sp = self.cur_span();
        if let Some(OpKind::Semicolon) = self.cur_op() {
            let ghost b = *self;
            self.bump();
            proof {
                b.lemma_mark_mono(*self);
            }
        } else {
            end_sp = Span::new(end_sp.start, end_sp.start);
            self.error("expected ';' after enum declaration", end_sp);
        }
        proof {
            pre.lemma_mark_mono(*self);
        }
        let r = Expr::Enum(name, variants, sp.to(end_sp));
        proof {
            lemma_variants_views_agree(variants@);
            assert(r@ == ExprV::Enum(
                r@->Enum_0,
                variants_view(variants@),
                Span { start: sp.start, end: end_sp.end },
            ));
            assert(Parser::mirrors(pre, *self, r, spec_enum(tvv, i0)));
        }
        r
    }

    /// Skip to just past the next statement terminator.
    #[verifier::loop_isolation(false)]
    fn resync(&mut self)
        requires
            old(self).wf(),
        ensures
            old(self).advances(*final(self)),
            final(self).errors == old(self).errors,
            final(self).idx as int == spec_resync(old(self).tv(), old(self).idx as int),
    {
        let ghost r0 = *self;
        let ghost tvv = r0.tv();
        proof {
            crate::token::lemma_tokens_view(self.tokens@);
        }
        let mut rdone = false;
        while !rdone
            invariant
                self.wf(),
                r0.advances(*self),
                self.errors == r0.errors,
                !rdone ==> spec_resync(tvv, r0.idx as int) == spec_resync(
                    tvv,
                    self.idx as int,
                ),
                rdone ==> spec_resync(tvv, r0.idx as int) == self.idx as int,
            decreases self.tokens@.len() - self.idx, (if rdone {
                0int
            } else {
                1int
            }),
        {
            proof {
                crate::token::lemma_token_view_ctor(self.cur());
                assert(tvv[self.idx as int] == token_view(self.cur()));
            }
            if crate::scanner::token_is_eof(self.cur_token()) {
                rdone = true;
            } else {
                let is_semi = match self.cur_op() {
                    Some(OpKind::Semicolon) => true,
                    _ => false,
                };
                self.bump();
                if is_semi {
                    rdone = true;
                }
            }
        }
    }

    /// Parse the type list of `name :: T1 -> … -> Tn ;` after the `::`.
    #[verifier::loop_isolation(false)]
    fn type_dec(&mut self, name: String, nsp: Span) -> (r: Expr)
        requires
            old(self).wf(),
            nsp.wf(),
            nsp.end <= old(self).mark(),
        ensures
            old(self).advances(*final(self)),
            spans_wf(r@),
            nsp.start <= r@.span().start,
            r@.span().end <= final(self).mark(),
            r matches Expr::TypeDec(_, _, _),
            Parser::mirrors(
                *old(self),
                *final(self),
                r,
                spec_type_dec(old(self).tv(), old(self).idx as int, name@, nsp),
            ),
        decreases old(self).tokens@.len() - old(self).idx, 5int,
    {
        let ghost pre = *self;
        let ghost tvv = pre.tv();
        let ghost i0 = pre.idx as int;
        proof {
            crate::token::lemma_tokens_view(self.tokens@);
        }
        let mut types: Vec<TypeInfo> = Vec::new();
        let mut done = false;
        let ghost e0 = pre.errors@.len();
        while !done
            invariant
                self.wf(),
                pre.advances(*self),
                !done ==> {
                    &&& spec_type_list(tvv, i0).0 == crate::java::types_view(types@)
                        + spec_type_list(tvv, self.idx as int).0
                    &&& spec_type_list(tvv, i0).1 == spec_type_list(tvv, self.idx as int).1
                    &&& spec_type_list(tvv, i0).2 == (self.errors@.len() - e0)
                        + spec_type_list(tvv, self.idx as int).2
                },
                done ==> {
                    &&& spec_type_list(tvv, i0).0 == crate::java::types_view(types@)
                    &&& spec_type_list(tvv, i0).1 == self.idx as int
                    &&& spec_type_list(tvv, i0).2 == self.errors@.len() - e0
                },
            decreases self.tokens@.len() - self.idx, (if done {
                0int
            } else {
                1int
            }),
        {
            proof {
                crate::token::lemma_token_view_ctor(self.cur());
                assert(tvv[self.idx as int] == token_view(self.cur()));
            }
            let t = match self.cur_id_lexeme() {
                Some(t) => Some(t),
                None => None,
            };
            match t {
                None => {
                    let here = self.cur_span();
                    self.error("expected a type name", here);
                    proof {
                        assert(spec_type_list(tvv, i0).0 =~= crate::java::types_view(types@));
                    }
                    done = true;
                },
                Some(t) => {
                    let ghost b0 = *self;
                    let ghost tl = t@;
                    let ghost old_types = types@;
                    self.bump();
                    types.push(type_info_of(t));
                    proof {
                        assert(types@.drop_last() =~= old_types);
                        assert(crate::java::types_view(types@) =~= crate::java::types_view(
                            old_types,
                        ).push(spec_type_info_of(tl)));
                        crate::token::lemma_token_view_ctor(self.cur());
                        assert(tvv[self.idx as int] == token_view(self.cur()));
                    }
                    if let Some(OpKind::Arrow) = self.cur_op() {
                        self.bump();
                        proof {
                            assert(spec_type_list(tvv, b0.idx as int).0 =~= seq![
                                spec_type_info_of(tl),
                            ] + spec_type_list(tvv, self.idx as int).0);
                            assert(crate::java::types_view(old_types) + spec_type_list(
                                tvv,
                                b0.idx as int,
                            ).0 =~= crate::java::types_view(types@) + spec_type_list(
                                tvv,
                                self.idx as int,
                            ).0);
                            assert(spec_type_list(tvv, i0).0 == crate::java::types_view(
                                types@,
                            ) + spec_type_list(tvv, self.idx as int).0);
                        }
                    } else {
                        proof {
                            assert(spec_type_list(tvv, b0.idx as int).0 =~= seq![
                                spec_type_info_of(tl),
                            ]);
                            assert(crate::java::types_view(old_types) + spec_type_list(
                                tvv,
                                b0.idx as int,
                            ).0 =~= crate::java::types_view(types@));
                            assert(spec_type_list(tvv, i0).0 == crate::java::types_view(
                                types@,
                            ));
                        }
                        done = true;
                    }
                },
            }
        }
        proof {
            crate::token::lemma_token_view_ctor(self.cur());
            assert(tvv[self.idx as int] == token_view(self.cur()));
        }
        let mut end_sp = self.cur_span();
        if let Some(OpKind::Semicolon) = self.cur_op() {
            let ghost b = *self;
            self.bump();
            proof {
                b.lemma_mark_mono(*self);
            }
        } else {
            end_sp = Span::new(end_sp.start, end_sp.start);
            self.error("expected ';' after type declaration", end_sp);
        }
        proof {
            pre.lemma_mark_mono(*self);
        }
        let r = Expr::TypeDec(name, types, nsp.to(end_sp));
        proof {
            assert(Parser::mirrors(pre, *self, r, spec_type_dec(tvv, i0, r@->TypeDec_0, nsp)));
        }
        r
    }

    /// Parse a whole source: the ordered top-level declaration list, or
    /// every diagnostic found in the pass. One malformed declaration does
    /// not suppress the rest: parsing resynchronizes at the next `;`.
    #[verifier::loop_isolation(false)]
    #[verifier::rlimit(100)]
    #[verifier::spinoff_prover]
    pub fn parse(self) -> (r: Result<Vec<Expr>, Vec<ParseError>>)
        requires
            self.wf(),
            self.errors@.len() == 0,
        ensures
            match r {
                Ok(ds) => {
                    &&& forall|i: int|
                        0 <= i < ds@.len() ==> spans_wf((#[trigger] ds@[i])@)
                            && is_declaration(ds@[i]@)
                    &&& exprs_view(ds@) == spec_decls(self.tv(), self.idx as int, Seq::empty()).0
                    &&& spec_decls(self.tv(), self.idx as int, Seq::empty()).1 == 0
                },
                Err(es) => {
                    &&& es@.len() == spec_decls(self.tv(), self.idx as int, Seq::empty()).1
                    &&& es@.len() >= 1
                },
            },
    {
        let ghost tvv = self.tv();
        let ghost start0 = self.idx as int;
        let mut me = self;
        let mut decls: Vec<Expr> = Vec::new();
        let mut tdecs: Vec<(String, Vec<TypeInfo>)> = Vec::new();
        let mut done = false;
        proof {
            crate::token::lemma_tokens_view(me.tokens@);
        }
        while !done
            invariant
                me.wf(),
                me.tokens == self.tokens,
                forall|i: int|
                    0 <= i < decls@.len() ==> spans_wf((#[trigger] decls@[i])@) && is_declaration(
                        decls@[i]@,
                    ),
                !done ==> {
                    &&& spec_decls(tvv, start0, Seq::empty()).0 == exprs_view(decls@)
                        + spec_decls(tvv, me.idx as int, tdecs_view(tdecs@)).0
                    &&& spec_decls(tvv, start0, Seq::empty()).1 == me.errors@.len()
                        + spec_decls(tvv, me.idx as int, tdecs_view(tdecs@)).1
                },
                done ==> {
                    &&& spec_decls(tvv, start0, Seq::empty()).0 == exprs_view(decls@)
                    &&& spec_decls(tvv, start0, Seq::empty()).1 == me.errors@.len()
                },
            decreases me.tokens@.len() - me.idx, (if done {
                0int
            } else {
                1int
            }),
        {
            proof {
                crate::token::lemma_token_view_ctor(me.cur());
                assert(tvv[me.idx as int] == token_view(me.cur()));
            }
            if crate::scanner::token_is_eof(me.cur_token()) {
                proof {
                    assert(spec_decls(tvv, me.idx as int, tdecs_view(tdecs@)).0 =~= Seq::<
                        ExprV,
                    >::empty());
                    assert(spec_decls(tvv, start0, Seq::empty()).0 =~= exprs_view(decls@));
                }
                done = true;
            } else {
                let ghost it0 = me;
                let ghost tdv = tdecs_view(tdecs@);
                let is_enum_kw = match me.cur_keyword() {
                    Some(KeyWord::Enum) => true,
                    _ => false,
                };
                if is_enum_kw {
                    let d = me.enum_def();
                    proof {
                        let vlist = exprs_view(decls@);
                        assert(decls@.push(d).drop_last() =~= decls@);
                        assert(exprs_view(decls@.push(d)) == vlist.push(expr_view(d)));
                        assert(spec_decls(tvv, it0.idx as int, tdv).0 =~= seq![expr_view(d)]
                            + spec_decls(tvv, me.idx as int, tdv).0);
                        assert(vlist + spec_decls(tvv, it0.idx as int, tdv).0
                            =~= exprs_view(decls@.push(d)) + spec_decls(
                            tvv,
                            me.idx as int,
                            tdv,
                        ).0);
                        assert(spec_decls(tvv, start0, Seq::empty()).0 == exprs_view(
                            decls@.push(d),
                        ) + spec_decls(tvv, me.idx as int, tdv).0);
                    }
                    decls.push(d);
                } else {
                    let name = match me.cur_id_lexeme() {
                        Some(n) => Some(n),
                        None => None,
                    };
                    match name {
                        Some(name) => {
                            let ghost nl = name@;
                            let nsp = me.cur_span();
                            me.bump();
                            proof {
                                it0.lemma_mark_mono(me);
                                crate::token::lemma_token_view_ctor(me.cur());
                                assert(tvv[me.idx as int] == token_view(me.cur()));
                            }
                            let is_cc = match me.cur_op() {
                                Some(OpKind::ColonColon) => true,
                                _ => false,
                            };
                            if is_cc {
                                me.bump();
                                let td = me.type_dec(name, nsp);
                                let ghost tdecs_old = tdecs@;
                                match &td {
                                    Expr::TypeDec(tn, tt, _) => {
                                        tdecs.push((tn.clone(), crate::ast::clone_types(tt)));
                                        proof {
                                            assert(tdecs@.drop_last() =~= tdecs_old);
                                            assert(crate::java::types_view(
                                                tdecs@.last().1@,
                                            ) =~= crate::java::types_view(tt@));
                                            assert(tdecs_view(tdecs@) =~= tdv.push(
                                                (td@->TypeDec_0, td@->TypeDec_1),
                                            ));
                                        }
                                    },
                                    _ => {
                                        proof {
                                            assert(false);
                                        }
                                    },
                                }
                                proof {
                                    let vlist = exprs_view(decls@);
                                    assert(decls@.push(td).drop_last() =~= decls@);
                                    assert(exprs_view(decls@.push(td)) == vlist.push(
                                        expr_view(td),
                                    ));
                                    assert(spec_decls(tvv, it0.idx as int, tdv).0 =~= seq![
                                        expr_view(td),
                                    ] + spec_decls(tvv, me.idx as int, tdecs_view(tdecs@)).0);
                                    assert(vlist + spec_decls(tvv, it0.idx as int, tdv).0
                                        =~= exprs_view(decls@.push(td)) + spec_decls(
                                        tvv,
                                        me.idx as int,
                                        tdecs_view(tdecs@),
                                    ).0);
                                    assert(spec_decls(tvv, start0, Seq::empty()).0
                                        == exprs_view(decls@.push(td)) + spec_decls(
                                        tvv,
                                        me.idx as int,
                                        tdecs_view(tdecs@),
                                    ).0);
                                }
                                decls.push(td);
                            } else {
                                let types = find_types(&tdecs, &name);
                                let f = me.function_with(name, nsp, types);
                                proof {
                                    let vlist = exprs_view(decls@);
                                    assert(decls@.push(f).drop_last() =~= decls@);
                                    assert(exprs_view(decls@.push(f)) == vlist.push(
                                        expr_view(f),
                                    ));
                                    assert(spec_decls(tvv, it0.idx as int, tdv).0 =~= seq![
                                        expr_view(f),
                                    ] + spec_decls(tvv, me.idx as int, tdv).0);
                                    assert(vlist + spec_decls(tvv, it0.idx as int, tdv).0
                                        =~= exprs_view(decls@.push(f)) + spec_decls(
                                        tvv,
                                        me.idx as int,
                                        tdv,
                                    ).0);
                                    assert(spec_decls(tvv, start0, Seq::empty()).0
                                        == exprs_view(decls@.push(f)) + spec_decls(
                                        tvv,
                                        me.idx as int,
                                        tdv,
                                    ).0);
                                }
                                decls.push(f);
                            }
                        },
                        None => {
                            let sp = me.cur_span();
                            me.error("expected a declaration", sp);
                            let d = Expr::Error(sp);
                            me.bump();
                            me.resync();
                            proof {
                                let vlist = exprs_view(decls@);
                                assert(decls@.push(d).drop_last() =~= decls@);
                                assert(exprs_view(decls@.push(d)) == vlist.push(expr_view(d)));
                                assert(spec_decls(tvv, it0.idx as int, tdv).0 =~= seq![
                                    expr_view(d),
                                ] + spec_decls(tvv, me.idx as int, tdv).0);
                                assert(vlist + spec_decls(tvv, it0.idx as int, tdv).0
                                    =~= exprs_view(decls@.push(d)) + spec_decls(
                                    tvv,
                                    me.idx as int,
                                    tdv,
                                ).0);
                                assert(spec_decls(tvv, start0, Seq::empty()).0 == exprs_view(
                                    decls@.push(d),
                                ) + spec_decls(tvv, me.idx as int, tdv).0);
                            }
                            decls.push(d);
                        },
                    }
                }
            }
        }
        if me.errors.len() == 0 {
            Ok(decls)
        } else {
            Err(me.errors)
        }
    }
}

/// The recorded declared types for a name, as executable code.
#[verifier::loop_isolation(false)]
fn find_types(tdecs: &Vec<(String, Vec<TypeInfo>)>, name: &String) -> (r: Vec<TypeInfo>)
    ensures
        crate::java::types_view(r@) == spec_find_types(tdecs_view(tdecs@), name@),
{
    let ghost tdv = tdecs_view(tdecs@);
    proof {
        lemma_tdecs_view(tdecs@);
        assert(tdv.skip(0) =~= tdv);
    }
    let mut types: Vec<TypeInfo> = Vec::new();
    let mut ti: usize = 0;
    let mut found = false;
    while !found && ti < tdecs.len()
        invariant
            ti <= tdecs@.len(),
            tdv == tdecs_view(tdecs@),
            tdv.len() == tdecs@.len(),
            forall|k: int|
                0 <= k < tdecs@.len() ==> tdv[k] == ((#[trigger] tdecs@[k]).0@,
                crate::java::types_view(tdecs@[k].1@)),
            !found ==> spec_find_types(tdv, name@) == spec_find_types(tdv.skip(ti as int), name@),
            !found ==> crate::java::types_view(types@) =~= Seq::<crate::ast::TypeInfoV>::empty(),
            found ==> crate::java::types_view(types@) == spec_find_types(tdv, name@),
        decreases tdecs@.len() - ti, (if found {
            0int
        } else {
            1int
        }),
    {
        if tdecs[ti].0 == *name {
            types = crate::ast::clone_types(&tdecs[ti].1);
            proof {
                assert(tdv.skip(ti as int)[0] == tdv[ti as int]);
                assert(crate::java::types_view(types@) =~= crate::java::types_view(
                    tdecs@[ti as int].1@,
                ));
            }
            found = true;
        } else {
            proof {
                assert(tdv.skip(ti as int)[0] == tdv[ti as int]);
                assert(tdv.skip(ti as int).drop_first() =~= tdv.skip(ti + 1));
            }
            ti = ti + 1;
        }
    }
    proof {
        if !found {
            assert(tdv.skip(tdecs@.len() as int) =~= Seq::<
                (Seq<char>, Seq<crate::ast::TypeInfoV>),
            >::empty());
            assert(spec_find_types(tdv, name@) == crate::java::types_view(types@));
        }
    }
    types
}

/// What parsing a source text means: scan it, then parse the tokens.
pub open spec fn spec_parse_source(src: Seq<char>) -> (Seq<ExprV>, int) {
    spec_parse(crate::scanner::spec_scan(src))
}

/// What parsing a source text as one expression means.
pub open spec fn spec_parse_expr_source(src: Seq<char>) -> (ExprV, int, int) {
    spec_expression(crate::scanner::spec_scan(src), 0, 0)
}

/// Parse a source text into its top-level declarations, or the diagnostics
/// found.
pub fn parse(src: &str) -> (r: Result<Vec<Expr>, Vec<ParseError>>)
    ensures
        match r {
            Ok(ds) => {
                &&& forall|i: int|
                    0 <= i < ds@.len() ==> spans_wf((#[trigger] ds@[i])@) && is_declaration(
                        ds@[i]@,
                    )
                &&& exprs_view(ds@) == spec_parse_source(src@).0
                &&& spec_parse_source(src@).1 == 0
            },
            Err(es) => {
                &&& es@.len() == spec_parse_source(src@).1
                &&& es@.len() >= 1
            },
        },
{
    Parser::new(src).parse()
}

/// Parse a source text as one expression, for hosts that evaluate
/// expressions incrementally.
pub fn parse_expr(src: &str) -> (r: Result<Expr, Vec<ParseError>>)
    ensures
        match r {
            Ok(e) => {
                &&& spans_wf(e@)
                &&& e@ == spec_parse_expr_source(src@).0
                &&& spec_parse_expr_source(src@).2 == 0
            },
            Err(es) => {
                &&& es@.len() == spec_parse_expr_source(src@).2
                &&& es@.len() >= 1
            },
        },
{
    let mut p = Parser::new(src);
    let e = p.expression(0);
    if p.errors.len() == 0 {
        Ok(e)
    } else {
        Err(p.errors)
    }
}

/// One step of the left-to-right evaluation of a digit lexeme.
proof fn lemma_val_step(s: Seq<char>, i: int)
    requires
        0 <= i < s.len(),
        spec_digits_val(s.take(i)) >= 0,
        crate::scanner::is_digit(s[i]) || s[i] == '_',
    ensures
        spec_digits_val(s.take(i + 1)) >= spec_digits_val(s.take(i)),
        s[i] != '_' ==> spec_digits_val(s.take(i + 1)) == spec_digits_val(s.take(i)) * 10 + (
        s[i] as u32 - 48),
{
    assert(s.take(i + 1).drop_last() =~= s.take(i));
    assert(s.take(i + 1).last() == s[i]);
}

/// The value of each all-digit prefix is nonnegative.
proof fn lemma_val_prefix_nonneg(s: Seq<char>, i: int)
    requires
        0 <= i <= s.len(),
        forall|k: int| 0 <= k < i ==> crate::scanner::is_digit(#[trigger] s[k]) || s[k] == '_',
    ensures
        spec_digits_val(s.take(i)) >= 0,
    decreases i,
{
    if i > 0 {
        lemma_val_prefix_nonneg(s, i - 1);
        lemma_val_step(s, i - 1);
    } else {
        assert(s.take(0) =~= Seq::<char>::empty());
    }
}

/// Reading further characters of an all-digit lexeme never shrinks its
/// value.
proof fn lemma_grow(s: Seq<char>, i: int)
    requires
        0 <= i < s.len(),
        forall|k: int| 0 <= k < s.len() ==> crate::scanner::is_digit(#[trigger] s[k]) || s[k]
            == '_',
    ensures
        spec_digits_val(s) >= spec_digits_val(s.take(i + 1)),
    decreases s.len() - i,
{
    if i == s.len() - 1 {
        assert(s =~= s.take(i + 1));
    } else {
        lemma_val_prefix_nonneg(s, i + 1);
        lemma_val_step(s, i + 1);
        lemma_grow(s, i + 1);
    }
}

} // verus!
