//! Tokens produced by the scanner: literals, identifiers, keywords and
//! operator/punctuation lexemes, each carrying its source span.

use vstd::prelude::*;

use crate::span::Span;

verus! {

/// The fixed keyword set of the language.
#[derive(Debug, Clone, Copy, PartialEq, Eq, Structural)]
pub enum KeyWord {
    If,
    Then,
    Else,
    Enum,
    True,
    False,
    Let,
    In,
}

/// Operator and punctuation lexemes, longest-match first at scan time.
#[derive(Debug, Clone, Copy, PartialEq, Eq, Structural)]
pub enum OpKind {
    /// `->`
    Arrow,
    /// `=>`
    FatArrow,
    /// `<-`
    BackArrow,
    /// `<=`
    LesEq,
    /// `>=`
    GrtEq,
    /// `==`
    EqEq,
    /// `!=`
    NotEq,
    /// `::`
    ColonColon,
    /// `|>`
    Pipe,
    /// `\` or the lambda glyph
    Lambda,
    /// `|`
    Bar,
    /// `!`
    Bang,
    /// `<`
    Les,
    /// `>`
    Grt,
    /// `+`
    Plus,
    /// `-`
    Minus,
    /// `=`
    Equal,
    /// `*`
    Mult,
    /// `/`
    Div,
    /// `:`
    Colon,
    /// `;`
    Semicolon,
    /// `,`
    Comma,
    /// `(`
    LParen,
    /// `)`
    RParen,
    /// `[`
    LBracket,
    /// `]`
    RBracket,
    /// `{`
    LBrace,
    /// `}`
    RBrace,
}

/// A spanned token. Number, identifier, string and character tokens keep the
/// scanned lexeme; the end of input and unrecognized characters are tokens
/// too, so scanning never aborts.
#[derive(Debug)]
pub enum Token {
    Int(String, Span),
    Float(String, Span),
    Id(String, Span),
    KeyWord(KeyWord, Span),
    Str(String, Span),
    Char(String, Span),
    Op(OpKind, Span),
    Eof(Span),
    Error(String, Span),
}

impl Token {
    /// The span of any token.
    pub open spec fn spec_span(self) -> Span {
        match self {
            Token::Int(_, s) => s,
            Token::Float(_, s) => s,
            Token::Id(_, s) => s,
            Token::KeyWord(_, s) => s,
            Token::Str(_, s) => s,
            Token::Char(_, s) => s,
            Token::Op(_, s) => s,
            Token::Eof(s) => s,
            Token::Error(_, s) => s,
        }
    }

    pub fn span(&self) -> (r: Span)
        ensures
            r == self.spec_span(),
    {
        match self {
            Token::Int(_, s) => *s,
            Token::Float(_, s) => *s,
            Token::Id(_, s) => *s,
            Token::KeyWord(_, s) => *s,
            Token::Str(_, s) => *s,
            Token::Char(_, s) => *s,
            Token::Op(_, s) => *s,
            Token::Eof(s) => *s,
            Token::Error(_, s) => *s,
        }
    }

    pub open spec fn is_eof(self) -> bool {
        self is Eof
    }

    /// The scanned lexeme of a lexeme-carrying token, empty otherwise.
    pub open spec fn spec_lexeme(self) -> Seq<char> {
        match self {
            Token::Int(l, _) => l@,
            Token::Float(l, _) => l@,
            Token::Id(l, _) => l@,
            Token::Str(l, _) => l@,
            Token::Char(l, _) => l@,
            Token::Error(l, _) => l@,
            _ => Seq::empty(),
        }
    }
}

/// Mathematical view of a token: the same classification with the lexeme
/// as a character sequence.
pub enum TokenV {
    Int(Seq<char>, Span),
    Float(Seq<char>, Span),
    Id(Seq<char>, Span),
    KeyWord(KeyWord, Span),
    Str(Seq<char>, Span),
    Char(Seq<char>, Span),
    Op(OpKind, Span),
    Eof(Span),
    Error(Seq<char>, Span),
}

impl TokenV {
    /// The span of any token view.
    pub open spec fn span(self) -> Span {
        match self {
            TokenV::Int(_, s) => s,
            TokenV::Float(_, s) => s,
            TokenV::Id(_, s) => s,
            TokenV::KeyWord(_, s) => s,
            TokenV::Str(_, s) => s,
            TokenV::Char(_, s) => s,
            TokenV::Op(_, s) => s,
            TokenV::Eof(s) => s,
            TokenV::Error(_, s) => s,
        }
    }
}

/// The view of a token.
pub open spec fn token_view(t: Token) -> TokenV {
    match t {
        Token::Int(l, s) => TokenV::Int(l@, s),
        Token::Float(l, s) => TokenV::Float(l@, s),
        Token::Id(l, s) => TokenV::Id(l@, s),
        Token::KeyWord(k, s) => TokenV::KeyWord(k, s),
        Token::Str(l, s) => TokenV::Str(l@, s),
        Token::Char(l, s) => TokenV::Char(l@, s),
        Token::Op(k, s) => TokenV::Op(k, s),
        Token::Eof(s) => TokenV::Eof(s),
        Token::Error(l, s) => TokenV::Error(l@, s),
    }
}

impl View for Token {
    type V = TokenV;

    open spec fn view(&self) -> TokenV {
        token_view(*self)
    }
}

/// The element-wise view of a token list.
pub open spec fn tokens_view(s: Seq<Token>) -> Seq<TokenV>
    decreases s,
{
    if s.len() == 0 {
        Seq::empty()
    } else {
        tokens_view(s.drop_last()).push(token_view(s.last()))
    }
}

/// `tokens_view` maps the list element by element.
pub proof fn lemma_tokens_view(s: Seq<Token>)
    ensures
        tokens_view(s).len() == s.len(),
        forall|i: int| 0 <= i < s.len() ==> tokens_view(s)[i] == token_view(#[trigger] s[i]),
    decreases s,
{
    if s.len() > 0 {
        lemma_tokens_view(s.drop_last());
        assert forall|i: int|
            0 <= i < s.len() implies tokens_view(s)[i] == token_view(#[trigger] s[i]) by {
            if i < s.len() - 1 {
                assert(s.drop_last()[i] == s[i]);
            }
        }
    }
}

/// A token's view has the same constructor as the token, with the same
/// span.
pub proof fn lemma_token_view_ctor(t: Token)
    ensures
        (token_view(t) matches TokenV::Int(_, _)) <==> (t matches Token::Int(_, _)),
        (token_view(t) matches TokenV::Float(_, _)) <==> (t matches Token::Float(_, _)),
        (token_view(t) matches TokenV::Id(_, _)) <==> (t matches Token::Id(_, _)),
        (token_view(t) matches TokenV::KeyWord(_, _)) <==> (t matches Token::KeyWord(_, _)),
        (token_view(t) matches TokenV::Str(_, _)) <==> (t matches Token::Str(_, _)),
        (token_view(t) matches TokenV::Char(_, _)) <==> (t matches Token::Char(_, _)),
        (token_view(t) matches TokenV::Op(_, _)) <==> (t matches Token::Op(_, _)),
        (token_view(t) is Eof) <==> (t is Eof),
        (token_view(t) matches TokenV::Error(_, _)) <==> (t matches Token::Error(_, _)),
        token_view(t).span() == t.spec_span(),
{
    match t {
        Token::Int(_, _) => {},
        Token::Float(_, _) => {},
        Token::Id(_, _) => {},
        Token::KeyWord(_, _) => {},
        Token::Str(_, _) => {},
        Token::Char(_, _) => {},
        Token::Op(_, _) => {},
        Token::Eof(_) => {},
        Token::Error(_, _) => {},
    }
}

/// The keyword for an identifier lexeme, if the lexeme is one of the fixed
/// keyword table's entries.
pub open spec fn spec_keyword_of(s: Seq<char>) -> Option<KeyWord> {
    if s == "if"@ {
        Some(KeyWord::If)
    } else if s == "then"@ {
        Some(KeyWord::Then)
    } else if s == "else"@ {
        Some(KeyWord::Else)
    } else if s == "enum"@ {
        Some(KeyWord::Enum)
    } else if s == "true"@ {
        Some(KeyWord::True)
    } else if s == "false"@ {
        Some(KeyWord::False)
    } else if s == "let"@ {
        Some(KeyWord::Let)
    } else if s == "in"@ {
        Some(KeyWord::In)
    } else {
        None
    }
}

} // verus!
