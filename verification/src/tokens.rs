//! The engine's view of lexical tokens.
//!
//! Tokenization is an external collaborator: the `sqlparser` crate classifies
//! raw SQL text.  The engine itself works on the library's own `Tok` values,
//! which carry exactly what the formatting rules read: the token class, a
//! word's text and keyword tag, and the display text of whitespace and of any
//! other token.

use sqlparser::keywords::Keyword;
use sqlparser::tokenizer::Token;
use vstd::prelude::*;

verus! {

/// The keyword tag of a word: the engine distinguishes the clause openers
/// SELECT, FROM and WHERE, any other recognized keyword, and plain words.
#[derive(Clone, Copy, PartialEq, Eq, Structural)]
pub enum Kw {
    NoKw,
    Select,
    From,
    Where,
    OtherKw,
}

/// One lexical token, as the formatting engine consumes it.
pub enum Tok {
    /// A word: its text and its keyword tag.
    Word(String, Kw),
    Comma,
    SemiColon,
    LParen,
    RParen,
    LBrace,
    RBrace,
    LBracket,
    RBracket,
    /// Whitespace, carried as its display text.
    Whitespace(String),
    /// The end-of-input marker.
    EndOfInput,
    /// Any other token (operators, literals, ...), as its display text.
    Other(String),
}

/// The mathematical value of a token.
pub ghost enum TokV {
    Word(Seq<char>, Kw),
    Comma,
    SemiColon,
    LParen,
    RParen,
    LBrace,
    RBrace,
    LBracket,
    RBracket,
    Whitespace(Seq<char>),
    EndOfInput,
    Other(Seq<char>),
}

impl View for Tok {
    type V = TokV;

    open spec fn view(&self) -> TokV {
        match self {
            Tok::Word(t, k) => TokV::Word(t@, *k),
            Tok::Comma => TokV::Comma,
            Tok::SemiColon => TokV::SemiColon,
            Tok::LParen => TokV::LParen,
            Tok::RParen => TokV::RParen,
            Tok::LBrace => TokV::LBrace,
            Tok::RBrace => TokV::RBrace,
            Tok::LBracket => TokV::LBracket,
            Tok::RBracket => TokV::RBracket,
            Tok::Whitespace(w) => TokV::Whitespace(w@),
            Tok::EndOfInput => TokV::EndOfInput,
            Tok::Other(t) => TokV::Other(t@),
        }
    }
}

/// The values of a token sequence.
pub open spec fn tok_views(ts: Seq<Tok>) -> Seq<TokV> {
    ts.map_values(|t: Tok| t@)
}

#[verifier::external_type_specification]
#[verifier::external_body]
pub struct ExToken(Token);

#[verifier::external_type_specification]
#[verifier::external_body]
pub struct ExKeyword(Keyword);

/// What tokenizing a script under a dialect name yields: the engine's view
/// of the token stream, or the tokenizer's error text.  Tokenization reads
/// nothing but the dialect name and the script, so its result is a function
/// of the two arguments alone.
pub uninterp spec fn sql_tokens(database: Seq<char>, script: Seq<char>) -> Result<
    Seq<TokV>,
    Seq<char>,
>;

/// Relies on sqlparser's `dialect_from_str` and `Tokenizer::tokenize`:
/// splits `script` into lexical tokens under the named dialect (the generic
/// dialect when the name is unknown) — a pure function of the two strings —
/// or surfaces the tokenizer's error as text, unchanged.
#[verifier::external_body]
pub(crate) fn tokenize(database: &str, script: &str) -> (r: Result<Vec<Tok>, String>)
    ensures
        (r matches Ok(v) ==> sql_tokens(database@, script@) == Ok::<Seq<TokV>, Seq<char>>(
            tok_views(v@),
        )),
        (r matches Err(e) ==> sql_tokens(database@, script@) == Err::<Seq<TokV>, Seq<char>>(e@)),
{
    let dialect = sqlparser::dialect::dialect_from_str(database)
        .unwrap_or(Box::new(sqlparser::dialect::GenericDialect::default()));
    match sqlparser::tokenizer::Tokenizer::new(dialect.as_ref(), script).tokenize() {
        Ok(raw) => Ok(raw.iter().map(view_token).collect()),
        Err(e) => Err(format!("{}", e)),
    }
}

/// Relies on the shape of sqlparser's `Keyword` tag, set by the tokenizer on
/// unquoted words that match a known keyword: the engine only distinguishes
/// the clause openers and whether the word is a keyword at all.
#[verifier::external_body]
pub(crate) fn keyword_mark(k: &Keyword) -> (r: Kw) {
    match k {
        Keyword::SELECT => Kw::Select,
        Keyword::FROM => Kw::From,
        Keyword::WHERE => Kw::Where,
        Keyword::NoKeyword => Kw::NoKw,
        _ => Kw::OtherKw,
    }
}

/// Relies on the shape of sqlparser's `Token`: each variant the engine
/// distinguishes is moved over field by field; any other token is carried as
/// its display text, as is whitespace.  Pure conversion, done on behalf of
/// `tokenize` above.
#[verifier::external_body]
pub(crate) fn view_token(t: &Token) -> (r: Tok) {
    match t {
        Token::Word(w) => Tok::Word(w.value.clone(), keyword_mark(&w.keyword)),
        Token::Comma => Tok::Comma,
        Token::SemiColon => Tok::SemiColon,
        Token::LParen => Tok::LParen,
        Token::RParen => Tok::RParen,
        Token::LBrace => Tok::LBrace,
        Token::RBrace => Tok::RBrace,
        Token::LBracket => Tok::LBracket,
        Token::RBracket => Tok::RBracket,
        Token::Whitespace(w) => Tok::Whitespace(format!("{}", w)),
        Token::EOF => Tok::EndOfInput,
        other => Tok::Other(format!("{}", other)),
    }
}

} // verus!
