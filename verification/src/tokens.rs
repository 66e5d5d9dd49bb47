//! The structured token stream that the parsers consume.
//!
//! The textual front end (splitting source text into tokens) is an external
//! collaborator; the library's parsers start from this token type.

use vstd::prelude::*;
use vstd::string::StringExecFns;

verus! {

/// One token of the machine description languages.
pub enum Token {
    /// An identifier or keyword (`Green`, `get`, `fn`, ...).
    Ident(String),
    /// A lifetime parameter, stored without the leading apostrophe.
    Lifetime(String),
    /// A literal (a number, a quoted string, ...), stored as written.
    Literal(String),
    Comma,
    Colon,
    /// `::`
    PathSep,
    /// `=>`
    FatArrow,
    /// `->`
    RArrow,
    /// `&`
    Amp,
    LParen,
    RParen,
    LBracket,
    RBracket,
    LBrace,
    RBrace,
    Lt,
    Gt,
}

/// The textual rendering of one token.
pub open spec fn token_text(t: Token) -> Seq<char> {
    match t {
        Token::Ident(s) => s@,
        Token::Lifetime(s) => "'"@ + s@,
        Token::Literal(s) => s@,
        Token::Comma => ","@,
        Token::Colon => ":"@,
        Token::PathSep => "::"@,
        Token::FatArrow => "=>"@,
        Token::RArrow => "->"@,
        Token::Amp => "&"@,
        Token::LParen => "("@,
        Token::RParen => ")"@,
        Token::LBracket => "["@,
        Token::RBracket => "]"@,
        Token::LBrace => "{"@,
        Token::RBrace => "}"@,
        Token::Lt => "<"@,
        Token::Gt => ">"@,
    }
}

/// The rendering of a captured token sequence (a default-value expression):
/// the tokens' texts separated by single spaces.
pub open spec fn tokens_text(ts: Seq<Token>) -> Seq<char>
    decreases ts.len(),
{
    if ts.len() == 0 {
        Seq::<char>::empty()
    } else if ts.len() == 1 {
        token_text(ts[0])
    } else {
        tokens_text(ts.drop_last()) + " "@ + token_text(ts.last())
    }
}

/// Renders one token.
pub fn token_to_string(t: &Token) -> (r: String)
    ensures
        r@ == token_text(*t),
{
    match t {
        Token::Ident(s) => s.clone(),
        Token::Lifetime(s) => {
            let mut r = String::from_str("'");
            r.append(s.as_str());
            r
        },
        Token::Literal(s) => s.clone(),
        Token::Comma => String::from_str(","),
        Token::Colon => String::from_str(":"),
        Token::PathSep => String::from_str("::"),
        Token::FatArrow => String::from_str("=>"),
        Token::RArrow => String::from_str("->"),
        Token::Amp => String::from_str("&"),
        Token::LParen => String::from_str("("),
        Token::RParen => String::from_str(")"),
        Token::LBracket => String::from_str("["),
        Token::RBracket => String::from_str("]"),
        Token::LBrace => String::from_str("{"),
        Token::RBrace => String::from_str("}"),
        Token::Lt => String::from_str("<"),
        Token::Gt => String::from_str(">"),
    }
}

} // verus!
