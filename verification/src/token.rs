//! Tokens: a classified, immutable fragment of source text, made of a kind
//! and the exact substring that was matched.
use vstd::prelude::*;

verus! {

/// The closed set of kinds a token can have.
#[derive(Debug, Clone, Copy, PartialEq, Eq, Structural)]
pub enum TokenType {
    /// An unrecognized character.
    Illegal,
    /// The end-of-input marker; its literal is the sentinel character.
    Eof,
    /// An identifier that is not a keyword.
    Ident,
    /// An integer literal; numeric interpretation is left to the consumer.
    Int,
    Assign,
    Plus,
    Minus,
    Bang,
    Asterisk,
    Slash,
    Lt,
    Gt,
    /// The two-character equality operator.
    Equal,
    /// The two-character inequality operator.
    NotEqual,
    Comma,
    Semicolon,
    Lparen,
    Rparen,
    Lbrace,
    Rbrace,
    Function,
    Let,
    True,
    False,
    If,
    Else,
    Return,
}

/// The mathematical value of a token: its kind together with the characters
/// of its literal.
#[verifier::ext_equal]
pub struct SpecToken {
    pub typee: TokenType,
    pub literal: Seq<char>,
}

/// A classified, immutable fragment of source text.
#[derive(Debug)]
pub struct Token {
    pub typee: TokenType,
    pub literal: String,
}

impl View for Token {
    type V = SpecToken;

    open spec fn view(&self) -> SpecToken {
        SpecToken { typee: self.typee, literal: self.literal@ }
    }
}

impl Clone for Token {
    fn clone(&self) -> (r: Token)
        ensures
            r@ == self@,
    {
        Token { typee: self.typee, literal: self.literal.clone() }
    }
}

/// Classification of an identifier-shaped literal: each of the seven keywords
/// maps to its dedicated kind, and every other literal is a generic
/// identifier.
pub open spec fn spec_lookup_ident(s: Seq<char>) -> TokenType {
    if s == seq!['f', 'n'] {
        TokenType::Function
    } else if s == seq!['l', 'e', 't'] {
        TokenType::Let
    } else if s == seq!['t', 'r', 'u', 'e'] {
        TokenType::True
    } else if s == seq!['f', 'a', 'l', 's', 'e'] {
        TokenType::False
    } else if s == seq!['i', 'f'] {
        TokenType::If
    } else if s == seq!['e', 'l', 's', 'e'] {
        TokenType::Else
    } else if s == seq!['r', 'e', 't', 'u', 'r', 'n'] {
        TokenType::Return
    } else {
        TokenType::Ident
    }
}

impl Token {
    /// Build a token from a kind and the matched substring.
    pub fn new(ty: TokenType, literal: &str) -> (t: Token)
        ensures
            t@ == (SpecToken { typee: ty, literal: literal@ }),
    {
        Token { typee: ty, literal: literal.to_owned() }
    }

    /// Look an identifier up in the fixed keyword table.
    pub fn lookup_ident(ident: &str) -> (t: TokenType)
        ensures
            t == spec_lookup_ident(ident@),
    {
        let n = ident.unicode_len();
        if n == 2 && ident.get_char(0) == 'f' && ident.get_char(1) == 'n' {
            proof {
                assert(ident@ =~= seq!['f', 'n']);
            }
            TokenType::Function
        } else if n == 3 && ident.get_char(0) == 'l' && ident.get_char(1) == 'e' && ident.get_char(
            2,
        ) == 't' {
            proof {
                assert(ident@ =~= seq!['l', 'e', 't']);
            }
            TokenType::Let
        } else if n == 4 && ident.get_char(0) == 't' && ident.get_char(1) == 'r' && ident.get_char(
            2,
        ) == 'u' && ident.get_char(3) == 'e' {
            proof {
                assert(ident@ =~= seq!['t', 'r', 'u', 'e']);
            }
            TokenType::True
        } else if n == 5 && ident.get_char(0) == 'f' && ident.get_char(1) == 'a' && ident.get_char(
            2,
        ) == 'l' && ident.get_char(3) == 's' && ident.get_char(4) == 'e' {
            proof {
                assert(ident@ =~= seq!['f', 'a', 'l', 's', 'e']);
            }
            TokenType::False
        } else if n == 2 && ident.get_char(0) == 'i' && ident.get_char(1) == 'f' {
            proof {
                assert(ident@ =~= seq!['i', 'f']);
            }
            TokenType::If
        } else if n == 4 && ident.get_char(0) == 'e' && ident.get_char(1) == 'l' && ident.get_char(
            2,
        ) == 's' && ident.get_char(3) == 'e' {
            proof {
                assert(ident@ =~= seq!['e', 'l', 's', 'e']);
            }
            TokenType::Else
        } else if n == 6 && ident.get_char(0) == 'r' && ident.get_char(1) == 'e' && ident.get_char(
            2,
        ) == 't' && ident.get_char(3) == 'u' && ident.get_char(4) == 'r' && ident.get_char(5)
            == 'n' {
            proof {
                assert(ident@ =~= seq!['r', 'e', 't', 'u', 'r', 'n']);
            }
            TokenType::Return
        } else {
            TokenType::Ident
        }
    }
}

/// Law: a string that matches none of the seven keywords is classified as a
/// generic identifier.
pub proof fn lemma_lookup_non_keyword(s: Seq<char>)
    requires
        s != seq!['f', 'n'],
        s != seq!['l', 'e', 't'],
        s != seq!['t', 'r', 'u', 'e'],
        s != seq!['f', 'a', 'l', 's', 'e'],
        s != seq!['i', 'f'],
        s != seq!['e', 'l', 's', 'e'],
        s != seq!['r', 'e', 't', 'u', 'r', 'n'],
    ensures
        spec_lookup_ident(s) == TokenType::Ident,
{
}

/// Law: each of the seven keywords is classified as its dedicated kind.
pub proof fn lemma_lookup_keywords()
    ensures
        spec_lookup_ident(seq!['f', 'n']) == TokenType::Function,
        spec_lookup_ident(seq!['l', 'e', 't']) == TokenType::Let,
        spec_lookup_ident(seq!['t', 'r', 'u', 'e']) == TokenType::True,
        spec_lookup_ident(seq!['f', 'a', 'l', 's', 'e']) == TokenType::False,
        spec_lookup_ident(seq!['i', 'f']) == TokenType::If,
        spec_lookup_ident(seq!['e', 'l', 's', 'e']) == TokenType::Else,
        spec_lookup_ident(seq!['r', 'e', 't', 'u', 'r', 'n']) == TokenType::Return,
{
}

} // verus!
