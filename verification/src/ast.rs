//! The AST node model: the closed set of shapes statements and expressions
//! can take, and the shared behavior (`token_literal`) all nodes expose.
//!
//! Statements and expressions are closed tagged sum types, matched
//! exhaustively; every node plainly owns its children. The ghost side mirrors
//! each node shape so that parser contracts can speak about whole trees.
use vstd::prelude::*;

use crate::token::{SpecToken, Token};

verus! {

/// Shared behavior of all AST nodes: the literal of the token the node is
/// derived from. It is pure and derives solely from the tokens stored in the
/// node.
pub trait Node {
    /// The characters of the node's token literal.
    spec fn spec_token_literal(&self) -> Seq<char>;

    /// The literal of the token this node was built from.
    fn token_literal(&self) -> (r: String)
        ensures
            r@ == self.spec_token_literal(),
    ;
}

/// The mathematical value of an identifier node.
#[verifier::ext_equal]
pub struct SpecIdentifier {
    pub token: SpecToken,
    pub value: Seq<char>,
}

/// The mathematical value of an expression subtree.
#[verifier::ext_equal]
pub enum SpecExpression {
    Identifier(SpecIdentifier),
}

/// The mathematical value of a let statement.
#[verifier::ext_equal]
pub struct SpecLetStatement {
    pub token: SpecToken,
    pub name: SpecIdentifier,
    pub value: Option<SpecExpression>,
}

/// The mathematical value of a statement.
#[verifier::ext_equal]
pub enum SpecStatement {
    Let(SpecLetStatement),
}

/// An identifier: its token and its text. It doubles as a bound-name node
/// inside a let statement and as an expression variant.
pub struct Identifier {
    pub token: Token,
    pub value: String,
}

impl View for Identifier {
    type V = SpecIdentifier;

    open spec fn view(&self) -> SpecIdentifier {
        SpecIdentifier { token: self.token@, value: self.value@ }
    }
}

impl Node for Identifier {
    open spec fn spec_token_literal(&self) -> Seq<char> {
        self.token@.literal
    }

    fn token_literal(&self) -> (r: String) {
        self.token.literal.clone()
    }
}

/// The closed set of value-producing subtrees the realized grammar can build.
pub enum Expression {
    Identifier(Identifier),
}

impl View for Expression {
    type V = SpecExpression;

    open spec fn view(&self) -> SpecExpression {
        match self {
            Expression::Identifier(ident) => SpecExpression::Identifier(ident@),
        }
    }
}

impl Node for Expression {
    open spec fn spec_token_literal(&self) -> Seq<char> {
        match self {
            Expression::Identifier(ident) => ident.spec_token_literal(),
        }
    }

    fn token_literal(&self) -> (r: String) {
        match self {
            Expression::Identifier(ident) => ident.token_literal(),
        }
    }
}

/// A `let` statement: the `let` keyword token, the bound name, and the
/// initializer. The initializer subtree is a placeholder for now: the parser
/// recognizes where the initializer stands but builds no expression tree for
/// it, so the field holds no value after a parse.
pub struct LetStatement {
    pub token: Token,
    pub name: Identifier,
    pub value: Option<Expression>,
}

impl View for LetStatement {
    type V = SpecLetStatement;

    open spec fn view(&self) -> SpecLetStatement {
        SpecLetStatement {
            token: self.token@,
            name: self.name@,
            value: match self.value {
                Option::Some(e) => Option::Some(e@),
                Option::None => Option::None,
            },
        }
    }
}

impl Node for LetStatement {
    open spec fn spec_token_literal(&self) -> Seq<char> {
        self.token@.literal
    }

    fn token_literal(&self) -> (r: String) {
        self.token.literal.clone()
    }
}

/// The closed set of statement shapes the realized grammar can build.
pub enum Statement {
    Let(LetStatement),
}

impl View for Statement {
    type V = SpecStatement;

    open spec fn view(&self) -> SpecStatement {
        match self {
            Statement::Let(ls) => SpecStatement::Let(ls@),
        }
    }
}

impl Node for Statement {
    open spec fn spec_token_literal(&self) -> Seq<char> {
        match self {
            Statement::Let(ls) => ls.spec_token_literal(),
        }
    }

    fn token_literal(&self) -> (r: String) {
        match self {
            Statement::Let(ls) => ls.token_literal(),
        }
    }
}

/// The AST root: an ordered sequence of top-level statements, in source
/// order. The Program exclusively owns its statements.
pub struct Program {
    pub statements: Vec<Statement>,
}

impl View for Program {
    type V = Seq<SpecStatement>;

    open spec fn view(&self) -> Seq<SpecStatement> {
        self.statements@.map_values(|st: Statement| st@)
    }
}

impl Node for Program {
    open spec fn spec_token_literal(&self) -> Seq<char> {
        if self.statements@.len() > 0 {
            self.statements@[0].spec_token_literal()
        } else {
            Seq::empty()
        }
    }

    fn token_literal(&self) -> (r: String) {
        if self.statements.len() > 0 {
            let first = &self.statements[0];
            first.token_literal()
        } else {
            String::new()
        }
    }
}

} // verus!
