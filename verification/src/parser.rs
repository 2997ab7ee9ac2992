//! The parser: consumes tokens from the tokenizer two at a time (current and
//! lookahead) and builds an AST Program by recursive descent over the
//! statement grammar.
//!
//! The realized grammar is `let` IDENT `=` <value> `;`. The tokens of the
//! initializer are consumed up to and including the terminating semicolon
//! without building an expression subtree; the statement keeps an explicit
//! placeholder there. Any grammar-rule mismatch makes the whole parse yield
//! no Program (all-or-nothing, with no diagnostics).
//!
//! The specification side (`spec_parse_program`) defines, over the character
//! model of the tokenizer, exactly which inputs parse and what statement
//! sequence they parse to.
use vstd::prelude::*;

use crate::ast::{Identifier, LetStatement, Program, SpecIdentifier, SpecLetStatement,
    SpecStatement, Statement};
use crate::lexer::{Lexer, lemma_next_pos_bounds, spec_next_pos, spec_next_token};
use crate::token::{Token, TokenType};

verus! {

/// The cursor position of the first semicolon token at or after `pos`, or
/// nothing if the input ends first. This is where the skip-to-semicolon step
/// of the let-grammar stops.
pub open spec fn find_semi(s: Seq<char>, pos: nat) -> Option<nat>
    decreases s.len() - pos,
    when pos <= s.len()
    via find_semi_decreases
{
    if spec_next_token(s, pos).typee == TokenType::Semicolon {
        Some(pos)
    } else if spec_next_token(s, pos).typee == TokenType::Eof {
        None
    } else {
        find_semi(s, spec_next_pos(s, pos))
    }
}

#[via_fn]
proof fn find_semi_decreases(s: Seq<char>, pos: nat) {
    lemma_next_pos_bounds(s, pos);
}

pub proof fn lemma_find_semi_bounds(s: Seq<char>, pos: nat)
    requires
        pos <= s.len(),
    ensures
        find_semi(s, pos) matches Some(k) ==> pos <= k <= s.len() && spec_next_token(s, k).typee
            == TokenType::Semicolon,
    decreases s.len() - pos,
{
    let t = spec_next_token(s, pos);
    if t.typee == TokenType::Semicolon {
    } else if t.typee == TokenType::Eof {
    } else {
        lemma_next_pos_bounds(s, pos);
        lemma_find_semi_bounds(s, spec_next_pos(s, pos));
    }
}

/// What one let statement starting at cursor position `pos` parses to: the
/// statement value and the position of its terminating semicolon token, or
/// nothing if the let-grammar is violated or the semicolon is missing.
pub open spec fn spec_parse_let(s: Seq<char>, pos: nat) -> Option<(SpecLetStatement, nat)> {
    let t = spec_next_token(s, pos);
    let p1 = spec_next_pos(s, pos);
    let t1 = spec_next_token(s, p1);
    let p2 = spec_next_pos(s, p1);
    if t.typee != TokenType::Let {
        None
    } else if t1.typee != TokenType::Ident {
        None
    } else if spec_next_token(s, p2).typee != TokenType::Assign {
        None
    } else {
        match find_semi(s, p2) {
            Some(k) => Some(
                (
                    SpecLetStatement {
                        token: t,
                        name: SpecIdentifier { token: t1, value: t1.literal },
                        value: None,
                    },
                    k,
                ),
            ),
            None => None,
        }
    }
}

/// What one statement starting at cursor position `pos` parses to. Only the
/// `let` kind is routed to a grammar rule; every other kind yields parse
/// failure.
pub open spec fn spec_parse_stmt(s: Seq<char>, pos: nat) -> Option<(SpecStatement, nat)> {
    match spec_parse_let(s, pos) {
        Some((ls, k)) => Some((SpecStatement::Let(ls), k)),
        None => None,
    }
}

pub proof fn lemma_parse_stmt_bounds(s: Seq<char>, pos: nat)
    requires
        pos <= s.len(),
    ensures
        spec_parse_stmt(s, pos) matches Some(r) ==> r.1 <= s.len() && pos < spec_next_pos(s, r.1)
            <= s.len(),
{
    match spec_parse_stmt(s, pos) {
        Some(r) => {
            lemma_next_pos_bounds(s, pos);
            let p1 = spec_next_pos(s, pos);
            lemma_next_pos_bounds(s, p1);
            let p2 = spec_next_pos(s, p1);
            lemma_find_semi_bounds(s, p2);
            lemma_next_pos_bounds(s, r.1);
        },
        None => {},
    }
}

/// What a whole program starting at cursor position `pos` parses to: one
/// statement at a time until the end-of-input token, aborting the whole parse
/// as soon as one statement fails.
pub open spec fn spec_parse_program(s: Seq<char>, pos: nat) -> Option<Seq<SpecStatement>>
    decreases s.len() - pos,
    when pos <= s.len()
    via spec_parse_program_decreases
{
    if spec_next_token(s, pos).typee == TokenType::Eof {
        Some(Seq::empty())
    } else {
        match spec_parse_stmt(s, pos) {
            None => None,
            Some((st, k)) => match spec_parse_program(s, spec_next_pos(s, k)) {
                None => None,
                Some(rest) => Some(seq![st] + rest),
            },
        }
    }
}

#[via_fn]
proof fn spec_parse_program_decreases(s: Seq<char>, pos: nat) {
    lemma_parse_stmt_bounds(s, pos);
}

/// Law: every statement of a parsed program is a let statement whose `let`
/// token carries the keyword's literal, whose bound name is a syntactically
/// valid identifier token with the name's text equal to that token's literal,
/// and whose initializer is the placeholder.
pub proof fn lemma_parsed_names_are_identifiers(s: Seq<char>, pos: nat, sts: Seq<SpecStatement>)
    requires
        pos <= s.len(),
        spec_parse_program(s, pos) == Some(sts),
    ensures
        forall|i: int|
            0 <= i < sts.len() ==> ((#[trigger] sts[i]) matches SpecStatement::Let(ls)
                && ls.token.typee == TokenType::Let && ls.token.literal == seq!['l', 'e', 't']
                && ls.name.token.typee == TokenType::Ident && ls.name.value
                == ls.name.token.literal && ls.value is None),
    decreases s.len() - pos,
{
    if spec_next_token(s, pos).typee == TokenType::Eof {
    } else {
        match spec_parse_stmt(s, pos) {
            Some((st, k)) => {
                lemma_parse_stmt_bounds(s, pos);
                match spec_parse_program(s, spec_next_pos(s, k)) {
                    Some(rest) => {
                        lemma_parsed_names_are_identifiers(s, spec_next_pos(s, k), rest);
                        assert(sts =~= seq![st] + rest);
                        assert forall|i: int| 0 <= i < sts.len() implies ((#[trigger] sts[i])
                            matches SpecStatement::Let(ls) && ls.token.typee == TokenType::Let
                            && ls.token.literal == seq!['l', 'e', 't'] && ls.name.token.typee
                            == TokenType::Ident && ls.name.value == ls.name.token.literal
                            && ls.value is None) by {
                            if i == 0 {
                                assert(sts[0] == st);
                            } else {
                                assert(sts[i] == rest[i - 1]);
                            }
                        }
                    },
                    None => {},
                }
            },
            None => {},
        }
    }
}

/// Recursive-descent parser state: a two-token lookahead window over the
/// tokenizer. The ghost `base` is the cursor position at which the current
/// token begins.
pub struct Parser {
    pub lexer: Lexer,
    pub current_token: Token,
    pub peek_token: Token,
    pub base: Ghost<nat>,
}

impl Parser {
    /// The source the parser reads.
    pub open spec fn src(self) -> Seq<char> {
        self.lexer.input@
    }

    /// The current token begins at `base`, the peek token begins where the
    /// current one ends, and the lexer's cursor stands after the peek token.
    pub open spec fn wf(self) -> bool {
        &&& self.lexer.wf()
        &&& self.base@ <= self.src().len()
        &&& self.current_token@ == spec_next_token(self.src(), self.base@)
        &&& self.peek_token@ == spec_next_token(self.src(), spec_next_pos(self.src(), self.base@))
        &&& self.lexer.position as nat == spec_next_pos(
            self.src(),
            spec_next_pos(self.src(), self.base@),
        )
    }

    /// A parser over the given tokenizer, with the lookahead window filled
    /// from the tokenizer's current cursor.
    pub fn new(lexer: Lexer) -> (p: Parser)
        requires
            lexer.wf(),
        ensures
            p.wf(),
            p.src() == lexer.input@,
            p.base@ == lexer.position as nat,
    {
        let mut lx = lexer;
        let ghost b: nat = lx.position as nat;
        let current_token = lx.next_token();
        let peek_token = lx.next_token();
        Parser { lexer: lx, current_token, peek_token, base: Ghost(b) }
    }

    /// Shift the lookahead window: the peek token becomes current and a fresh
    /// token is pulled into peek.
    pub fn next_token(&mut self)
        requires
            old(self).wf(),
        ensures
            final(self).wf(),
            final(self).src() == old(self).src(),
            final(self).base@ == spec_next_pos(old(self).src(), old(self).base@),
    {
        proof {
            lemma_next_pos_bounds(self.src(), self.base@);
        }
        let ghost nb: nat = spec_next_pos(self.src(), self.base@);
        self.current_token = self.peek_token.clone();
        self.peek_token = self.lexer.next_token();
        self.base = Ghost(nb);
    }

    /// Whether the current token has the given kind.
    pub fn cur_token_is(&self, tok: TokenType) -> (r: bool)
        ensures
            r == (self.current_token@.typee == tok),
    {
        self.current_token.typee == tok
    }

    /// If the peek token has the expected kind, advance onto it and succeed;
    /// otherwise fail without advancing.
    pub fn expect_peek(&mut self, tok: TokenType) -> (r: bool)
        requires
            old(self).wf(),
        ensures
            final(self).wf(),
            final(self).src() == old(self).src(),
            r == (old(self).peek_token@.typee == tok),
            r ==> final(self).base@ == spec_next_pos(old(self).src(), old(self).base@),
            !r ==> *final(self) == *old(self),
    {
        if self.peek_token.typee == tok {
            self.next_token();
            true
        } else {
            false
        }
    }

    /// Parse one let statement, with the current token on the `let` keyword.
    /// On success the current token stands on the terminating semicolon; on a
    /// grammar mismatch, or when the input ends before a semicolon, no
    /// statement is produced.
    pub fn parse_let_statement(&mut self) -> (r: Option<LetStatement>)
        requires
            old(self).wf(),
            old(self).current_token@.typee == TokenType::Let,
        ensures
            final(self).wf(),
            final(self).src() == old(self).src(),
            r matches Some(ls) ==> spec_parse_let(old(self).src(), old(self).base@) == Some(
                (ls@, final(self).base@),
            ),
            r is None ==> spec_parse_let(old(self).src(), old(self).base@) is None,
    {
        let ghost s = old(self).src();
        let ghost b0: nat = old(self).base@;
        let tok = self.current_token.clone();

        if !self.expect_peek(TokenType::Ident) {
            return None;
        }
        let identifier = Identifier {
            token: self.current_token.clone(),
            value: self.current_token.literal.clone(),
        };

        if !self.expect_peek(TokenType::Assign) {
            return None;
        }
        let ghost ab: nat = self.base@;

        proof {
            assert(spec_parse_let(s, b0) == (match find_semi(s, ab) {
                Some(k) => Some(
                    (SpecLetStatement { token: tok@, name: identifier@, value: None }, k),
                ),
                None => None::<(SpecLetStatement, nat)>,
            }));
        }
        // the initializer is not turned into an expression subtree yet: skip
        // its tokens up to and including the terminating semicolon
        loop
            invariant
                self.wf(),
                self.src() == s,
                s == old(self).src(),
                b0 == old(self).base@,
                ab <= s.len(),
                find_semi(s, ab) == find_semi(s, self.base@),
                spec_parse_let(s, b0) == (match find_semi(s, ab) {
                    Some(k) => Some(
                        (SpecLetStatement { token: tok@, name: identifier@, value: None }, k),
                    ),
                    None => None::<(SpecLetStatement, nat)>,
                }),
            ensures
                self.wf(),
                self.src() == s,
                self.current_token@.typee == TokenType::Semicolon,
                find_semi(s, ab) == Some(self.base@),
            decreases s.len() - self.base@,
        {
            if self.cur_token_is(TokenType::Semicolon) {
                break ;
            }
            if self.cur_token_is(TokenType::Eof) {
                // the input ran out before the terminating semicolon
                return None;
            }
            proof {
                lemma_next_pos_bounds(s, self.base@);
            }
            self.next_token();
        }
        Some(LetStatement { token: tok, name: identifier, value: None })
    }

    /// Parse one statement by dispatching on the current token's kind. Only
    /// the `let` kind has a grammar rule; every other kind yields failure.
    pub fn parse_statement(&mut self) -> (r: Option<Statement>)
        requires
            old(self).wf(),
        ensures
            final(self).wf(),
            final(self).src() == old(self).src(),
            r matches Some(st) ==> spec_parse_stmt(old(self).src(), old(self).base@) == Some(
                (st@, final(self).base@),
            ),
            r is None ==> spec_parse_stmt(old(self).src(), old(self).base@) is None,
    {
        match self.current_token.typee {
            TokenType::Let => match self.parse_let_statement() {
                Some(ls) => Some(Statement::Let(ls)),
                None => None,
            },
            _ => None,
        }
    }

    /// Parse a whole program: statements are appended in source order until
    /// the end-of-input token; as soon as one statement fails, the whole
    /// parse yields no Program.
    pub fn parser_program(&mut self) -> (r: Option<Program>)
        requires
            old(self).wf(),
        ensures
            final(self).wf(),
            final(self).src() == old(self).src(),
            r matches Some(p) ==> spec_parse_program(old(self).src(), old(self).base@) == Some(p@),
            r is None ==> spec_parse_program(old(self).src(), old(self).base@) is None,
    {
        let ghost s = old(self).src();
        let ghost b0: nat = old(self).base@;
        let mut program = Program { statements: Vec::new() };
        proof {
            assert(program@ =~= Seq::<SpecStatement>::empty());
            match spec_parse_program(s, b0) {
                Some(rest) => {
                    assert(Seq::<SpecStatement>::empty() + rest =~= rest);
                },
                None => {},
            }
        }
        loop
            invariant
                self.wf(),
                self.src() == s,
                s == old(self).src(),
                b0 == old(self).base@,
                b0 <= s.len(),
                (spec_parse_program(s, b0) is None) == (spec_parse_program(s, self.base@) is None),
                spec_parse_program(s, self.base@) matches Some(rest) ==> spec_parse_program(s, b0)
                    == Some(program@ + rest),
            ensures
                self.wf(),
                self.src() == s,
                self.current_token@.typee == TokenType::Eof,
                (spec_parse_program(s, b0) is None) == (spec_parse_program(s, self.base@) is None),
                spec_parse_program(s, self.base@) matches Some(rest) ==> spec_parse_program(s, b0)
                    == Some(program@ + rest),
            decreases s.len() - self.base@,
        {
            if self.cur_token_is(TokenType::Eof) {
                break ;
            }
            let ghost bi: nat = self.base@;
            let ghost program0 = program@;
            let stmt_opt = self.parse_statement();
            match stmt_opt {
                Some(stmt) => {
                    let ghost k: nat = self.base@;
                    proof {
                        lemma_parse_stmt_bounds(s, bi);
                    }
                    program.statements.push(stmt);
                    self.next_token();
                    proof {
                        assert(program@ =~= program0 + seq![stmt@]);
                        match spec_parse_program(s, self.base@) {
                            Some(rest) => {
                                assert(spec_parse_program(s, bi) == Some(seq![stmt@] + rest));
                                assert(program0 + (seq![stmt@] + rest) =~= (program0 + seq![stmt@])
                                    + rest);
                            },
                            None => {},
                        }
                    }
                },
                None => {
                    return None;
                },
            }
        }
        proof {
            assert(spec_parse_program(s, self.base@) == Some(Seq::<SpecStatement>::empty()));
            assert(program@ + Seq::<SpecStatement>::empty() =~= program@);
        }
        Some(program)
    }
}

} // verus!
