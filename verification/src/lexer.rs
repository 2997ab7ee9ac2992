//! The tokenizer: converts a source string into a pull-based sequence of
//! tokens. It holds only cursor state over the input; repeated calls after
//! input exhaustion keep returning the end-of-input token.
//!
//! The specification side models the input as a sequence of characters and a
//! cursor position: `spec_next_token` gives the token that starts at (or
//! after, once whitespace is skipped) a position, and `spec_next_pos` the
//! position of the first character after that token.
use vstd::prelude::*;

use crate::token::{SpecToken, Token, TokenType, spec_lookup_ident};

verus! {

/// Whitespace skipped between tokens: space, tab, newline, carriage return.
pub open spec fn is_whitespace(c: char) -> bool {
    c == ' ' || c == '\t' || c == '\n' || c == '\r'
}

/// Characters that may form an identifier: ASCII letters and the underscore.
pub open spec fn is_letter_char(c: char) -> bool {
    (97 <= c as u32 && c as u32 <= 122) || (65 <= c as u32 && c as u32 <= 90) || c as u32 == 95
}

/// Characters that may form an integer literal: ASCII digits.
pub open spec fn is_digit_char(c: char) -> bool {
    48 <= c as u32 && c as u32 <= 57
}

/// The character at a position, with the end of the input (and anything past
/// it) represented by the sentinel character.
pub open spec fn char_at(s: Seq<char>, i: int) -> char {
    if 0 <= i < s.len() {
        s[i]
    } else {
        '\0'
    }
}

/// The first position at or after `pos` whose character is not whitespace
/// (the end of the input counts as not whitespace).
pub open spec fn skip_ws_from(s: Seq<char>, pos: nat) -> nat
    decreases s.len() - pos,
{
    if pos < s.len() && is_whitespace(s[pos as int]) {
        skip_ws_from(s, (pos + 1) as nat)
    } else {
        pos
    }
}

/// Maximal munch of identifier characters: the first position at or after
/// `pos` whose character is not a letter.
pub open spec fn ident_end(s: Seq<char>, pos: nat) -> nat
    decreases s.len() - pos,
{
    if pos < s.len() && is_letter_char(s[pos as int]) {
        ident_end(s, (pos + 1) as nat)
    } else {
        pos
    }
}

/// Maximal munch of digits: the first position at or after `pos` whose
/// character is not a digit.
pub open spec fn num_end(s: Seq<char>, pos: nat) -> nat
    decreases s.len() - pos,
{
    if pos < s.len() && is_digit_char(s[pos as int]) {
        num_end(s, (pos + 1) as nat)
    } else {
        pos
    }
}

/// The token that starts exactly at position `p` (no whitespace skipping),
/// together with the position of the first character after it. At or past the
/// end of the input the token is the end-of-input token and the position does
/// not move.
pub open spec fn scan_at(s: Seq<char>, p: nat) -> (SpecToken, nat) {
    let c = char_at(s, p as int);
    let c2 = char_at(s, p as int + 1);
    if c == '\0' {
        (
            SpecToken { typee: TokenType::Eof, literal: seq!['\0'] },
            if p < s.len() {
                (p + 1) as nat
            } else {
                p
            },
        )
    } else if c == '=' {
        if c2 == '=' {
            (SpecToken { typee: TokenType::Equal, literal: seq!['=', '='] }, (p + 2) as nat)
        } else {
            (SpecToken { typee: TokenType::Assign, literal: seq!['='] }, (p + 1) as nat)
        }
    } else if c == '!' {
        if c2 == '=' {
            (SpecToken { typee: TokenType::NotEqual, literal: seq!['!', '='] }, (p + 2) as nat)
        } else {
            (SpecToken { typee: TokenType::Bang, literal: seq!['!'] }, (p + 1) as nat)
        }
    } else if c == ';' {
        (SpecToken { typee: TokenType::Semicolon, literal: seq![c] }, (p + 1) as nat)
    } else if c == '(' {
        (SpecToken { typee: TokenType::Lparen, literal: seq![c] }, (p + 1) as nat)
    } else if c == ')' {
        (SpecToken { typee: TokenType::Rparen, literal: seq![c] }, (p + 1) as nat)
    } else if c == ',' {
        (SpecToken { typee: TokenType::Comma, literal: seq![c] }, (p + 1) as nat)
    } else if c == '+' {
        (SpecToken { typee: TokenType::Plus, literal: seq![c] }, (p + 1) as nat)
    } else if c == '-' {
        (SpecToken { typee: TokenType::Minus, literal: seq![c] }, (p + 1) as nat)
    } else if c == '/' {
        (SpecToken { typee: TokenType::Slash, literal: seq![c] }, (p + 1) as nat)
    } else if c == '*' {
        (SpecToken { typee: TokenType::Asterisk, literal: seq![c] }, (p + 1) as nat)
    } else if c == '<' {
        (SpecToken { typee: TokenType::Lt, literal: seq![c] }, (p + 1) as nat)
    } else if c == '>' {
        (SpecToken { typee: TokenType::Gt, literal: seq![c] }, (p + 1) as nat)
    } else if c == '{' {
        (SpecToken { typee: TokenType::Lbrace, literal: seq![c] }, (p + 1) as nat)
    } else if c == '}' {
        (SpecToken { typee: TokenType::Rbrace, literal: seq![c] }, (p + 1) as nat)
    } else if is_letter_char(c) {
        let e = ident_end(s, p);
        let lit = s.subrange(p as int, e as int);
        (SpecToken { typee: spec_lookup_ident(lit), literal: lit }, e)
    } else if is_digit_char(c) {
        let e = num_end(s, p);
        (SpecToken { typee: TokenType::Int, literal: s.subrange(p as int, e as int) }, e)
    } else {
        (SpecToken { typee: TokenType::Illegal, literal: seq![c] }, (p + 1) as nat)
    }
}

/// The next token produced from cursor position `pos`: whitespace is skipped,
/// then one token is classified.
pub open spec fn spec_next_token(s: Seq<char>, pos: nat) -> SpecToken {
    scan_at(s, skip_ws_from(s, pos)).0
}

/// The cursor position after producing the next token from position `pos`.
pub open spec fn spec_next_pos(s: Seq<char>, pos: nat) -> nat {
    scan_at(s, skip_ws_from(s, pos)).1
}

pub proof fn lemma_skip_ws_bounds(s: Seq<char>, pos: nat)
    requires
        pos <= s.len(),
    ensures
        pos <= skip_ws_from(s, pos) <= s.len(),
    decreases s.len() - pos,
{
    if pos < s.len() && is_whitespace(s[pos as int]) {
        lemma_skip_ws_bounds(s, (pos + 1) as nat);
    }
}

pub proof fn lemma_ident_end_bounds(s: Seq<char>, pos: nat)
    requires
        pos <= s.len(),
    ensures
        pos <= ident_end(s, pos) <= s.len(),
    decreases s.len() - pos,
{
    if pos < s.len() && is_letter_char(s[pos as int]) {
        lemma_ident_end_bounds(s, (pos + 1) as nat);
    }
}

pub proof fn lemma_num_end_bounds(s: Seq<char>, pos: nat)
    requires
        pos <= s.len(),
    ensures
        pos <= num_end(s, pos) <= s.len(),
    decreases s.len() - pos,
{
    if pos < s.len() && is_digit_char(s[pos as int]) {
        lemma_num_end_bounds(s, (pos + 1) as nat);
    }
}

/// An interval of letters followed by a non-letter (or the end of the input)
/// is exactly what the identifier munch covers.
proof fn lemma_ident_end_interval(s: Seq<char>, a: nat, b: nat)
    requires
        a <= b <= s.len(),
        forall|i: int| a <= i < b ==> is_letter_char(s[i]),
        b < s.len() ==> !is_letter_char(s[b as int]),
    ensures
        ident_end(s, a) == b,
    decreases b - a,
{
    if a < b {
        lemma_ident_end_interval(s, (a + 1) as nat, b);
    }
}

/// An interval of digits followed by a non-digit (or the end of the input)
/// is exactly what the digit munch covers.
proof fn lemma_num_end_interval(s: Seq<char>, a: nat, b: nat)
    requires
        a <= b <= s.len(),
        forall|i: int| a <= i < b ==> is_digit_char(s[i]),
        b < s.len() ==> !is_digit_char(s[b as int]),
    ensures
        num_end(s, a) == b,
    decreases b - a,
{
    if a < b {
        lemma_num_end_interval(s, (a + 1) as nat, b);
    }
}

/// Producing a token never moves the cursor backwards or past the end of the
/// input, and every token other than the end-of-input token consumes at least
/// one character.
pub proof fn lemma_next_pos_bounds(s: Seq<char>, pos: nat)
    requires
        pos <= s.len(),
    ensures
        pos <= spec_next_pos(s, pos) <= s.len(),
        spec_next_token(s, pos).typee != TokenType::Eof ==> pos < spec_next_pos(s, pos),
{
    lemma_skip_ws_bounds(s, pos);
    let p = skip_ws_from(s, pos);
    if p < s.len() {
        if is_letter_char(s[p as int]) {
            lemma_ident_end_bounds(s, (p + 1) as nat);
        }
        if is_digit_char(s[p as int]) {
            lemma_num_end_bounds(s, (p + 1) as nat);
        }
    }
}

/// Law: when the character after skipped whitespace is `=`, the combined
/// equality token is produced exactly when the character immediately after it
/// is a second `=`; otherwise the `=` alone becomes the assignment token.
pub proof fn lemma_assign_vs_equality(s: Seq<char>, pos: nat)
    requires
        char_at(s, skip_ws_from(s, pos) as int) == '=',
    ensures
        char_at(s, skip_ws_from(s, pos) as int + 1) == '=' ==> spec_next_token(s, pos) == (
        SpecToken { typee: TokenType::Equal, literal: seq!['=', '='] }) && spec_next_pos(s, pos)
            == skip_ws_from(s, pos) + 2,
        char_at(s, skip_ws_from(s, pos) as int + 1) != '=' ==> spec_next_token(s, pos) == (
        SpecToken { typee: TokenType::Assign, literal: seq!['='] }) && spec_next_pos(s, pos)
            == skip_ws_from(s, pos) + 1,
{
}

/// Law: when the character after skipped whitespace is `!`, the combined
/// inequality token is produced exactly when the character immediately after
/// it is `=`; otherwise the `!` alone becomes the bang token.
pub proof fn lemma_bang_vs_inequality(s: Seq<char>, pos: nat)
    requires
        char_at(s, skip_ws_from(s, pos) as int) == '!',
    ensures
        char_at(s, skip_ws_from(s, pos) as int + 1) == '=' ==> spec_next_token(s, pos) == (
        SpecToken { typee: TokenType::NotEqual, literal: seq!['!', '='] }) && spec_next_pos(s, pos)
            == skip_ws_from(s, pos) + 2,
        char_at(s, skip_ws_from(s, pos) as int + 1) != '=' ==> spec_next_token(s, pos) == (
        SpecToken { typee: TokenType::Bang, literal: seq!['!'] }) && spec_next_pos(s, pos)
            == skip_ws_from(s, pos) + 1,
{
}

/// Law: once the cursor is at or past the end of the input, every further
/// call produces the end-of-input token and the cursor does not move, so the
/// tokenizer keeps returning the end-of-input token forever.
pub proof fn lemma_end_of_input_idempotent(s: Seq<char>, pos: nat)
    requires
        pos >= s.len(),
    ensures
        spec_next_token(s, pos) == (SpecToken { typee: TokenType::Eof, literal: seq!['\0'] }),
        spec_next_pos(s, pos) == pos,
{
}

/// Cursor state over one source string. `position` is the index of the
/// current character, `ch` the character itself (the sentinel at the end),
/// and `read_position` the index used to look one character ahead.
#[derive(Debug)]
pub struct Lexer {
    pub input: String,
    pub position: usize,
    pub read_position: usize,
    pub ch: char,
}

impl Lexer {
    /// The cursor is inside the input (the end counts), the lookahead index
    /// is one past it (clamped to the end), and `ch` caches the current
    /// character.
    pub open spec fn wf(self) -> bool {
        &&& self.position <= self.input@.len()
        &&& self.read_position as int == if self.position < self.input@.len() {
            self.position as int + 1
        } else {
            self.input@.len() as int
        }
        &&& self.ch == char_at(self.input@, self.position as int)
    }

    /// A tokenizer over `input`, with the cursor on the first character.
    pub fn new(input: &str) -> (l: Lexer)
        ensures
            l.wf(),
            l.input@ == input@,
            l.position == 0,
    {
        let mut result = Lexer { input: input.to_owned(), position: 0, read_position: 0, ch: '\0' };
        result.read_char();
        result
    }

    /// Advance the cursor by one character; at the end of the input the
    /// cursor stays and the sentinel is kept.
    pub fn read_char(&mut self)
        requires
            old(self).read_position <= old(self).input@.len(),
        ensures
            final(self).wf(),
            final(self).input@ == old(self).input@,
            final(self).position == old(self).read_position,
    {
        self.position = self.read_position;
        let n = self.input.as_str().unicode_len();
        if self.read_position < n {
            self.ch = self.input.as_str().get_char(self.read_position);
            self.read_position = self.read_position + 1;
        } else {
            self.ch = '\0';
        }
    }

    /// The character one past the cursor, or the sentinel at the end.
    pub fn peek_char(&self) -> (c: char)
        requires
            self.wf(),
        ensures
            c == char_at(self.input@, self.position as int + 1),
    {
        let n = self.input.as_str().unicode_len();
        if self.read_position < n {
            self.input.as_str().get_char(self.read_position)
        } else {
            '\0'
        }
    }

    /// Whether `ch` may appear in an identifier.
    pub fn is_letter(ch: char) -> (r: bool)
        ensures
            r == is_letter_char(ch),
    {
        let u = ch as u32;
        (97 <= u && u <= 122) || (65 <= u && u <= 90) || u == 95
    }

    /// Whether `ch` is an ASCII digit.
    pub fn is_digit(ch: char) -> (r: bool)
        ensures
            r == is_digit_char(ch),
    {
        let u = ch as u32;
        48 <= u && u <= 57
    }

    /// Extend a maximal-munch span from the cursor while `pred` accepts the
    /// current character, and return the spanned substring. The ghost
    /// predicate `p` names what `pred` decides; it must reject the sentinel.
    pub fn character_identifying<F: Fn(char) -> bool>(
        &mut self,
        pred: F,
        Ghost(p): Ghost<spec_fn(char) -> bool>,
    ) -> (r: String)
        requires
            old(self).wf(),
            forall|c: char| #[trigger] call_requires(pred, (c,)),
            forall|c: char, b: bool| #[trigger] call_ensures(pred, (c,), b) ==> b == p(c),
            !p('\0'),
        ensures
            final(self).wf(),
            final(self).input@ == old(self).input@,
            old(self).position <= final(self).position <= final(self).input@.len(),
            forall|i: int|
                old(self).position <= i < final(self).position ==> p(final(self).input@[i]),
            final(self).position < final(self).input@.len() ==> !p(
                final(self).input@[final(self).position as int],
            ),
            r@ == final(self).input@.subrange(
                old(self).position as int,
                final(self).position as int,
            ),
    {
        let position = self.position;
        loop
            invariant
                self.wf(),
                self.input@ == old(self).input@,
                position <= self.position <= self.input@.len(),
                forall|i: int| position <= i < self.position ==> p(self.input@[i]),
                forall|c: char| #[trigger] call_requires(pred, (c,)),
                forall|c: char, b: bool| #[trigger] call_ensures(pred, (c,), b) ==> b == p(c),
                !p('\0'),
            ensures
                self.wf(),
                self.input@ == old(self).input@,
                position <= self.position <= self.input@.len(),
                forall|i: int| position <= i < self.position ==> p(self.input@[i]),
                self.position < self.input@.len() ==> !p(self.input@[self.position as int]),
            decreases self.input@.len() - self.position,
        {
            let cont = pred(self.ch);
            if !cont {
                break ;
            }
            self.read_char();
        }
        self.input.as_str().substring_char(position, self.position).to_owned()
    }

    /// Read a maximal identifier span starting at the cursor.
    pub fn read_identifier(&mut self) -> (r: String)
        requires
            old(self).wf(),
        ensures
            final(self).wf(),
            final(self).input@ == old(self).input@,
            final(self).position as nat == ident_end(final(self).input@, old(self).position as nat),
            r@ == final(self).input@.subrange(
                old(self).position as int,
                final(self).position as int,
            ),
    {
        let pred = |c: char| -> (b: bool)
            ensures
                b == is_letter_char(c),
            { Lexer::is_letter(c) };
        let r = self.character_identifying(pred, Ghost(|c: char| is_letter_char(c)));
        proof {
            lemma_ident_end_interval(
                self.input@,
                old(self).position as nat,
                self.position as nat,
            );
        }
        r
    }

    /// Read a maximal digit span starting at the cursor.
    pub fn read_number(&mut self) -> (r: String)
        requires
            old(self).wf(),
        ensures
            final(self).wf(),
            final(self).input@ == old(self).input@,
            final(self).position as nat == num_end(final(self).input@, old(self).position as nat),
            r@ == final(self).input@.subrange(
                old(self).position as int,
                final(self).position as int,
            ),
    {
        let pred = |c: char| -> (b: bool)
            ensures
                b == is_digit_char(c),
            { Lexer::is_digit(c) };
        let r = self.character_identifying(pred, Ghost(|c: char| is_digit_char(c)));
        proof {
            lemma_num_end_interval(self.input@, old(self).position as nat, self.position as nat);
        }
        r
    }

    /// Move the cursor past any whitespace.
    pub fn skip_whitespace(&mut self)
        requires
            old(self).wf(),
        ensures
            final(self).wf(),
            final(self).input@ == old(self).input@,
            final(self).position as nat == skip_ws_from(
                old(self).input@,
                old(self).position as nat,
            ),
    {
        while self.ch == ' ' || self.ch == '\t' || self.ch == '\n' || self.ch == '\r'
            invariant
                self.wf(),
                self.input@ == old(self).input@,
                skip_ws_from(self.input@, self.position as nat) == skip_ws_from(
                    old(self).input@,
                    old(self).position as nat,
                ),
            decreases self.input@.len() - self.position,
        {
            self.read_char();
        }
    }

    /// Consume the two characters of a combined operator and build its token.
    pub fn consume_two_chars(&mut self, token_type: TokenType, literal: &str) -> (t: Token)
        requires
            old(self).wf(),
            old(self).position + 1 < old(self).input@.len(),
        ensures
            final(self).wf(),
            final(self).input@ == old(self).input@,
            final(self).position == old(self).position + 2,
            t@ == (SpecToken { typee: token_type, literal: literal@ }),
    {
        self.read_char();
        self.read_char();
        Token::new(token_type, literal)
    }

    /// Produce the next token and advance the cursor past it. Exactly one
    /// token is returned per call; after the input is exhausted every call
    /// returns the end-of-input token.
    pub fn next_token(&mut self) -> (t: Token)
        requires
            old(self).wf(),
        ensures
            final(self).wf(),
            final(self).input@ == old(self).input@,
            t@ == spec_next_token(old(self).input@, old(self).position as nat),
            final(self).position as nat == spec_next_pos(
                old(self).input@,
                old(self).position as nat,
            ),
    {
        let ghost s = old(self).input@;
        let ghost pos0 = old(self).position as nat;
        self.skip_whitespace();
        let ghost p = self.position as nat;

        let tok_type: TokenType = match self.ch {
            '=' => {
                if self.peek_char() == '=' {
                    let t = self.consume_two_chars(TokenType::Equal, "==");
                    proof {
                        reveal_strlit("==");
                        assert(("==")@ =~= seq!['=', '=']);
                        assert(t@ =~= spec_next_token(s, pos0));
                    }
                    return t;
                }
                TokenType::Assign
            },
            ';' => TokenType::Semicolon,
            '(' => TokenType::Lparen,
            ')' => TokenType::Rparen,
            ',' => TokenType::Comma,
            '+' => TokenType::Plus,
            '-' => TokenType::Minus,
            '!' => {
                if self.peek_char() == '=' {
                    let t = self.consume_two_chars(TokenType::NotEqual, "!=");
                    proof {
                        reveal_strlit("!=");
                        assert(("!=")@ =~= seq!['!', '=']);
                        assert(t@ =~= spec_next_token(s, pos0));
                    }
                    return t;
                }
                TokenType::Bang
            },
            '/' => TokenType::Slash,
            '*' => TokenType::Asterisk,
            '<' => TokenType::Lt,
            '>' => TokenType::Gt,
            '{' => TokenType::Lbrace,
            '}' => TokenType::Rbrace,
            '\0' => {
                self.read_char();
                let t = Token::new(TokenType::Eof, "\0");
                proof {
                    reveal_strlit("\0");
                    assert(("\0")@ =~= seq!['\0']);
                    assert(t@ =~= spec_next_token(s, pos0));
                }
                return t;
            },
            _ => {
                if Lexer::is_letter(self.ch) {
                    let ident = self.read_identifier();
                    let ty = Token::lookup_ident(ident.as_str());
                    let t = Token::new(ty, ident.as_str());
                    proof {
                        assert(t@ =~= spec_next_token(s, pos0));
                    }
                    return t;
                } else if Lexer::is_digit(self.ch) {
                    let num = self.read_number();
                    let t = Token::new(TokenType::Int, num.as_str());
                    proof {
                        assert(t@ =~= spec_next_token(s, pos0));
                    }
                    return t;
                } else {
                    // an unrecognized character: surface it as an illegal
                    // token and advance past it, so tokenizing never aborts
                    let t = Token::new(
                        TokenType::Illegal,
                        self.input.as_str().substring_char(self.position, self.read_position),
                    );
                    self.read_char();
                    proof {
                        assert(t@.literal =~= seq![char_at(s, p as int)]);
                        assert(t@ =~= spec_next_token(s, pos0));
                    }
                    return t;
                }
            },
        };
        let t = Token::new(
            tok_type,
            self.input.as_str().substring_char(self.position, self.read_position),
        );
        self.read_char();
        proof {
            assert(t@.literal =~= seq![char_at(s, p as int)]);
            assert(t@ =~= spec_next_token(s, pos0));
        }
        t
    }
}

} // verus!
