//! The lexer: a character-driven state machine that turns a line of assembly
//! text into tokens, recording faults as it goes.
//!
//! The machine's behaviour is the spec function [`lex_step`] (one character),
//! folded over a line by [`lex_chars`] and closed off by [`finish_step`]:
//! each executable method is proved to perform exactly its spec counterpart.

use vstd::prelude::*;

use crate::token::Error;
use crate::token::LexerError;
use crate::token::Token;
use crate::token::TokenType;
use crate::token::TokenTypeV;
use crate::token::TokenV;

verus! {

/// What the machine has partially recognized so far.
#[derive(Debug, PartialEq, Eq, Structural, Clone, Copy)]
pub enum State {
    /// No pattern detected.
    S,
    /// Part of a number detected.
    D,
    /// Part of an opcode detected.
    O,
    /// Inside a comment.
    C,
}

/// The mathematical state of a lexer.
pub struct LexerV {
    pub state: State,
    pub val: Seq<char>,
    pub tokens: Seq<TokenV>,
    pub errors: Seq<Error>,
}

/// Whether a character may continue an opcode.
pub open spec fn is_letter(c: char) -> bool {
    ('a' <= c && c <= 'z') || ('A' <= c && c <= 'Z')
}

/// Whether a character may start a number.
pub open spec fn is_nonzero_digit(c: char) -> bool {
    '1' <= c && c <= '9'
}

/// Whether a character may continue a number.
pub open spec fn is_digit(c: char) -> bool {
    '0' <= c && c <= '9'
}

/// The transition out of the neutral state on one character.
pub open spec fn s_step(l: LexerV, c: char, line: usize) -> LexerV {
    if is_letter(c) {
        LexerV { state: State::O, val: l.val.push(c), ..l }
    } else if is_nonzero_digit(c) {
        LexerV { state: State::D, val: l.val.push(c), ..l }
    } else if c == '$' {
        LexerV {
            tokens: l.tokens.push(TokenV { token: TokenTypeV::Register, line: line as nat }),
            ..l
        }
    } else if c == '#' {
        LexerV {
            tokens: l.tokens.push(TokenV { token: TokenTypeV::IntOperand, line: line as nat }),
            ..l
        }
    } else if c == '<' {
        LexerV { state: State::C, ..l }
    } else if c == '\n' || c == '\r' || c == ' ' {
        l
    } else if c == '>' {
        LexerV { errors: l.errors.push(Error::CommentError(line)), ..l }
    } else {
        LexerV { errors: l.errors.push(Error::TokenError(line, c)), ..l }
    }
}

/// The lexer after emitting the gathered value as a token and returning to
/// the neutral state.
pub open spec fn emit_reset(l: LexerV, t: TokenTypeV, line: usize) -> LexerV {
    LexerV {
        state: State::S,
        val: Seq::empty(),
        tokens: l.tokens.push(TokenV { token: t, line: line as nat }),
        errors: l.errors,
    }
}

/// The transition of the machine on one character, from any state. A
/// character that ends a gathered opcode or number emits it and is then read
/// again from the neutral state.
pub open spec fn lex_step(l: LexerV, c: char, line: usize) -> LexerV {
    match l.state {
        State::S => s_step(l, c, line),
        State::O => if is_letter(c) {
            LexerV { val: l.val.push(c), ..l }
        } else {
            s_step(emit_reset(l, TokenTypeV::Opcode(l.val), line), c, line)
        },
        State::D => if is_digit(c) {
            LexerV { val: l.val.push(c), ..l }
        } else {
            s_step(emit_reset(l, TokenTypeV::Number(l.val), line), c, line)
        },
        State::C => if c == '>' {
            LexerV { state: State::S, ..l }
        } else {
            l
        },
    }
}

/// The transition on the last character of a line: the ordinary step,
/// followed by flushing a still-gathered opcode or number (without resetting
/// the machine), or by recording the fault of a comment the line never
/// closes.
pub open spec fn finish_step(l: LexerV, c: char, line: usize) -> LexerV {
    let m = lex_step(l, c, line);
    match m.state {
        State::S => m,
        State::D => LexerV {
            tokens: m.tokens.push(TokenV { token: TokenTypeV::Number(m.val), line: line as nat }),
            ..m
        },
        State::O => LexerV {
            tokens: m.tokens.push(TokenV { token: TokenTypeV::Opcode(m.val), line: line as nat }),
            ..m
        },
        State::C => if c != '>' {
            LexerV { errors: m.errors.push(Error::CommentError(line)), ..m }
        } else {
            m
        },
    }
}

/// The machine folded over a sequence of characters.
pub open spec fn lex_chars(l: LexerV, s: Seq<char>, line: usize) -> LexerV
    decreases s.len(),
{
    if s.len() == 0 {
        l
    } else {
        lex_chars(lex_step(l, s[0], line), s.drop_first(), line)
    }
}

/// Folding over one more character is one more step.
pub proof fn lemma_lex_chars_snoc(l: LexerV, s: Seq<char>, c: char, line: usize)
    ensures
        lex_chars(l, s.push(c), line) == lex_step(lex_chars(l, s, line), c, line),
    decreases s.len(),
{
    if s.len() == 0 {
        assert(s.push(c)[0] == c);
        assert(s.push(c).drop_first() =~= Seq::<char>::empty());
        assert(lex_chars(l, s.push(c), line) == lex_chars(
            lex_step(l, c, line),
            Seq::<char>::empty(),
            line,
        ));
        assert(lex_chars(lex_step(l, c, line), Seq::<char>::empty(), line) == lex_step(
            l,
            c,
            line,
        ));
        assert(lex_chars(l, s, line) == l);
    } else {
        assert(s.push(c)[0] == s[0]);
        assert(s.push(c).drop_first() =~= s.drop_first().push(c));
        assert(lex_chars(l, s.push(c), line) == lex_chars(
            lex_step(l, s[0], line),
            s.drop_first().push(c),
            line,
        ));
        lemma_lex_chars_snoc(lex_step(l, s[0], line), s.drop_first(), c, line);
        assert(lex_chars(l, s, line) == lex_chars(
            lex_step(l, s[0], line),
            s.drop_first(),
            line,
        ));
    }
}

/// What lexing one whole line does: every character but the last is an
/// ordinary step, and the last is the finishing step.
pub open spec fn lex_line_spec(l: LexerV, s: Seq<char>, line: usize) -> LexerV {
    if s.len() == 0 {
        l
    } else {
        finish_step(lex_chars(l, s.take(s.len() - 1), line), s.last(), line)
    }
}

/// A lexer with an end-of-input token appended.
pub open spec fn with_eof(l: LexerV, line: usize) -> LexerV {
    LexerV {
        tokens: l.tokens.push(TokenV { token: TokenTypeV::Eof, line: line as nat }),
        ..l
    }
}

/// The state of a lexer that was just created.
pub open spec fn init_lexer() -> LexerV {
    LexerV { state: State::S, val: Seq::empty(), tokens: Seq::empty(), errors: Seq::empty() }
}

/// A measure for the state machine's one re-read: the neutral state never
/// re-reads, so it ranks below every other.
pub open spec fn state_rank(st: State) -> int {
    if st == State::S {
        0
    } else {
        1
    }
}

/// Relies on String::push: appends exactly the one character.
#[verifier::external_body]
fn push_char(s: &mut String, c: char)
    ensures
        final(s)@ == old(s)@.push(c),
{
    s.push(c);
}

/// The lexer.
pub struct Lexer {
    pub state: State,
    pub val: String,
    pub tokens: Vec<Token>,
    pub errors: Vec<LexerError>,
}

impl View for Lexer {
    type V = LexerV;

    open spec fn view(&self) -> LexerV {
        LexerV {
            state: self.state,
            val: self.val@,
            tokens: self.tokens@.map_values(|t: Token| t@),
            errors: self.errors@.map_values(|e: LexerError| e@),
        }
    }
}

impl Lexer {
    /// A fresh lexer: neutral state, nothing gathered, no tokens, no faults.
    pub fn new() -> (l: Lexer)
        ensures
            l@ == init_lexer(),
    {
        let l = Lexer {
            state: State::S,
            val: String::new(),
            tokens: Vec::new(),
            errors: Vec::new(),
        };
        proof {
            assert(l@.tokens =~= init_lexer().tokens);
            assert(l@.errors =~= init_lexer().errors);
            assert(l@.val =~= init_lexer().val);
        }
        l
    }

    /// Lexes one line of text, reported as `line_number` in tokens and
    /// faults.
    pub fn lex_line(&mut self, line: &str, line_number: usize)
        ensures
            final(self)@ == lex_line_spec(old(self)@, line@, line_number),
    {
        let ghost s0 = old(self)@;
        let n = line.unicode_len();
        let mut i: usize = 0;
        while i < n
            invariant
                s0 == old(self)@,
                n == line@.len(),
                i <= n,
                i < n || n == 0 ==> self@ == lex_chars(s0, line@.take(i as int), line_number),
                i == n && n > 0 ==> self@ == lex_line_spec(s0, line@, line_number),
            decreases n - i,
        {
            let c = line.get_char(i);
            let ghost prefix = line@.take(i as int);
            if i + 1 == n {
                self.final_iteration(c, line_number);
                proof {
                    assert(prefix =~= line@.take(line@.len() - 1));
                    assert(c == line@.last());
                }
            } else {
                self.next_state(c, line_number);
                proof {
                    lemma_lex_chars_snoc(s0, prefix, c, line_number);
                    assert(prefix.push(c) =~= line@.take(i + 1));
                }
            }
            i += 1;
        }
    }

    /// Lexes a single line and closes the stream with an end-of-input token.
    pub fn lex_single_line(&mut self, line: &str)
        ensures
            final(self)@ == with_eof(lex_line_spec(old(self)@, line@, 1), 1),
    {
        self.lex_line(line, 1);
        self.add_token(TokenType::EOF, 1);
    }

    /// One transition of the state machine.
    fn next_state(&mut self, c: char, line_number: usize)
        ensures
            final(self)@ == lex_step(old(self)@, c, line_number),
        decreases state_rank(old(self).state), 2int,
    {
        match self.state {
            State::S => self.s_state_transition(c, line_number),
            State::D => self.d_state_transition(c, line_number),
            State::O => self.o_state_transition(c, line_number),
            State::C => self.c_state_transition(c),
        }
    }

    /// The transition out of the neutral state.
    fn s_state_transition(&mut self, c: char, line: usize)
        ensures
            final(self)@ == s_step(old(self)@, c, line),
    {
        if ('a' <= c && c <= 'z') || ('A' <= c && c <= 'Z') {
            push_char(&mut self.val, c);
            self.state = State::O;
        } else if '1' <= c && c <= '9' {
            push_char(&mut self.val, c);
            self.state = State::D;
        } else if c == '$' {
            self.add_token(TokenType::REGISTER, line);
        } else if c == '#' {
            self.add_token(TokenType::IntOperand, line);
        } else if c == '<' {
            self.state = State::C;
        } else if c == '\n' || c == '\r' || c == ' ' {
        } else if c == '>' {
            self.push_error(LexerError::new(Error::CommentError(line)));
        } else {
            self.push_error(LexerError::new(Error::TokenError(line, c)));
        }
    }

    /// The transition while an opcode is being gathered.
    fn o_state_transition(&mut self, c: char, line: usize)
        requires
            old(self).state == State::O,
        ensures
            final(self)@ == lex_step(old(self)@, c, line),
        decreases state_rank(old(self).state), 1int,
    {
        if ('a' <= c && c <= 'z') || ('A' <= c && c <= 'Z') {
            push_char(&mut self.val, c);
        } else {
            let t = TokenType::OPCODE(self.val.clone());
            self.reset_and_add_token(t, line, c);
        }
    }

    /// The transition while a number is being gathered.
    fn d_state_transition(&mut self, c: char, line: usize)
        requires
            old(self).state == State::D,
        ensures
            final(self)@ == lex_step(old(self)@, c, line),
        decreases state_rank(old(self).state), 1int,
    {
        if '0' <= c && c <= '9' {
            push_char(&mut self.val, c);
        } else {
            let t = TokenType::NUMBER(self.val.clone());
            self.reset_and_add_token(t, line, c);
        }
    }

    /// The transition inside a comment.
    fn c_state_transition(&mut self, c: char)
        requires
            old(self).state == State::C,
        ensures
            final(self)@ == (if c == '>' {
                LexerV { state: State::S, ..old(self)@ }
            } else {
                old(self)@
            }),
    {
        if c == '>' {
            self.state = State::S;
        }
    }

    /// One transition of the last character of a line: the ordinary step,
    /// then the flush of whatever is still gathered.
    fn final_iteration(&mut self, c: char, line: usize)
        ensures
            final(self)@ == finish_step(old(self)@, c, line),
    {
        self.next_state(c, line);
        match self.state {
            State::S => (),
            State::D => {
                let t = TokenType::NUMBER(self.val.clone());
                self.add_token(t, line);
            },
            State::O => {
                let t = TokenType::OPCODE(self.val.clone());
                self.add_token(t, line);
            },
            State::C => {
                if c != '>' {
                    self.push_error(LexerError::new(Error::CommentError(line)));
                }
            },
        }
    }

    /// Emits one token.
    fn add_token(&mut self, token_type: TokenType, line: usize)
        ensures
            final(self)@ == (LexerV {
                tokens: old(self)@.tokens.push(
                    TokenV { token: token_type@, line: line as nat },
                ),
                ..old(self)@
            }),
    {
        let t = Token::new(token_type, line);
        let ghost tv = t@;
        self.tokens.push(t);
        proof {
            assert(self.tokens@.map_values(|t: Token| t@) =~= old(self)@.tokens.push(tv));
        }
    }

    /// Records one fault.
    fn push_error(&mut self, e: LexerError)
        ensures
            final(self)@ == (LexerV { errors: old(self)@.errors.push(e@), ..old(self)@ }),
    {
        let ghost ev = e@;
        self.errors.push(e);
        proof {
            assert(self.errors@.map_values(|e: LexerError| e@) =~= old(self)@.errors.push(ev));
        }
    }

    /// Emits the gathered value as a token, resets the machine, and reads
    /// the ending character again from the neutral state.
    fn reset_and_add_token(&mut self, token_type: TokenType, line: usize, c: char)
        requires
            old(self).state != State::S,
        ensures
            final(self)@ == s_step(emit_reset(old(self)@, token_type@, line), c, line),
        decreases state_rank(old(self).state), 0int,
    {
        self.add_token(token_type, line);
        self.reset_values();
        self.next_state(c, line);
    }

    /// Returns the machine to the neutral state with nothing gathered.
    fn reset_values(&mut self)
        ensures
            final(self)@ == (LexerV { state: State::S, val: Seq::empty(), ..old(self)@ }),
    {
        self.val = String::new();
        self.state = State::S;
    }
}

} // verus!
