//! The state an interactive session keeps around the machine: the history of
//! entered commands, the session's mode, and the machine itself, together
//! with the session's computations — lexing an assembly line and decoding a
//! hexadecimal byte string.
//!
//! Hexadecimal decoding is specified by [`parse_hex_spec`]: the line is split
//! on single spaces and each group is read as one byte, so an empty line, a
//! group with a stray character, or a group over two digits' worth is a
//! fault.

use vstd::prelude::*;

use crate::lexer::Lexer;
use crate::lexer::init_lexer;
use crate::lexer::lex_line_spec;
use crate::token::Token;
use crate::vm::VM;
use crate::vm::VmState;
use crate::vm::init_state;
use crate::vm::step;

verus! {

/// The mode an interactive session is in.
#[derive(Debug, PartialEq, Eq, Structural, Clone, Copy)]
pub enum Mode {
    /// No mode chosen yet.
    Nil,
    /// Commands are hexadecimal byte strings fed straight to the machine.
    Hex,
    /// Commands are assembly text handed to the lexer.
    Assembly,
}

/// Why a hexadecimal byte string was rejected.
#[derive(Debug, PartialEq, Eq, Structural, Clone, Copy)]
pub enum HexError {
    /// A group was empty.
    Empty,
    /// A character of a group is no hexadecimal digit.
    InvalidDigit,
    /// A group's value does not fit in one byte.
    Overflow,
}

/// One character's effect on a split in progress: a space closes the group
/// being gathered, anything else extends it.
pub open spec fn split_step(groups: Seq<Seq<char>>, cur: Seq<char>, c: char) -> (
    Seq<Seq<char>>,
    Seq<char>,
) {
    if c == ' ' {
        (groups.push(cur), Seq::empty())
    } else {
        (groups, cur.push(c))
    }
}

/// A split folded over a sequence of characters.
pub open spec fn split_fold(s: Seq<char>, groups: Seq<Seq<char>>, cur: Seq<char>) -> (
    Seq<Seq<char>>,
    Seq<char>,
)
    decreases s.len(),
{
    if s.len() == 0 {
        (groups, cur)
    } else {
        let n = split_step(groups, cur, s[0]);
        split_fold(s.drop_first(), n.0, n.1)
    }
}

/// Splitting one more character is one more split step.
pub proof fn lemma_split_fold_snoc(s: Seq<char>, groups: Seq<Seq<char>>, cur: Seq<char>, c: char)
    ensures
        split_fold(s.push(c), groups, cur) == split_step(
            split_fold(s, groups, cur).0,
            split_fold(s, groups, cur).1,
            c,
        ),
    decreases s.len(),
{
    if s.len() == 0 {
        assert(s.push(c)[0] == c);
        assert(s.push(c).drop_first() =~= Seq::<char>::empty());
        let n = split_step(groups, cur, c);
        assert(split_fold(s, groups, cur) == (groups, cur));
        assert(split_fold(s.push(c), groups, cur) == split_fold(
            Seq::<char>::empty(),
            n.0,
            n.1,
        ));
        assert(split_fold(Seq::<char>::empty(), n.0, n.1) == n);
    } else {
        assert(s.push(c)[0] == s[0]);
        assert(s.push(c).drop_first() =~= s.drop_first().push(c));
        let n = split_step(groups, cur, s[0]);
        assert(split_fold(s.push(c), groups, cur) == split_fold(
            s.drop_first().push(c),
            n.0,
            n.1,
        ));
        lemma_split_fold_snoc(s.drop_first(), n.0, n.1, c);
        assert(split_fold(s, groups, cur) == split_fold(s.drop_first(), n.0, n.1));
    }
}

/// The space-separated groups of a line, exactly as splitting on single
/// spaces gives them: an empty line has one empty group, and each space ends
/// a group, so adjacent spaces give empty groups.
pub open spec fn split_spaces(s: Seq<char>) -> Seq<Seq<char>> {
    let r = split_fold(s, Seq::empty(), Seq::empty());
    r.0.push(r.1)
}

/// Whether a character is a hexadecimal digit.
pub open spec fn is_hex_digit(c: char) -> bool {
    ('0' <= c && c <= '9') || ('a' <= c && c <= 'f') || ('A' <= c && c <= 'F')
}

/// The value of a hexadecimal digit.
pub open spec fn hex_digit_value(c: char) -> int
    recommends
        is_hex_digit(c),
{
    if '0' <= c && c <= '9' {
        c as u32 - '0' as u32
    } else if 'a' <= c && c <= 'f' {
        c as u32 - 'a' as u32 + 10
    } else {
        c as u32 - 'A' as u32 + 10
    }
}

/// Reading hexadecimal digits onto an accumulated value, left to right: a
/// character that is no digit is the fault, as is a value growing past one
/// byte.
pub open spec fn parse_hex_digits(s: Seq<char>, acc: int) -> Result<u8, HexError>
    recommends
        0 <= acc <= 255,
    decreases s.len(),
{
    if s.len() == 0 {
        Ok(acc as u8)
    } else if !is_hex_digit(s[0]) {
        Err(HexError::InvalidDigit)
    } else if acc * 16 + hex_digit_value(s[0]) > 255 {
        Err(HexError::Overflow)
    } else {
        parse_hex_digits(s.drop_first(), acc * 16 + hex_digit_value(s[0]))
    }
}

/// One group read as a byte: an optional leading plus sign, then hexadecimal
/// digits. An empty group is its own fault; a sign with nothing after it is
/// an invalid digit.
pub open spec fn parse_hex_byte(s: Seq<char>) -> Result<u8, HexError> {
    if s.len() == 0 {
        Err(HexError::Empty)
    } else if s[0] == '+' {
        if s.len() == 1 {
            Err(HexError::InvalidDigit)
        } else {
            parse_hex_digits(s.drop_first(), 0)
        }
    } else {
        parse_hex_digits(s, 0)
    }
}

/// Every group read as a byte, left to right; the first fault wins.
pub open spec fn parse_groups(gs: Seq<Seq<char>>) -> Result<Seq<u8>, HexError>
    decreases gs.len(),
{
    if gs.len() == 0 {
        Ok(Seq::empty())
    } else {
        match parse_hex_byte(gs[0]) {
            Err(e) => Err(e),
            Ok(b) => match parse_groups(gs.drop_first()) {
                Err(e) => Err(e),
                Ok(rest) => Ok(seq![b] + rest),
            },
        }
    }
}

/// What decoding a hexadecimal byte string yields: the line's groups, each
/// read as one byte.
pub open spec fn parse_hex_spec(s: Seq<char>) -> Result<Seq<u8>, HexError> {
    parse_groups(split_spaces(s))
}

/// The value of one hexadecimal digit character, or nothing.
fn hex_value(c: char) -> (r: Option<u8>)
    ensures
        r is Some <==> is_hex_digit(c),
        r is Some ==> r.unwrap() == hex_digit_value(c),
{
    if '0' <= c && c <= '9' {
        Some((c as u32 - '0' as u32) as u8)
    } else if 'a' <= c && c <= 'f' {
        Some((c as u32 - 'a' as u32 + 10) as u8)
    } else if 'A' <= c && c <= 'F' {
        Some((c as u32 - 'A' as u32 + 10) as u8)
    } else {
        None
    }
}

/// The characters of a line split into groups on single spaces.
fn split_groups(i: &str) -> (r: Vec<Vec<char>>)
    ensures
        r@.map_values(|g: Vec<char>| g@) == split_spaces(i@),
{
    let n = i.unicode_len();
    let mut groups: Vec<Vec<char>> = Vec::new();
    let mut cur: Vec<char> = Vec::new();
    let mut k: usize = 0;
    proof {
        assert(groups@.map_values(|g: Vec<char>| g@) =~= Seq::<Seq<char>>::empty());
        assert(i@.take(0) =~= Seq::<char>::empty());
    }
    while k < n
        invariant
            k <= n,
            n == i@.len(),
            (groups@.map_values(|g: Vec<char>| g@), cur@) == split_fold(
                i@.take(k as int),
                Seq::empty(),
                Seq::empty(),
            ),
        decreases n - k,
    {
        let c = i.get_char(k);
        let ghost prefix = i@.take(k as int);
        proof {
            lemma_split_fold_snoc(prefix, Seq::empty(), Seq::empty(), c);
            assert(prefix.push(c) =~= i@.take(k + 1));
        }
        if c == ' ' {
            let ghost cur_v = cur@;
            let ghost groups_v = groups@.map_values(|g: Vec<char>| g@);
            groups.push(cur);
            cur = Vec::new();
            proof {
                assert(groups@.map_values(|g: Vec<char>| g@) =~= groups_v.push(cur_v));
                assert(cur@ =~= Seq::<char>::empty());
            }
        } else {
            cur.push(c);
        }
        k += 1;
    }
    let ghost groups_v = groups@.map_values(|g: Vec<char>| g@);
    let ghost cur_v = cur@;
    groups.push(cur);
    proof {
        assert(i@.take(n as int) =~= i@);
        assert(groups@.map_values(|g: Vec<char>| g@) =~= groups_v.push(cur_v));
    }
    groups
}

/// One group decoded as a byte.
fn parse_byte_group(g: &Vec<char>) -> (r: Result<u8, HexError>)
    ensures
        r == parse_hex_byte(g@),
{
    let n = g.len();
    if n == 0 {
        return Err(HexError::Empty);
    }
    let mut k: usize = 0;
    if g[0] == '+' {
        if n == 1 {
            return Err(HexError::InvalidDigit);
        }
        k = 1;
    }
    let ghost start = k as int;
    let ghost digits = g@.skip(start);
    proof {
        assert(g@.skip(0) =~= g@);
        assert(g@.skip(1) =~= g@.drop_first());
        assert(parse_hex_byte(g@) == parse_hex_digits(digits, 0));
        assert(digits.skip(0) =~= digits);
    }
    let mut acc: u8 = 0;
    while k < n
        invariant
            start <= k <= n,
            n == g@.len(),
            digits == g@.skip(start),
            0 <= start <= 1,
            parse_hex_byte(g@) == parse_hex_digits(digits.skip(k - start), acc as int),
        decreases n - k,
    {
        let c = g[k];
        let ghost rest = digits.skip(k - start);
        proof {
            assert(rest[0] == g@[k as int]);
            assert(rest.drop_first() =~= digits.skip(k + 1 - start));
        }
        match hex_value(c) {
            None => {
                return Err(HexError::InvalidDigit);
            },
            Some(v) => {
                let wide: u16 = acc as u16 * 16 + v as u16;
                if wide > 255 {
                    return Err(HexError::Overflow);
                }
                acc = wide as u8;
            },
        }
        k += 1;
    }
    proof {
        assert(digits.skip(n - start) =~= Seq::<char>::empty());
    }
    Ok(acc)
}

/// The state of an interactive session: past commands, the chosen mode, and
/// the machine the session drives.
pub struct REPL {
    /// Every command entered so far.
    pub command_buffer: Vec<String>,
    /// The mode the session is in.
    pub mode: Mode,
    /// The machine that executes the entered code.
    pub vm: VM,
}

impl REPL {
    /// A fresh session: no history, no mode chosen, a fresh machine.
    pub fn new() -> (r: REPL)
        ensures
            r.command_buffer@.len() == 0,
            r.mode == Mode::Nil,
            r.vm@ == init_state(),
    {
        REPL { command_buffer: vec![], vm: VM::new(), mode: Mode::Nil }
    }

    /// Switches the session's mode. There is no switching back to the
    /// undecided initial mode.
    pub fn switch_mode(&mut self, mode: Mode)
        requires
            mode != Mode::Nil,
        ensures
            final(self).mode == mode,
            final(self).command_buffer == old(self).command_buffer,
            final(self).vm == old(self).vm,
    {
        self.mode = mode;
    }

    /// Records one entered command in the session's history.
    pub fn record_command(&mut self, cmd: String)
        ensures
            final(self).command_buffer@ == old(self).command_buffer@.push(cmd),
            final(self).mode == old(self).mode,
            final(self).vm == old(self).vm,
    {
        self.command_buffer.push(cmd);
    }

    /// Lexes one line of assembly text with a fresh lexer; the tokens are
    /// returned for the caller to display.
    pub fn assembly_mode(&mut self, buf: &str) -> (r: Vec<Token>)
        ensures
            r@.map_values(|t: Token| t@) == lex_line_spec(init_lexer(), buf@, 1).tokens,
            *final(self) == *old(self),
    {
        let mut lexer = Lexer::new();
        lexer.lex_line(buf, 1);
        lexer.tokens
    }

    /// Decodes a hexadecimal byte string, appends its bytes to the machine's
    /// program, and executes one instruction. A string that does not decode
    /// leaves the program as it stands — the instruction is executed all the
    /// same — and the fault is returned for the caller to report.
    pub fn hex_mode(&mut self, buf: &str) -> (r: Result<(), HexError>)
        ensures
            final(self).mode == old(self).mode,
            final(self).command_buffer == old(self).command_buffer,
            (match parse_hex_spec(buf@) {
                Ok(bytes) => r is Ok && final(self).vm@ == step(
                    VmState { program: old(self).vm@.program + bytes, ..old(self).vm@ },
                ).0,
                Err(e) => r == Err::<(), HexError>(e) && final(self).vm@ == step(
                    old(self).vm@,
                ).0,
            }),
    {
        let results = self.parse_hex(buf);
        let out: Result<(), HexError> = match results {
            Ok(bytes) => {
                let ghost vm0 = self.vm@;
                let m = bytes.len();
                let mut idx: usize = 0;
                proof {
                    assert(vm0.program + bytes@.take(0) =~= vm0.program);
                }
                while idx < m
                    invariant
                        idx <= m,
                        m == bytes@.len(),
                        self.mode == old(self).mode,
                        self.command_buffer == old(self).command_buffer,
                        vm0 == old(self).vm@,
                        self.vm@ == (VmState {
                            program: vm0.program + bytes@.take(idx as int),
                            ..vm0
                        }),
                    decreases m - idx,
                {
                    self.vm.add_byte(bytes[idx]);
                    proof {
                        assert((vm0.program + bytes@.take(idx as int)).push(bytes@[idx as int])
                            =~= vm0.program + bytes@.take(idx + 1));
                    }
                    idx += 1;
                }
                proof {
                    assert(vm0.program + bytes@.take(m as int) =~= vm0.program + bytes@);
                }
                Ok(())
            },
            Err(e) => Err(e),
        };
        let _ = self.vm.run_once();
        out
    }

    /// Decodes a string of space-separated hexadecimal byte groups, without
    /// a leading `0x` — for one load instruction, e.g. `00 01 03 E8`.
    pub fn parse_hex(&mut self, i: &str) -> (r: Result<Vec<u8>, HexError>)
        ensures
            *final(self) == *old(self),
            (match parse_hex_spec(i@) {
                Ok(bytes) => r matches Ok(v) && v@ == bytes,
                Err(e) => r == Err::<Vec<u8>, HexError>(e),
            }),
    {
        let split = split_groups(i);
        let ghost gs = split@.map_values(|g: Vec<char>| g@);
        let mut results: Vec<u8> = Vec::new();
        let m = split.len();
        let mut j: usize = 0;
        proof {
            assert(gs.skip(0) =~= gs);
        }
        while j < m
            invariant
                j <= m,
                m == split@.len(),
                gs == split@.map_values(|g: Vec<char>| g@),
                gs == split_spaces(i@),
                results@.len() == j,
                (match parse_groups(gs.skip(j as int)) {
                    Ok(rest) => parse_groups(gs) == Ok::<Seq<u8>, HexError>(results@ + rest),
                    Err(e) => parse_groups(gs) == Err::<Seq<u8>, HexError>(e),
                }),
            decreases m - j,
        {
            let ghost rest = gs.skip(j as int);
            proof {
                assert(gs[j as int] == split@[j as int]@);
                assert(rest[0] == gs[j as int]);
                assert(rest.drop_first() =~= gs.skip(j + 1));
            }
            let byte = parse_byte_group(&split[j]);
            match byte {
                Ok(result) => {
                    let ghost results_v = results@;
                    results.push(result);
                    proof {
                        if let Ok(tail) = parse_groups(gs.skip(j + 1)) {
                            assert(results_v + (seq![result] + tail) =~= results@ + tail);
                        }
                    }
                },
                Err(error) => {
                    return Err(error);
                },
            }
            j += 1;
        }
        proof {
            assert(gs.skip(m as int) =~= Seq::<Seq<char>>::empty());
            assert(results@ + Seq::<u8>::empty() =~= results@);
        }
        Ok(results)
    }
}

} // verus!
