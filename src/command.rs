//! Parsing of one input line into a command with its resolved range.

use vstd::prelude::*;

use crate::address::{range_value, resolve_range};
use crate::text::{alphabetic, chars_of, is_alphabetic, trim, trimmed};

verus! {

/// The five operations that act on a range of the buffer.
#[derive(Clone, Copy, Debug, PartialEq, Eq, Structural)]
pub enum Op {
    Print,
    Delete,
    Append,
    Insert,
    Change,
}

/// One parsed input line.
#[derive(Clone, Copy, Debug, PartialEq, Eq, Structural)]
pub enum Command {
    /// A line with nothing but white space: ignored.
    Blank,
    /// `q`: end the session.
    Quit,
    /// `w`: save the buffer.
    Write,
    /// A range operation with its resolved 1-based range.
    Edit { op: Op, start: usize, end: usize },
    /// Any other command letter; for a line without a letter, its first
    /// character.
    Unknown(char),
}

/// The operation that a command letter names, if any.
pub open spec fn op_of(c: char) -> Option<Op> {
    if c == 'p' {
        Some(Op::Print)
    } else if c == 'd' {
        Some(Op::Delete)
    } else if c == 'a' {
        Some(Op::Append)
    } else if c == 'i' {
        Some(Op::Insert)
    } else if c == 'c' {
        Some(Op::Change)
    } else {
        None
    }
}

/// The first index at or after `i` that holds an alphabetic character, or
/// `t.len()` if there is none.
pub open spec fn alpha_index_from(t: Seq<char>, i: int) -> int
    decreases t.len() - i,
{
    if i >= t.len() {
        t.len() as int
    } else if alphabetic(t[i]) {
        i
    } else {
        alpha_index_from(t, i + 1)
    }
}

/// The command that the trimmed line `t` stands for, its range resolved
/// against a buffer whose last line is `last`. The command letter is the
/// first alphabetic character; what stands before it is the address
/// expression. A line with no letter reads its first character as the
/// command, with an empty address expression.
pub open spec fn command_value(t: Seq<char>, last: nat) -> Command {
    if t.len() == 0 {
        Command::Blank
    } else if t == seq!['q'] {
        Command::Quit
    } else if t == seq!['w'] {
        Command::Write
    } else {
        let k = alpha_index_from(t, 0);
        let addr = if k < t.len() { t.subrange(0, k) } else { Seq::<char>::empty() };
        let code = if k < t.len() { t[k] } else { t[0] };
        code_command_value(code, trimmed(addr), last)
    }
}

/// The command for the letter `code` with the trimmed address expression
/// `e`: one of the five range operations on the range that `e` denotes, or
/// an unknown command.
pub open spec fn code_command_value(code: char, e: Seq<char>, last: nat) -> Command {
    match op_of(code) {
        Some(op) => {
            let r = range_value(e, last);
            Command::Edit { op, start: r.0 as usize, end: r.1 as usize }
        },
        None => Command::Unknown(code),
    }
}

proof fn lemma_alpha_index_from_bound(t: Seq<char>, i: int)
    requires
        0 <= i <= t.len(),
    ensures
        i <= alpha_index_from(t, i) <= t.len(),
    decreases t.len() - i,
{
    if i < t.len() && !alphabetic(t[i]) {
        lemma_alpha_index_from_bound(t, i + 1);
    }
}

fn op_for(c: char) -> (r: Option<Op>)
    ensures
        r == op_of(c),
{
    if c == 'p' {
        Some(Op::Print)
    } else if c == 'd' {
        Some(Op::Delete)
    } else if c == 'a' {
        Some(Op::Append)
    } else if c == 'i' {
        Some(Op::Insert)
    } else if c == 'c' {
        Some(Op::Change)
    } else {
        None
    }
}

/// Parses one input line, resolving its address expression against a buffer
/// whose last line is `last`.
pub fn parse_command(line: &str, last: usize) -> (r: Command)
    ensures
        r == command_value(trimmed(line@), last as nat),
{
    let t = trim(line);
    let v = chars_of(t);
    let n = v.len();
    if n == 0 {
        return Command::Blank;
    }
    if n == 1 && v[0] == 'q' {
        assert(t@ =~= seq!['q']);
        return Command::Quit;
    }
    if n == 1 && v[0] == 'w' {
        assert(t@ =~= seq!['w']);
        return Command::Write;
    }
    assert(t@ != seq!['q'] && t@ != seq!['w']) by {
        if t@ == seq!['q'] || t@ == seq!['w'] {
            assert(t@.len() == 1);
        }
    }
    let mut k: usize = 0;
    while k < n && !is_alphabetic(v[k])
        invariant
            k <= n,
            n == t@.len(),
            v@ == t@,
            alpha_index_from(t@, 0) == alpha_index_from(t@, k as int),
        decreases n - k,
    {
        k = k + 1;
    }
    proof {
        lemma_alpha_index_from_bound(t@, k as int);
    }
    let (addr, code) = if k < n {
        (t.substring_char(0, k), v[k])
    } else {
        (t.substring_char(0, 0), v[0])
    };
    assert(k >= n ==> addr@ =~= Seq::<char>::empty());
    command_for(code, trim(addr), last)
}

/// The command for the letter `code` with the trimmed address expression
/// `e`, its range resolved against a buffer whose last line is `last`.
pub fn command_for(code: char, e: &str, last: usize) -> (r: Command)
    ensures
        r == code_command_value(code, e@, last as nat),
{
    match op_for(code) {
        Some(op) => {
            let (start, end) = resolve_range(e, last);
            assert(start == range_value(e@, last as nat).0 as usize);
            assert(end == range_value(e@, last as nat).1 as usize);
            Command::Edit { op, start, end }
        },
        None => Command::Unknown(code),
    }
}

} // verus!
