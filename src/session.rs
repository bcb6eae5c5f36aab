//! An editing session: the buffer together with the decision of what each
//! input line does. The caller reads the lines, hands them over one at a
//! time, and carries out the returned action (show lines, save, quit).

use vstd::prelude::*;

use crate::buffer::{append_index, changed, deleted, insert_index, printed, spliced, valid_range, Buffer};
use crate::command::{command_value, parse_command, Command, Op};
use crate::content::{joined, join_lines, lines_of, split_lines, views};
use crate::text::{chars_of, trimmed};

verus! {

/// What the caller is to do after a line has been handled.
#[derive(Debug, PartialEq, Eq)]
pub enum Action {
    /// Nothing to show: the line was taken in.
    Nothing,
    /// Show these numbered lines.
    Show { lines: Vec<(usize, String)> },
    /// Save this text to the file; it holds `count` lines.
    Save { text: String, count: usize },
    /// Report an unknown command.
    Unknown { code: char },
    /// End the session.
    Quit,
}

/// A command that waits for the lines it puts in, with those gathered so far.
struct Pending {
    op: Op,
    start: usize,
    end: usize,
    block: Vec<String>,
}

/// What a pending command's block does to the lines `b` once it is complete.
pub open spec fn applied<A>(b: Seq<A>, op: Op, start: nat, end: nat, block: Seq<A>) -> Seq<A> {
    match op {
        Op::Append => spliced(b, append_index(b.len(), end) as int, block),
        Op::Insert => spliced(b, insert_index(b.len(), start) as int, block),
        Op::Change => changed(b, start, end, block),
        _ => b,
    }
}

/// Whether the operation `op` on `start..=end` goes on to read a block of
/// lines: append and insert always do, change only on a valid range.
pub open spec fn reads_block(op: Op, len: nat, start: nat, end: nat) -> bool {
    match op {
        Op::Append | Op::Insert => true,
        Op::Change => valid_range(len, start, end),
        _ => false,
    }
}

/// The state of an editing session.
pub struct Session {
    buffer: Buffer,
    pending: Option<Pending>,
}

/// The model of a session: its lines and, while a block is being read, the
/// command that reads it and the text of the lines gathered so far.
pub struct SessionView {
    pub lines: Seq<String>,
    pub pending: Option<(Op, nat, nat, Seq<Seq<char>>)>,
}

impl View for Session {
    type V = SessionView;

    closed spec fn view(&self) -> SessionView {
        SessionView {
            lines: self.buffer@,
            pending: match self.pending {
                Some(p) => Some((p.op, p.start as nat, p.end as nat, views(p.block@))),
                None => None,
            },
        }
    }
}

/// Whether handling the command `c` outside of a block, on the lines `b`,
/// may leave the session `s` and return `r`.
pub open spec fn command_outcome(b: Seq<String>, c: Command, s: SessionView, r: Action) -> bool {
    match c {
        Command::Blank => s.lines == b && s.pending is None && r == Action::Nothing,
        Command::Quit => s.lines == b && s.pending is None && r == Action::Quit,
        Command::Write => s.lines == b && s.pending is None && match r {
            Action::Save { text, count } => text@ == joined(views(b)) && count == b.len(),
            _ => false,
        },
        Command::Unknown(code) => s.lines == b && s.pending is None && r == (Action::Unknown { code }),
        Command::Edit { op, start, end } => match op {
            Op::Print => s.lines == b && s.pending is None && match r {
                Action::Show { lines } => lines@ == printed(b, start as nat, end as nat),
                _ => false,
            },
            Op::Delete => s.lines == deleted(b, start as nat, end as nat) && s.pending is None
                && r == Action::Nothing,
            _ => s.lines == b && r == Action::Nothing && s.pending == if reads_block(
                op,
                b.len(),
                start as nat,
                end as nat,
            ) {
                Some((op, start as nat, end as nat, Seq::<Seq<char>>::empty()))
            } else {
                None
            },
        },
    }
}

proof fn lemma_views_applied(b: Seq<String>, op: Op, start: nat, end: nat, block: Seq<String>)
    ensures
        views(applied(b, op, start, end, block)) == applied(views(b), op, start, end, views(block)),
{
    let vb = views(b);
    assert forall|i: int, j: int| 0 <= i <= j <= b.len() implies #[trigger] views(b.subrange(i, j))
        == vb.subrange(i, j) by {
        assert(views(b.subrange(i, j)) =~= vb.subrange(i, j));
    }
    assert forall|x: Seq<String>, y: Seq<String>| #[trigger] views(x + y) == views(x) + views(y) by {
        assert(views(x + y) =~= views(x) + views(y));
    }
    match op {
        Op::Append => {
            let at = append_index(b.len(), end) as int;
            assert(views(spliced(b, at, block)) == spliced(vb, at, views(block)));
        },
        Op::Insert => {
            let at = insert_index(b.len(), start) as int;
            assert(views(spliced(b, at, block)) == spliced(vb, at, views(block)));
        },
        Op::Change => {
            if valid_range(b.len(), start, end) {
                assert(views(changed(b, start, end, block)) == changed(vb, start, end, views(block)));
            }
        },
        _ => {},
    }
}

impl Session {
    /// A session on the given lines, reading no block.
    pub fn new(lines: Vec<String>) -> (r: Session)
        ensures
            r@.lines == lines@,
            r@.pending is None,
    {
        Session { buffer: Buffer::from_lines(lines), pending: None }
    }

    /// A session on the lines of a file's text, reading no block.
    pub fn load(text: &str) -> (r: Session)
        ensures
            views(r@.lines) == lines_of(text@),
            r@.pending is None,
    {
        Session::new(split_lines(text))
    }

    /// The buffer.
    pub fn buffer(&self) -> (r: &Buffer)
        ensures
            r@ == self@.lines,
    {
        &self.buffer
    }

    /// Whether a block of lines is being read.
    pub fn is_reading_block(&self) -> (r: bool)
        ensures
            r == self@.pending is Some,
    {
        self.pending.is_some()
    }

    fn commit(&mut self, p: Pending)
        requires
            old(self).pending is None,
        ensures
            final(self).pending is None,
            views(final(self)@.lines) == applied(
                views(old(self)@.lines),
                p.op,
                p.start as nat,
                p.end as nat,
                views(p.block@),
            ),
    {
        proof {
            lemma_views_applied(self@.lines, p.op, p.start as nat, p.end as nat, p.block@);
        }
        match p.op {
            Op::Append => self.buffer.append(p.end, p.block),
            Op::Insert => self.buffer.insert(p.start, p.block),
            Op::Change => self.buffer.change(p.start, p.end, p.block),
            _ => {},
        }
    }

    /// Handles one input line. While a block is being read, a line holding
    /// just `.` ends the block and puts it into the buffer, and any other
    /// line joins the block as it is. Otherwise the line is read as a
    /// command.
    pub fn step(&mut self, line: &str) -> (r: Action)
        ensures
            match old(self)@.pending {
                Some(p) => if line@ == seq!['.'] {
                    &&& views(final(self)@.lines) == applied(views(old(self)@.lines), p.0, p.1, p.2, p.3)
                    &&& final(self)@.pending is None
                    &&& r == Action::Nothing
                } else {
                    &&& final(self)@.lines == old(self)@.lines
                    &&& final(self)@.pending == Some((p.0, p.1, p.2, p.3.push(line@)))
                    &&& r == Action::Nothing
                },
                None => command_outcome(
                    old(self)@.lines,
                    command_value(trimmed(line@), old(self)@.lines.len()),
                    final(self)@,
                    r,
                ),
            },
    {
        match self.pending.take() {
            Some(mut p) => {
                let v = chars_of(line);
                if v.len() == 1 && v[0] == '.' {
                    assert(line@ =~= seq!['.']);
                    self.commit(p);
                } else {
                    assert(line@ != seq!['.']) by {
                        if line@ == seq!['.'] {
                            assert(line@.len() == 1);
                        }
                    }
                    let ghost before = p.block@;
                    p.block.push(line.to_owned());
                    assert(views(p.block@) =~= views(before).push(line@));
                    self.pending = Some(p);
                }
                Action::Nothing
            },
            None => {
                let n = self.buffer.len();
                match parse_command(line, n) {
                    Command::Blank => Action::Nothing,
                    Command::Quit => Action::Quit,
                    Command::Write => Action::Save { text: join_lines(self.buffer.lines()), count: n },
                    Command::Unknown(code) => Action::Unknown { code },
                    Command::Edit { op, start, end } => match op {
                        Op::Print => Action::Show { lines: self.buffer.print(start, end) },
                        Op::Delete => {
                            self.buffer.delete(start, end);
                            Action::Nothing
                        },
                        _ => {
                            let reads = match op {
                                Op::Change => 1 <= start && start <= end && end <= n,
                                _ => true,
                            };
                            if reads {
                                let block: Vec<String> = Vec::new();
                                assert(views(block@) =~= Seq::<Seq<char>>::empty());
                                self.pending = Some(Pending { op, start, end, block });
                            }
                            Action::Nothing
                        },
                    },
                }
            },
        }
    }

    /// Ends the input: a block still being read is put into the buffer with
    /// the lines gathered so far.
    pub fn finish(&mut self)
        ensures
            final(self)@.pending is None,
            match old(self)@.pending {
                Some(p) => views(final(self)@.lines) == applied(views(old(self)@.lines), p.0, p.1, p.2, p.3),
                None => final(self)@.lines == old(self)@.lines,
            },
    {
        match self.pending.take() {
            Some(p) => self.commit(p),
            None => {},
        }
    }
}

} // verus!
