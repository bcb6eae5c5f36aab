//! The edit buffer: an ordered sequence of lines, addressed from 1, and the
//! operations that read and change it.

use vstd::prelude::*;

verus! {

/// Whether `start..=end` names lines that all exist in a buffer of `len`
/// lines, and at least one of them.
pub open spec fn valid_range(len: nat, start: nat, end: nat) -> bool {
    1 <= start && start <= end && end <= len
}

/// `b` with `block` put in at index `at`, before what stood there.
pub open spec fn spliced<A>(b: Seq<A>, at: int, block: Seq<A>) -> Seq<A> {
    b.subrange(0, at) + block + b.subrange(at, b.len() as int)
}

/// `b` after deleting `start..=end`; unchanged when the range is not valid.
pub open spec fn deleted<A>(b: Seq<A>, start: nat, end: nat) -> Seq<A> {
    if valid_range(b.len(), start, end) {
        b.subrange(0, start - 1) + b.subrange(end as int, b.len() as int)
    } else {
        b
    }
}

/// `b` after replacing `start..=end` by `block`; unchanged when the range is
/// not valid.
pub open spec fn changed<A>(b: Seq<A>, start: nat, end: nat, block: Seq<A>) -> Seq<A> {
    if valid_range(b.len(), start, end) {
        b.subrange(0, start - 1) + block + b.subrange(end as int, b.len() as int)
    } else {
        b
    }
}

/// The index after which `append` puts its lines: line `end` when it exists,
/// else the end of the buffer.
pub open spec fn append_index(len: nat, end: nat) -> nat {
    if 1 <= end && end <= len {
        end
    } else {
        len
    }
}

/// The index before which `insert` puts its lines: line `start` when it
/// exists, else the start of the buffer.
pub open spec fn insert_index(len: nat, start: nat) -> nat {
    if 1 <= start && start <= len {
        (start - 1) as nat
    } else {
        0
    }
}

/// The first line that `print` shows.
pub open spec fn print_low(start: nat) -> nat {
    if start < 1 {
        1
    } else {
        start
    }
}

/// The last line that `print` shows.
pub open spec fn print_high(len: nat, end: nat) -> nat {
    if end > len {
        len
    } else {
        end
    }
}

/// What `print` shows: each line number in `start..=end` that exists in `b`,
/// in ascending order, with its text.
pub open spec fn printed(b: Seq<String>, start: nat, end: nat) -> Seq<(usize, String)> {
    let lo = print_low(start);
    let hi = print_high(b.len(), end);
    if lo <= hi {
        Seq::new((hi - lo + 1) as nat, |k: int| ((lo + k) as usize, b[lo + k - 1]))
    } else {
        Seq::empty()
    }
}

/// Delete and change leave the lines as they are on a range that is
/// inverted, starts before line 1 or ends past the last line; change then
/// reads no block either.
pub proof fn lemma_invalid_range_no_op<A>(b: Seq<A>, start: nat, end: nat, block: Seq<A>)
    requires
        start > end || end > b.len() || start < 1,
    ensures
        deleted(b, start, end) == b,
        changed(b, start, end, block) == b,
        !valid_range(b.len(), start, end),
{
}

/// Deleting a valid range shortens the lines by exactly its size, keeps the
/// lines before it in place, and moves the lines after it up in their order.
pub proof fn lemma_delete_valid<A>(b: Seq<A>, start: nat, end: nat)
    requires
        valid_range(b.len(), start, end),
    ensures
        deleted(b, start, end).len() == b.len() - (end - start + 1),
        forall|i: int| 0 <= i < start - 1 ==> #[trigger] deleted(b, start, end)[i] == b[i],
        forall|i: int|
            end <= i < b.len() ==> #[trigger] deleted(b, start, end)[i - (end - start + 1)] == b[i],
{
}

/// After `append`, printing the lines just put in shows them right after the
/// anchor line, numbered on from it, in the order given; the anchor line
/// itself stays where it was.
pub proof fn lemma_append_then_print(b: Seq<String>, end: nat, block: Seq<String>)
    requires
        b.len() + block.len() <= usize::MAX,
    ensures
        ({
            let at = append_index(b.len(), end);
            let after = spliced(b, at as int, block);
            &&& printed(after, at + 1, at + block.len()) == Seq::new(
                block.len(),
                |k: int| ((at + 1 + k) as usize, block[k]),
            )
            &&& at >= 1 ==> after[at - 1] == b[at - 1]
        }),
{
    let at = append_index(b.len(), end);
    let after = spliced(b, at as int, block);
    if block.len() > 0 {
        assert(printed(after, at + 1, at + block.len()) =~= Seq::new(
            block.len(),
            |k: int| ((at + 1 + k) as usize, block[k]),
        ));
    } else {
        assert(printed(after, at + 1, at + block.len()) =~= Seq::new(
            block.len(),
            |k: int| ((at + 1 + k) as usize, block[k]),
        ));
    }
}

/// `insert` puts its lines right before the anchor line, which follows them
/// with the rest of the lines; with `start` 1 the lines go to the very front.
pub proof fn lemma_insert_before<A>(b: Seq<A>, start: nat, block: Seq<A>)
    ensures
        ({
            let at = insert_index(b.len(), start) as int;
            let after = spliced(b, at, block);
            &&& after.subrange(0, at) == b.subrange(0, at)
            &&& after.subrange(at, at + block.len()) == block
            &&& after.subrange(at + block.len(), after.len() as int) == b.subrange(at, b.len() as int)
        }),
        spliced(b, insert_index(b.len(), 1) as int, block) == block + b,
{
    let at = insert_index(b.len(), start) as int;
    let after = spliced(b, at, block);
    assert(after.subrange(0, at) =~= b.subrange(0, at));
    assert(after.subrange(at, at + block.len()) =~= block);
    assert(after.subrange(at + block.len(), after.len() as int) =~= b.subrange(at, b.len() as int));
    assert(spliced(b, insert_index(b.len(), 1) as int, block) =~= block + b);
}

/// An ordered sequence of lines.
pub struct Buffer {
    lines: Vec<String>,
}

impl View for Buffer {
    type V = Seq<String>;

    closed spec fn view(&self) -> Seq<String> {
        self.lines@
    }
}

impl Buffer {
    /// An empty buffer.
    pub fn new() -> (r: Buffer)
        ensures
            r@ == Seq::<String>::empty(),
    {
        Buffer { lines: Vec::new() }
    }

    /// A buffer holding `lines`, in order.
    pub fn from_lines(lines: Vec<String>) -> (r: Buffer)
        ensures
            r@ == lines@,
    {
        Buffer { lines }
    }

    /// The number of lines.
    pub fn len(&self) -> (r: usize)
        ensures
            r == self@.len(),
    {
        self.lines.len()
    }

    /// The lines, in order.
    pub fn lines(&self) -> (r: &Vec<String>)
        ensures
            r@ == self@,
    {
        &self.lines
    }

    /// The numbered lines of `start..=end` that exist, in ascending order;
    /// positions outside the buffer are skipped.
    pub fn print(&self, start: usize, end: usize) -> (r: Vec<(usize, String)>)
        ensures
            r@ == printed(self@, start as nat, end as nat),
    {
        let n = self.lines.len();
        let lo: usize = if start < 1 { 1 } else { start };
        let hi: usize = if end > n { n } else { end };
        let mut r: Vec<(usize, String)> = Vec::new();
        if lo > hi {
            assert(r@ =~= printed(self@, start as nat, end as nat));
            return r;
        }
        let mut j: usize = lo - 1;
        while j < hi
            invariant
                1 <= lo <= j + 1 <= hi + 1,
                hi <= n,
                n == self@.len(),
                lo == print_low(start as nat),
                hi == print_high(n as nat, end as nat),
                r@.len() == j + 1 - lo,
                forall|k: int|
                    0 <= k < r@.len() ==> #[trigger] r@[k] == printed(self@, start as nat, end as nat)[k],
            decreases hi - j,
        {
            let line = self.lines[j].clone();
            r.push((j + 1, line));
            j = j + 1;
        }
        assert(r@ =~= printed(self@, start as nat, end as nat));
        r
    }

    /// Puts `block` in at index `at`, keeping its order and that of the lines
    /// around it.
    fn splice(&mut self, at: usize, block: Vec<String>)
        requires
            at <= old(self)@.len(),
        ensures
            final(self)@ == spliced(old(self)@, at as int, block@),
    {
        let mut block = block;
        let mut tail = self.lines.split_off(at);
        self.lines.append(&mut block);
        self.lines.append(&mut tail);
    }

    /// Deletes lines `start..=end` when `1 <= start <= end <= len`; otherwise
    /// leaves the buffer as it is.
    pub fn delete(&mut self, start: usize, end: usize)
        ensures
            final(self)@ == deleted(old(self)@, start as nat, end as nat),
    {
        if 1 <= start && start <= end && end <= self.lines.len() {
            let mut tail = self.lines.split_off(end);
            self.lines.truncate(start - 1);
            self.lines.append(&mut tail);
        }
    }

    /// Puts `block` after line `end`, or at the end of the buffer when there
    /// is no line `end`.
    pub fn append(&mut self, end: usize, block: Vec<String>)
        ensures
            final(self)@ == spliced(
                old(self)@,
                append_index(old(self)@.len(), end as nat) as int,
                block@,
            ),
    {
        let n = self.lines.len();
        let at = if 1 <= end && end <= n { end } else { n };
        self.splice(at, block);
    }

    /// Puts `block` before line `start`, or at the start of the buffer when
    /// there is no line `start`.
    pub fn insert(&mut self, start: usize, block: Vec<String>)
        ensures
            final(self)@ == spliced(
                old(self)@,
                insert_index(old(self)@.len(), start as nat) as int,
                block@,
            ),
    {
        let n = self.lines.len();
        let at = if 1 <= start && start <= n { start - 1 } else { 0 };
        self.splice(at, block);
    }

    /// Replaces lines `start..=end` by `block` when
    /// `1 <= start <= end <= len`; otherwise leaves the buffer as it is.
    pub fn change(&mut self, start: usize, end: usize, block: Vec<String>)
        ensures
            final(self)@ == changed(old(self)@, start as nat, end as nat, block@),
    {
        if 1 <= start && start <= end && end <= self.lines.len() {
            let mut block = block;
            let mut tail = self.lines.split_off(end);
            self.lines.truncate(start - 1);
            self.lines.append(&mut block);
            self.lines.append(&mut tail);
        }
    }
}

} // verus!
