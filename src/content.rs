//! The file form of a buffer: its lines joined by newlines, and the reverse
//! split of a file's text into lines.

use vstd::prelude::*;

use crate::text::chars_of;

verus! {

/// The characters of each line.
pub open spec fn views(b: Seq<String>) -> Seq<Seq<char>> {
    b.map_values(|s: String| s@)
}

/// The lines joined by single newlines, with none after the last.
pub open spec fn joined(ls: Seq<Seq<char>>) -> Seq<char>
    decreases ls.len(),
{
    if ls.len() == 0 {
        Seq::empty()
    } else if ls.len() == 1 {
        ls[0]
    } else {
        ls[0] + seq!['\n'] + joined(ls.drop_first())
    }
}

/// `s` without one trailing carriage return, if it has one.
pub open spec fn strip_cr(s: Seq<char>) -> Seq<char> {
    if s.len() > 0 && s.last() == '\r' {
        s.drop_last()
    } else {
        s
    }
}

/// The lines of `t[i..]` when the line being read began at `start`: each
/// newline ends a line, and drops one carriage return just before it; a last
/// line needs no newline, and an empty text after the last newline makes no
/// line.
pub open spec fn lines_from(t: Seq<char>, start: int, i: int) -> Seq<Seq<char>>
    decreases t.len() - i,
{
    if i >= t.len() {
        if start < t.len() {
            seq![t.subrange(start, t.len() as int)]
        } else {
            Seq::empty()
        }
    } else if t[i] == '\n' {
        seq![strip_cr(t.subrange(start, i))] + lines_from(t, i + 1, i + 1)
    } else {
        lines_from(t, start, i + 1)
    }
}

/// The lines of the text `t`.
pub open spec fn lines_of(t: Seq<char>) -> Seq<Seq<char>> {
    lines_from(t, 0, 0)
}

proof fn lemma_joined_push(ls: Seq<Seq<char>>, x: Seq<char>)
    requires
        ls.len() >= 1,
    ensures
        joined(ls.push(x)) == joined(ls) + seq!['\n'] + x,
    decreases ls.len(),
{
    if ls.len() == 1 {
        assert(ls.push(x).drop_first() =~= seq![x]);
        assert(joined(seq![x]) == x);
    } else {
        assert(ls.push(x).drop_first() =~= ls.drop_first().push(x));
        lemma_joined_push(ls.drop_first(), x);
        assert(joined(ls.push(x)) =~= joined(ls) + seq!['\n'] + x);
    }
}

/// Joins the lines with single newlines, adding none after the last.
pub fn join_lines(lines: &Vec<String>) -> (r: String)
    ensures
        r@ == joined(views(lines@)),
{
    let nl = "\n";
    proof {
        reveal_strlit("\n");
    }
    let mut r = String::new();
    let n = lines.len();
    let mut i: usize = 0;
    while i < n
        invariant
            i <= n,
            n == lines@.len(),
            nl@ == seq!['\n'],
            r@ == joined(views(lines@.subrange(0, i as int))),
        decreases n - i,
    {
        let ghost before = views(lines@.subrange(0, i as int));
        if i > 0 {
            r.append(nl);
        }
        r.append(lines[i].as_str());
        proof {
            assert(views(lines@.subrange(0, i + 1)) =~= before.push(lines@[i as int]@));
            if i > 0 {
                lemma_joined_push(before, lines@[i as int]@);
            } else {
                assert(r@ =~= lines@[0]@);
            }
        }
        i = i + 1;
    }
    assert(lines@.subrange(0, n as int) =~= lines@);
    r
}

/// Splits text into lines: a newline ends a line, a carriage return just
/// before it is dropped, and the last line needs no newline.
pub fn split_lines(text: &str) -> (r: Vec<String>)
    ensures
        views(r@) == lines_of(text@),
{
    let v = chars_of(text);
    let n = v.len();
    let mut r: Vec<String> = Vec::new();
    let mut start: usize = 0;
    let mut i: usize = 0;
    while i < n
        invariant
            start <= i <= n,
            n == text@.len(),
            v@ == text@,
            views(r@) + lines_from(text@, start as int, i as int) == lines_of(text@),
        decreases n - i,
    {
        if v[i] == '\n' {
            let stop = if i > start && v[i - 1] == '\r' { i - 1 } else { i };
            let line = text.substring_char(start, stop).to_owned();
            proof {
                let s = text@.subrange(start as int, i as int);
                assert(line@ =~= strip_cr(s));
                assert(views(r@.push(line)) =~= views(r@).push(line@));
                assert(seq![strip_cr(s)] + lines_from(text@, i + 1, i + 1)
                    == lines_from(text@, start as int, i as int));
                assert(views(r@).push(line@) + lines_from(text@, i + 1, i + 1)
                    =~= views(r@) + lines_from(text@, start as int, i as int));
            }
            r.push(line);
            start = i + 1;
        }
        i = i + 1;
    }
    if start < n {
        let line = text.substring_char(start, n).to_owned();
        proof {
            assert(views(r@.push(line)) =~= views(r@).push(line@));
            assert(views(r@) + lines_from(text@, start as int, n as int) =~= views(r@).push(line@));
        }
        r.push(line);
    } else {
        assert(views(r@) + lines_from(text@, start as int, n as int) =~= views(r@));
    }
    r
}

/// Reading past characters that are not newlines leaves the lines unchanged.
proof fn lemma_lines_from_walk(t: Seq<char>, start: int, i: int, j: int)
    requires
        0 <= i <= j <= t.len(),
        forall|k: int| i <= k < j ==> t[k] != '\n',
    ensures
        lines_from(t, start, i) == lines_from(t, start, j),
    decreases j - i,
{
    if i < j {
        lemma_lines_from_walk(t, start, i + 1, j);
    }
}

/// The lines after a prefix `p` are the lines of what follows it.
proof fn lemma_lines_from_shift(p: Seq<char>, t: Seq<char>, start: int, i: int)
    requires
        0 <= start <= i <= t.len(),
    ensures
        lines_from(p + t, p.len() + start, p.len() + i) == lines_from(t, start, i),
    decreases t.len() - i,
{
    let u = p + t;
    if i < t.len() {
        assert(u[p.len() + i] == t[i]);
        if t[i] == '\n' {
            lemma_lines_from_shift(p, t, i + 1, i + 1);
            assert(u.subrange(p.len() + start, p.len() + i) =~= t.subrange(start, i));
            assert(p.len() + i + 1 == p.len() + (i + 1));
        } else {
            lemma_lines_from_shift(p, t, start, i + 1);
        }
    } else {
        assert(u.subrange(p.len() + start, u.len() as int) =~= t.subrange(start, t.len() as int));
    }
}

/// Whether the lines come back unchanged from their joined text: none holds
/// a newline, none but the last ends with a carriage return, and the last
/// is not empty.
pub open spec fn survives_reload(ls: Seq<Seq<char>>) -> bool {
    &&& forall|k: int, j: int| 0 <= k < ls.len() && 0 <= j < ls[k].len() ==> #[trigger] ls[k][j] != '\n'
    &&& forall|k: int| 0 <= k < ls.len() - 1 ==> !(#[trigger] ls[k].len() > 0 && ls[k].last() == '\r')
    &&& ls.len() > 0 ==> ls.last().len() > 0
}

proof fn lemma_lines_of_joined(ls: Seq<Seq<char>>)
    requires
        survives_reload(ls),
    ensures
        lines_of(joined(ls)) == ls,
    decreases ls.len(),
{
    if ls.len() == 0 {
        assert(lines_of(joined(ls)) =~= ls);
    } else {
        let l = ls[0];
        let t = joined(ls);
        if ls.len() == 1 {
            assert(t == l);
            assert forall|k: int| 0 <= k < l.len() implies #[trigger] l[k] != '\n' by {
                assert(ls[0][k] != '\n');
            }
            lemma_lines_from_walk(t, 0, 0, l.len() as int);
            assert(l.subrange(0, l.len() as int) =~= l);
            assert(lines_of(t) =~= ls);
        } else {
            let rest = ls.drop_first();
            let rt = joined(rest);
            let p = l + seq!['\n'];
            assert(t =~= p + rt);
            assert(survives_reload(rest)) by {
                assert forall|k: int, j: int| 0 <= k < rest.len() && 0 <= j < rest[k].len()
                    implies #[trigger] rest[k][j] != '\n' by {
                    assert(rest[k] == ls[k + 1]);
                }
                assert forall|k: int| 0 <= k < rest.len() - 1
                    implies !(#[trigger] rest[k].len() > 0 && rest[k].last() == '\r') by {
                    assert(rest[k] == ls[k + 1]);
                }
            }
            lemma_lines_of_joined(rest);
            assert forall|k: int| 0 <= k < l.len() implies #[trigger] t[k] != '\n' by {
                assert(t[k] == l[k]);
                assert(ls[0][k] != '\n');
            }
            lemma_lines_from_walk(t, 0, 0, l.len() as int);
            assert(t[l.len() as int] == '\n');
            assert(t.subrange(0, l.len() as int) =~= l);
            assert(!(ls[0].len() > 0 && ls[0].last() == '\r'));
            assert(strip_cr(l) == l);
            lemma_lines_from_shift(p, rt, 0, 0);
            assert(lines_of(t) =~= seq![l] + rest);
            assert(seq![l] + rest =~= ls);
        }
    }
}

/// Writing lines out and reading the text back gives the same lines, as long
/// as no line holds a newline, no line but the last ends with a carriage
/// return, and the last line is not empty.
pub proof fn lemma_reload_after_write(b: Seq<String>)
    requires
        survives_reload(views(b)),
    ensures
        lines_of(joined(views(b))) == views(b),
{
    lemma_lines_of_joined(views(b));
}

} // verus!
