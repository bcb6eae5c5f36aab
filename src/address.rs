//! Address and range resolution: turns the address text in front of a
//! command into a pair of 1-based line positions.

use vstd::prelude::*;

use crate::text::chars_of;

verus! {

/// Whether `c` is an ASCII decimal digit.
pub open spec fn is_digit(c: char) -> bool {
    '0' <= c && c <= '9'
}

/// The value of the decimal digit `c`.
pub open spec fn digit_value(c: char) -> nat {
    ((c as u32) - ('0' as u32)) as nat
}

/// The value of a string of decimal digits, most significant first.
pub open spec fn digits_value(d: Seq<char>) -> nat
    decreases d.len(),
{
    if d.len() == 0 {
        0
    } else {
        digits_value(d.drop_last()) * 10 + digit_value(d.last())
    }
}

/// The text with one leading `+` sign, if any, removed.
pub open spec fn unsigned_part(s: Seq<char>) -> Seq<char> {
    if s.len() > 0 && s[0] == '+' {
        s.drop_first()
    } else {
        s
    }
}

/// Whether `s` is an unsigned decimal integer that fits in a `usize`: an
/// optional `+`, then at least one digit and nothing else.
pub open spec fn is_usize_literal(s: Seq<char>) -> bool {
    let d = unsigned_part(s);
    &&& d.len() > 0
    &&& forall|i: int| 0 <= i < d.len() ==> is_digit(#[trigger] d[i])
    &&& digits_value(d) <= usize::MAX
}

/// The line position that the address text `s` denotes when the buffer's
/// last line is `last`: `$` is the last line, an integer literal is itself,
/// and any other text falls back to line 1.
pub open spec fn address_value(s: Seq<char>, last: nat) -> nat {
    if s == seq!['$'] {
        last
    } else if is_usize_literal(s) {
        digits_value(unsigned_part(s))
    } else {
        1
    }
}

/// The first index at or after `i` where `s` holds `c`, or `s.len()` if there
/// is none.
pub open spec fn index_of_from(s: Seq<char>, c: char, i: int) -> int
    decreases s.len() - i,
{
    if i >= s.len() {
        s.len() as int
    } else if s[i] == c {
        i
    } else {
        index_of_from(s, c, i + 1)
    }
}

/// The range that the address expression `e` denotes: two addresses split at
/// the first comma, a single address standing for a one-line range, or the
/// whole buffer when the expression is empty.
pub open spec fn range_value(e: Seq<char>, last: nat) -> (nat, nat) {
    let k = index_of_from(e, ',', 0);
    if k < e.len() {
        (address_value(e.subrange(0, k), last), address_value(e.subrange(k + 1, e.len() as int), last))
    } else if e.len() > 0 {
        (address_value(e, last), address_value(e, last))
    } else {
        (1, last)
    }
}

/// A longer string of digits is worth at least as much as its prefix.
proof fn lemma_digits_value_prefix(d: Seq<char>, k: int)
    requires
        0 <= k <= d.len(),
    ensures
        digits_value(d.subrange(0, k)) <= digits_value(d),
    decreases d.len(),
{
    if k < d.len() {
        assert(d.drop_last().subrange(0, k) =~= d.subrange(0, k));
        lemma_digits_value_prefix(d.drop_last(), k);
    } else {
        assert(d.subrange(0, k) =~= d);
    }
}

proof fn lemma_index_of_from_bound(s: Seq<char>, c: char, i: int)
    requires
        0 <= i <= s.len(),
    ensures
        i <= index_of_from(s, c, i) <= s.len(),
        index_of_from(s, c, i) < s.len() ==> s[index_of_from(s, c, i)] == c,
    decreases s.len() - i,
{
    if i < s.len() && s[i] != c {
        lemma_index_of_from_bound(s, c, i + 1);
    }
}

/// Resolves one address against a buffer whose last line is `last`: `$` gives
/// `last`, an unsigned integer gives itself, and anything else gives 1.
pub fn parse_address(s: &str, last: usize) -> (r: usize)
    ensures
        r as nat == address_value(s@, last as nat),
{
    let v = chars_of(s);
    let n = v.len();
    if n == 1 && v[0] == '$' {
        assert(s@ =~= seq!['$']);
        return last;
    }
    assert(s@ != seq!['$']) by {
        if s@ == seq!['$'] {
            assert(s@.len() == 1 && s@[0] == '$');
        }
    }
    let ghost d = unsigned_part(s@);
    let mut i: usize = if n > 0 && v[0] == '+' { 1 } else { 0 };
    assert(d =~= s@.subrange(i as int, n as int));
    if i == n {
        return 1;
    }
    let first = i;
    let mut acc: usize = 0;
    while i < n
        invariant
            first <= i <= n,
            n == s@.len(),
            v@ == s@,
            d == unsigned_part(s@),
            s@ != seq!['$'],
            d =~= s@.subrange(first as int, n as int),
            d.len() > 0,
            forall|j: int| first <= j < i ==> is_digit(#[trigger] v@[j]),
            acc as nat == digits_value(s@.subrange(first as int, i as int)),
        decreases n - i,
    {
        let c = v[i];
        if !('0' <= c && c <= '9') {
            assert(d[i - first] == v@[i as int]);
            assert(!is_digit(d[i - first]));
            assert(!is_usize_literal(s@));
            return 1;
        }
        let dv = (c as u32 - '0' as u32) as usize;
        assert(s@.subrange(first as int, i + 1).drop_last() =~= s@.subrange(first as int, i as int));
        if acc > (usize::MAX - dv) / 10 {
            proof {
                assert(digits_value(s@.subrange(first as int, i + 1)) > usize::MAX) by (nonlinear_arith)
                    requires
                        digits_value(s@.subrange(first as int, i + 1))
                            == acc * 10 + dv,
                        acc > (usize::MAX - dv) / 10,
                        dv <= 9,
                ;
                assert(d.subrange(0, i + 1 - first) =~= s@.subrange(first as int, i + 1));
                lemma_digits_value_prefix(d, i + 1 - first);
                assert(!is_usize_literal(s@));
            }
            return 1;
        }
        acc = acc * 10 + dv;
        i = i + 1;
    }
    assert(s@.subrange(first as int, n as int) =~= d);
    assert(forall|j: int| 0 <= j < d.len() ==> is_digit(#[trigger] d[j])) by {
        assert forall|j: int| 0 <= j < d.len() implies is_digit(#[trigger] d[j]) by {
            assert(d[j] == v@[j + first]);
        }
    }
    acc
}

/// Resolves an address expression against a buffer whose last line is
/// `last`. No bounds check and no reordering is made: the caller decides
/// what an out-of-bounds or inverted range means.
pub fn resolve_range(e: &str, last: usize) -> (r: (usize, usize))
    ensures
        (r.0 as nat, r.1 as nat) == range_value(e@, last as nat),
{
    let v = chars_of(e);
    let n = v.len();
    let mut k: usize = 0;
    while k < n && v[k] != ','
        invariant
            k <= n,
            n == e@.len(),
            v@ == e@,
            index_of_from(e@, ',', 0) == index_of_from(e@, ',', k as int),
        decreases n - k,
    {
        k = k + 1;
    }
    proof {
        lemma_index_of_from_bound(e@, ',', k as int);
    }
    if k < n {
        let a = parse_address(e.substring_char(0, k), last);
        let b = parse_address(e.substring_char(k + 1, n), last);
        (a, b)
    } else if n > 0 {
        let a = parse_address(e, last);
        (a, a)
    } else {
        (1, last)
    }
}

/// The decimal digit for a value below ten.
pub open spec fn digit_char(d: nat) -> char {
    (d + ('0' as u32)) as char
}

/// The decimal numeral of `n`, with no sign and no leading zeros.
pub open spec fn decimal(n: nat) -> Seq<char>
    decreases n,
{
    if n < 10 {
        seq![digit_char(n)]
    } else {
        decimal(n / 10).push(digit_char(n % 10))
    }
}

proof fn lemma_decimal(n: nat)
    ensures
        decimal(n).len() > 0,
        forall|i: int| 0 <= i < decimal(n).len() ==> is_digit(#[trigger] decimal(n)[i]),
        digits_value(decimal(n)) == n,
    decreases n,
{
    let k = n % 10;
    assert(digit_value(digit_char(k)) == k) by {
        assert(((k + ('0' as u32)) as char) as u32 == k + 48);
    }
    if n < 10 {
        assert(decimal(n).drop_last() =~= Seq::<char>::empty());
        assert(digits_value(Seq::<char>::empty()) == 0);
        assert(k == n);
    } else {
        lemma_decimal(n / 10);
        let d = decimal(n);
        assert(d.drop_last() =~= decimal(n / 10));
        assert(d.last() == digit_char(k));
        assert(digits_value(d) == digits_value(decimal(n / 10)) * 10 + k);
        assert(n == (n / 10) * 10 + k);
        assert forall|i: int| 0 <= i < d.len() implies is_digit(#[trigger] d[i]) by {
            if i < d.len() - 1 {
                assert(d[i] == decimal(n / 10)[i]);
            }
        }
    }
}

/// Address resolution: `$` is the last line, the numeral of any `n` that
/// fits in a `usize` is `n`, and malformed text such as `abc` or the empty
/// text is line 1.
pub proof fn lemma_address_resolution(n: nat, last: nat)
    requires
        n <= usize::MAX,
    ensures
        address_value(seq!['$'], last) == last,
        address_value(decimal(n), last) == n,
        address_value(seq!['a', 'b', 'c'], last) == 1,
        address_value(Seq::<char>::empty(), last) == 1,
{
    lemma_decimal(n);
    let d = decimal(n);
    assert(d != seq!['$']) by {
        if d == seq!['$'] {
            assert(is_digit(d[0]));
        }
    }
    assert(unsigned_part(d) == d) by {
        if d.len() > 0 && d[0] == '+' {
            assert(is_digit(d[0]));
        }
    }
    let abc = seq!['a', 'b', 'c'];
    assert(abc != seq!['$']) by {
        assert(abc.len() != 1);
    }
    assert(!is_usize_literal(abc)) by {
        assert(unsigned_part(abc) == abc);
        assert(!is_digit(abc[0]));
    }
    assert(Seq::<char>::empty() != seq!['$']) by {
        assert(seq!['$'].len() == 1);
    }
}

} // verus!
