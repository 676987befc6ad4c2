//! The query string of a request: `name=value` pairs joined by `&`, and the
//! numbers that a blob request takes from it.

use vstd::prelude::*;
use vstd::utf8::encode_utf8;
use crate::keyed::same_bytes;

verus! {

/// How many bytes stand before the first `byte`; all of them if there is none.
pub open spec fn first_index(s: Seq<u8>, byte: u8) -> int
    decreases s.len(),
{
    if s.len() == 0 || s[0] == byte {
        0
    } else {
        1 + first_index(s.drop_first(), byte)
    }
}

/// What follows the byte at `at`; nothing if `at` is the end.
pub open spec fn after_index(s: Seq<u8>, at: int) -> Seq<u8> {
    if 0 <= at < s.len() {
        s.skip(at + 1)
    } else {
        Seq::empty()
    }
}

/// The value of a pair if the pair's name is `name`. A pair without `=` has
/// an empty value.
pub open spec fn pair_value(pair: Seq<u8>, name: Seq<u8>) -> Option<Seq<u8>> {
    let eq = first_index(pair, 0x3d);
    if pair.take(eq) == name {
        Some(after_index(pair, eq))
    } else {
        None
    }
}

/// The value that a query gives a name: that of the last pair with the name.
pub open spec fn param(query: Seq<u8>, name: Seq<u8>) -> Option<Seq<u8>>
    decreases query.len(),
{
    if query.len() == 0 {
        None
    } else {
        let end = first_index(query, 0x26);
        match param(after_index(query, end), name) {
            Some(value) => Some(value),
            None => pair_value(query.take(end), name),
        }
    }
}

/// The number that decimal digits stand for.
pub open spec fn digits_value(digits: Seq<u8>) -> nat
    decreases digits.len(),
{
    if digits.len() == 0 {
        0
    } else {
        digits_value(digits.drop_last()) * 10 + (digits.last() - 0x30) as nat
    }
}

/// Whether every byte is a decimal digit, and there is one at least.
pub open spec fn is_digits(s: Seq<u8>) -> bool {
    s.len() > 0 && forall|i: int| 0 <= i < s.len() ==> 0x30 <= #[trigger] s[i] <= 0x39
}

/// The digits of a number's text: the text without a plus sign before it.
pub open spec fn unsigned(s: Seq<u8>) -> Seq<u8> {
    if s.len() > 0 && s[0] == 0x2b {
        s.drop_first()
    } else {
        s
    }
}

/// The number that a text stands for, if it is one that fits: decimal
/// digits, with or without a plus sign before them.
pub open spec fn number(s: Seq<u8>) -> Option<usize> {
    if is_digits(unsigned(s)) && digits_value(unsigned(s)) <= usize::MAX {
        Some(digits_value(unsigned(s)) as usize)
    } else {
        None
    }
}

/// More digits stand for no less.
proof fn lemma_digits_grow(digits: Seq<u8>, upto: int)
    requires
        0 <= upto <= digits.len(),
        forall|i: int| 0 <= i < digits.len() ==> 0x30 <= #[trigger] digits[i] <= 0x39,
    ensures
        digits_value(digits.take(upto)) <= digits_value(digits),
    decreases digits.len() - upto,
{
    if upto < digits.len() {
        lemma_digits_grow(digits, upto + 1);
        let longer = digits.take(upto + 1);
        assert(longer.drop_last() =~= digits.take(upto));
        assert(longer.last() == digits[upto]);
    } else {
        assert(digits.take(upto) =~= digits);
    }
}

/// Reads a number.
pub fn parse_number(text: &[u8]) -> (r: Option<usize>)
    ensures
        r == number(text@),
{
    let start: usize = if text.len() > 0 && text[0] == 0x2b {
        1
    } else {
        0
    };
    let ghost digits = unsigned(text@);
    assert(digits =~= text@.skip(start as int));
    if start == text.len() {
        return None;
    }
    let mut value: usize = 0;
    let mut i: usize = start;
    assert(digits.take(0) =~= Seq::<u8>::empty());
    while i < text.len()
        invariant
            start <= i <= text.len(),
            start < text.len(),
            digits == text@.skip(start as int),
            digits == unsigned(text@),
            forall|j: int| 0 <= j < i - start ==> 0x30 <= #[trigger] digits[j] <= 0x39,
            value == digits_value(digits.take(i - start)),
        decreases text.len() - i,
    {
        let byte: u8 = text[i];
        assert(digits[i - start] == byte);
        if byte < 0x30 || byte > 0x39 {
            assert(!is_digits(digits)) by {
                assert(!(0x30 <= digits[i - start] <= 0x39));
            }
            return None;
        }
        let digit: usize = (byte - 0x30) as usize;
        proof {
            let longer = digits.take(i - start + 1);
            assert(longer.drop_last() =~= digits.take(i - start));
            assert(longer.last() == byte);
        }
        if value > (usize::MAX - digit) / 10 {
            proof {
                // The digits read so far already stand for too much.
                assert(value * 10 + digit > usize::MAX) by (nonlinear_arith)
                    requires
                        value > (usize::MAX - digit) / 10,
                        digit <= usize::MAX,
                ;
                let longer = digits.take(i - start + 1);
                assert(digits_value(longer) == value * 10 + digit);
                if is_digits(digits) {
                    lemma_digits_grow(digits, i - start + 1);
                }
            }
            return None;
        }
        assert(value * 10 + digit <= usize::MAX) by (nonlinear_arith)
            requires
                value <= (usize::MAX - digit) / 10,
                digit <= usize::MAX,
        ;
        value = value * 10 + digit;
        i += 1;
    }
    assert(digits.take(i - start) =~= digits);
    assert(is_digits(digits));
    Some(value)
}

/// The place of the first `byte` at or after `from`; the end if there is none.
fn find(s: &[u8], from: usize, byte: u8) -> (r: usize)
    requires
        from <= s.len(),
    ensures
        from <= r <= s.len(),
        r - from == first_index(s@.skip(from as int), byte),
{
    let mut i: usize = from;
    while i < s.len() && s[i] != byte
        invariant
            from <= i <= s.len(),
            first_index(s@.skip(from as int), byte) == (i - from) + first_index(
                s@.skip(i as int),
                byte,
            ),
        decreases s.len() - i,
    {
        let ghost tail = s@.skip(i as int);
        assert(tail[0] == s@[i as int]);
        assert(tail.drop_first() =~= s@.skip(i + 1));
        i += 1;
    }
    proof {
        let tail = s@.skip(i as int);
        if i < s.len() {
            assert(tail[0] == s@[i as int]);
        }
    }
    i
}

/// A copy of the bytes from `from` to `to`.
fn copy_range(s: &[u8], from: usize, to: usize) -> (r: Vec<u8>)
    requires
        from <= to <= s.len(),
    ensures
        r@ == s@.subrange(from as int, to as int),
{
    let mut out: Vec<u8> = Vec::new();
    let mut i: usize = from;
    while i < to
        invariant
            from <= i <= to <= s.len(),
            out@ == s@.subrange(from as int, i as int),
        decreases to - i,
    {
        out.push(s[i]);
        assert(out@ =~= s@.subrange(from as int, i + 1));
        i += 1;
    }
    out
}

/// The value that a query gives a name, if it names it.
pub fn query_param(query: &[u8], name: &[u8]) -> (r: Option<Vec<u8>>)
    ensures
        match r {
            Some(value) => param(query@, name@) == Some(value@),
            None => param(query@, name@) is None,
        },
{
    let mut found: Option<Vec<u8>> = None;
    let mut start: usize = 0;
    assert(query@.skip(0) =~= query@);
    while start < query.len()
        invariant
            start <= query.len(),
            param(query@, name@) == match param(query@.skip(start as int), name@) {
                Some(value) => Some(value),
                None => match found {
                    Some(value) => Some(value@),
                    None => None,
                },
            },
        decreases query.len() - start,
    {
        let ghost rest = query@.skip(start as int);
        let end = find(query, start, 0x26);
        let eq = find(query, start, 0x3d);
        let eq: usize = if eq < end {
            eq
        } else {
            end
        };
        proof {
            let pair = rest.take(end - start);
            assert(pair =~= query@.subrange(start as int, end as int));
            lemma_first_index_within(rest, 0x3d, end - start);
            assert(first_index(pair, 0x3d) == eq - start);
            assert(pair.take(eq - start) =~= query@.subrange(start as int, eq as int));
            if eq < end {
                assert(after_index(pair, eq - start) =~= query@.subrange(eq + 1, end as int));
            }
            if end < query.len() {
                assert(after_index(rest, end - start) =~= query@.skip(end + 1));
            } else {
                assert(after_index(rest, end - start) =~= query@.skip(query@.len() as int));
            }
        }
        let key = copy_range(query, start, eq);
        if same_bytes(key.as_slice(), name) {
            if eq < end {
                found = Some(copy_range(query, eq + 1, end));
            } else {
                found = Some(Vec::new());
            }
        }
        if end < query.len() {
            start = end + 1;
        } else {
            start = query.len();
        }
    }
    assert(query@.skip(query@.len() as int) =~= Seq::<u8>::empty());
    found
}

proof fn lemma_first_index_bounds(s: Seq<u8>, byte: u8)
    ensures
        0 <= first_index(s, byte) <= s.len(),
    decreases s.len(),
{
    if s.len() > 0 && s[0] != byte {
        lemma_first_index_bounds(s.drop_first(), byte);
    }
}

/// Within the first `n` bytes the first `byte` stands where it stands in the
/// whole; if it stands later, it is not among them.
proof fn lemma_first_index_within(s: Seq<u8>, byte: u8, n: int)
    requires
        0 <= n <= s.len(),
    ensures
        first_index(s.take(n), byte) == if first_index(s, byte) < n {
            first_index(s, byte)
        } else {
            n
        },
    decreases n,
{
    let head = s.take(n);
    if n > 0 {
        assert(head.len() == n);
        assert(head[0] == s[0]);
        if s[0] != byte {
            assert(head.drop_first() =~= s.drop_first().take(n - 1));
            lemma_first_index_within(s.drop_first(), byte, n - 1);
            assert(first_index(head, byte) == 1 + first_index(head.drop_first(), byte));
            assert(first_index(s, byte) == 1 + first_index(s.drop_first(), byte));
        } else {
            assert(first_index(head, byte) == 0);
            assert(first_index(s, byte) == 0);
        }
    } else {
        assert(head.len() == 0);
        assert(first_index(head, byte) == 0);
        lemma_first_index_bounds(s, byte);
    }
}

/// The number that a query gives a name; none where there is no query, the
/// query does not name it, or its value is no number.
pub open spec fn number_param(query: Option<Seq<char>>, name: Seq<char>) -> Option<usize> {
    match query {
        None => None,
        Some(q) => match param(encode_utf8(q), encode_utf8(name)) {
            Some(value) => number(value),
            None => None,
        },
    }
}

/// The number that a query gives a name.
pub fn query_number(query: Option<&str>, name: &str) -> (r: Option<usize>)
    ensures
        r == number_param(
            match query {
                Some(q) => Some(q@),
                None => None,
            },
            name@,
        ),
{
    match query {
        None => None,
        Some(q) => match query_param(q.as_bytes(), name.as_bytes()) {
            Some(value) => parse_number(value.as_slice()),
            None => None,
        },
    }
}

/// Where a blob request begins and how much it takes, as far as the query
/// says: the numbers that it gives `offset` and `limit`.
pub fn blob_range(query: Option<&str>) -> (r: (Option<usize>, Option<usize>))
    ensures
        r.0 == number_param(
            match query {
                Some(q) => Some(q@),
                None => None,
            },
            "offset"@,
        ),
        r.1 == number_param(
            match query {
                Some(q) => Some(q@),
                None => None,
            },
            "limit"@,
        ),
{
    (query_number(query, "offset"), query_number(query, "limit"))
}

} // verus!
