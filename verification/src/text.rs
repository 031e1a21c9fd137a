//! ASCII text on the wire: white space, tokens and decimal numbers.

use vstd::prelude::*;
use vstd::slice::slice_subrange;
use vstd::string::*;

verus! {

/// The bytes of a text of ASCII characters.
pub open spec fn ascii(s: Seq<char>) -> Seq<u8> {
    Seq::new(s.len(), |i: int| s[i] as u8)
}

/// White space: blank, tab, line feed, vertical tab, form feed, carriage return.
pub open spec fn is_space(b: u8) -> bool {
    b == 0x20 || (0x09 <= b <= 0x0d)
}

/// A decimal digit.
pub open spec fn is_digit(b: u8) -> bool {
    0x30 <= b <= 0x39
}

/// The text holds nothing but white space.
pub open spec fn is_blank(s: Seq<u8>) -> bool {
    forall|i: int| 0 <= i < s.len() ==> is_space(#[trigger] s[i])
}

/// The text without the white space it begins with.
pub open spec fn trim_start(s: Seq<u8>) -> Seq<u8>
    decreases s.len(),
{
    if s.len() > 0 && is_space(s[0]) {
        trim_start(s.skip(1))
    } else {
        s
    }
}

/// The text without the white space it ends with.
pub open spec fn trim_end(s: Seq<u8>) -> Seq<u8>
    decreases s.len(),
{
    if s.len() > 0 && is_space(s.last()) {
        trim_end(s.drop_last())
    } else {
        s
    }
}

/// The text without the white space at either end.
pub open spec fn trimmed(s: Seq<u8>) -> Seq<u8> {
    trim_end(trim_start(s))
}

/// How many bytes stand before the first white space.
pub open spec fn token_len(s: Seq<u8>) -> nat
    decreases s.len(),
{
    if s.len() > 0 && !is_space(s[0]) {
        1 + token_len(s.skip(1))
    } else {
        0
    }
}

/// The first run of bytes that are not white space; empty where there is none.
pub open spec fn first_token(s: Seq<u8>) -> Seq<u8> {
    trim_start(s).take(token_len(trim_start(s)) as int)
}

/// What follows the first token.
pub open spec fn after_first_token(s: Seq<u8>) -> Seq<u8> {
    trim_start(s).skip(token_len(trim_start(s)) as int)
}

/// The second run of bytes that are not white space; empty where there is none.
pub open spec fn second_token(s: Seq<u8>) -> Seq<u8> {
    first_token(after_first_token(s))
}

/// Every byte is a decimal digit.
pub open spec fn all_digits(s: Seq<u8>) -> bool {
    forall|i: int| 0 <= i < s.len() ==> is_digit(#[trigger] s[i])
}

/// The number that a run of digits denotes, most significant digit first.
pub open spec fn decimal_value(s: Seq<u8>) -> nat
    decreases s.len(),
{
    if s.len() == 0 {
        0
    } else {
        decimal_value(s.drop_last()) * 10 + (s.last() - 0x30) as nat
    }
}

/// The digits of a number, most significant first, without leading zeros.
pub open spec fn decimal_digits(n: nat) -> Seq<u8>
    decreases n,
{
    if n < 10 {
        seq![(0x30 + n) as u8]
    } else {
        decimal_digits(n / 10).push((0x30 + n % 10) as u8)
    }
}

/// The number that a text denotes: an optional plus sign, then one digit or
/// more and nothing else. Other texts denote none.
pub open spec fn parsed_number(s: Seq<u8>) -> Option<nat> {
    let digits = if s.len() > 0 && s[0] == 0x2b {
        s.skip(1)
    } else {
        s
    };
    if digits.len() > 0 && all_digits(digits) {
        Some(decimal_value(digits))
    } else {
        None
    }
}

/// The number that a text denotes, where it denotes one that the machine's
/// sizes can hold.
pub open spec fn parsed_size(s: Seq<u8>) -> Option<usize> {
    match parsed_number(s) {
        Some(v) => if v <= usize::MAX {
            Some(v as usize)
        } else {
            None
        },
        None => None,
    }
}

/// The bytes of a literal text of ASCII characters.
pub(crate) fn ascii_bytes(text: &'static str) -> (b: &'static [u8])
    requires
        is_ascii(text),
    ensures
        b@ == ascii(text@),
{
    proof {
        is_ascii_spec_bytes(text);
    }
    text.as_bytes()
}

/// Whether a byte is white space.
pub fn is_space_byte(b: u8) -> (r: bool)
    ensures
        r == is_space(b),
{
    b == 0x20 || (0x09 <= b && b <= 0x0d)
}

/// Whether `text` begins with `prefix`.
pub fn starts_with(text: &[u8], prefix: &[u8]) -> (r: bool)
    ensures
        r == prefix@.is_prefix_of(text@),
{
    if prefix.len() > text.len() {
        return false;
    }
    let mut i: usize = 0;
    while i < prefix.len()
        invariant
            0 <= i <= prefix@.len() <= text@.len(),
            forall|j: int| 0 <= j < i ==> prefix@[j] == text@[j],
        decreases prefix@.len() - i,
    {
        if prefix[i] != text[i] {
            assert(prefix@[i as int] != text@.subrange(0, prefix@.len() as int)[i as int]);
            return false;
        }
        i += 1;
    }
    assert(prefix@ =~= text@.subrange(0, prefix@.len() as int));
    true
}

/// Whether the text holds nothing but white space.
pub fn is_blank_text(text: &[u8]) -> (r: bool)
    ensures
        r == is_blank(text@),
{
    let mut i: usize = 0;
    while i < text.len()
        invariant
            0 <= i <= text@.len(),
            forall|j: int| 0 <= j < i ==> is_space(#[trigger] text@[j]),
        decreases text@.len() - i,
    {
        if !is_space_byte(text[i]) {
            return false;
        }
        i += 1;
    }
    true
}

/// White space at the front does not count: trimming may begin behind it.
pub(crate) proof fn lemma_trim_start_skips(s: Seq<u8>, k: int)
    requires
        0 <= k <= s.len(),
        forall|i: int| 0 <= i < k ==> is_space(#[trigger] s[i]),
    ensures
        trim_start(s) == trim_start(s.skip(k)),
    decreases k,
{
    if k > 0 {
        lemma_trim_start_skips(s.skip(1), k - 1);
        assert(s.skip(1).skip(k - 1) =~= s.skip(k));
    } else {
        assert(s.skip(0) =~= s);
    }
}

/// White space at the end does not count: trimming may end before it.
pub(crate) proof fn lemma_trim_end_drops(s: Seq<u8>, k: int)
    requires
        0 <= k <= s.len(),
        forall|i: int| k <= i < s.len() ==> is_space(#[trigger] s[i]),
    ensures
        trim_end(s) == trim_end(s.take(k)),
    decreases s.len() - k,
{
    if k < s.len() {
        lemma_trim_end_drops(s.drop_last(), k);
        assert(s.drop_last().take(k) =~= s.take(k));
    } else {
        assert(s.take(k) =~= s);
    }
}

/// A token ends where the first white space stands, or with the text.
pub(crate) proof fn lemma_token_len_counts(s: Seq<u8>, k: int)
    requires
        0 <= k <= s.len(),
        forall|i: int| 0 <= i < k ==> !is_space(#[trigger] s[i]),
        k == s.len() || is_space(s[k]),
    ensures
        token_len(s) == k,
    decreases k,
{
    if k > 0 {
        lemma_token_len_counts(s.skip(1), k - 1);
    }
}

/// The bounds of the text without the white space at either end.
fn trim_bounds(text: &[u8]) -> (r: (usize, usize))
    ensures
        r.0 <= r.1 <= text@.len(),
        text@.subrange(r.0 as int, r.1 as int) == trimmed(text@),
{
    let n = text.len();
    let mut lo: usize = 0;
    while lo < n && is_space_byte(text[lo])
        invariant
            0 <= lo <= n,
            n == text@.len(),
            forall|j: int| 0 <= j < lo ==> is_space(#[trigger] text@[j]),
        decreases n - lo,
    {
        lo += 1;
    }
    let mut hi: usize = n;
    while hi > lo && is_space_byte(text[hi - 1])
        invariant
            lo <= hi <= n,
            n == text@.len(),
            forall|j: int| hi <= j < n ==> is_space(#[trigger] text@[j]),
        decreases hi - lo,
    {
        hi -= 1;
    }
    proof {
        let s = text@;
        lemma_trim_start_skips(s, lo as int);
        let t = s.skip(lo as int);
        assert(trim_start(t) == t);
        assert forall|i: int| hi - lo <= i < t.len() implies is_space(#[trigger] t[i]) by {
            assert(t[i] == s[i + lo]);
        }
        lemma_trim_end_drops(t, hi - lo);
        let u = t.take(hi - lo);
        assert(u =~= s.subrange(lo as int, hi as int));
        if hi > lo {
            assert(u.last() == s[hi - 1]);
        }
        assert(trim_end(u) == u);
    }
    (lo, hi)
}

/// The text without the white space at either end.
pub fn trim(text: &[u8]) -> (r: &[u8])
    ensures
        r@ == trimmed(text@),
{
    let (lo, hi) = trim_bounds(text);
    slice_subrange(text, lo, hi)
}

/// The bounds of the first token at or after `from`, and so the place where
/// the search for the next one starts.
pub(crate) fn token_bounds(text: &[u8], from: usize) -> (r: (usize, usize))
    requires
        from <= text@.len(),
    ensures
        from <= r.0 <= r.1 <= text@.len(),
        text@.subrange(r.0 as int, r.1 as int) == first_token(text@.skip(from as int)),
        text@.skip(r.1 as int) == after_first_token(text@.skip(from as int)),
{
    let n = text.len();
    let mut lo: usize = from;
    while lo < n && is_space_byte(text[lo])
        invariant
            from <= lo <= n,
            n == text@.len(),
            forall|j: int| from <= j < lo ==> is_space(#[trigger] text@[j]),
        decreases n - lo,
    {
        lo += 1;
    }
    let mut hi: usize = lo;
    while hi < n && !is_space_byte(text[hi])
        invariant
            lo <= hi <= n,
            n == text@.len(),
            forall|j: int| lo <= j < hi ==> !is_space(#[trigger] text@[j]),
        decreases n - hi,
    {
        hi += 1;
    }
    proof {
        let s = text@.skip(from as int);
        assert forall|i: int| 0 <= i < lo - from implies is_space(#[trigger] s[i]) by {
            assert(s[i] == text@[i + from]);
        }
        lemma_trim_start_skips(s, lo - from);
        let t = s.skip(lo - from);
        assert(t =~= text@.skip(lo as int));
        assert(trim_start(t) == t);
        assert forall|i: int| 0 <= i < hi - lo implies !is_space(#[trigger] t[i]) by {
            assert(t[i] == text@[i + lo]);
        }
        lemma_token_len_counts(t, hi - lo);
        assert(t.take(hi - lo) =~= text@.subrange(lo as int, hi as int));
        assert(t.skip(hi - lo) =~= text@.skip(hi as int));
    }
    (lo, hi)
}

/// The value of a run of digits grows with each digit that is appended.
proof fn lemma_decimal_value_grows(s: Seq<u8>, k: int)
    requires
        0 <= k <= s.len(),
        all_digits(s),
    ensures
        decimal_value(s.take(k)) <= decimal_value(s),
    decreases s.len() - k,
{
    if k < s.len() {
        lemma_decimal_value_grows(s.drop_last(), k);
        assert(s.drop_last().take(k) =~= s.take(k));
    } else {
        assert(s.take(k) =~= s);
    }
}

/// The number that a text denotes, where it denotes one that fits.
pub fn parse_decimal(text: &[u8]) -> (r: Option<usize>)
    ensures
        r == parsed_size(text@),
{
    let n = text.len();
    let start: usize = if n > 0 && text[0] == 0x2b {
        1
    } else {
        0
    };
    if start == n {
        return None;
    }
    let ghost digits = text@.skip(start as int);
    let ghost denoted = parsed_number(text@);
    proof {
        assert(text@.skip(0) =~= text@);
        assert(denoted == if all_digits(digits) {
            Some(decimal_value(digits))
        } else {
            None
        });
    }
    let mut value: usize = 0;
    let mut i: usize = start;
    while i < n
        invariant
            start <= i <= n,
            n == text@.len(),
            digits == text@.skip(start as int),
            denoted == parsed_number(text@),
            denoted == if all_digits(digits) {
                Some(decimal_value(digits))
            } else {
                None
            },
            all_digits(digits.take(i - start)),
            value == decimal_value(digits.take(i - start)),
        decreases n - i,
    {
        let b = text[i];
        let ghost next = digits.take(i - start + 1);
        proof {
            assert(next.drop_last() =~= digits.take(i - start));
            assert(next.last() == b);
        }
        if b < 0x30 || b > 0x39 {
            assert(!is_digit(digits[i - start]));
            return None;
        }
        assert(all_digits(next)) by {
            assert forall|j: int| 0 <= j < next.len() implies is_digit(#[trigger] next[j]) by {
                if j < i - start {
                    assert(next[j] == digits.take(i - start)[j]);
                }
            }
        }
        let d = (b - 0x30) as usize;
        let scaled = match value.checked_mul(10) {
            Some(v) => v,
            None => {
                proof {
                    if all_digits(digits) {
                        lemma_decimal_value_grows(digits, i - start + 1);
                    }
                }
                return None;
            },
        };
        value = match scaled.checked_add(d) {
            Some(v) => v,
            None => {
                proof {
                    if all_digits(digits) {
                        lemma_decimal_value_grows(digits, i - start + 1);
                    }
                }
                return None;
            },
        };
        i += 1;
    }
    assert(digits.take(n - start) =~= digits);
    Some(value)
}

/// Appends the decimal digits of `n`.
pub fn push_decimal(out: &mut Vec<u8>, n: u64)
    ensures
        final(out)@ == old(out)@ + decimal_digits(n as nat),
    decreases n,
{
    if n >= 10 {
        push_decimal(out, n / 10);
    }
    let d: u8 = 0x30 + (n % 10) as u8;
    out.push(d);
    proof {
        if n >= 10 {
            assert(final(out)@ =~= old(out)@ + decimal_digits((n / 10) as nat).push(d));
        } else {
            assert(final(out)@ =~= old(out)@ + seq![d]);
        }
    }
}

/// Appends the bytes of `text`.
pub fn push_bytes(out: &mut Vec<u8>, text: &[u8])
    ensures
        final(out)@ == old(out)@ + text@,
{
    out.extend_from_slice(text);
    assert(final(out)@ =~= old(out)@ + text@);
}

/// The digits of a number are digits, at least one of them, and denote it.
pub proof fn lemma_decimal_digits_denote(n: nat)
    ensures
        decimal_digits(n).len() > 0,
        all_digits(decimal_digits(n)),
        decimal_value(decimal_digits(n)) == n,
    decreases n,
{
    if n >= 10 {
        lemma_decimal_digits_denote(n / 10);
        let d = decimal_digits(n);
        assert(d.drop_last() =~= decimal_digits(n / 10));
        assert forall|i: int| 0 <= i < d.len() implies is_digit(#[trigger] d[i]) by {
            if i < d.len() - 1 {
                assert(d[i] == decimal_digits(n / 10)[i]);
            }
        }
    } else {
        let d = decimal_digits(n);
        assert(d.drop_last() =~= Seq::<u8>::empty());
        assert(decimal_value(d.drop_last()) == 0);
    }
}

/// Writing a number in decimal and reading it back gives the number.
pub proof fn lemma_decimal_round_trip(n: nat)
    ensures
        parsed_number(decimal_digits(n)) == Some(n),
        n <= usize::MAX ==> parsed_size(decimal_digits(n)) == Some(n as usize),
{
    lemma_decimal_digits_denote(n);
    assert(is_digit(decimal_digits(n)[0]));
}

/// A run of digits has no white space in it.
pub(crate) proof fn lemma_digits_hold_no_space(s: Seq<u8>)
    requires
        all_digits(s),
    ensures
        forall|i: int| 0 <= i < s.len() ==> !is_space(#[trigger] s[i]),
{
    assert forall|i: int| 0 <= i < s.len() implies !is_space(#[trigger] s[i]) by {
        assert(is_digit(s[i]));
    }
}

} // verus!
