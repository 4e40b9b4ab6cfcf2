use vstd::prelude::*;
use crate::calendar::{digit_value, is_digit};

verus! {

/// Writes allowed to one address within a window.
pub const MAX_REQUESTS: u32 = 60;

/// Length of the window, in seconds: the lifetime of a stored count.
pub const WINDOW_SECONDS: u64 = 3600;

/// Whether an address that has written `count` times in the window must wait.
pub fn is_rate_limited(count: u32) -> (r: bool)
    ensures
        r == (count >= MAX_REQUESTS),
{
    count >= MAX_REQUESTS
}

/// The key under which the count of an address is stored.
pub fn rate_limit_key(ip: &str) -> (r: String)
    ensures
        r@ == "rate:"@ + ip@,
{
    let mut r = String::from_str("rate:");
    r.append(ip);
    r
}

/// The value of a run of decimal digits.
pub open spec fn digits_value(s: Seq<char>) -> int
    decreases s.len(),
{
    if s.len() == 0 {
        0
    } else {
        10 * digits_value(s.drop_last()) + digit_value(s.last())
    }
}

/// `s` without a leading `+`.
pub open spec fn unsigned_part(s: Seq<char>) -> Seq<char> {
    if s.len() > 0 && s[0] == '+' {
        s.drop_first()
    } else {
        s
    }
}

pub open spec fn all_digits(d: Seq<char>) -> bool {
    forall|i: int| 0 <= i < d.len() ==> is_digit(#[trigger] d[i])
}

/// What `u32::from_str` reads: an optional `+`, then one or more ASCII
/// digits whose value fits in a `u32`.
pub open spec fn parse_u32(s: Seq<char>) -> Option<int> {
    let d = unsigned_part(s);
    if d.len() > 0 && all_digits(d) && digits_value(d) <= u32::MAX {
        Some(digits_value(d))
    } else {
        None
    }
}

proof fn lemma_digits_value_grows(s: Seq<char>, i: int)
    requires
        0 <= i <= s.len(),
        forall|j: int| 0 <= j < s.len() ==> is_digit(#[trigger] s[j]),
    ensures
        digits_value(s.take(i)) <= digits_value(s),
        0 <= digits_value(s.take(i)),
    decreases s.len() - i,
{
    if i < s.len() {
        lemma_digits_value_grows(s, i + 1);
        assert(s.take(i + 1).drop_last() =~= s.take(i));
        assert(is_digit(s[i]));
    } else {
        assert(s.take(i) =~= s);
        lemma_digits_value_nonneg(s);
    }
}

proof fn lemma_digits_value_nonneg(s: Seq<char>)
    requires
        forall|j: int| 0 <= j < s.len() ==> is_digit(#[trigger] s[j]),
    ensures
        0 <= digits_value(s),
    decreases s.len(),
{
    if s.len() > 0 {
        assert(is_digit(s[s.len() - 1]));
        lemma_digits_value_nonneg(s.drop_last());
    }
}

/// The count stored for an address: the stored text read as a `u32`, and 0
/// when there is none or it cannot be read.
pub fn parse_count(text: Option<&str>) -> (r: u32)
    ensures
        r == match text {
            Some(t) => match parse_u32(t@) {
                Some(v) => v,
                None => 0,
            },
            None => 0,
        },
{
    let t = match text {
        Some(t) => t,
        None => {
            return 0;
        },
    };
    let cs = crate::text::chars_of(t);
    let start: usize = if cs.len() > 0 && cs[0] == '+' { 1 } else { 0 };
    let ghost d = unsigned_part(t@);
    assert(d =~= t@.skip(start as int));
    if cs.len() == start {
        return 0;
    }
    let mut v: u64 = 0;
    let mut i: usize = start;
    while i < cs.len()
        invariant
            cs@ == t@,
            text == Some(t),
            d == unsigned_part(t@),
            d == t@.skip(start as int),
            start <= i <= cs@.len(),
            forall|j: int| 0 <= j < i - start ==> is_digit(#[trigger] d[j]),
            v == digits_value(d.take(i - start)),
            v <= u32::MAX,
        decreases cs.len() - i,
    {
        let c = cs[i];
        if !('0' <= c && c <= '9') {
            assert(d[i - start] == c);
            assert(!is_digit(d[i - start]));
            assert(parse_u32(t@) is None);
            return 0;
        }
        proof {
            assert(d.take(i - start + 1).drop_last() =~= d.take(i - start));
            assert(d[i - start] == c);
        }
        v = v * 10 + ((c as u32) - ('0' as u32)) as u64;
        assert(v == digits_value(d.take(i - start + 1)));
        if v > u32::MAX as u64 {
            proof {
                if all_digits(d) {
                    lemma_digits_value_grows(d, i - start + 1);
                }
                assert(parse_u32(t@) is None);
            }
            return 0;
        }
        i = i + 1;
    }
    assert(d.take(d.len() as int) =~= d);
    v as u32
}

/// The count after one more write, held at `u32::MAX`.
pub fn next_count(count: u32) -> (r: u32)
    ensures
        r == if count == u32::MAX { count as int } else { count + 1 },
{
    if count == u32::MAX {
        count
    } else {
        count + 1
    }
}

} // verus!
