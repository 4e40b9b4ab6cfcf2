use vstd::prelude::*;
use crate::calendar::{is_digit, parse_key, digit_value};
use crate::rate_limit::{all_digits, digits_value};

verus! {

/// Why a request that names a day, or one of its versions, is refused
/// before any lookup.
#[derive(Debug, Clone, Copy, PartialEq, Eq, Structural)]
pub enum RequestError {
    MissingDate,
    InvalidDate,
    InvalidVersion,
}

impl RequestError {
    pub fn message(&self) -> (r: String)
        ensures
            r@ == match *self {
                RequestError::MissingDate => "Date parameter required"@,
                RequestError::InvalidDate => "Invalid date format. Use YYYY-MM-DD."@,
                RequestError::InvalidVersion => "Invalid version number"@,
            },
    {
        match self {
            RequestError::MissingDate => String::from_str("Date parameter required"),
            RequestError::InvalidDate => String::from_str("Invalid date format. Use YYYY-MM-DD."),
            RequestError::InvalidVersion => String::from_str("Invalid version number"),
        }
    }
}

/// `s` without a leading sign.
pub open spec fn unsigned_digits(s: Seq<char>) -> Seq<char> {
    if s.len() > 0 && (s[0] == '+' || s[0] == '-') {
        s.drop_first()
    } else {
        s
    }
}

/// What `i32::from_str` reads: an optional sign, then one or more ASCII
/// digits whose signed value fits in an `i32`.
pub open spec fn parse_i32(s: Seq<char>) -> Option<int> {
    let neg = s.len() > 0 && s[0] == '-';
    let d = unsigned_digits(s);
    let v = if neg { -digits_value(d) } else { digits_value(d) };
    if d.len() > 0 && all_digits(d) && i32::MIN <= v <= i32::MAX {
        Some(v)
    } else {
        None
    }
}

proof fn lemma_digits_prefix(d: Seq<char>, i: int)
    requires
        0 <= i <= d.len(),
        all_digits(d),
    ensures
        0 <= digits_value(d.take(i)) <= digits_value(d),
    decreases d.len() - i,
{
    if i < d.len() {
        lemma_digits_prefix(d, i + 1);
        assert(d.take(i + 1).drop_last() =~= d.take(i));
        assert(is_digit(d[i]));
    } else {
        assert(d.take(i) =~= d);
        lemma_digits_nonneg(d);
    }
}

proof fn lemma_digits_nonneg(d: Seq<char>)
    requires
        all_digits(d),
    ensures
        0 <= digits_value(d),
    decreases d.len(),
{
    if d.len() > 0 {
        assert(is_digit(d[d.len() - 1]));
        assert(all_digits(d.drop_last()));
        lemma_digits_nonneg(d.drop_last());
    }
}

/// Reads a number as `i32::from_str` does.
pub fn parse_version_number(s: &str) -> (r: Option<i32>)
    ensures
        r is Some <==> parse_i32(s@) is Some,
        r matches Some(v) ==> parse_i32(s@) == Some(v as int),
{
    let cs = crate::text::chars_of(s);
    let n = cs.len();
    let neg = n > 0 && cs[0] == '-';
    let start: usize = if n > 0 && (cs[0] == '+' || cs[0] == '-') { 1 } else { 0 };
    let ghost d = unsigned_digits(s@);
    assert(d =~= s@.skip(start as int));
    if n == start {
        return None;
    }
    // The magnitude may reach 2^31 for the most negative value.
    let limit: i64 = if neg { 2147483648 } else { 2147483647 };
    let mut v: i64 = 0;
    let mut i: usize = start;
    while i < n
        invariant
            cs@ == s@,
            n == cs@.len(),
            d == s@.skip(start as int),
            d == unsigned_digits(s@),
            start <= i <= n,
            forall|j: int| 0 <= j < i - start ==> is_digit(#[trigger] d[j]),
            v == digits_value(d.take(i - start)),
            0 <= v <= limit,
            limit == if neg { 2147483648i64 } else { 2147483647i64 },
            neg == (s@.len() > 0 && s@[0] == '-'),
        decreases n - i,
    {
        let c = cs[i];
        if !('0' <= c && c <= '9') {
            assert(d[i - start] == c);
            assert(!all_digits(d));
            return None;
        }
        proof {
            assert(d.take(i - start + 1).drop_last() =~= d.take(i - start));
            assert(d[i - start] == c);
        }
        v = v * 10 + ((c as u32) - ('0' as u32)) as i64;
        assert(v == digits_value(d.take(i - start + 1)));
        if v > limit {
            proof {
                if all_digits(d) {
                    lemma_digits_prefix(d, i - start + 1);
                }
            }
            return None;
        }
        i = i + 1;
    }
    assert(d.take(d.len() as int) =~= d);
    assert(all_digits(d));
    if neg {
        Some((-v) as i32)
    } else {
        Some(v as i32)
    }
}

/// Checks the day named by a request: present, and a key of a real day.
pub fn date_param(date: Option<&str>) -> (r: Result<(), RequestError>)
    ensures
        r == match date {
            None => Err(RequestError::MissingDate),
            Some(d) => if parse_key(d@) is Some {
                Ok(())
            } else {
                Err(RequestError::InvalidDate)
            },
        },
{
    match date {
        None => Err(RequestError::MissingDate),
        Some(d) => if crate::calendar::is_valid_date(d) {
            Ok(())
        } else {
            Err(RequestError::InvalidDate)
        },
    }
}

/// Checks a request for one version of a day: the day must be present, the
/// version a number, and the day a real one, refused in that order.
pub fn version_params(date: Option<&str>, version: Option<&str>) -> (r: Result<i32, RequestError>)
    ensures
        date is None ==> r == Err::<i32, RequestError>(RequestError::MissingDate),
        date is Some && (version is None || parse_i32(version->Some_0@) is None) ==> r == Err::<
            i32,
            RequestError,
        >(RequestError::InvalidVersion),
        date is Some && version is Some && parse_i32(version->Some_0@) is Some ==> r == if parse_key(
            date->Some_0@,
        ) is Some {
            Ok::<i32, RequestError>(parse_i32(version->Some_0@)->Some_0 as i32)
        } else {
            Err(RequestError::InvalidDate)
        },
{
    let d = match date {
        Some(d) => d,
        None => {
            return Err(RequestError::MissingDate);
        },
    };
    let n = match version {
        Some(v) => match parse_version_number(v) {
            Some(n) => n,
            None => {
                return Err(RequestError::InvalidVersion);
            },
        },
        None => {
            return Err(RequestError::InvalidVersion);
        },
    };
    if crate::calendar::is_valid_date(d) {
        Ok(n)
    } else {
        Err(RequestError::InvalidDate)
    }
}

} // verus!
