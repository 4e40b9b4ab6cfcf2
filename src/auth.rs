use vstd::prelude::*;
use crate::text::{chars_of, starts_with, str_eq, trim, trimmed};

verus! {

/// Name of the cookie that carries the administration token.
pub const ADMIN_COOKIE_NAME: &'static str = "admin_token";

/// Scheme of an `Authorization` header that carries the token.
pub const BEARER_PREFIX: &'static str = "Bearer ";

/// Whether an `Authorization` header is `Bearer ` followed by exactly the
/// expected token.
pub open spec fn bearer_matches(header: Option<Seq<char>>, expected: Seq<char>) -> bool {
    match header {
        Some(h) => h.len() >= BEARER_PREFIX@.len() && h.take(BEARER_PREFIX@.len() as int)
            == BEARER_PREFIX@ && h.skip(BEARER_PREFIX@.len() as int) == expected,
        None => false,
    }
}

pub open spec fn opt_view(o: Option<&str>) -> Option<Seq<char>> {
    match o {
        Some(s) => Some(s@),
        None => None,
    }
}

/// Checks a bearer token against the expected one.
pub fn check_bearer_token(auth_header: Option<&str>, expected: &str) -> (r: bool)
    ensures
        r == bearer_matches(opt_view(auth_header), expected@),
{
    match auth_header {
        Some(h) => {
            if !starts_with(h, BEARER_PREFIX) {
                return false;
            }
            let n = h.unicode_len();
            let plen = BEARER_PREFIX.unicode_len();
            let rest = h.substring_char(plen, n);
            str_eq(rest, expected)
        },
        None => false,
    }
}

/// The pieces of `s` between semicolons (one piece when there is none).
pub open spec fn split_semis(s: Seq<char>) -> Seq<Seq<char>>
    decreases s.len(),
{
    if s.len() == 0 {
        seq![Seq::empty()]
    } else {
        let p = split_semis(s.drop_last());
        if s.last() == ';' {
            p.push(Seq::empty())
        } else {
            p.update(p.len() - 1, p.last().push(s.last()))
        }
    }
}

/// Index of the first `c` in `s`, or -1.
pub open spec fn first_index(s: Seq<char>, c: char) -> int
    decreases s.len(),
{
    if s.len() == 0 {
        -1
    } else if s[0] == c {
        0
    } else {
        let k = first_index(s.drop_first(), c);
        if k < 0 {
            -1
        } else {
            k + 1
        }
    }
}

/// The value of a `name=value` piece whose name is `name`.
pub open spec fn pair_value(piece: Seq<char>, name: Seq<char>) -> Option<Seq<char>> {
    let i = first_index(piece, '=');
    if i >= 0 && piece.take(i) == name {
        Some(piece.skip(i + 1))
    } else {
        None
    }
}

/// The value of the first piece, trimmed, named `name`.
pub open spec fn find_cookie(pieces: Seq<Seq<char>>, name: Seq<char>) -> Option<Seq<char>>
    decreases pieces.len(),
{
    if pieces.len() == 0 {
        None
    } else {
        match pair_value(trimmed(pieces[0]), name) {
            Some(v) => Some(v),
            None => find_cookie(pieces.drop_first(), name),
        }
    }
}

/// The value of cookie `name` in a `Cookie` header.
pub open spec fn cookie_value(header: Option<Seq<char>>, name: Seq<char>) -> Option<Seq<char>> {
    match header {
        Some(h) => find_cookie(split_semis(h), name),
        None => None,
    }
}

fn first_index_exec(s: &str, c: char) -> (r: Option<usize>)
    ensures
        r is None <==> first_index(s@, c) < 0,
        r matches Some(i) ==> i == first_index(s@, c) && i < s@.len(),
{
    let cs = chars_of(s);
    let mut i: usize = 0;
    while i < cs.len()
        invariant
            cs@ == s@,
            i <= cs@.len(),
            forall|j: int| 0 <= j < i ==> cs@[j] != c,
        decreases cs.len() - i,
    {
        if cs[i] == c {
            proof {
                lemma_first_index_at(s@, c, i as int);
            }
            return Some(i);
        }
        i = i + 1;
    }
    proof {
        lemma_first_index_at(s@, c, -1);
    }
    None
}

proof fn lemma_first_index_at(s: Seq<char>, c: char, i: int)
    requires
        -1 <= i < s.len(),
        forall|j: int| 0 <= j < (if i < 0 { s.len() as int } else { i }) ==> s[j] != c,
        i >= 0 ==> s[i] == c,
    ensures
        first_index(s, c) == i,
    decreases s.len(),
{
    if s.len() > 0 && i != 0 {
        let t = s.drop_first();
        assert forall|j: int| 0 <= j < (if i < 0 { t.len() as int } else { i - 1 }) implies t[j]
            != c by {
            assert(t[j] == s[j + 1]);
        }
        if i > 0 {
            assert(t[i - 1] == s[i]);
            lemma_first_index_at(t, c, i - 1);
        } else {
            lemma_first_index_at(t, c, -1);
        }
    }
}

/// The pieces of a header between semicolons.
fn split_on_semis<'a>(s: &'a str) -> (r: Vec<&'a str>)
    ensures
        r@.map_values(|x: &str| x@) == split_semis(s@),
{
    let cs = chars_of(s);
    let n = cs.len();
    let mut out: Vec<&'a str> = Vec::new();
    let mut start: usize = 0;
    let mut k: usize = 0;
    assert(s@.take(0) =~= Seq::<char>::empty());
    assert(out@.map_values(|x: &str| x@).push(s@.subrange(0, 0)) =~= split_semis(s@.take(0)));
    while k < n
        invariant
            cs@ == s@,
            n == cs@.len(),
            start <= k <= n,
            out@.map_values(|x: &str| x@).push(s@.subrange(start as int, k as int)) == split_semis(
                s@.take(k as int),
            ),
        decreases n - k,
    {
        proof {
            assert(s@.take(k + 1).drop_last() =~= s@.take(k as int));
            assert(s@.take(k + 1).last() == cs@[k as int]);
        }
        let ghost before = out@.map_values(|x: &str| x@);
        if cs[k] == ';' {
            let piece = s.substring_char(start, k);
            out.push(piece);
            start = k + 1;
            proof {
                assert(out@.map_values(|x: &str| x@) =~= before.push(piece@));
                assert(s@.subrange(start as int, k + 1) =~= Seq::<char>::empty());
                assert(out@.map_values(|x: &str| x@).push(s@.subrange(start as int, k + 1))
                    =~= split_semis(s@.take(k + 1)));
            }
        } else {
            proof {
                let p = split_semis(s@.take(k as int));
                assert(s@.subrange(start as int, k + 1) =~= s@.subrange(start as int, k as int).push(
                    cs@[k as int],
                ));
                assert(before.push(s@.subrange(start as int, k + 1)) =~= p.update(
                    p.len() - 1,
                    p.last().push(cs@[k as int]),
                ));
            }
        }
        k = k + 1;
    }
    let last = s.substring_char(start, n);
    out.push(last);
    proof {
        assert(s@.take(n as int) =~= s@);
        assert(out@.map_values(|x: &str| x@) =~= split_semis(s@));
    }
    out
}

/// The value of cookie `cookie_name` in a `Cookie` header: the first piece
/// between semicolons that, trimmed, reads `name=value` with that name.
pub fn extract_cookie_token<'a>(cookie_header: Option<&'a str>, cookie_name: &str) -> (r: Option<
    &'a str,
>)
    ensures
        opt_view(r) == cookie_value(opt_view(cookie_header), cookie_name@),
{
    let h = match cookie_header {
        Some(h) => h,
        None => {
            return None;
        },
    };
    let pieces = split_on_semis(h);
    let ghost ps = split_semis(h@);
    let mut i: usize = 0;
    assert(ps.skip(0) =~= ps);
    while i < pieces.len()
        invariant
            pieces@.map_values(|x: &str| x@) == ps,
            ps == split_semis(h@),
            cookie_header == Some(h),
            i <= pieces@.len(),
            find_cookie(ps, cookie_name@) == find_cookie(ps.skip(i as int), cookie_name@),
        decreases pieces.len() - i,
    {
        let t = trim(pieces[i]);
        proof {
            assert(ps.skip(i as int)[0] == pieces@[i as int]@);
            assert(ps.skip(i as int).drop_first() =~= ps.skip(i + 1));
        }
        match first_index_exec(t, '=') {
            Some(e) => {
                let n = t.unicode_len();
                let name = t.substring_char(0, e);
                assert(name@ =~= t@.take(e as int));
                if str_eq(name, cookie_name) {
                    let value = t.substring_char(e + 1, n);
                    assert(value@ =~= t@.skip(e + 1));
                    assert(pair_value(t@, cookie_name@) == Some(value@));
                    assert(find_cookie(ps.skip(i as int), cookie_name@) == Some(value@));
                    return Some(value);
                }
            },
            None => {},
        }
        i = i + 1;
    }
    None
}

/// Checks the administration cookie against the expected token.
pub fn check_cookie_token(cookie_header: Option<&str>, expected: &str) -> (r: bool)
    ensures
        r == (cookie_value(opt_view(cookie_header), ADMIN_COOKIE_NAME@) == Some(expected@)),
{
    match extract_cookie_token(cookie_header, ADMIN_COOKIE_NAME) {
        Some(t) => str_eq(t, expected),
        None => false,
    }
}

/// The `Set-Cookie` value that stores the token for a day, `Secure` when
/// the site is served over HTTPS.
pub open spec fn auth_cookie_text(token: Seq<char>, secure: bool) -> Seq<char> {
    ADMIN_COOKIE_NAME@ + "="@ + token + "; HttpOnly; SameSite=Strict; Path=/admin; Max-Age=86400"@
        + if secure {
        "; Secure"@
    } else {
        Seq::empty()
    }
}

pub fn create_auth_cookie(token: &str, secure: bool) -> (r: String)
    ensures
        r@ == auth_cookie_text(token@, secure),
{
    let mut r = String::from_str(ADMIN_COOKIE_NAME);
    r.append("=");
    r.append(token);
    r.append("; HttpOnly; SameSite=Strict; Path=/admin; Max-Age=86400");
    if secure {
        r.append("; Secure");
    }
    assert(r@ =~= auth_cookie_text(token@, secure));
    r
}

/// The `Set-Cookie` value that removes the token.
pub fn create_logout_cookie() -> (r: String)
    ensures
        r@ == ADMIN_COOKIE_NAME@ + "=; HttpOnly; SameSite=Strict; Path=/admin; Max-Age=0"@,
{
    let mut r = String::from_str(ADMIN_COOKIE_NAME);
    r.append("=; HttpOnly; SameSite=Strict; Path=/admin; Max-Age=0");
    r
}

} // verus!
