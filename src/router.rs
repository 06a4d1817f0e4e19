use vstd::prelude::*;
use vstd::string::StringSliceAdditionalSpecFns;

verus! {

/// The HTTP methods the routes answer to; every other method is `Other`.
#[derive(Clone, Copy, Debug, PartialEq, Eq, Structural)]
pub enum Method {
    Get,
    Post,
    Put,
    Delete,
    Other,
}

/// What a matched request asks of the store.
#[derive(Clone, Copy, Debug, PartialEq, Eq, Structural)]
pub enum Route {
    /// `GET /rustaceans`
    List,
    /// `GET /rustaceans/<id>`
    View(i32),
    /// `POST /rustaceans`
    Create,
    /// `PUT /rustaceans/<id>`
    Update(i32),
    /// `DELETE /rustaceans/<id>`
    Remove(i32),
}

/// The bytes of `/rustaceans`.
pub open spec fn collection_path() -> Seq<u8> {
    seq![47u8, 114u8, 117u8, 115u8, 116u8, 97u8, 99u8, 101u8, 97u8, 110u8, 115u8]
}

pub open spec fn is_digit(c: u8) -> bool {
    48 <= c <= 57
}

pub open spec fn all_digits(s: Seq<u8>) -> bool {
    forall|i: int| 0 <= i < s.len() ==> is_digit(#[trigger] s[i])
}

/// The number that decimal digits spell.
pub open spec fn digits_value(s: Seq<u8>) -> int
    decreases s.len(),
{
    if s.len() == 0 {
        0
    } else {
        digits_value(s.drop_last()) * 10 + (s.last() - 48)
    }
}

/// A path segment read as an `i32`: an optional `+` or `-`, then one or more
/// decimal digits, with a value that an `i32` holds.
pub open spec fn parsed_i32(s: Seq<u8>) -> Option<i32> {
    let negative = s.len() > 0 && s[0] == 45u8;
    let signed = s.len() > 0 && (s[0] == 45u8 || s[0] == 43u8);
    let ds = if signed { s.skip(1) } else { s };
    let v = if negative { -digits_value(ds) } else { digits_value(ds) };
    if ds.len() > 0 && all_digits(ds) && i32::MIN <= v <= i32::MAX {
        Some(v as i32)
    } else {
        None
    }
}

/// The route that a method and a path select, if any.
pub open spec fn route_of(method: Method, p: Seq<u8>) -> Option<Route> {
    if p == collection_path() {
        match method {
            Method::Get => Some(Route::List),
            Method::Post => Some(Route::Create),
            _ => None,
        }
    } else if p.len() > 12 && p.take(11) == collection_path() && p[11] == 47u8 {
        match parsed_i32(p.skip(12)) {
            Some(id) => match method {
                Method::Get => Some(Route::View(id)),
                Method::Put => Some(Route::Update(id)),
                Method::Delete => Some(Route::Remove(id)),
                _ => None,
            },
            None => None,
        }
    } else {
        None
    }
}

proof fn lemma_digits_value_nonneg(s: Seq<u8>)
    requires
        all_digits(s),
    ensures
        digits_value(s) >= 0,
    decreases s.len(),
{
    if s.len() > 0 {
        assert(all_digits(s.drop_last()));
        lemma_digits_value_nonneg(s.drop_last());
        assert(is_digit(s[s.len() - 1]));
    }
}

/// A longer run of digits spells at least as much as its prefix.
proof fn lemma_digits_prefix_le(s: Seq<u8>, i: int)
    requires
        all_digits(s),
        0 <= i <= s.len(),
    ensures
        digits_value(s.take(i)) <= digits_value(s),
    decreases s.len(),
{
    if i == s.len() {
        assert(s.take(i) =~= s);
    } else {
        let d = s.drop_last();
        assert(all_digits(d));
        lemma_digits_prefix_le(d, i);
        assert(d.take(i) =~= s.take(i));
        lemma_digits_value_nonneg(d);
        assert(is_digit(s[s.len() - 1]));
    }
}

/// Reads a path segment as an `i32`, as `parsed_i32` says.
pub fn parse_id(s: &[u8]) -> (r: Option<i32>)
    ensures
        r == parsed_i32(s@),
{
    let len = s.len();
    let negative = len > 0 && s[0] == 45u8;
    let signed = len > 0 && (s[0] == 45u8 || s[0] == 43u8);
    let start: usize = if signed { 1 } else { 0 };
    let ghost ds = s@.skip(start as int);
    assert(ds =~= (if signed { s@.skip(1) } else { s@ }));
    let limit: u64 = if negative { 2147483648 } else { 2147483647 };
    if start == len {
        return None;
    }
    let mut acc: u64 = 0;
    let mut i: usize = start;
    while i < len
        invariant
            start <= i <= len == s@.len(),
            ds == s@.skip(start as int),
            ds == (if signed { s@.skip(1) } else { s@ }),
            signed == (s@.len() > 0 && (s@[0] == 45u8 || s@[0] == 43u8)),
            negative == (s@.len() > 0 && s@[0] == 45u8),
            limit == (if negative { 2147483648u64 } else { 2147483647u64 }),
            all_digits(ds.take(i - start)),
            acc as int == digits_value(ds.take(i - start)),
            acc <= limit,
            limit <= 2147483648,
        decreases len - i,
    {
        let c = s[i];
        if c < 48 || c > 57 {
            assert(!is_digit(ds[i - start]));
            assert(!all_digits(ds));
            return None;
        }
        let next = acc * 10 + (c - 48) as u64;
        proof {
            let t = ds.take(i - start + 1);
            assert(t.drop_last() =~= ds.take(i - start));
            assert(t.last() == c);
            assert(all_digits(t));
            assert(digits_value(t) == next as int);
        }
        if next > limit {
            proof {
                if all_digits(ds) {
                    lemma_digits_prefix_le(ds, i - start + 1);
                    assert(digits_value(ds) > limit as int);
                }
            }
            return None;
        }
        acc = next;
        i = i + 1;
    }
    assert(ds.take(len - start) =~= ds);
    if negative {
        Some((0 - acc as i64) as i32)
    } else {
        Some(acc as i32)
    }
}

/// Matches a request line to its route.
pub fn match_route(method: Method, path: &str) -> (r: Option<Route>)
    ensures
        r == route_of(method, path.spec_bytes()),
{
    let p = path.as_bytes();
    let len = p.len();
    let prefix = len >= 11 && p[0] == 47u8 && p[1] == 114u8 && p[2] == 117u8 && p[3] == 115u8 && p[4]
        == 116u8 && p[5] == 97u8 && p[6] == 99u8 && p[7] == 101u8 && p[8] == 97u8 && p[9] == 110u8
        && p[10] == 115u8;
    proof {
        if len >= 11 {
            let t = p@.take(11);
            assert(t[0] == p@[0] && t[1] == p@[1] && t[2] == p@[2] && t[3] == p@[3] && t[4] == p@[4]
                && t[5] == p@[5] && t[6] == p@[6] && t[7] == p@[7] && t[8] == p@[8] && t[9] == p@[9]
                && t[10] == p@[10]);
            if prefix {
                assert(t =~= collection_path());
            }
        }
        if len == 11 {
            assert(p@.take(11) =~= p@);
        }
    }
    if !prefix {
        return None;
    }
    if len == 11 {
        return match method {
            Method::Get => Some(Route::List),
            Method::Post => Some(Route::Create),
            _ => None,
        };
    }
    assert(p@ != collection_path());
    if len <= 12 || p[11] != 47u8 {
        return None;
    }
    let mut segment: Vec<u8> = Vec::new();
    let mut i: usize = 12;
    while i < len
        invariant
            len == p@.len(),
            12 <= i <= len,
            segment@ == p@.subrange(12, i as int),
        decreases len - i,
    {
        segment.push(p[i]);
        i = i + 1;
        assert(segment@ =~= p@.subrange(12, i as int));
    }
    assert(segment@ =~= p@.skip(12));
    match parse_id(segment.as_slice()) {
        Some(id) => match method {
            Method::Get => Some(Route::View(id)),
            Method::Put => Some(Route::Update(id)),
            Method::Delete => Some(Route::Remove(id)),
            _ => None,
        },
        None => None,
    }
}

} // verus!
