use vstd::prelude::*;

verus! {

/// The value of one symbol of the standard Base64 alphabet (`A-Z a-z 0-9 + /`).
pub open spec fn sextet(c: u8) -> Option<int> {
    if 65 <= c && c <= 90 {
        Some(c - 65)
    } else if 97 <= c && c <= 122 {
        Some(c - 97 + 26)
    } else if 48 <= c && c <= 57 {
        Some(c - 48 + 52)
    } else if c == 43 {
        Some(62)
    } else if c == 47 {
        Some(63)
    } else {
        None
    }
}

pub open spec fn is_symbol(c: u8) -> bool {
    sextet(c) is Some
}

pub open spec fn val(c: u8) -> int {
    sextet(c)->Some_0
}

/// The three bytes carried by four symbols.
pub open spec fn triple(a: int, b: int, c: int, d: int) -> Seq<u8> {
    seq![(a * 4 + b / 16) as u8, ((b % 16) * 16 + c / 4) as u8, ((c % 4) * 64 + d) as u8]
}

/// Four symbols with no padding.
pub open spec fn full_quad(q: Seq<u8>) -> Option<Seq<u8>> {
    if is_symbol(q[0]) && is_symbol(q[1]) && is_symbol(q[2]) && is_symbol(q[3]) {
        Some(triple(val(q[0]), val(q[1]), val(q[2]), val(q[3])))
    } else {
        None
    }
}

/// The final quad of an encoding, which may end in one or two `=`; the bits
/// that padding discards must be zero, so that every byte string has exactly
/// one encoding.
pub open spec fn last_quad(q: Seq<u8>) -> Option<Seq<u8>> {
    if q[2] == 61u8 && q[3] == 61u8 {
        if is_symbol(q[0]) && is_symbol(q[1]) && val(q[1]) % 16 == 0 {
            Some(triple(val(q[0]), val(q[1]), 0, 0).take(1))
        } else {
            None
        }
    } else if q[3] == 61u8 {
        if is_symbol(q[0]) && is_symbol(q[1]) && is_symbol(q[2]) && val(q[2]) % 4 == 0 {
            Some(triple(val(q[0]), val(q[1]), val(q[2]), 0).take(2))
        } else {
            None
        }
    } else {
        full_quad(q)
    }
}

/// Standard padded Base64 decoding: `None` for a text that is not a
/// canonical encoding.
pub open spec fn decoded(s: Seq<u8>) -> Option<Seq<u8>>
    decreases s.len(),
{
    if s.len() == 0 {
        Some(Seq::empty())
    } else if s.len() < 4 {
        None
    } else if s.len() == 4 {
        last_quad(s)
    } else {
        match full_quad(s.take(4)) {
            Some(g) => match decoded(s.skip(4)) {
                Some(rest) => Some(g + rest),
                None => None,
            },
            None => None,
        }
    }
}

/// `decoded(s)` with `prefix` put in front of a success.
pub open spec fn after(prefix: Seq<u8>, r: Option<Seq<u8>>) -> Option<Seq<u8>> {
    match r {
        Some(rest) => Some(prefix + rest),
        None => None,
    }
}

fn symbol_value(c: u8) -> (r: Option<u8>)
    ensures
        r matches Some(v) ==> sextet(c) == Some(v as int) && v < 64,
        r is None ==> sextet(c) is None,
{
    if 65 <= c && c <= 90 {
        Some(c - 65)
    } else if 97 <= c && c <= 122 {
        Some(c - 97 + 26)
    } else if 48 <= c && c <= 57 {
        Some(c - 48 + 52)
    } else if c == 43 {
        Some(62)
    } else if c == 47 {
        Some(63)
    } else {
        None
    }
}

fn push_triple(out: &mut Vec<u8>, a: u8, b: u8, c: u8, d: u8, n: usize)
    requires
        a < 64,
        b < 64,
        c < 64,
        d < 64,
        1 <= n <= 3,
    ensures
        final(out)@ == old(out)@ + triple(a as int, b as int, c as int, d as int).take(n as int),
{
    let ghost t = triple(a as int, b as int, c as int, d as int);
    out.push(a * 4 + b / 16);
    if n >= 2 {
        out.push((b % 16) * 16 + c / 4);
    }
    if n >= 3 {
        out.push((c % 4) * 64 + d);
    }
    assert(final(out)@ =~= old(out)@ + t.take(n as int));
}

/// Decodes standard padded Base64.
pub fn decode(s: &[u8]) -> (r: Option<Vec<u8>>)
    ensures
        r matches Some(v) ==> decoded(s@) == Some(v@),
        r is None ==> decoded(s@) is None,
{
    let len = s.len();
    if len % 4 != 0 {
        proof { lemma_bad_length(s@); }
        return None;
    }
    let mut out: Vec<u8> = Vec::new();
    let mut i: usize = 0;
    assert(s@.subrange(0, len as int) =~= s@);
    proof {
        if let Some(all) = decoded(s@) {
            assert(Seq::<u8>::empty() + all =~= all);
        }
    }
    while i < len
        invariant
            len == s@.len(),
            len % 4 == 0,
            i % 4 == 0,
            i <= len,
            decoded(s@) == after(out@, decoded(s@.subrange(i as int, len as int))),
        decreases len - i,
    {
        let ghost rest = s@.subrange(i as int, len as int);
        assert(rest.take(4) =~= s@.subrange(i as int, i + 4));
        assert(rest.skip(4) =~= s@.subrange(i + 4, len as int));
        let last = i + 4 == len;
        let q2_pad = s[i + 2] == 61u8;
        let q3_pad = s[i + 3] == 61u8;
        let v0 = symbol_value(s[i]);
        let v1 = symbol_value(s[i + 1]);
        let (a, b) = match (v0, v1) {
            (Some(a), Some(b)) => (a, b),
            _ => {
                proof { lemma_quad_rejected(rest); }
                return None;
            },
        };
        if last && q2_pad && q3_pad {
            if b % 16 != 0 {
                return None;
            }
            push_triple(&mut out, a, b, 0, 0, 1);
            i = i + 4;
            assert(decoded(s@.subrange(i as int, len as int)) == Some(Seq::<u8>::empty()));
            assert(out@ + Seq::<u8>::empty() =~= out@);
        } else {
            let c = match symbol_value(s[i + 2]) {
                Some(c) => c,
                None => {
                    proof { lemma_quad_rejected(rest); }
                    return None;
                },
            };
            if last && q3_pad {
                if c % 4 != 0 {
                    return None;
                }
                push_triple(&mut out, a, b, c, 0, 2);
                i = i + 4;
                assert(decoded(s@.subrange(i as int, len as int)) == Some(Seq::<u8>::empty()));
                assert(out@ + Seq::<u8>::empty() =~= out@);
            } else {
                let d = match symbol_value(s[i + 3]) {
                    Some(d) => d,
                    None => {
                        proof { lemma_quad_rejected(rest); }
                        return None;
                    },
                };
                let ghost before = out@;
                push_triple(&mut out, a, b, c, d, 3);
                assert(triple(a as int, b as int, c as int, d as int).take(3)
                    =~= triple(a as int, b as int, c as int, d as int));
                i = i + 4;
                if last {
                    assert(decoded(s@.subrange(i as int, len as int)) == Some(Seq::<u8>::empty()));
                    assert(out@ + Seq::<u8>::empty() =~= out@);
                } else {
                    assert(before + (triple(a as int, b as int, c as int, d as int)
                        + decoded(s@.subrange(i as int, len as int))->Some_0)
                        =~= out@ + decoded(s@.subrange(i as int, len as int))->Some_0);
                }
            }
        }
    }
    assert(s@.subrange(len as int, len as int) =~= Seq::<u8>::empty());
    assert(out@ + Seq::<u8>::empty() =~= out@);
    Some(out)
}

proof fn lemma_bad_length(s: Seq<u8>)
    requires
        s.len() % 4 != 0,
    ensures
        decoded(s) is None,
    decreases s.len(),
{
    if s.len() > 4 {
        lemma_bad_length(s.skip(4));
    }
}

/// A quad whose first three places hold a non-symbol that no padding rule
/// allows there makes the whole text undecodable.
proof fn lemma_quad_rejected(s: Seq<u8>)
    requires
        s.len() >= 4,
        s.len() % 4 == 0,
        !is_symbol(s[0]) || !is_symbol(s[1]) || (!is_symbol(s[2]) && !(s.len() == 4 && s[2] == 61u8 && s[3] == 61u8))
            || (!is_symbol(s[3]) && !(s.len() == 4 && s[3] == 61u8)),
    ensures
        decoded(s) is None,
{
    assert(s.take(4)[0] == s[0] && s.take(4)[1] == s[1] && s.take(4)[2] == s[2] && s.take(4)[3] == s[3]);
}

} // verus!
