use vstd::prelude::*;
use crate::base64::{decode, decoded};
use vstd::string::StringSliceAdditionalSpecFns;

verus! {

/// The bytes of the scheme word that opens a Basic `Authorization` header,
/// with the space after it: `"Basic "`.
pub open spec fn scheme_prefix() -> Seq<u8> {
    seq![66u8, 97u8, 115u8, 105u8, 99u8, 32u8]
}

/// `k` is the place of the only `:` in `d`.
pub open spec fn sole_colon_at(d: Seq<u8>, k: int) -> bool {
    0 <= k < d.len() && d[k] == 58u8 && forall|j: int| 0 <= j < d.len() && d[j] == 58u8 ==> j == k
}

/// `user:password`, split at its one colon; `None` where there is no colon
/// or more than one.
pub open spec fn credentials_of(d: Seq<u8>) -> Option<(Seq<u8>, Seq<u8>)> {
    if exists|k: int| sole_colon_at(d, k) {
        let k = choose|k: int| sole_colon_at(d, k);
        Some((d.take(k), d.skip(k + 1)))
    } else {
        None
    }
}

/// The credentials that a header value carries: `Basic ` followed by the
/// Base64 text of `user:password`.
pub open spec fn header_credentials(h: Seq<u8>) -> Option<(Seq<u8>, Seq<u8>)> {
    if h.len() >= 6 && h.take(6) == scheme_prefix() {
        match decoded(h.skip(6)) {
            Some(d) => credentials_of(d),
            None => None,
        }
    } else {
        None
    }
}

/// A request is authenticated exactly when it has a header whose credentials
/// are the expected pair.
pub open spec fn authorized(header: Option<Seq<u8>>, user: Seq<u8>, password: Seq<u8>) -> bool {
    match header {
        Some(h) => header_credentials(h) == Some((user, password)),
        None => false,
    }
}

/// A user name and a password, as bytes.
pub struct BasicAuth {
    pub username: Vec<u8>,
    pub password: Vec<u8>,
}

impl BasicAuth {
    pub open spec fn pair(&self) -> (Seq<u8>, Seq<u8>) {
        (self.username@, self.password@)
    }

    pub fn new(username: Vec<u8>, password: Vec<u8>) -> (r: BasicAuth)
        ensures
            r.username@ == username@,
            r.password@ == password@,
    {
        BasicAuth { username, password }
    }

    /// Splits decoded `user:password` bytes at their one colon.
    pub fn from_decoded(d: &[u8]) -> (r: Option<BasicAuth>)
        ensures
            r is None <==> credentials_of(d@) is None,
            r matches Some(a) ==> credentials_of(d@) == Some(a.pair()),
    {
        let len = d.len();
        let mut colons: usize = 0;
        let mut at: usize = 0;
        let mut i: usize = 0;
        while i < len
            invariant
                len == d@.len(),
                i <= len,
                colons <= i,
                colons == 0 ==> forall|j: int| 0 <= j < i ==> d@[j] != 58u8,
                colons == 1 ==> at < i && d@[at as int] == 58u8 && forall|j: int|
                    0 <= j < i && d@[j] == 58u8 ==> j == at,
                colons >= 2 ==> exists|j1: int, j2: int|
                    0 <= j1 < j2 < i && d@[j1] == 58u8 && d@[j2] == 58u8,
            decreases len - i,
        {
            if d[i] == 58u8 {
                if colons == 1 {
                    assert(at < i && d@[at as int] == 58u8 && d@[i as int] == 58u8);
                }
                if colons < 2 {
                    colons = colons + 1;
                }
                at = if colons == 1 { i } else { at };
            }
            i = i + 1;
        }
        if colons != 1 {
            proof {
                if colons >= 2 {
                    let (j1, j2) = choose|j1: int, j2: int|
                        0 <= j1 < j2 < len && d@[j1] == 58u8 && d@[j2] == 58u8;
                    assert forall|k: int| !sole_colon_at(d@, k) by {
                        if sole_colon_at(d@, k) {
                            assert(j1 == k && j2 == k);
                        }
                    }
                }
            }
            return None;
        }
        assert(sole_colon_at(d@, at as int));
        let ghost k = choose|k: int| sole_colon_at(d@, k);
        assert(k == at);
        let mut username: Vec<u8> = Vec::new();
        let mut j: usize = 0;
        while j < at
            invariant
                at < len == d@.len(),
                j <= at,
                username@ == d@.take(j as int),
            decreases at - j,
        {
            username.push(d[j]);
            j = j + 1;
            assert(username@ =~= d@.take(j as int));
        }
        let mut password: Vec<u8> = Vec::new();
        j = at + 1;
        while j < len
            invariant
                at < len == d@.len(),
                at + 1 <= j <= len,
                password@ == d@.subrange(at + 1, j as int),
            decreases len - j,
        {
            password.push(d[j]);
            j = j + 1;
            assert(password@ =~= d@.subrange(at + 1, j as int));
        }
        assert(password@ =~= d@.skip(at + 1));
        Some(BasicAuth { username, password })
    }

    /// Reads the credentials of an `Authorization` header value.
    pub fn from_authorization_header(header: &str) -> (r: Option<BasicAuth>)
        ensures
            r is None <==> header_credentials(header.spec_bytes()) is None,
            r matches Some(a) ==> header_credentials(header.spec_bytes()) == Some(a.pair()),
    {
        let h = header.as_bytes();
        let len = h.len();
        if len < 6 || h[0] != 66u8 || h[1] != 97u8 || h[2] != 115u8 || h[3] != 105u8 || h[4] != 99u8
            || h[5] != 32u8 {
            proof {
                if len >= 6 {
                    assert(h@.take(6)[0] == h@[0] && h@.take(6)[1] == h@[1] && h@.take(6)[2] == h@[2]
                        && h@.take(6)[3] == h@[3] && h@.take(6)[4] == h@[4] && h@.take(6)[5] == h@[5]);
                }
            }
            return None;
        }
        assert(h@.take(6) =~= scheme_prefix());
        let mut token: Vec<u8> = Vec::new();
        let mut i: usize = 6;
        while i < len
            invariant
                len == h@.len(),
                6 <= i <= len,
                token@ == h@.subrange(6, i as int),
            decreases len - i,
        {
            token.push(h[i]);
            i = i + 1;
            assert(token@ =~= h@.subrange(6, i as int));
        }
        assert(token@ =~= h@.skip(6));
        match decode(token.as_slice()) {
            Some(d) => BasicAuth::from_decoded(d.as_slice()),
            None => None,
        }
    }

    /// Whether these credentials are the given pair, byte for byte.
    pub fn matches(&self, expected: &BasicAuth) -> (r: bool)
        ensures
            r == (self.pair() == expected.pair()),
    {
        same_bytes(self.username.as_slice(), expected.username.as_slice())
            && same_bytes(self.password.as_slice(), expected.password.as_slice())
    }
}

fn same_bytes(a: &[u8], b: &[u8]) -> (r: bool)
    ensures
        r == (a@ == b@),
{
    if a.len() != b.len() {
        return false;
    }
    let mut i: usize = 0;
    while i < a.len()
        invariant
            a@.len() == b@.len(),
            i <= a@.len(),
            forall|j: int| 0 <= j < i ==> a@[j] == b@[j],
        decreases a@.len() - i,
    {
        if a[i] != b[i] {
            return false;
        }
        i = i + 1;
    }
    assert(a@ =~= b@);
    true
}

/// Authentication in front of every route: a request goes on only with a header
/// that carries the expected user name and password. A missing header, a
/// header in another scheme, text that is not Base64, decoded text without
/// exactly one colon, and a wrong pair are all refused alike.
pub fn is_authorized(header: Option<&str>, expected: &BasicAuth) -> (r: bool)
    ensures
        r == authorized(
            match header {
                Some(h) => Some(h.spec_bytes()),
                None => None,
            },
            expected.username@,
            expected.password@,
        ),
{
    match header {
        Some(h) => match BasicAuth::from_authorization_header(h) {
            Some(given) => given.matches(expected),
            None => false,
        },
        None => false,
    }
}

} // verus!
