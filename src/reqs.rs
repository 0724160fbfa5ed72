use vstd::prelude::*;
use vstd::string::StrSliceExecFns;

verus! {

/// Proof that a request carried the registration key.
pub struct RegisterAuth;

/// What an authenticated user may do.
#[derive(Debug)]
pub struct UserRestrictions {
    pub moderator: bool,
    pub viewer: bool,
}

/// The scheme that opens an `Authorization` header carrying a bearer token.
pub open spec fn bearer_scheme() -> Seq<char> {
    seq!['B', 'e', 'a', 'r', 'e', 'r', ' ']
}

/// The token of an `Authorization` header value `Bearer <token>`, or `None` when the value
/// does not open with that scheme.
pub fn bearer_token(header: &str) -> (r: Option<&str>)
    ensures
        match r {
            Some(t) => header@ == bearer_scheme() + t@,
            None => !(header@.len() >= 7 && header@.take(7) == bearer_scheme()),
        },
{
    let n = header.unicode_len();
    if n < 7 {
        return None;
    }
    let scheme = ['B', 'e', 'a', 'r', 'e', 'r', ' '];
    assert(scheme@ =~= bearer_scheme());
    let mut i: usize = 0;
    while i < 7
        invariant
            n as nat == header@.len(),
            n >= 7,
            i <= 7,
            scheme@ == bearer_scheme(),
            forall|j: int| 0 <= j < i ==> header@[j] == bearer_scheme()[j],
        decreases 7 - i,
    {
        if header.get_char(i) != scheme[i] {
            assert(header@.take(7)[i as int] != bearer_scheme()[i as int]);
            return None;
        }
        i = i + 1;
    }
    let t = header.substring_char(7, n);
    assert(header@ =~= bearer_scheme() + t@);
    Some(t)
}

} // verus!
