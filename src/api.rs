use vstd::prelude::*;
use vstd::utf8::encode_utf8;

verus! {

/// How a length falls outside its allowed range.
#[derive(Debug, Clone, Copy, PartialEq, Eq, Structural)]
pub enum TestResult {
    TooFew,
    TooBig,
}

pub const MIN_QUERY_LEN: usize = 1;
pub const MAX_QUERY_LEN: usize = 15;
pub const MIN_MESSAGE_LEN: usize = 50;
pub const MAX_MESSAGE_LEN: usize = 1000;
pub const MAX_AUTHOR_LEN: usize = 50;
pub const MIN_EMAIL_LEN: usize = 3;
pub const MAX_DETAILS_LEN: usize = 1000;
pub const MAX_USERNAME_LEN: usize = 50;
pub const MIN_PASSWORD_LEN: usize = 12;
pub const MAX_PASSWORD_LEN: usize = 50;

/// Where `len` stands against the range `min ..= max`: above it, below it, or inside (`None`).
pub open spec fn range_test(len: nat, min: nat, max: nat) -> Option<TestResult> {
    if len > max {
        Some(TestResult::TooBig)
    } else if len < min {
        Some(TestResult::TooFew)
    } else {
        None
    }
}

/// Tests `len` against `min ..= max`; a length over `max` is reported first.
pub fn test_range(len: usize, min: usize, max: usize) -> (r: Option<TestResult>)
    ensures
        r == range_test(len as nat, min as nat, max as nat),
{
    if len > max {
        Some(TestResult::TooBig)
    } else if len < min {
        Some(TestResult::TooFew)
    } else {
        None
    }
}

/// Tests the byte length of `text` against `min ..= max`.
pub fn test_text(text: &str, min: usize, max: usize) -> (r: Option<TestResult>)
    ensures
        r == range_test(encode_utf8(text@).len(), min as nat, max as nat),
{
    test_range(text.as_bytes().len(), min, max)
}

/// The paging of a letter listing.
#[derive(Debug)]
pub struct GetLettersQuery {
    pub length: Option<usize>,
    pub offset: Option<usize>,
}

/// A letter sent to the posting route.
pub struct PostLetterForm {
    pub author: String,
    pub message: String,
    pub secret: bool,
}

/// The paging of the pending reports.
#[derive(Debug)]
pub struct RetrieveLetterQuery {
    pub offset: Option<usize>,
}

/// Credentials sent to the registration and login routes.
#[derive(Debug)]
pub struct UserForm {
    pub username: String,
    pub password: String,
}

} // verus!
