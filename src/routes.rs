use vstd::prelude::*;

verus! {

/// Credentials sent to the login form.
pub struct LoginForm<'a> {
    pub username: &'a str,
    pub password: &'a str,
}

/// A letter sent to the posting form; `secret` asks for it to be stored encoded.
pub struct PostLetterForm<'a> {
    pub author: &'a str,
    pub message: &'a str,
    pub secret: bool,
}

} // verus!
