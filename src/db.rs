use vstd::prelude::*;

verus! {

/// Reads whether submissions are open.
pub struct SubmissionQuery;

/// Looks a user up by name or by id.
pub enum GetUserQuery<'a> {
    Username(&'a str),
    Id(&'a str),
}

/// Inserts a new user.
pub struct RegisterUserQuery<'a> {
    pub username: &'a str,
    pub password: &'a str,
}

impl<'a> RegisterUserQuery<'a> {
    pub fn new(username: &'a str, password: &'a str) -> (r: Self)
        ensures
            r.username == username,
            r.password == password,
    {
        Self { username, password }
    }
}

} // verus!
