use vstd::prelude::*;
use vstd::string::StringExecFns;

verus! {

/// Why a letter was reported. Stored and exchanged as its integer code (see `code`).
#[derive(Debug, Clone, Copy, PartialEq, Eq, Structural, PartialOrd, Ord)]
pub enum ReportType {
    Spam,
    Abuse,
    BugReport,
    TechnicalIssue,
    Profanity,
    Bullying,
    InapproriateContent,
    NSFW,
    Scam,
    Irrelevant,
    Others,
}

/// The integer code of each report type, from 1 to 11 in declaration order.
pub open spec fn report_code(t: ReportType) -> i32 {
    match t {
        ReportType::Spam => 1,
        ReportType::Abuse => 2,
        ReportType::BugReport => 3,
        ReportType::TechnicalIssue => 4,
        ReportType::Profanity => 5,
        ReportType::Bullying => 6,
        ReportType::InapproriateContent => 7,
        ReportType::NSFW => 8,
        ReportType::Scam => 9,
        ReportType::Irrelevant => 10,
        ReportType::Others => 11,
    }
}

impl ReportType {
    /// The integer code under which the report type is stored.
    pub fn code(self) -> (r: i32)
        ensures
            r == report_code(self),
    {
        match self {
            ReportType::Spam => 1,
            ReportType::Abuse => 2,
            ReportType::BugReport => 3,
            ReportType::TechnicalIssue => 4,
            ReportType::Profanity => 5,
            ReportType::Bullying => 6,
            ReportType::InapproriateContent => 7,
            ReportType::NSFW => 8,
            ReportType::Scam => 9,
            ReportType::Irrelevant => 10,
            ReportType::Others => 11,
        }
    }

    /// The report type stored under `code`, if any.
    pub fn from_code(code: i32) -> (r: Option<ReportType>)
        ensures
            match r {
                Some(t) => report_code(t) == code,
                None => forall|t: ReportType| report_code(t) != code,
            },
    {
        match code {
            1 => Some(ReportType::Spam),
            2 => Some(ReportType::Abuse),
            3 => Some(ReportType::BugReport),
            4 => Some(ReportType::TechnicalIssue),
            5 => Some(ReportType::Profanity),
            6 => Some(ReportType::Bullying),
            7 => Some(ReportType::InapproriateContent),
            8 => Some(ReportType::NSFW),
            9 => Some(ReportType::Scam),
            10 => Some(ReportType::Irrelevant),
            11 => Some(ReportType::Others),
            _ => None,
        }
    }
}

/// A letter about to be stored.
#[derive(Debug)]
pub struct NewLetter<'a> {
    pub author: &'a str,
    pub message: &'a str,
    pub secret: bool,
}

/// Whether the service accepts letters.
#[derive(Debug)]
pub struct State {
    pub id: i32,
    pub available: bool,
}

/// A user about to be stored.
#[derive(Debug)]
pub struct NewUser<'a> {
    pub name: &'a str,
    pub password: &'a str,
}

/// Seconds for which a session token stays valid.
pub const TOKEN_EXPIRY_DURATION: i64 = 86400;

/// The claims of a session token: the user's id and the expiry time, in Unix seconds.
#[derive(Debug)]
pub struct UserToken {
    pub sub: String,
    pub exp: usize,
}

impl UserToken {
    /// The claims for `user_id`, expiring `TOKEN_EXPIRY_DURATION` seconds after `now`
    /// (Unix seconds).
    pub fn with_user_id(user_id: &str, now: i64) -> (r: UserToken)
        requires
            now <= i64::MAX - TOKEN_EXPIRY_DURATION,
        ensures
            r.sub@ == user_id@,
            r.exp == (now + TOKEN_EXPIRY_DURATION) as usize,
    {
        UserToken { sub: String::from_str(user_id), exp: (now + TOKEN_EXPIRY_DURATION) as usize }
    }
}

/// The rate-limit policy of the public routes.
pub struct RateLimitGuard;

/// An error reported by the PostgREST API.
#[derive(Debug)]
pub struct SupabaseError {
    pub hint: Option<String>,
    pub code: String,
    pub details: Option<String>,
    pub message: String,
}

/// The keys that the service is configured with.
pub struct AuthParams {
    pub salt: [u8; 16],
    pub token: Vec<u8>,
    pub reg: [u8; 16],
    pub secret_key: [u8; 16],
}

} // verus!
