use backend::api::{test_range, test_text, TestResult, MAX_AUTHOR_LEN, MAX_MESSAGE_LEN, MIN_MESSAGE_LEN};
use backend::db::RegisterUserQuery;
use backend::models::{ReportType, UserToken, TOKEN_EXPIRY_DURATION};

#[test]
fn message_length_limits() {
    assert_eq!(test_range(49, MIN_MESSAGE_LEN, MAX_MESSAGE_LEN), Some(TestResult::TooFew));
    assert_eq!(test_range(50, MIN_MESSAGE_LEN, MAX_MESSAGE_LEN), None);
    assert_eq!(test_range(1000, MIN_MESSAGE_LEN, MAX_MESSAGE_LEN), None);
    assert_eq!(test_range(1001, MIN_MESSAGE_LEN, MAX_MESSAGE_LEN), Some(TestResult::TooBig));
}

#[test]
fn author_length_limits() {
    assert_eq!(test_text("", 1, MAX_AUTHOR_LEN), Some(TestResult::TooFew));
    assert_eq!(test_text("alice", 1, MAX_AUTHOR_LEN), None);
    assert_eq!(test_text(&"a".repeat(51), 1, MAX_AUTHOR_LEN), Some(TestResult::TooBig));
    assert_eq!(test_text("ë", 2, 2), None);
}

#[test]
fn report_type_codes() {
    assert_eq!(ReportType::Spam.code(), 1);
    assert_eq!(ReportType::NSFW.code(), 8);
    assert_eq!(ReportType::Others.code(), 11);
    assert_eq!(ReportType::from_code(10), Some(ReportType::Irrelevant));
    assert_eq!(ReportType::from_code(0), None);
    assert_eq!(ReportType::from_code(12), None);
}

#[test]
fn register_query_keeps_credentials() {
    let q = RegisterUserQuery::new("memo", "hunter2hunter2");
    assert_eq!(q.username, "memo");
    assert_eq!(q.password, "hunter2hunter2");
}

#[test]
fn token_expires_a_day_later() {
    let t = UserToken::with_user_id("user-1", 1_000);
    assert_eq!(t.sub, "user-1");
    assert_eq!(t.exp, 1_000 + TOKEN_EXPIRY_DURATION as usize);
}

#[test]
fn bearer_token_is_stripped_of_its_scheme() {
    assert_eq!(backend::reqs::bearer_token("Bearer abc.def"), Some("abc.def"));
    assert_eq!(backend::reqs::bearer_token("Bearer "), Some(""));
    assert_eq!(backend::reqs::bearer_token("bearer abc"), None);
    assert_eq!(backend::reqs::bearer_token("Basic abc"), None);
    assert_eq!(backend::reqs::bearer_token("Bear"), None);
}
