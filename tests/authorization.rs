use rocket_apitoken::{ApiToken, Authorized, Unauthorized};

fn tokens(list: &[&str]) -> Vec<String> {
    list.iter().map(|t| t.to_string()).collect()
}

#[test]
fn scenario_single_token() {
    let auth = ApiToken::new(tokens(&["abc"]), true);
    assert_eq!(auth.check(Some("Bearer abc")), Ok(Authorized));
    assert_eq!(auth.check(Some("Bearer abcd")), Err(Unauthorized::InvalidToken));
    let open = ApiToken::new(Vec::new(), false);
    assert_eq!(open.check(None), Ok(Authorized));
}

#[test]
fn every_listed_token_is_authorized() {
    let auth = ApiToken::new(tokens(&["one", "two", "", "x y"]), true);
    for t in ["one", "two", "", "x y"] {
        let header = format!("Bearer {}", t);
        assert_eq!(auth.check(Some(&header)), Ok(Authorized));
    }
}

#[test]
fn unlisted_token_is_invalid() {
    let auth = ApiToken::new(tokens(&["one", "two"]), true);
    for s in ["three", "one ", " one", "ONE", ""] {
        let header = format!("Bearer {}", s);
        assert_eq!(auth.check(Some(&header)), Err(Unauthorized::InvalidToken));
    }
}

#[test]
fn raw_token_without_scheme_is_invalid() {
    let auth = ApiToken::new(tokens(&["one"]), true);
    assert_eq!(auth.check(Some("one")), Err(Unauthorized::InvalidToken));
    assert_eq!(auth.check(Some("Bearer  one")), Err(Unauthorized::InvalidToken));
    assert_eq!(auth.check(Some("")), Err(Unauthorized::InvalidToken));
}

#[test]
fn disabled_authorizes_everything() {
    let auth = ApiToken::new(tokens(&["one"]), false);
    assert!(!auth.is_enabled());
    assert_eq!(auth.check(None), Ok(Authorized));
    assert_eq!(auth.check(Some("garbage")), Ok(Authorized));
    assert_eq!(auth.check(Some("Bearer one")), Ok(Authorized));
    assert_eq!(auth.check(Some("Bearer two")), Ok(Authorized));
}

#[test]
fn enabled_without_header_is_missing() {
    let auth = ApiToken::new(tokens(&["one"]), true);
    assert!(auth.is_enabled());
    let refused = auth.check(None);
    assert_eq!(refused, Err(Unauthorized::MissingHeader));
    let empty = ApiToken::new(Vec::new(), true);
    assert_eq!(empty.check(None), Err(Unauthorized::MissingHeader));
    assert_eq!(empty.check(Some("Bearer ")), Err(Unauthorized::InvalidToken));
}

#[test]
fn add_bearer_twice_keeps_size() {
    let mut auth = ApiToken::new(tokens(&["one"]), true);
    assert_eq!(auth.token_count(), 1);
    auth.add_bearer("two");
    assert_eq!(auth.token_count(), 2);
    auth.add_bearer("two");
    assert_eq!(auth.token_count(), 2);
    auth.add_bearer("one");
    assert_eq!(auth.token_count(), 2);
}

#[test]
fn added_token_is_authorized() {
    let mut auth = ApiToken::new(Vec::new(), true);
    assert_eq!(auth.check(Some("Bearer late")), Err(Unauthorized::InvalidToken));
    auth.add_bearer("late");
    assert_eq!(auth.check(Some("Bearer late")), Ok(Authorized));
}

#[test]
fn duplicate_tokens_collapse() {
    let auth = ApiToken::new(tokens(&["a", "b", "a", "a"]), true);
    assert_eq!(auth.token_count(), 2);
    let none = ApiToken::new(Vec::new(), true);
    assert_eq!(none.token_count(), 0);
}

#[test]
fn lowercase_scheme_is_invalid() {
    let auth = ApiToken::new(tokens(&["abc"]), true);
    assert_eq!(auth.check(Some("bearer abc")), Err(Unauthorized::InvalidToken));
    assert_eq!(auth.check(Some("BEARER abc")), Err(Unauthorized::InvalidToken));
    assert_eq!(auth.check(Some("Bearer abc")), Ok(Authorized));
}

#[test]
fn refusal_reasons_and_status() {
    assert_eq!(Unauthorized::MissingHeader.reason(), "authorization header missing");
    assert_eq!(Unauthorized::InvalidToken.reason(), "invalid token");
    assert_eq!(Unauthorized::MissingHeader.status(), 401);
    assert_eq!(Unauthorized::InvalidToken.status(), 401);
}
