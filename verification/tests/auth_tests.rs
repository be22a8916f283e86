use jtop::auth::{next_auth_step, AuthAction, AuthStep};

/// Runs the login with every method failing, and returns the actions taken.
fn all_failing(key: Option<&str>, exist: [bool; 3]) -> Vec<AuthAction> {
    let mut step = AuthStep::Start;
    let mut actions = Vec::new();
    loop {
        let (next, action) = next_auth_step(step, false, key, exist, "me", "jet");
        step = next;
        let end = matches!(action, AuthAction::Fail(_) | AuthAction::Succeed);
        actions.push(action);
        if end {
            return actions;
        }
    }
}

#[test]
fn login_tries_methods_in_order_then_fails() {
    let actions = all_failing(Some("/k/id"), [true, false, true]);
    assert_eq!(
        actions,
        vec![
            AuthAction::TryKeyFile("/k/id".to_string()),
            AuthAction::TryDefaultKey(0),
            AuthAction::TryDefaultKey(2),
            AuthAction::TryAgent,
            AuthAction::PromptPassword("me@jet's password: ".to_string()),
            AuthAction::Fail(
                "SSH authentication failed for me@jet. Try: jtop-rs -H jet -u me -k ~/.ssh/id_rsa"
                    .to_string()
            ),
        ]
    );
    let bare = all_failing(None, [false, false, false]);
    assert_eq!(bare.len(), 3);
    assert_eq!(bare[0], AuthAction::TryAgent);
}

#[test]
fn login_stops_at_first_success() {
    let (s1, a1) = next_auth_step(AuthStep::Start, false, None, [false, true, true], "u", "h");
    assert_eq!((s1, a1), (AuthStep::DefaultKey(1), AuthAction::TryDefaultKey(1)));
    let (s2, a2) = next_auth_step(s1, true, None, [false, true, true], "u", "h");
    assert_eq!((s2, a2), (AuthStep::Done, AuthAction::Succeed));
    let (s3, _) = next_auth_step(s2, false, None, [false, true, true], "u", "h");
    assert_eq!(s3, AuthStep::Done);
}
