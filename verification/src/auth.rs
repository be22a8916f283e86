//! How the remote reader logs in: the order in which it tries its
//! authentication methods, and what it says when all of them fail. The
//! front end performs each step and reports whether it authenticated.

use vstd::prelude::*;

use crate::text::{chars_of, opt_str_view, push_str, string_of};

verus! {

/// Where the login stands: nothing tried yet, the method last tried, or the
/// end (logged in, or every method failed).
#[derive(Debug, Clone, Copy, PartialEq, Eq, Structural)]
pub enum AuthStep {
    Start,
    /// The key file given on the command line.
    GivenKey,
    /// One of the usual key files `~/.ssh/id_ed25519`, `~/.ssh/id_rsa`,
    /// `~/.ssh/id_ecdsa`, by its position in that list.
    DefaultKey(usize),
    /// The SSH agent.
    Agent,
    /// A password typed at a prompt.
    Password,
    Done,
    Failed,
}

/// What the front end is to do next.
#[derive(Debug, Clone, PartialEq, Eq)]
pub enum AuthAction {
    /// Authenticate with this key file.
    TryKeyFile(String),
    /// Authenticate with the usual key file at this position.
    TryDefaultKey(usize),
    TryAgent,
    /// Ask for a password with this prompt and authenticate with it.
    PromptPassword(String),
    /// Logged in: keep the session.
    Succeed,
    /// Give up with this message.
    Fail(String),
}

/// The first usual key file that exists, else the agent.
pub open spec fn after_given_key(exists: Seq<bool>) -> AuthStep {
    if exists[0] {
        AuthStep::DefaultKey(0)
    } else if exists[1] {
        AuthStep::DefaultKey(1)
    } else if exists[2] {
        AuthStep::DefaultKey(2)
    } else {
        AuthStep::Agent
    }
}

/// The next usual key file after position `i` that exists, else the agent.
pub open spec fn after_default_key(i: usize, exists: Seq<bool>) -> AuthStep {
    if i < 1 && exists[1] {
        AuthStep::DefaultKey(1)
    } else if i < 2 && exists[2] {
        AuthStep::DefaultKey(2)
    } else {
        AuthStep::Agent
    }
}

/// The step after `step`, given whether it authenticated: the given key
/// file (when there is one), then each usual key file that exists, then the
/// agent, then a password; the first that authenticates ends the login, and
/// after a failed password it has failed.
pub open spec fn next_step(step: AuthStep, authenticated: bool, has_key: bool, exists: Seq<bool>) -> AuthStep {
    match step {
        AuthStep::Start => if has_key {
            AuthStep::GivenKey
        } else {
            after_given_key(exists)
        },
        AuthStep::Done => AuthStep::Done,
        AuthStep::Failed => AuthStep::Failed,
        _ => if authenticated {
            AuthStep::Done
        } else {
            match step {
                AuthStep::GivenKey => after_given_key(exists),
                AuthStep::DefaultKey(i) => after_default_key(i, exists),
                AuthStep::Agent => AuthStep::Password,
                _ => AuthStep::Failed,
            }
        },
    }
}

/// The prompt for a password: "user@host's password: ".
pub open spec fn password_prompt(user: Seq<char>, host: Seq<char>) -> Seq<char> {
    user + "@"@ + host + "'s password: "@
}

/// The message when every method failed.
pub open spec fn auth_failure(user: Seq<char>, host: Seq<char>) -> Seq<char> {
    "SSH authentication failed for "@ + user + "@"@ + host + ". Try: jtop-rs -H "@ + host
        + " -u "@ + user + " -k ~/.ssh/id_rsa"@
}

/// `a` is the action that carries out `step`.
pub open spec fn action_for(
    step: AuthStep,
    key_path: Option<Seq<char>>,
    user: Seq<char>,
    host: Seq<char>,
    a: AuthAction,
) -> bool {
    match step {
        AuthStep::Start => false,
        AuthStep::GivenKey => a matches AuthAction::TryKeyFile(p) && key_path == Some(p@),
        AuthStep::DefaultKey(i) => a == AuthAction::TryDefaultKey(i),
        AuthStep::Agent => a == AuthAction::TryAgent,
        AuthStep::Password => a matches AuthAction::PromptPassword(p) && p@ == password_prompt(
            user,
            host,
        ),
        AuthStep::Done => a == AuthAction::Succeed,
        AuthStep::Failed => a matches AuthAction::Fail(m) && m@ == auth_failure(user, host),
    }
}

fn after_given_key_exec(exists: [bool; 3]) -> (r: AuthStep)
    ensures
        r == after_given_key(exists@),
{
    if exists[0] {
        AuthStep::DefaultKey(0)
    } else if exists[1] {
        AuthStep::DefaultKey(1)
    } else if exists[2] {
        AuthStep::DefaultKey(2)
    } else {
        AuthStep::Agent
    }
}

fn after_default_key_exec(i: usize, exists: [bool; 3]) -> (r: AuthStep)
    ensures
        r == after_default_key(i, exists@),
{
    if i < 1 && exists[1] {
        AuthStep::DefaultKey(1)
    } else if i < 2 && exists[2] {
        AuthStep::DefaultKey(2)
    } else {
        AuthStep::Agent
    }
}

fn action_of(step: AuthStep, key_path: Option<&str>, user: &str, host: &str) -> (a: AuthAction)
    requires
        step !is Start,
        step is GivenKey ==> key_path is Some,
    ensures
        action_for(step, opt_str_view(key_path), user@, host@, a),
{
    match step {
        AuthStep::GivenKey => {
            let k = match key_path {
                Some(k) => k,
                None => "",
            };
            AuthAction::TryKeyFile(string_of(chars_of(k).as_slice()))
        },
        AuthStep::DefaultKey(i) => AuthAction::TryDefaultKey(i),
        AuthStep::Agent => AuthAction::TryAgent,
        AuthStep::Password => {
            let mut v: Vec<char> = Vec::new();
            push_str(&mut v, user);
            push_str(&mut v, "@");
            push_str(&mut v, host);
            push_str(&mut v, "'s password: ");
            AuthAction::PromptPassword(string_of(v.as_slice()))
        },
        AuthStep::Done => AuthAction::Succeed,
        _ => {
            let mut v: Vec<char> = Vec::new();
            push_str(&mut v, "SSH authentication failed for ");
            push_str(&mut v, user);
            push_str(&mut v, "@");
            push_str(&mut v, host);
            push_str(&mut v, ". Try: jtop-rs -H ");
            push_str(&mut v, host);
            push_str(&mut v, " -u ");
            push_str(&mut v, user);
            push_str(&mut v, " -k ~/.ssh/id_rsa");
            AuthAction::Fail(string_of(v.as_slice()))
        },
    }
}

/// The next step of the login and the action that carries it out (see
/// `next_step` and `action_for`), from the step last taken, whether it
/// authenticated, the key file given on the command line, which of the
/// usual key files exist, and the account and host.
pub fn next_auth_step(
    step: AuthStep,
    authenticated: bool,
    key_path: Option<&str>,
    default_keys_exist: [bool; 3],
    user: &str,
    host: &str,
) -> (r: (AuthStep, AuthAction))
    ensures
        r.0 == next_step(step, authenticated, key_path is Some, default_keys_exist@),
        action_for(r.0, opt_str_view(key_path), user@, host@, r.1),
{
    let next = match step {
        AuthStep::Start => if key_path.is_some() {
            AuthStep::GivenKey
        } else {
            after_given_key_exec(default_keys_exist)
        },
        AuthStep::Done => AuthStep::Done,
        AuthStep::Failed => AuthStep::Failed,
        _ => if authenticated {
            AuthStep::Done
        } else {
            match step {
                AuthStep::GivenKey => after_given_key_exec(default_keys_exist),
                AuthStep::DefaultKey(i) => after_default_key_exec(i, default_keys_exist),
                AuthStep::Agent => AuthStep::Password,
                _ => AuthStep::Failed,
            }
        },
    };
    let action = action_of(next, key_path, user, host);
    (next, action)
}

/// The methods in the order the login tries them: the given key file (when
/// there is one), each usual key file that exists in the order of the list,
/// the agent, and last a password.
pub open spec fn auth_attempts(has_key: bool, exists: Seq<bool>) -> Seq<AuthStep> {
    (if has_key {
        seq![AuthStep::GivenKey]
    } else {
        seq![]
    }) + (if exists[0] {
        seq![AuthStep::DefaultKey(0)]
    } else {
        seq![]
    }) + (if exists[1] {
        seq![AuthStep::DefaultKey(1)]
    } else {
        seq![]
    }) + (if exists[2] {
        seq![AuthStep::DefaultKey(2)]
    } else {
        seq![]
    }) + seq![AuthStep::Agent, AuthStep::Password]
}

/// The login tries its methods in a fixed order (see `auth_attempts`): it
/// starts with the first, goes on to the next one each time a method fails,
/// stops at the first that authenticates, asks for a password only after
/// every other method failed, fails after that, and stays where it ended.
pub proof fn lemma_auth_order(has_key: bool, exists: Seq<bool>, authenticated: bool)
    requires
        exists.len() == 3,
    ensures
        ({
            let a = auth_attempts(has_key, exists);
            &&& next_step(AuthStep::Start, authenticated, has_key, exists) == a[0]
            &&& forall|i: int|
                0 <= i < a.len() - 1 ==> next_step(#[trigger] a[i], false, has_key, exists) == a[i
                    + 1]
            &&& next_step(a[a.len() - 1], false, has_key, exists) == AuthStep::Failed
            &&& forall|i: int|
                0 <= i < a.len() ==> next_step(#[trigger] a[i], true, has_key, exists)
                    == AuthStep::Done
            &&& a[a.len() - 1] == AuthStep::Password
            &&& forall|i: int| 0 <= i < a.len() - 1 ==> #[trigger] a[i] != AuthStep::Password
            &&& next_step(AuthStep::Done, authenticated, has_key, exists) == AuthStep::Done
            &&& next_step(AuthStep::Failed, authenticated, has_key, exists) == AuthStep::Failed
        }),
{
    let a = auth_attempts(has_key, exists);
    let k: Seq<AuthStep> = if has_key {
        seq![AuthStep::GivenKey]
    } else {
        seq![]
    };
    let d0: Seq<AuthStep> = if exists[0] {
        seq![AuthStep::DefaultKey(0)]
    } else {
        seq![]
    };
    let d1: Seq<AuthStep> = if exists[1] {
        seq![AuthStep::DefaultKey(1)]
    } else {
        seq![]
    };
    let d2: Seq<AuthStep> = if exists[2] {
        seq![AuthStep::DefaultKey(2)]
    } else {
        seq![]
    };
    let tail: Seq<AuthStep> = seq![AuthStep::Agent, AuthStep::Password];
    assert(a == k + d0 + d1 + d2 + tail);
    let n0 = k.len() as int;
    let n1 = n0 + d0.len();
    let n2 = n1 + d1.len();
    let n3 = n2 + d2.len();
    assert(a.len() == n3 + 2);
    assert(a[n3] == AuthStep::Agent);
    assert(a[n3 + 1] == AuthStep::Password);
    assert(has_key ==> a[0] == AuthStep::GivenKey);
    assert(exists[0] ==> a[n0] == AuthStep::DefaultKey(0));
    assert(exists[1] ==> a[n1] == AuthStep::DefaultKey(1));
    assert(exists[2] ==> a[n2] == AuthStep::DefaultKey(2));
    assert forall|i: int| 0 <= i < a.len() - 1 implies next_step(#[trigger] a[i], false, has_key, exists)
        == a[i + 1] by {
        if i < n0 {
        } else if i < n1 {
        } else if i < n2 {
        } else if i < n3 {
        } else {
        }
    }
    assert forall|i: int| 0 <= i < a.len() - 1 implies #[trigger] a[i] != AuthStep::Password by {
        if i < n0 {
        } else if i < n1 {
        } else if i < n2 {
        } else if i < n3 {
        } else {
        }
    }
    assert forall|i: int| 0 <= i < a.len() implies next_step(#[trigger] a[i], true, has_key, exists)
        == AuthStep::Done by {
        if i < n0 {
        } else if i < n1 {
        } else if i < n2 {
        } else if i < n3 {
        } else {
        }
    }
}

} // verus!
