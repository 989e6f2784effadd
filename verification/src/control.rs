//! The control-session lifecycle.
//!
//! At most one control connection is authoritative at any instant. A new
//! connection authenticates with the current control credential; on success
//! the credential rotates, every listener is told the new value, and the
//! previous session (if any) is evicted through its cancellation token. The
//! embedding event loop performs the reads and writes; the decisions live
//! here.

use vstd::prelude::*;
use crate::message::{
    control_password_line, control_password_prefix, encode_control_password, forward_to_listeners,
    has_prefix, is_listener_only_message, listener_only_prefix,
};
use crate::password::{generate_password, is_password_text};
use crate::shared_data::{same_control_state, SharedData};

verus! {

/// Why a control connection was refused.
#[derive(Debug, Clone, Copy, PartialEq, Eq, Structural)]
pub enum ControlError {
    /// The connection closed before a credential line arrived.
    ConnectionClosed,
    /// The credential line did not match the current control credential.
    WrongPassword,
}

/// What a successful control authorization established.
#[derive(Debug)]
pub struct ControlAuth {
    /// Cancellation token of the newly current session. The session consumes
    /// it itself, through `end_control_session`, when its own read loop ends.
    pub token: u64,
    /// Token of the evicted previous session, if one was current; the caller
    /// fires it, which the evicted session observes as takeover, not error.
    pub evicted: Option<u64>,
}

/// One successful control authorization step: from `pre`, the credential
/// rotated to `new_password`, every listener queue received exactly the
/// credential-push line for it, the previous session's token was handed out
/// for eviction, and a fresh token became current.
pub open spec fn authorize_ok(
    pre: SharedData,
    post: SharedData,
    new_password: Seq<char>,
    token: u64,
    evicted: Option<u64>,
) -> bool {
    &&& post.config == pre.config
    &&& post.control_password@ == new_password
    &&& forall|a: u64| post.has_listener(a) == pre.has_listener(a)
    &&& forall|a: u64| pre.has_listener(a) ==> post.pending(a) == pre.pending(a).push(
        control_password_line(new_password),
    )
    &&& token == pre.next_token
    &&& post.next_token == pre.next_token + 1
    &&& evicted == pre.current_control_tx
    &&& post.current_control_tx == Some(token)
}

/// Authenticate a control connection whose first line was `first_line`,
/// rotating the control credential to `new_password` on success.
///
/// On success the caller must fire the evicted token (if any) and, when its
/// own relaying ends, call `end_control_session` with its own token. On
/// failure the registry is untouched and the connection is dropped.
pub fn authorize_with_password(
    data: &mut SharedData,
    first_line: Option<String>,
    new_password: String,
) -> (r: Result<ControlAuth, ControlError>)
    requires
        old(data).wf(),
        old(data).next_token < u64::MAX,
    ensures
        final(data).wf(),
        r is Ok <==> (first_line matches Some(l) && l@ == old(data).control_password@),
        r matches Ok(auth) ==> authorize_ok(
            *old(data),
            *final(data),
            new_password@,
            auth.token,
            auth.evicted,
        ),
        r is Err ==> *final(data) == *old(data),
        r is Err ==> (r->Err_0 == ControlError::ConnectionClosed <==> first_line is None),
        r is Err ==> (r->Err_0 == ControlError::WrongPassword <==> (first_line matches Some(l)
            && l@ != old(data).control_password@)),
{
    match first_line {
        None => Err(ControlError::ConnectionClosed),
        Some(line) => {
            if line == data.control_password {
                data.control_password = new_password;
                let ghost s1 = *data;
                let message = encode_control_password(data.control_password.as_str());
                data.broadcast(&message, None);
                let ghost s2 = *data;
                let (token, evicted) = data.takeover_control_session();
                proof {
                    let line_sent = control_password_line(s1.control_password@);
                    assert forall|a: u64| old(data).has_listener(a) implies data.pending(a) == old(
                        data,
                    ).pending(a).push(line_sent) by {
                        assert(s1.has_listener(a));
                        assert(s2.pending(a) == s1.pending(a).push(message@));
                        assert(s1.pending(a) == old(data).pending(a));
                        assert(data.pending(a) == s2.pending(a));
                    }
                }
                Ok(ControlAuth { token, evicted })
            } else {
                Err(ControlError::WrongPassword)
            }
        },
    }
}

/// Authenticate a control connection, rotating the control credential to a
/// freshly generated one on success.
pub fn authorize(data: &mut SharedData, first_line: Option<String>) -> (r: Result<
    ControlAuth,
    ControlError,
>)
    requires
        old(data).wf(),
        old(data).next_token < u64::MAX,
    ensures
        final(data).wf(),
        r is Ok <==> (first_line matches Some(l) && l@ == old(data).control_password@),
        r matches Ok(auth) ==> authorize_ok(
            *old(data),
            *final(data),
            final(data).control_password@,
            auth.token,
            auth.evicted,
        ),
        r is Ok ==> final(data).control_password@.len() == 16 && is_password_text(
            final(data).control_password@,
        ),
        r is Err ==> *final(data) == *old(data),
        r is Err ==> (r->Err_0 == ControlError::ConnectionClosed <==> first_line is None),
{
    let new_password = generate_password();
    authorize_with_password(data, first_line, new_password)
}

/// Handle one line read from the authorized controller: control-only lines
/// are consumed, credential-push lines are dropped by the forwarding filter,
/// every other line is broadcast to all listeners.
pub fn handle_control_line(data: &mut SharedData, line: String)
    requires
        old(data).wf(),
    ensures
        final(data).wf(),
        same_control_state(*old(data), *final(data)),
        forall|a: u64| final(data).has_listener(a) == old(data).has_listener(a),
        (has_prefix(line@, listener_only_prefix()) || has_prefix(
            line@,
            control_password_prefix(),
        )) ==> forall|a: u64|
            old(data).has_listener(a) ==> final(data).pending(a) == old(data).pending(a),
        !(has_prefix(line@, listener_only_prefix()) || has_prefix(
            line@,
            control_password_prefix(),
        )) ==> forall|a: u64|
            old(data).has_listener(a) ==> final(data).pending(a) == old(data).pending(a).push(
                line@,
            ),
{
    if !is_listener_only_message(line.as_str()) {
        forward_to_listeners(data, line);
    }
}

/// Law: a successful control authorization with a fresh credential strictly
/// changes the control credential, and every listener registered at that
/// moment observes it as exactly one newly pushed credential-push line.
pub proof fn lemma_credential_rotation(
    pre: SharedData,
    post: SharedData,
    new_password: Seq<char>,
    token: u64,
    evicted: Option<u64>,
)
    requires
        authorize_ok(pre, post, new_password, token, evicted),
        new_password != pre.control_password@,
    ensures
        post.control_password@ != pre.control_password@,
        forall|a: u64| pre.has_listener(a) ==> post.pending(a) == pre.pending(a).push(
            control_password_line(post.control_password@),
        ),
        forall|a: u64| pre.has_listener(a) ==> post.pending(a).len() == pre.pending(a).len() + 1,
{
}

/// Along a chain of successful authorizations, session tokens strictly grow.
proof fn lemma_tokens_increase(
    states: Seq<SharedData>,
    passwords: Seq<Seq<char>>,
    tokens: Seq<u64>,
    evicted: Seq<Option<u64>>,
    i: int,
    j: int,
)
    requires
        states.len() == tokens.len() + 1,
        passwords.len() == tokens.len(),
        evicted.len() == tokens.len(),
        forall|k: int| 0 <= k < tokens.len() ==> authorize_ok(
            states[k],
            states[k + 1],
            passwords[k],
            tokens[k],
            evicted[k],
        ),
        0 <= i < j < tokens.len(),
    ensures
        tokens[i] < tokens[j],
    decreases j - i,
{
    assert(authorize_ok(states[i], states[i + 1], passwords[i], tokens[i], evicted[i]));
    assert(authorize_ok(states[j], states[j + 1], passwords[j], tokens[j], evicted[j]));
    if i + 1 == j {
    } else {
        lemma_tokens_increase(states, passwords, tokens, evicted, i, j - 1);
        assert(authorize_ok(
            states[j - 1],
            states[j],
            passwords[j - 1],
            tokens[j - 1],
            evicted[j - 1],
        ));
    }
}

/// Law: across any sequence of control connections that each present the
/// then-current credential, only the most recently authorized session is
/// current afterwards. Every earlier session's token was handed to its direct
/// successor for eviction — a takeover, not an I/O error — and no token is
/// ever current again or reused.
pub proof fn lemma_single_active_control(
    states: Seq<SharedData>,
    passwords: Seq<Seq<char>>,
    tokens: Seq<u64>,
    evicted: Seq<Option<u64>>,
)
    requires
        states.len() == tokens.len() + 1,
        passwords.len() == tokens.len(),
        evicted.len() == tokens.len(),
        tokens.len() >= 1,
        forall|k: int| 0 <= k < tokens.len() ==> authorize_ok(
            states[k],
            states[k + 1],
            passwords[k],
            tokens[k],
            evicted[k],
        ),
    ensures
        states.last().current_control_tx == Some(tokens.last()),
        forall|i: int| 0 <= i < tokens.len() - 1 ==> evicted[i + 1] == Some(tokens[i]),
        forall|i: int| 0 <= i < tokens.len() - 1 ==> tokens[i] != tokens.last(),
        forall|i: int, j: int| 0 <= i < j < tokens.len() ==> tokens[i] != tokens[j],
{
    let n = tokens.len() as int;
    assert(authorize_ok(states[n - 1], states[n], passwords[n - 1], tokens[n - 1], evicted[n - 1]));
    assert(states.last() == states[n]);
    assert forall|i: int| 0 <= i < n - 1 implies evicted[i + 1] == Some(tokens[i]) by {
        assert(authorize_ok(states[i], states[i + 1], passwords[i], tokens[i], evicted[i]));
        assert(authorize_ok(
            states[i + 1],
            states[i + 2],
            passwords[i + 1],
            tokens[i + 1],
            evicted[i + 1],
        ));
    }
    assert forall|i: int, j: int| 0 <= i < j < n implies tokens[i] != tokens[j] by {
        lemma_tokens_increase(states, passwords, tokens, evicted, i, j);
    }
    assert forall|i: int| 0 <= i < n - 1 implies tokens[i] != tokens.last() by {
        lemma_tokens_increase(states, passwords, tokens, evicted, i, n - 1);
    }
}

} // verus!
