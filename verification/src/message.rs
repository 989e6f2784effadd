//! Classification and encoding of relay protocol lines.
//!
//! Two line prefixes are reserved. `control_password ` marks the message that
//! pushes a rotated control credential to listeners; such lines must never be
//! accepted from an untrusted sender. `host ` marks control-only lines that a
//! controller sends for relay-internal purposes; they are never rebroadcast.

use vstd::prelude::*;
use vstd::string::*;
use crate::shared_data::{SharedData, same_control_state};

verus! {

/// The reserved prefix of the credential-push message.
pub open spec fn control_password_prefix() -> Seq<char> {
    "control_password "@
}

/// The reserved prefix of control-only lines.
pub open spec fn listener_only_prefix() -> Seq<char> {
    "host "@
}

/// `s` begins with `prefix`.
pub open spec fn has_prefix(s: Seq<char>, prefix: Seq<char>) -> bool {
    prefix.len() <= s.len() && s.subrange(0, prefix.len() as int) == prefix
}

/// The full credential-push line carrying `password`.
pub open spec fn control_password_line(password: Seq<char>) -> Seq<char> {
    control_password_prefix() + password
}

/// Exec prefix test, character by character.
fn str_has_prefix(s: &str, prefix: &str) -> (r: bool)
    ensures
        r == has_prefix(s@, prefix@),
{
    let n = prefix.unicode_len();
    let m = s.unicode_len();
    if n > m {
        return false;
    }
    let mut i: usize = 0;
    while i < n
        invariant
            i <= n,
            n == prefix@.len(),
            n <= s@.len(),
            forall|j: int| 0 <= j < i ==> s@[j] == prefix@[j],
        decreases n - i,
    {
        if s.get_char(i) != prefix.get_char(i) {
            proof {
                assert(s@.subrange(0, n as int)[i as int] == s@[i as int]);
            }
            return false;
        }
        i += 1;
    }
    proof {
        assert(s@.subrange(0, n as int) =~= prefix@);
    }
    true
}

/// A line that matches the reserved credential-push prefix. Such lines are
/// dropped when they arrive from a controller or a listener, so that the
/// credential-rotation message cannot be forged.
pub fn is_special_message(string: &str) -> (r: bool)
    ensures
        r == has_prefix(string@, control_password_prefix()),
{
    str_has_prefix(string, "control_password ")
}

/// A control-only line: consumed by the relay, never rebroadcast to listeners.
pub fn is_listener_only_message(string: &str) -> (r: bool)
    ensures
        r == has_prefix(string@, listener_only_prefix()),
{
    str_has_prefix(string, "host ")
}

/// Render the credential-push line for `password`.
pub fn encode_control_password(password: &str) -> (r: String)
    ensures
        r@ == control_password_line(password@),
{
    let mut line = String::from_str("control_password ");
    line.append(password);
    line
}

/// A relay-internal protocol message.
pub enum Message<'a> {
    /// Pushes the rotated control credential to a listener.
    ControlPassword(&'a str),
}

impl<'a> Message<'a> {
    /// Encode this message and append it to a listener's outbound queue.
    pub fn send(self, tx: &mut Vec<String>)
        ensures
            final(tx).deep_view() == old(tx).deep_view().push(
                control_password_line(self->ControlPassword_0@),
            ),
    {
        match self {
            Message::ControlPassword(password) => {
                tx.push(encode_control_password(password));
            }
        }
        proof {
            assert(tx.deep_view() =~= old(tx).deep_view().push(
                control_password_line(self->ControlPassword_0@),
            ));
        }
    }
}

/// Forward `line` to every registered listener. A line matching the reserved
/// credential-push prefix is dropped whole, so the rotation message cannot be
/// forged by whoever supplied `line`.
pub fn forward_to_listeners(data: &mut SharedData, line: String)
    requires
        old(data).wf(),
    ensures
        final(data).wf(),
        same_control_state(*old(data), *final(data)),
        forall|a: u64| final(data).has_listener(a) == old(data).has_listener(a),
        has_prefix(line@, control_password_prefix()) ==> forall|a: u64|
            old(data).has_listener(a) ==> final(data).pending(a) == old(data).pending(a),
        !has_prefix(line@, control_password_prefix()) ==> forall|a: u64|
            old(data).has_listener(a) ==> final(data).pending(a) == old(data).pending(a).push(
                line@,
            ),
{
    if is_special_message(line.as_str()) {
        return;
    }
    data.broadcast(&line, None);
}

/// Forward `line` to every registered listener except `addr` (the sender).
/// The same forgery filter applies as in [`forward_to_listeners`].
pub fn forward_to_listeners_except(data: &mut SharedData, addr: u64, line: String)
    requires
        old(data).wf(),
    ensures
        final(data).wf(),
        same_control_state(*old(data), *final(data)),
        forall|a: u64| final(data).has_listener(a) == old(data).has_listener(a),
        has_prefix(line@, control_password_prefix()) ==> forall|a: u64|
            old(data).has_listener(a) ==> final(data).pending(a) == old(data).pending(a),
        !has_prefix(line@, control_password_prefix()) ==> forall|a: u64|
            a != addr && old(data).has_listener(a) ==> final(data).pending(a) == old(
                data,
            ).pending(a).push(line@),
        old(data).has_listener(addr) ==> final(data).pending(addr) == old(data).pending(addr),
{
    if is_special_message(line.as_str()) {
        return;
    }
    data.broadcast(&line, Some(addr));
}

} // verus!
