//! The listener-session lifecycle.
//!
//! A listener authenticates with the static listener credential. On success it
//! is registered and immediately receives the current control credential as
//! one credential-push line. While streaming, its inbound text is rebroadcast
//! to every other listener (with the reserved prefixes filtered out), ping
//! frames are answered with pong frames, and a close frame ends the session.
//! The embedding event loop performs the transport work and unregisters the
//! listener exactly once on teardown.

use vstd::prelude::*;
use vstd::string::*;
use crate::message::{
    control_password_line, control_password_prefix, encode_control_password,
    forward_to_listeners_except, has_prefix, is_listener_only_message, listener_only_prefix,
};
use crate::shared_data::{same_control_state, SharedData};

verus! {

/// One inbound frame of a listener connection, as the transport hands it up.
pub enum ListenerFrame {
    /// A text line or text message.
    Text(String),
    /// A ping frame with its payload.
    Ping(Vec<u8>),
    /// A pong frame with its payload.
    Pong(Vec<u8>),
    /// A binary frame; the relay ignores these.
    Binary(Vec<u8>),
    /// The peer closed the logical stream.
    Close,
}

/// What the session asks the transport to do in response to a frame.
pub enum ListenerReply {
    /// Nothing to send; the session continues.
    NoReply,
    /// Answer with a pong frame carrying the given payload.
    Pong(Vec<u8>),
    /// Send a close frame and end the session.
    Close,
}

/// Per-connection state of one listener session.
pub struct ListenerSession {
    /// Identity of the connection (derived from its remote address).
    pub addr: u64,
    /// Whether the static listener credential has been presented.
    pub authorized: bool,
}

impl ListenerSession {
    /// A freshly connected, not yet authenticated listener.
    pub fn new(addr: u64) -> (r: ListenerSession)
        ensures
            r.addr == addr,
            !r.authorized,
    {
        ListenerSession { addr, authorized: false }
    }

    /// React to one inbound frame.
    ///
    /// Before authorization, only a text message equal to the static listener
    /// credential authorizes the session: the listener is registered and its
    /// fresh queue receives exactly the credential-push line for the current
    /// control credential, before any other traffic. A wrong credential asks
    /// the transport to close. After authorization, text is rebroadcast to
    /// every other listener unless it matches a reserved prefix. In any state,
    /// pings are answered with pongs, and close ends the session; the caller
    /// unregisters the listener on teardown.
    pub fn on_frame(&mut self, data: &mut SharedData, frame: ListenerFrame) -> (r: ListenerReply)
        requires
            old(data).wf(),
        ensures
            final(data).wf(),
            final(self).addr == old(self).addr,
            frame matches ListenerFrame::Ping(p) ==> r == ListenerReply::Pong(p)
                && *final(data) == *old(data) && *final(self) == *old(self),
            frame matches ListenerFrame::Pong(p) ==> r is NoReply && *final(data) == *old(data)
                && *final(self) == *old(self),
            frame matches ListenerFrame::Binary(b) ==> r is NoReply && *final(data) == *old(data)
                && *final(self) == *old(self),
            frame is Close ==> r is Close && *final(data) == *old(data) && *final(self) == *old(
                self,
            ),
            frame matches ListenerFrame::Text(t) ==> (!old(self).authorized && t@ == old(
                data,
            ).config.listen_password@ ==> {
                &&& final(self).authorized
                &&& r is NoReply
                &&& same_control_state(*old(data), *final(data))
                &&& final(data).has_listener(old(self).addr)
                &&& final(data).pending(old(self).addr) == seq![
                    control_password_line(old(data).control_password@),
                ]
                &&& forall|a: u64|
                    a != old(self).addr ==> final(data).has_listener(a) == old(data).has_listener(
                        a,
                    )
                &&& forall|a: u64|
                    a != old(self).addr && old(data).has_listener(a) ==> final(data).pending(a)
                        == old(data).pending(a)
            }),
            frame matches ListenerFrame::Text(t) ==> (!old(self).authorized && t@ != old(
                data,
            ).config.listen_password@ ==> r is Close && *final(data) == *old(data) && *final(self)
                == *old(self)),
            frame matches ListenerFrame::Text(t) ==> (old(self).authorized ==> {
                &&& *final(self) == *old(self)
                &&& r is NoReply
                &&& same_control_state(*old(data), *final(data))
                &&& forall|a: u64| final(data).has_listener(a) == old(data).has_listener(a)
                &&& (has_prefix(t@, control_password_prefix()) || has_prefix(
                    t@,
                    listener_only_prefix(),
                )) ==> forall|a: u64|
                    old(data).has_listener(a) ==> final(data).pending(a) == old(data).pending(a)
                &&& !(has_prefix(t@, control_password_prefix()) || has_prefix(
                    t@,
                    listener_only_prefix(),
                )) ==> {
                    &&& forall|a: u64|
                        a != old(self).addr && old(data).has_listener(a) ==> final(data).pending(
                            a,
                        ) == old(data).pending(a).push(t@)
                    &&& (old(data).has_listener(old(self).addr) ==> final(data).pending(
                        old(self).addr,
                    ) == old(data).pending(old(self).addr))
                }
            }),
    {
        match frame {
            ListenerFrame::Ping(p) => ListenerReply::Pong(p),
            ListenerFrame::Pong(_) => ListenerReply::NoReply,
            ListenerFrame::Binary(_) => ListenerReply::NoReply,
            ListenerFrame::Close => ListenerReply::Close,
            ListenerFrame::Text(t) => {
                if !self.authorized {
                    if t == data.config.listen_password {
                        self.authorized = true;
                        data.register_listener(self.addr);
                        let ghost s1 = *data;
                        let message = encode_control_password(data.control_password.as_str());
                        data.send_to_listener(self.addr, message);
                        proof {
                            assert(s1.pending(self.addr) == Seq::<Seq<char>>::empty());
                            assert(data.pending(self.addr) == s1.pending(self.addr).push(
                                control_password_line(old(data).control_password@),
                            ));
                            assert(data.pending(self.addr) =~= seq![
                                control_password_line(old(data).control_password@),
                            ]);
                        }
                        ListenerReply::NoReply
                    } else {
                        ListenerReply::Close
                    }
                } else {
                    if !is_listener_only_message(t.as_str()) {
                        forward_to_listeners_except(data, self.addr, t);
                    }
                    ListenerReply::NoReply
                }
            },
        }
    }
}

/// The private sub-protocol a WebSocket upgrade must request; upgrades that do
/// not name it are rejected with the transport's own rejection handshake.
pub open spec fn websocket_protocol() -> Seq<char> {
    "rust-websocket"@
}

/// Whether any of the protocols named by a WebSocket upgrade is the relay's
/// private sub-protocol.
pub fn accepts_protocol(protocols: &Vec<String>) -> (r: bool)
    ensures
        r == exists|i: int| 0 <= i < protocols@.len() && protocols@[i]@ == websocket_protocol(),
{
    let expected = String::from_str("rust-websocket");
    let n = protocols.len();
    let mut i: usize = 0;
    while i < n
        invariant
            i <= n,
            n == protocols@.len(),
            expected@ == websocket_protocol(),
            forall|j: int| 0 <= j < i ==> protocols@[j]@ != websocket_protocol(),
        decreases n - i,
    {
        if protocols[i] == expected {
            return true;
        }
        i += 1;
    }
    false
}

} // verus!
