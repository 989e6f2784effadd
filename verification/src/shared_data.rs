//! Process-wide shared state of the relay: the current control credential,
//! the current control-session cancellation token, and the table of live
//! listeners with their outbound line queues.
//!
//! Every operation here is short and synchronous; the embedding event loop
//! serializes calls, so no operation may suspend mid-mutation. A listener is
//! identified by a numeric connection identity (unique per concurrently open
//! connection); its queue holds the lines pushed by broadcasts and not yet
//! handed to the connection's writer.

use vstd::prelude::*;
use crate::config::Config;
use crate::password::{generate_password, is_password_text};

verus! {

/// One registered listener: its connection identity and its outbound queue.
pub struct ListenerEntry {
    /// Identity of the connection (derived from its remote address).
    pub addr: u64,
    /// Lines queued for delivery to this listener, oldest first.
    pub queue: Vec<String>,
}

/// No two entries share a connection identity.
pub open spec fn unique_addrs(s: Seq<ListenerEntry>) -> bool {
    forall|i: int, j: int| 0 <= i < j < s.len() ==> s[i].addr != s[j].addr
}

/// Some entry has identity `addr`.
pub open spec fn contains_addr(s: Seq<ListenerEntry>, addr: u64) -> bool {
    exists|i: int| 0 <= i < s.len() && s[i].addr == addr
}

/// The index of the entry with identity `addr` (meaningful under
/// `unique_addrs` when `contains_addr` holds).
pub open spec fn index_of_addr(s: Seq<ListenerEntry>, addr: u64) -> int {
    choose|i: int| 0 <= i < s.len() && s[i].addr == addr
}

/// The queued lines of the listener with identity `addr`, as text.
pub open spec fn queue_of(s: Seq<ListenerEntry>, addr: u64) -> Seq<Seq<char>> {
    s[index_of_addr(s, addr)].queue.deep_view()
}

/// Under `unique_addrs`, an entry's index is the one `index_of_addr` picks.
pub proof fn lemma_index_of_addr(s: Seq<ListenerEntry>, addr: u64, i: int)
    requires
        unique_addrs(s),
        0 <= i < s.len(),
        s[i].addr == addr,
    ensures
        contains_addr(s, addr),
        index_of_addr(s, addr) == i,
        queue_of(s, addr) == s[i].queue.deep_view(),
{
    assert(contains_addr(s, addr));
    let j = index_of_addr(s, addr);
    assert(0 <= j < s.len() && s[j].addr == addr);
    if i < j {
        assert(s[i].addr != s[j].addr);
    }
    if j < i {
        assert(s[j].addr != s[i].addr);
    }
}

/// The registry fields other than the listener table are untouched.
pub open spec fn same_control_state(pre: SharedData, post: SharedData) -> bool {
    &&& post.config == pre.config
    &&& post.control_password == pre.control_password
    &&& post.current_control_tx == pre.current_control_tx
    &&& post.next_token == pre.next_token
}

/// The listener tables of `pre` and `post` hold the same connections, in the
/// same order.
pub open spec fn same_listeners(pre: Seq<ListenerEntry>, post: Seq<ListenerEntry>) -> bool {
    &&& post.len() == pre.len()
    &&& forall|i: int| 0 <= i < pre.len() ==> post[i].addr == pre[i].addr
}

pub struct SharedData {
    /// The deployment configuration, as handed in at startup.
    pub config: Config,
    /// The live listener table.
    pub listen_connections: Vec<ListenerEntry>,
    /// The credential the next control connection must present.
    pub control_password: String,
    /// Cancellation token of the current control session, if one is live.
    pub current_control_tx: Option<u64>,
    /// The next cancellation token to hand out; tokens are never reused.
    pub next_token: u64,
}

impl SharedData {
    /// The listener table as a sequence.
    pub open spec fn table(&self) -> Seq<ListenerEntry> {
        self.listen_connections@
    }

    /// A listener with identity `addr` is registered.
    pub open spec fn has_listener(&self, addr: u64) -> bool {
        contains_addr(self.table(), addr)
    }

    /// The queued lines of the listener with identity `addr`.
    pub open spec fn pending(&self, addr: u64) -> Seq<Seq<char>> {
        queue_of(self.table(), addr)
    }

    /// Well-formedness: listener identities are unique, and a live control
    /// token was handed out by this registry.
    pub open spec fn wf(&self) -> bool {
        &&& unique_addrs(self.table())
        &&& (self.current_control_tx matches Some(t) ==> t < self.next_token)
    }

    /// Create the registry: no listeners, no control session, and a freshly
    /// generated control credential.
    pub fn new(config: Config) -> (r: SharedData)
        ensures
            r.wf(),
            r.table().len() == 0,
            r.current_control_tx is None,
            r.config == config,
            r.control_password@.len() == 16,
            is_password_text(r.control_password@),
    {
        SharedData {
            config,
            listen_connections: Vec::new(),
            control_password: generate_password(),
            current_control_tx: None,
            next_token: 0,
        }
    }

    /// Install a fresh cancellation token as current and return it, together
    /// with the previous token (if any) so the caller can evict that session.
    pub fn takeover_control_session(&mut self) -> (r: (u64, Option<u64>))
        requires
            old(self).wf(),
            old(self).next_token < u64::MAX,
        ensures
            final(self).wf(),
            r.0 == old(self).next_token,
            r.1 == old(self).current_control_tx,
            final(self).current_control_tx == Some(r.0),
            final(self).next_token == old(self).next_token + 1,
            final(self).config == old(self).config,
            final(self).control_password == old(self).control_password,
            final(self).listen_connections == old(self).listen_connections,
    {
        let token = self.next_token;
        self.next_token = self.next_token + 1;
        let evicted = self.current_control_tx;
        self.current_control_tx = Some(token);
        (token, evicted)
    }

    /// Clear the current control token iff it still equals `token`. Ending a
    /// session that was already evicted (or never current) is a safe no-op.
    pub fn end_control_session(&mut self, token: u64)
        ensures
            old(self).current_control_tx == Some(token) ==> {
                &&& final(self).current_control_tx is None
                &&& final(self).config == old(self).config
                &&& final(self).control_password == old(self).control_password
                &&& final(self).next_token == old(self).next_token
                &&& final(self).listen_connections == old(self).listen_connections
            },
            old(self).current_control_tx != Some(token) ==> *final(self) == *old(self),
            old(self).wf() ==> final(self).wf(),
    {
        match self.current_control_tx {
            Some(t) => {
                if t == token {
                    self.current_control_tx = None;
                }
            },
            None => {},
        }
    }

    /// Register the listener `addr` with an empty outbound queue. If `addr`
    /// was already registered its queue is replaced by an empty one; every
    /// other listener is untouched.
    pub fn register_listener(&mut self, addr: u64)
        requires
            old(self).wf(),
        ensures
            final(self).wf(),
            same_control_state(*old(self), *final(self)),
            final(self).has_listener(addr),
            final(self).pending(addr) == Seq::<Seq<char>>::empty(),
            forall|a: u64| a != addr ==> final(self).has_listener(a) == old(self).has_listener(a),
            forall|a: u64| a != addr && old(self).has_listener(a) ==> final(self).pending(a)
                == old(self).pending(a),
    {
        let n = self.listen_connections.len();
        let mut i: usize = 0;
        while i < n
            invariant
                i <= n,
                n == self.table().len(),
                old(self).wf(),
                *self == *old(self),
                forall|j: int| 0 <= j < i ==> self.table()[j].addr != addr,
            decreases n - i,
        {
            if self.listen_connections[i].addr == addr {
                self.listen_connections[i].queue = Vec::new();
                proof {
                    assert(self.table()[i as int].queue.deep_view() =~= Seq::<Seq<char>>::empty());
                    lemma_update_entry(old(self).table(), self.table(), i as int, addr);
                }
                return;
            }
            i += 1;
        }
        self.listen_connections.push(ListenerEntry { addr, queue: Vec::new() });
        proof {
            let n0 = old(self).table().len() as int;
            assert(self.table()[n0].queue.deep_view() =~= Seq::<Seq<char>>::empty());
            lemma_push_entry(old(self).table(), self.table(), addr);
        }
    }

    /// Remove the listener `addr` from the table. Unregistering an identity
    /// that is not present is a safe no-op.
    pub fn unregister_listener(&mut self, addr: u64)
        requires
            old(self).wf(),
        ensures
            final(self).wf(),
            same_control_state(*old(self), *final(self)),
            !final(self).has_listener(addr),
            !old(self).has_listener(addr) ==> *final(self) == *old(self),
            forall|a: u64| a != addr ==> final(self).has_listener(a) == old(self).has_listener(a),
            forall|a: u64| a != addr && old(self).has_listener(a) ==> final(self).pending(a)
                == old(self).pending(a),
    {
        let n = self.listen_connections.len();
        let mut i: usize = 0;
        while i < n
            invariant
                i <= n,
                n == self.table().len(),
                old(self).wf(),
                *self == *old(self),
                forall|j: int| 0 <= j < i ==> self.table()[j].addr != addr,
            decreases n - i,
        {
            if self.listen_connections[i].addr == addr {
                self.listen_connections.remove(i);
                proof {
                    lemma_remove_entry(old(self).table(), self.table(), i as int, addr);
                }
                return;
            }
            i += 1;
        }
        proof {
            assert(!old(self).has_listener(addr));
        }
    }

    /// Push `line`, unmodified, onto the queue of every registered listener,
    /// except the one named by `exclude` (if any). No listener is added or
    /// removed, and no other state changes.
    pub fn broadcast(&mut self, line: &String, exclude: Option<u64>)
        requires
            old(self).wf(),
        ensures
            final(self).wf(),
            same_control_state(*old(self), *final(self)),
            same_listeners(old(self).table(), final(self).table()),
            forall|a: u64| final(self).has_listener(a) == old(self).has_listener(a),
            forall|a: u64| old(self).has_listener(a) && Some(a) != exclude ==> final(self).pending(
                a,
            ) == old(self).pending(a).push(line@),
            forall|a: u64| old(self).has_listener(a) && Some(a) == exclude ==> final(self).pending(
                a,
            ) == old(self).pending(a),
    {
        let n = self.listen_connections.len();
        let mut i: usize = 0;
        while i < n
            invariant
                i <= n,
                n == self.table().len(),
                old(self).wf(),
                same_control_state(*old(self), *self),
                same_listeners(old(self).table(), self.table()),
                forall|j: int|
                    0 <= j < i && Some(old(self).table()[j].addr) != exclude
                        ==> #[trigger] self.table()[j].queue.deep_view() == old(self).table()[j]
                        .queue.deep_view().push(line@),
                forall|j: int|
                    0 <= j < n && (i <= j || Some(old(self).table()[j].addr) == exclude)
                        ==> #[trigger] self.table()[j].queue.deep_view() == old(self).table()[j]
                        .queue.deep_view(),
            decreases n - i,
        {
            let excluded = match exclude {
                Some(a) => self.listen_connections[i].addr == a,
                None => false,
            };
            if !excluded {
                let ghost pre = self.table();
                self.listen_connections[i].queue.push(line.clone());
                proof {
                    assert(self.table()[i as int].queue.deep_view() =~= pre[i as int]
                        .queue.deep_view().push(line@));
                }
            }
            i += 1;
        }
        proof {
            lemma_tables_related(old(self).table(), self.table(), line@, exclude);
        }
    }

    /// Push `line` onto the queue of the single listener `addr`.
    pub fn send_to_listener(&mut self, addr: u64, line: String)
        requires
            old(self).wf(),
            old(self).has_listener(addr),
        ensures
            final(self).wf(),
            same_control_state(*old(self), *final(self)),
            forall|a: u64| final(self).has_listener(a) == old(self).has_listener(a),
            final(self).pending(addr) == old(self).pending(addr).push(line@),
            forall|a: u64| a != addr && old(self).has_listener(a) ==> final(self).pending(a)
                == old(self).pending(a),
    {
        let n = self.listen_connections.len();
        let mut i: usize = 0;
        while i < n
            invariant
                i <= n,
                n == self.table().len(),
                old(self).wf(),
                old(self).has_listener(addr),
                forall|j: int| 0 <= j < i ==> self.table()[j].addr != addr,
                *self == *old(self),
            decreases n - i,
        {
            if self.listen_connections[i].addr == addr {
                let ghost pre = self.table();
                self.listen_connections[i].queue.push(line);
                proof {
                    assert(self.table()[i as int].queue.deep_view() =~= pre[i as int]
                        .queue.deep_view().push(line@));
                    lemma_update_queue(old(self).table(), self.table(), i as int, addr);
                }
                return;
            }
            i += 1;
        }
        proof {
            assert(!contains_addr(old(self).table(), addr));
        }
    }
}

/// Lifts the index-wise picture of an update at `k` (same identities, only
/// `k`'s queue changed) to the identity-keyed one.
proof fn lemma_update_queue(pre: Seq<ListenerEntry>, post: Seq<ListenerEntry>, k: int, addr: u64)
    requires
        unique_addrs(pre),
        same_listeners(pre, post),
        0 <= k < pre.len(),
        pre[k].addr == addr,
        forall|j: int| 0 <= j < pre.len() && j != k ==> post[j].queue.deep_view() == pre[j]
            .queue.deep_view(),
    ensures
        unique_addrs(post),
        forall|a: u64| contains_addr(post, a) == contains_addr(pre, a),
        queue_of(post, addr) == post[k].queue.deep_view(),
        forall|a: u64| a != addr && contains_addr(pre, a) ==> queue_of(post, a) == queue_of(pre, a),
{
    assert(unique_addrs(post));
    assert forall|a: u64| contains_addr(post, a) == contains_addr(pre, a) by {
        if contains_addr(post, a) {
            let i = choose|i: int| 0 <= i < post.len() && post[i].addr == a;
            assert(pre[i].addr == a);
        }
        if contains_addr(pre, a) {
            let i = choose|i: int| 0 <= i < pre.len() && pre[i].addr == a;
            assert(post[i].addr == a);
        }
    }
    lemma_index_of_addr(post, addr, k);
    assert forall|a: u64| a != addr && contains_addr(pre, a) implies queue_of(post, a) == queue_of(
        pre,
        a,
    ) by {
        let i = index_of_addr(pre, a);
        assert(0 <= i < pre.len() && pre[i].addr == a);
        lemma_index_of_addr(post, a, i);
    }
}

/// Index-wise picture of replacing entry `k`'s queue by an empty one.
proof fn lemma_update_entry(pre: Seq<ListenerEntry>, post: Seq<ListenerEntry>, k: int, addr: u64)
    requires
        unique_addrs(pre),
        same_listeners(pre, post),
        0 <= k < pre.len(),
        pre[k].addr == addr,
        post[k].queue.deep_view() == Seq::<Seq<char>>::empty(),
        forall|j: int| 0 <= j < pre.len() && j != k ==> post[j].queue.deep_view() == pre[j]
            .queue.deep_view(),
    ensures
        unique_addrs(post),
        contains_addr(post, addr),
        forall|a: u64| a != addr ==> contains_addr(post, a) == contains_addr(pre, a),
        queue_of(post, addr) == Seq::<Seq<char>>::empty(),
        forall|a: u64| a != addr && contains_addr(pre, a) ==> queue_of(post, a) == queue_of(pre, a),
{
    lemma_update_queue(pre, post, k, addr);
}

/// Index-wise picture of appending a fresh entry for `addr`.
proof fn lemma_push_entry(pre: Seq<ListenerEntry>, post: Seq<ListenerEntry>, addr: u64)
    requires
        unique_addrs(pre),
        !contains_addr(pre, addr),
        post.len() == pre.len() + 1,
        forall|j: int| 0 <= j < pre.len() ==> post[j] == pre[j],
        post[pre.len() as int].addr == addr,
        post[pre.len() as int].queue.deep_view() == Seq::<Seq<char>>::empty(),
    ensures
        unique_addrs(post),
        contains_addr(post, addr),
        forall|a: u64| a != addr ==> contains_addr(post, a) == contains_addr(pre, a),
        queue_of(post, addr) == Seq::<Seq<char>>::empty(),
        forall|a: u64| a != addr && contains_addr(pre, a) ==> queue_of(post, a) == queue_of(pre, a),
{
    let n = pre.len() as int;
    assert forall|i: int, j: int| 0 <= i < j < post.len() implies post[i].addr != post[j].addr by {
        if j < n {
        } else {
            assert(j == n);
            if post[i].addr == addr {
                assert(contains_addr(pre, addr));
            }
        }
    }
    lemma_index_of_addr(post, addr, n);
    assert forall|a: u64| a != addr implies contains_addr(post, a) == contains_addr(pre, a) by {
        if a != addr && contains_addr(post, a) {
            let i = choose|i: int| 0 <= i < post.len() && post[i].addr == a;
            assert(i < n);
            assert(pre[i].addr == a);
        }
        if a != addr && contains_addr(pre, a) {
            let i = choose|i: int| 0 <= i < pre.len() && pre[i].addr == a;
            assert(post[i].addr == a);
        }
    }
    assert forall|a: u64| a != addr && contains_addr(pre, a) implies queue_of(post, a) == queue_of(
        pre,
        a,
    ) by {
        let i = index_of_addr(pre, a);
        assert(0 <= i < pre.len() && pre[i].addr == a);
        lemma_index_of_addr(post, a, i);
    }
}

/// Index-wise picture of removing entry `k`.
proof fn lemma_remove_entry(pre: Seq<ListenerEntry>, post: Seq<ListenerEntry>, k: int, addr: u64)
    requires
        unique_addrs(pre),
        0 <= k < pre.len(),
        pre[k].addr == addr,
        post == pre.remove(k),
    ensures
        unique_addrs(post),
        !contains_addr(post, addr),
        forall|a: u64| a != addr ==> contains_addr(post, a) == contains_addr(pre, a),
        forall|a: u64| a != addr && contains_addr(pre, a) ==> queue_of(post, a) == queue_of(pre, a),
{
    assert forall|i: int, j: int| 0 <= i < j < post.len() implies post[i].addr != post[j].addr by {
        let i0 = if i < k { i } else { i + 1 };
        let j0 = if j < k { j } else { j + 1 };
        assert(post[i] == pre[i0]);
        assert(post[j] == pre[j0]);
    }
    assert forall|i: int| 0 <= i < post.len() implies post[i].addr != addr by {
        let i0 = if i < k { i } else { i + 1 };
        assert(post[i] == pre[i0]);
        if pre[i0].addr == addr {
            if i0 < k {
                assert(pre[i0].addr != pre[k].addr);
            } else {
                assert(pre[k].addr != pre[i0].addr);
            }
        }
    }
    assert forall|a: u64| a != addr implies contains_addr(post, a) == contains_addr(pre, a) by {
        if a != addr && contains_addr(post, a) {
            let i = choose|i: int| 0 <= i < post.len() && post[i].addr == a;
            let i0 = if i < k { i } else { i + 1 };
            assert(post[i] == pre[i0]);
            assert(contains_addr(pre, a));
        }
        if a != addr && contains_addr(pre, a) {
            let i = choose|i: int| 0 <= i < pre.len() && pre[i].addr == a;
            let i1 = if i < k { i } else { i - 1 };
            assert(post[i1] == pre[i]);
            assert(contains_addr(post, a));
        }
    }
    assert forall|a: u64| a != addr && contains_addr(pre, a) implies queue_of(post, a) == queue_of(
        pre,
        a,
    ) by {
        let i = index_of_addr(pre, a);
        assert(0 <= i < pre.len() && pre[i].addr == a);
        lemma_index_of_addr(pre, a, i);
        let i1 = if i < k { i } else { i - 1 };
        assert(post[i1] == pre[i]);
        lemma_index_of_addr(post, a, i1);
    }
}

/// Lifts the index-wise picture of a broadcast to the identity-keyed one.
proof fn lemma_tables_related(
    pre: Seq<ListenerEntry>,
    post: Seq<ListenerEntry>,
    line: Seq<char>,
    exclude: Option<u64>,
)
    requires
        unique_addrs(pre),
        same_listeners(pre, post),
        forall|j: int| 0 <= j < pre.len() && Some(pre[j].addr) != exclude ==> post[j]
            .queue.deep_view() == pre[j].queue.deep_view().push(line),
        forall|j: int| 0 <= j < pre.len() && Some(pre[j].addr) == exclude ==> post[j]
            .queue.deep_view() == pre[j].queue.deep_view(),
    ensures
        unique_addrs(post),
        forall|a: u64| contains_addr(post, a) == contains_addr(pre, a),
        forall|a: u64| contains_addr(pre, a) && Some(a) != exclude ==> queue_of(post, a)
            == queue_of(pre, a).push(line),
        forall|a: u64| contains_addr(pre, a) && Some(a) == exclude ==> queue_of(post, a)
            == queue_of(pre, a),
{
    assert(unique_addrs(post));
    assert forall|a: u64| contains_addr(post, a) == contains_addr(pre, a) by {
        if contains_addr(post, a) {
            let i = choose|i: int| 0 <= i < post.len() && post[i].addr == a;
            assert(pre[i].addr == a);
        }
        if contains_addr(pre, a) {
            let i = choose|i: int| 0 <= i < pre.len() && pre[i].addr == a;
            assert(post[i].addr == a);
        }
    }
    assert forall|a: u64| contains_addr(pre, a) implies {
        &&& (Some(a) != exclude ==> queue_of(post, a) == queue_of(pre, a).push(line))
        &&& (Some(a) == exclude ==> queue_of(post, a) == queue_of(pre, a))
    } by {
        let i = index_of_addr(pre, a);
        assert(0 <= i < pre.len() && pre[i].addr == a);
        lemma_index_of_addr(pre, a, i);
        lemma_index_of_addr(post, a, i);
    }
}

} // verus!
