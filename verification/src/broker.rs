use vstd::prelude::*;

use vstd::utf8::{encode_utf8, encode_utf8_decode_utf8};

verus! {

use vstd::string::StrSliceExecFns;

/// Compare two string slices by their UTF-8 bytes; equal bytes mean equal
/// character sequences because UTF-8 decoding inverts encoding.
pub fn str_eq(a: &str, b: &str) -> (r: bool)
    ensures
        r == (a@ == b@),
{
    let ab = a.as_bytes();
    let bb = b.as_bytes();
    if ab.len() != bb.len() {
        return false;
    }
    let mut i: usize = 0;
    while i < ab.len()
        invariant
            ab@ == encode_utf8(a@),
            bb@ == encode_utf8(b@),
            ab@.len() == bb@.len(),
            i <= ab@.len(),
            forall|j: int| 0 <= j < i ==> ab@[j] == bb@[j],
        decreases ab@.len() - i,
    {
        if ab[i] != bb[i] {
            return false;
        }
        i = i + 1;
    }
    proof {
        assert(ab@ =~= bb@);
        encode_utf8_decode_utf8(a@);
        encode_utf8_decode_utf8(b@);
    }
    true
}

/// Liveness of a registered client.
#[derive(Debug, Clone, Copy, PartialEq, Eq, Structural)]
pub enum ConnectionStatus {
    Connected,
    Disconnected,
    AwaitingReconnect,
}

/// A QoS 1 or 2 message awaiting its acknowledgment, keyed by packet id.
#[derive(Debug)]
pub struct PendingMessage {
    pub packet_id: u16,
    pub bytes: Vec<u8>,
}

/// Ghost form of a pending message.
pub struct PendingMessageModel {
    pub packet_id: u16,
    pub bytes: Seq<u8>,
}

impl View for PendingMessage {
    type V = PendingMessageModel;

    open spec fn view(&self) -> PendingMessageModel {
        PendingMessageModel { packet_id: self.packet_id, bytes: self.bytes@ }
    }
}

/// One client's session state: identity, liveness, subscriptions, and the
/// queue of unacknowledged QoS 1/2 messages. Timestamps and durations are
/// in seconds, supplied by the caller's clock.
#[derive(Debug)]
pub struct ClientState {
    pub client_id: String,
    pub connected_status: ConnectionStatus,
    pub subscriptions: Vec<String>,
    pub last_seen: u64,
    pub keep_alive: u64,
    pub clean_session: bool,
    pub pending: Vec<PendingMessage>,
}

/// Ghost form of a client's session state.
pub struct ClientStateModel {
    pub client_id: Seq<char>,
    pub connected_status: ConnectionStatus,
    pub subscriptions: Seq<Seq<char>>,
    pub last_seen: u64,
    pub keep_alive: u64,
    pub clean_session: bool,
    pub pending: Seq<PendingMessageModel>,
}

impl View for ClientState {
    type V = ClientStateModel;

    open spec fn view(&self) -> ClientStateModel {
        ClientStateModel {
            client_id: self.client_id@,
            connected_status: self.connected_status,
            subscriptions: self.subscriptions@.map_values(|s: String| s@),
            last_seen: self.last_seen,
            keep_alive: self.keep_alive,
            clean_session: self.clean_session,
            pending: self.pending@.map_values(|m: PendingMessage| m@),
        }
    }
}

/// The entry a fresh connection installs: connected, no subscriptions, no
/// pending messages, liveness anchored at `now`.
pub open spec fn spec_fresh_client(
    id: Seq<char>,
    keep_alive: u64,
    clean_session: bool,
    now: u64,
) -> ClientStateModel {
    ClientStateModel {
        client_id: id,
        connected_status: ConnectionStatus::Connected,
        subscriptions: Seq::empty(),
        last_seen: now,
        keep_alive,
        clean_session,
        pending: Seq::empty(),
    }
}

/// A client is alive while no more than its keep-alive interval has passed
/// since it was last seen.
pub open spec fn spec_is_alive(c: ClientStateModel, now: u64) -> bool {
    now <= c.last_seen + c.keep_alive
}

impl ClientState {
    /// A fresh session for a newly connected client.
    pub fn new(client_id: &str, keep_alive: u64, clean_session: bool, now: u64) -> (r: Self)
        ensures
            r@ == spec_fresh_client(client_id@, keep_alive, clean_session, now),
    {
        let r = ClientState {
            client_id: client_id.to_owned(),
            connected_status: ConnectionStatus::Connected,
            subscriptions: Vec::new(),
            last_seen: now,
            keep_alive,
            clean_session,
            pending: Vec::new(),
        };
        proof {
            assert(r@.subscriptions =~= Seq::<Seq<char>>::empty());
            assert(r@.pending =~= Seq::<PendingMessageModel>::empty());
        }
        r
    }

    /// Refresh liveness: the client was just heard from.
    pub fn update_last_seen(&mut self, now: u64)
        ensures
            final(self)@ == (ClientStateModel { last_seen: now, ..old(self)@ }),
    {
        self.last_seen = now;
    }

    /// Whether the client is within its keep-alive window at `now`.
    pub fn is_alive(&self, now: u64) -> (r: bool)
        ensures
            r == spec_is_alive(self@, now),
    {
        if now < self.last_seen {
            true
        } else {
            now - self.last_seen <= self.keep_alive
        }
    }

    /// Whether this client subscribed to exactly this topic.
    pub fn is_subscribed(&self, topic: &str) -> (r: bool)
        ensures
            r == self@.subscriptions.contains(topic@),
    {
        let mut i: usize = 0;
        while i < self.subscriptions.len()
            invariant
                i <= self.subscriptions@.len(),
                forall|j: int| 0 <= j < i ==> self@.subscriptions[j] != topic@,
            decreases self.subscriptions@.len() - i,
        {
            if str_eq(self.subscriptions[i].as_str(), topic) {
                proof {
                    assert(self@.subscriptions[i as int] == topic@);
                }
                return true;
            }
            i = i + 1;
        }
        proof {
            assert(forall|j: int|
                0 <= j < self@.subscriptions.len() ==> self@.subscriptions[j] != topic@);
        }
        false
    }
}

/// Whether a publish to `topic` reaches this client now: it is connected
/// and subscribed to exactly that topic.
pub open spec fn spec_matches(c: ClientStateModel, topic: Seq<char>) -> bool {
    c.connected_status == ConnectionStatus::Connected && c.subscriptions.contains(topic)
}

/// Whether a QoS 1/2 publish to `topic` is held for this client instead of
/// delivered: it is disconnected, subscribed, and its session asked for
/// state to be kept across connections.
pub open spec fn spec_holds(c: ClientStateModel, topic: Seq<char>) -> bool {
    c.connected_status == ConnectionStatus::Disconnected && !c.clean_session
        && c.subscriptions.contains(topic)
}

/// The client ids a publish to `topic` is delivered to, in registry order.
pub open spec fn spec_recipients(reg: Seq<ClientStateModel>, topic: Seq<char>) -> Seq<Seq<char>>
    decreases reg.len(),
{
    if reg.len() == 0 {
        Seq::empty()
    } else {
        let init = spec_recipients(reg.drop_last(), topic);
        if spec_matches(reg.last(), topic) {
            init.push(reg.last().client_id)
        } else {
            init
        }
    }
}

/// The liveness refresh a QoS 0 delivery applies: every recipient's
/// last-seen time moves to `now`; everything else is untouched.
pub open spec fn spec_touch_recipients(
    reg: Seq<ClientStateModel>,
    topic: Seq<char>,
    now: u64,
) -> Seq<ClientStateModel> {
    reg.map_values(
        |c: ClientStateModel|
            if spec_matches(c, topic) {
                (ClientStateModel { last_seen: now, ..c })
            } else {
                c
            },
    )
}

/// The update a QoS 1/2 publish applies: connected recipients get the
/// message queued for acknowledgment and their liveness refreshed;
/// disconnected subscribers that keep session state get it queued for
/// redelivery on reconnect; everyone else is untouched.
pub open spec fn spec_enqueue_pending(
    reg: Seq<ClientStateModel>,
    topic: Seq<char>,
    now: u64,
    packet_id: u16,
    bytes: Seq<u8>,
) -> Seq<ClientStateModel> {
    reg.map_values(
        |c: ClientStateModel|
            if spec_matches(c, topic) {
                (ClientStateModel {
                    last_seen: now,
                    pending: c.pending.push(PendingMessageModel { packet_id, bytes }),
                    ..c
                })
            } else if spec_holds(c, topic) {
                (ClientStateModel {
                    pending: c.pending.push(PendingMessageModel { packet_id, bytes }),
                    ..c
                })
            } else {
                c
            },
    )
}

/// Completion of a QoS handshake: every pending message under this packet
/// id leaves the queue, in order, and nothing else moves.
pub open spec fn spec_ack_pending(p: Seq<PendingMessageModel>, packet_id: u16) -> Seq<
    PendingMessageModel,
>
    decreases p.len(),
{
    if p.len() == 0 {
        Seq::empty()
    } else {
        let init = spec_ack_pending(p.drop_last(), packet_id);
        if p.last().packet_id == packet_id {
            init
        } else {
            init.push(p.last())
        }
    }
}

/// Index of the entry whose client id is `id`, or -1 when absent; the first
/// match counts, though a well-formed registry has at most one.
pub open spec fn spec_find(s: Seq<ClientStateModel>, id: Seq<char>) -> int
    decreases s.len(),
{
    if s.len() == 0 {
        -1
    } else if s[0].client_id == id {
        0
    } else {
        let r = spec_find(s.drop_first(), id);
        if r == -1 {
            -1
        } else {
            r + 1
        }
    }
}

/// Whether the registry holds an entry for `id`.
pub open spec fn spec_contains(s: Seq<ClientStateModel>, id: Seq<char>) -> bool {
    spec_find(s, id) >= 0
}

/// What `spec_find` returns: a valid index bearing `id`, or -1 when no
/// entry bears it.
pub proof fn lemma_spec_find(s: Seq<ClientStateModel>, id: Seq<char>)
    ensures
        -1 <= spec_find(s, id) < s.len(),
        spec_find(s, id) >= 0 ==> s[spec_find(s, id)].client_id == id,
        spec_find(s, id) == -1 ==> forall|i: int| 0 <= i < s.len() ==> s[i].client_id != id,
    decreases s.len(),
{
    if s.len() == 0 {
    } else if s[0].client_id == id {
    } else {
        lemma_spec_find(s.drop_first(), id);
        let r = spec_find(s.drop_first(), id);
        if r == -1 {
            assert(forall|i: int|
                0 <= i < s.len() ==> s[i].client_id != id) by {
                assert(forall|i: int|
                    1 <= i < s.len() ==> s[i] == s.drop_first()[i - 1]);
            }
        }
    }
}

/// The first matching index is what `spec_find` returns.
pub proof fn lemma_spec_find_first(s: Seq<ClientStateModel>, id: Seq<char>, i: int)
    requires
        0 <= i < s.len(),
        s[i].client_id == id,
        forall|j: int| 0 <= j < i ==> s[j].client_id != id,
    ensures
        spec_find(s, id) == i,
    decreases i,
{
    if i == 0 {
    } else {
        assert(s[0].client_id != id);
        assert(s.drop_first()[i - 1] == s[i]);
        assert(forall|j: int| 0 <= j < i - 1 ==> s.drop_first()[j] == s[j + 1]);
        lemma_spec_find_first(s.drop_first(), id, i - 1);
    }
}

/// The client registry: every connected client's session state, keyed by
/// client id, with ids unique. It is meant to be owned and mutated by a
/// single command processor, which serializes all changes.
#[derive(Debug)]
pub struct Broker {
    clients: Vec<ClientState>,
}

impl View for Broker {
    type V = Seq<ClientStateModel>;

    closed spec fn view(&self) -> Seq<ClientStateModel> {
        self.clients@.map_values(|c: ClientState| c@)
    }
}

impl Broker {
    /// Registry well-formedness: client ids are unique.
    pub open spec fn wf(&self) -> bool {
        forall|i: int, j: int|
            0 <= i < j < self@.len() ==> self@[i].client_id != self@[j].client_id
    }

    /// An empty registry.
    pub fn new() -> (r: Self)
        ensures
            r@ == Seq::<ClientStateModel>::empty(),
            r.wf(),
    {
        let r = Broker { clients: Vec::new() };
        proof {
            assert(r@ =~= Seq::<ClientStateModel>::empty());
        }
        r
    }

    /// Index of the entry for `client_id`, matching `spec_find`.
    fn find_index(&self, client_id: &str) -> (r: Option<usize>)
        ensures
            match r {
                Some(i) => i < self@.len() && spec_find(self@, client_id@) == i,
                None => spec_find(self@, client_id@) == -1,
            },
    {
        let mut i: usize = 0;
        while i < self.clients.len()
            invariant
                i <= self@.len(),
                self@.len() == self.clients@.len(),
                forall|j: int| 0 <= j < i ==> self@[j].client_id != client_id@,
            decreases self.clients@.len() - i,
        {
            if str_eq(self.clients[i].client_id.as_str(), client_id) {
                proof {
                    lemma_spec_find_first(self@, client_id@, i as int);
                }
                return Some(i);
            }
            i = i + 1;
        }
        proof {
            lemma_spec_find(self@, client_id@);
            if spec_find(self@, client_id@) >= 0 {
                assert(self@[spec_find(self@, client_id@)].client_id == client_id@);
            }
        }
        None
    }

    /// Whether an entry for `client_id` is registered.
    pub fn is_client_connected(&self, client_id: &str) -> (r: bool)
        ensures
            r == spec_contains(self@, client_id@),
    {
        match self.find_index(client_id) {
            Some(_) => true,
            None => false,
        }
    }

    /// Borrow the session state registered for `client_id`.
    pub fn get_client(&self, client_id: &str) -> (r: Option<&ClientState>)
        ensures
            match r {
                Some(c) => spec_contains(self@, client_id@) && c@ == self@[spec_find(
                    self@,
                    client_id@,
                )],
                None => !spec_contains(self@, client_id@),
            },
    {
        match self.find_index(client_id) {
            Some(i) => Some(&self.clients[i]),
            None => None,
        }
    }

    /// Install a fresh entry for `client_id`. An entry already registered
    /// under the same id is evicted first: the most recent connection wins.
    pub fn add_client(&mut self, client_id: &str, keep_alive: u16, clean_session: bool, now: u64)
        requires
            old(self).wf(),
        ensures
            final(self).wf(),
            final(self)@ == (if spec_contains(old(self)@, client_id@) {
                old(self)@.remove(spec_find(old(self)@, client_id@))
            } else {
                old(self)@
            }).push(spec_fresh_client(client_id@, keep_alive as u64, clean_session, now)),
    {
        proof {
            lemma_spec_find(old(self)@, client_id@);
        }
        let ghost pre = self@;
        if let Some(i) = self.find_index(client_id) {
            let _ = self.clients.remove(i);
            proof {
                assert(self@ =~= pre.remove(i as int));
            }
        }
        let ghost mid = self@;
        proof {
            assert forall|k: int| 0 <= k < mid.len() implies mid[k].client_id != client_id@ by {
                if spec_contains(pre, client_id@) {
                    let f = spec_find(pre, client_id@);
                    if k < f {
                        assert(mid[k] == pre[k]);
                    } else {
                        assert(mid[k] == pre[k + 1]);
                    }
                } else {
                    assert(mid[k] == pre[k]);
                }
            }
        }
        let client = ClientState::new(client_id, keep_alive as u64, clean_session, now);
        self.clients.push(client);
        proof {
            assert(self@ =~= mid.push(
                spec_fresh_client(client_id@, keep_alive as u64, clean_session, now),
            ));
            assert forall|i: int, j: int|
                0 <= i < j < self@.len() implies self@[i].client_id != self@[j].client_id by {
                if spec_contains(pre, client_id@) {
                    let f = spec_find(pre, client_id@);
                    assert(forall|k: int|
                        0 <= k < mid.len() ==> mid[k] == (if k < f {
                            pre[k]
                        } else {
                            pre[k + 1]
                        }));
                }
            }
        }
    }

    /// Remove the entry for `client_id` and hand back its id.
    pub fn remove_client(&mut self, client_id: &str) -> (r: String)
        requires
            old(self).wf(),
            spec_contains(old(self)@, client_id@),
        ensures
            final(self).wf(),
            final(self)@ == old(self)@.remove(spec_find(old(self)@, client_id@)),
            r@ == client_id@,
    {
        proof {
            lemma_spec_find(old(self)@, client_id@);
        }
        let ghost pre = self@;
        match self.find_index(client_id) {
            Some(i) => {
                let client = self.clients.remove(i);
                proof {
                    assert(self@ =~= pre.remove(i as int));
                    assert forall|a: int, b: int|
                        0 <= a < b < self@.len() implies self@[a].client_id
                        != self@[b].client_id by {
                        assert(forall|k: int|
                            0 <= k < self@.len() ==> self@[k] == (if k < i as int {
                                pre[k]
                            } else {
                                pre[k + 1]
                            }));
                    }
                }
                client.client_id
            },
            None => vstd::pervasive::unreached(),
        }
    }

    /// Refresh the liveness of the entry for `client_id`, if it is
    /// registered; an unknown id changes nothing.
    pub fn update_client_activity(&mut self, client_id: &str, now: u64)
        requires
            old(self).wf(),
        ensures
            final(self).wf(),
            !spec_contains(old(self)@, client_id@) ==> final(self)@ == old(self)@,
            spec_contains(old(self)@, client_id@) ==> final(self)@ == old(self)@.update(
                spec_find(old(self)@, client_id@),
                (ClientStateModel {
                    last_seen: now,
                    ..old(self)@[spec_find(old(self)@, client_id@)]
                }),
            ),
    {
        let ghost pre = self@;
        if let Some(i) = self.find_index(client_id) {
            let mut client = self.clients.remove(i);
            client.update_last_seen(now);
            self.clients.insert(i, client);
            proof {
                assert(self@ =~= pre.update(
                    i as int,
                    (ClientStateModel { last_seen: now, ..pre[i as int] }),
                ));
                assert forall|a: int, b: int|
                    0 <= a < b < self@.len() implies self@[a].client_id != self@[b].client_id by {
                    assert(forall|k: int|
                        0 <= k < self@.len() ==> self@[k].client_id == pre[k].client_id);
                }
            }
        }
    }

    /// Mark the entry for `client_id` disconnected, if it is registered;
    /// an unknown id changes nothing.
    pub fn mark_disconnected(&mut self, client_id: &str)
        requires
            old(self).wf(),
        ensures
            final(self).wf(),
            !spec_contains(old(self)@, client_id@) ==> final(self)@ == old(self)@,
            spec_contains(old(self)@, client_id@) ==> final(self)@ == old(self)@.update(
                spec_find(old(self)@, client_id@),
                (ClientStateModel {
                    connected_status: ConnectionStatus::Disconnected,
                    ..old(self)@[spec_find(old(self)@, client_id@)]
                }),
            ),
    {
        let ghost pre = self@;
        if let Some(i) = self.find_index(client_id) {
            let mut client = self.clients.remove(i);
            client.connected_status = ConnectionStatus::Disconnected;
            self.clients.insert(i, client);
            proof {
                assert(self@ =~= pre.update(
                    i as int,
                    (ClientStateModel {
                        connected_status: ConnectionStatus::Disconnected,
                        ..pre[i as int]
                    }),
                ));
                assert forall|a: int, b: int|
                    0 <= a < b < self@.len() implies self@[a].client_id != self@[b].client_id by {
                    assert(forall|k: int|
                        0 <= k < self@.len() ==> self@[k].client_id == pre[k].client_id);
                }
            }
        }
    }

    /// The ids of every connected client subscribed to exactly `topic`, in
    /// registry order.
    pub fn collect_recipients(&self, topic: &str) -> (r: Vec<String>)
        ensures
            r@.map_values(|s: String| s@) == spec_recipients(self@, topic@),
    {
        let mut recipients: Vec<String> = Vec::new();
        proof {
            assert(recipients@.map_values(|s: String| s@) =~= spec_recipients(
                self@.take(0),
                topic@,
            ));
        }
        let mut i: usize = 0;
        while i < self.clients.len()
            invariant
                i <= self@.len(),
                self@.len() == self.clients@.len(),
                recipients@.map_values(|s: String| s@) == spec_recipients(
                    self@.take(i as int),
                    topic@,
                ),
            decreases self.clients@.len() - i,
        {
            let ghost prefix = recipients@;
            let client = &self.clients[i];
            if matches!(client.connected_status, ConnectionStatus::Connected)
                && client.is_subscribed(topic) {
                recipients.push(client.client_id.clone());
            }
            i = i + 1;
            proof {
                assert(self@.take(i as int).drop_last() =~= self@.take(i as int - 1));
                assert(self@.take(i as int).last() == self@[i as int - 1]);
                assert(self@[i as int - 1] == client@);
                if spec_matches(client@, topic@) {
                    assert(recipients@ == prefix.push(client.client_id));
                    assert(recipients@.map_values(|s: String| s@) =~= prefix.map_values(
                        |s: String| s@,
                    ).push(client.client_id@));
                }
            }
        }
        proof {
            assert(self@.take(self@.len() as int) =~= self@);
        }
        recipients
    }

    /// Refresh the liveness of every connected subscriber of `topic`: the
    /// mutation a QoS 0 delivery applies.
    pub fn touch_subscribers(&mut self, topic: &str, now: u64)
        requires
            old(self).wf(),
        ensures
            final(self).wf(),
            final(self)@ == spec_touch_recipients(old(self)@, topic@, now),
    {
        let ghost pre = self@;
        let mut i: usize = 0;
        while i < self.clients.len()
            invariant
                i <= pre.len(),
                self@.len() == pre.len(),
                self@.len() == self.clients@.len(),
                forall|k: int| i <= k < pre.len() ==> self@[k] == pre[k],
                forall|k: int|
                    0 <= k < i ==> self@[k] == spec_touch_recipients(pre, topic@, now)[k],
            decreases self.clients@.len() - i,
        {
            let ghost before = self@;
            let mut client = self.clients.remove(i);
            proof {
                assert(client@ == before[i as int]);
                assert(before[i as int] == pre[i as int]);
            }
            if matches!(client.connected_status, ConnectionStatus::Connected)
                && client.is_subscribed(topic) {
                client.update_last_seen(now);
            }
            self.clients.insert(i, client);
            proof {
                assert(forall|k: int|
                    0 <= k < self@.len() && k != i ==> self@[k] == before[k]);
                assert(self@[i as int] == client@);
                if spec_matches(pre[i as int], topic@) {
                    assert(client@ == (ClientStateModel { last_seen: now, ..pre[i as int] }));
                } else {
                    assert(client@ == pre[i as int]);
                }
                assert(spec_touch_recipients(pre, topic@, now)[i as int] == (if spec_matches(
                    pre[i as int],
                    topic@,
                ) {
                    (ClientStateModel { last_seen: now, ..pre[i as int] })
                } else {
                    pre[i as int]
                }));
                assert forall|k: int|
                    0 <= k < i + 1 implies self@[k] == spec_touch_recipients(
                    pre,
                    topic@,
                    now,
                )[k] by {
                    if k < i as int {
                        assert(self@[k] == before[k]);
                        assert(before[k] == spec_touch_recipients(pre, topic@, now)[k]);
                    }
                }
            }
            i = i + 1;
        }
        proof {
            assert(self@ =~= spec_touch_recipients(pre, topic@, now));
            assert forall|a: int, b: int|
                0 <= a < b < self@.len() implies self@[a].client_id != self@[b].client_id by {
                assert(forall|k: int|
                    0 <= k < self@.len() ==> self@[k].client_id == pre[k].client_id);
            }
        }
    }

    /// Queue a QoS 1/2 message on every subscriber it concerns: connected
    /// recipients, and disconnected ones whose session holds messages for
    /// redelivery.
    pub fn enqueue_pending(&mut self, topic: &str, now: u64, packet_id: u16, bytes: &Vec<u8>)
        requires
            old(self).wf(),
        ensures
            final(self).wf(),
            final(self)@ == spec_enqueue_pending(old(self)@, topic@, now, packet_id, bytes@),
    {
        let ghost pre = self@;
        let mut i: usize = 0;
        while i < self.clients.len()
            invariant
                i <= pre.len(),
                self@.len() == pre.len(),
                self@.len() == self.clients@.len(),
                forall|k: int| i <= k < pre.len() ==> self@[k] == pre[k],
                forall|k: int|
                    0 <= k < i ==> self@[k] == spec_enqueue_pending(
                        pre,
                        topic@,
                        now,
                        packet_id,
                        bytes@,
                    )[k],
            decreases self.clients@.len() - i,
        {
            let ghost before = self@;
            let mut client = self.clients.remove(i);
            let ghost entry = client@;
            proof {
                assert(entry == before[i as int]);
                assert(before[i as int] == pre[i as int]);
            }
            let subscribed = client.is_subscribed(topic);
            if matches!(client.connected_status, ConnectionStatus::Connected) && subscribed {
                client.last_seen = now;
                let message = PendingMessage {
                    packet_id,
                    bytes: vstd::slice::slice_to_vec(bytes.as_slice()),
                };
                client.pending.push(message);
                proof {
                    assert(client@.pending =~= entry.pending.push(
                        PendingMessageModel { packet_id, bytes: bytes@ },
                    ));
                }
            } else if matches!(client.connected_status, ConnectionStatus::Disconnected)
                && !client.clean_session && subscribed {
                let message = PendingMessage {
                    packet_id,
                    bytes: vstd::slice::slice_to_vec(bytes.as_slice()),
                };
                client.pending.push(message);
                proof {
                    assert(client@.pending =~= entry.pending.push(
                        PendingMessageModel { packet_id, bytes: bytes@ },
                    ));
                }
            }
            self.clients.insert(i, client);
            proof {
                assert(forall|k: int|
                    0 <= k < self@.len() && k != i ==> self@[k] == before[k]);
                assert(self@[i as int] == client@);
                if spec_matches(pre[i as int], topic@) {
                    assert(client@ == (ClientStateModel {
                        last_seen: now,
                        pending: pre[i as int].pending.push(
                            PendingMessageModel { packet_id, bytes: bytes@ },
                        ),
                        ..pre[i as int]
                    }));
                } else if spec_holds(pre[i as int], topic@) {
                    assert(client@ == (ClientStateModel {
                        pending: pre[i as int].pending.push(
                            PendingMessageModel { packet_id, bytes: bytes@ },
                        ),
                        ..pre[i as int]
                    }));
                } else {
                    assert(client@ == pre[i as int]);
                }
                assert(spec_enqueue_pending(pre, topic@, now, packet_id, bytes@)[i as int] == (
                if spec_matches(pre[i as int], topic@) {
                    (ClientStateModel {
                        last_seen: now,
                        pending: pre[i as int].pending.push(
                            PendingMessageModel { packet_id, bytes: bytes@ },
                        ),
                        ..pre[i as int]
                    })
                } else if spec_holds(pre[i as int], topic@) {
                    (ClientStateModel {
                        pending: pre[i as int].pending.push(
                            PendingMessageModel { packet_id, bytes: bytes@ },
                        ),
                        ..pre[i as int]
                    })
                } else {
                    pre[i as int]
                }));
                assert forall|k: int|
                    0 <= k < i + 1 implies self@[k] == spec_enqueue_pending(
                    pre,
                    topic@,
                    now,
                    packet_id,
                    bytes@,
                )[k] by {
                    if k < i as int {
                        assert(self@[k] == before[k]);
                        assert(before[k] == spec_enqueue_pending(
                            pre,
                            topic@,
                            now,
                            packet_id,
                            bytes@,
                        )[k]);
                    }
                }
            }
            i = i + 1;
        }
        proof {
            assert(self@ =~= spec_enqueue_pending(pre, topic@, now, packet_id, bytes@));
            assert forall|a: int, b: int|
                0 <= a < b < self@.len() implies self@[a].client_id != self@[b].client_id by {
                assert(forall|k: int|
                    0 <= k < self@.len() ==> self@[k].client_id == pre[k].client_id);
            }
        }
    }

    /// Complete a QoS handshake step: drop every message pending for
    /// `client_id` under `packet_id`. An unknown id changes nothing.
    pub fn acknowledge(&mut self, client_id: &str, packet_id: u16)
        requires
            old(self).wf(),
        ensures
            final(self).wf(),
            !spec_contains(old(self)@, client_id@) ==> final(self)@ == old(self)@,
            spec_contains(old(self)@, client_id@) ==> final(self)@ == old(self)@.update(
                spec_find(old(self)@, client_id@),
                (ClientStateModel {
                    pending: spec_ack_pending(
                        old(self)@[spec_find(old(self)@, client_id@)].pending,
                        packet_id,
                    ),
                    ..old(self)@[spec_find(old(self)@, client_id@)]
                }),
            ),
    {
        let ghost pre = self@;
        if let Some(i) = self.find_index(client_id) {
            let mut client = self.clients.remove(i);
            let ghost old_pending = client@.pending;
            let mut kept: Vec<PendingMessage> = Vec::new();
            proof {
                assert(kept@.map_values(|m: PendingMessage| m@) =~= spec_ack_pending(
                    old_pending.take(0),
                    packet_id,
                ));
            }
            let mut j: usize = 0;
            while j < client.pending.len()
                invariant
                    j <= client.pending@.len(),
                    old_pending == client.pending@.map_values(|m: PendingMessage| m@),
                    kept@.map_values(|m: PendingMessage| m@) == spec_ack_pending(
                        old_pending.take(j as int),
                        packet_id,
                    ),
                decreases client.pending@.len() - j,
            {
                let ghost kept_before = kept@;
                let keep = client.pending[j].packet_id != packet_id;
                if keep {
                    let m = PendingMessage {
                        packet_id: client.pending[j].packet_id,
                        bytes: vstd::slice::slice_to_vec(client.pending[j].bytes.as_slice()),
                    };
                    kept.push(m);
                }
                j = j + 1;
                proof {
                    assert(old_pending.take(j as int).drop_last() =~= old_pending.take(
                        j as int - 1,
                    ));
                    assert(old_pending.take(j as int).last() == old_pending[j as int - 1]);
                    if keep {
                        assert(kept@.map_values(|m: PendingMessage| m@) =~= kept_before.map_values(
                            |m: PendingMessage| m@,
                        ).push(old_pending[j as int - 1]));
                    }
                }
            }
            proof {
                assert(old_pending.take(old_pending.len() as int) =~= old_pending);
            }
            client.pending = kept;
            self.clients.insert(i, client);
            proof {
                assert(self@ =~= pre.update(
                    i as int,
                    (ClientStateModel {
                        pending: spec_ack_pending(pre[i as int].pending, packet_id),
                        ..pre[i as int]
                    }),
                ));
                assert forall|a: int, b: int|
                    0 <= a < b < self@.len() implies self@[a].client_id != self@[b].client_id by {
                    assert(forall|k: int|
                        0 <= k < self@.len() ==> self@[k].client_id == pre[k].client_id);
                }
            }
        }
    }

    /// Add `topic` to the subscriptions of the entry for `client_id`;
    /// subscribing twice to the same topic keeps one entry. Reports whether
    /// the client was registered.
    pub fn subscribe(&mut self, client_id: &str, topic: String) -> (r: bool)
        requires
            old(self).wf(),
        ensures
            final(self).wf(),
            r == spec_contains(old(self)@, client_id@),
            !spec_contains(old(self)@, client_id@) ==> final(self)@ == old(self)@,
            spec_contains(old(self)@, client_id@) ==> final(self)@ == old(self)@.update(
                spec_find(old(self)@, client_id@),
                (ClientStateModel {
                    subscriptions: if old(self)@[spec_find(
                        old(self)@,
                        client_id@,
                    )].subscriptions.contains(topic@) {
                        old(self)@[spec_find(old(self)@, client_id@)].subscriptions
                    } else {
                        old(self)@[spec_find(old(self)@, client_id@)].subscriptions.push(topic@)
                    },
                    ..old(self)@[spec_find(old(self)@, client_id@)]
                }),
            ),
    {
        let ghost pre = self@;
        match self.find_index(client_id) {
            Some(i) => {
                let mut client = self.clients.remove(i);
                if !client.is_subscribed(topic.as_str()) {
                    client.subscriptions.push(topic);
                    proof {
                        assert(client@.subscriptions =~= pre[i as int].subscriptions.push(
                            topic@,
                        ));
                    }
                }
                self.clients.insert(i, client);
                proof {
                    assert(self@ =~= pre.update(i as int, self@[i as int]));
                    assert forall|a: int, b: int|
                        0 <= a < b < self@.len() implies self@[a].client_id
                        != self@[b].client_id by {
                        assert(forall|k: int|
                            0 <= k < self@.len() ==> self@[k].client_id == pre[k].client_id);
                    }
                }
                true
            },
            None => false,
        }
    }
}

} // verus!
