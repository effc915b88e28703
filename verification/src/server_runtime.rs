//! The server runtime's decision core: every rule the event loop applies is
//! a function here from state and event to new state and actions, so that
//! the loop itself only moves bytes and channels around.

use vstd::prelude::*;

verus! {

use crate::packet::{pull_resp, tx_ack, ParseError};
use crate::packet::pull_resp::TxPk;
use crate::packet::push_data::{RxPk, Stat};
use crate::packet::{pull_ack, push_ack, Down, Packet, Up};
use crate::types::{MacAddress, SocketAddress};

/// What the server reports to the application.
#[derive(Debug)]
pub enum Event {
    PacketReceived(RxPk, MacAddress),
    StatReceived(Stat, MacAddress),
    NewClient((MacAddress, SocketAddress)),
    UpdateClient((MacAddress, SocketAddress)),
    UnableToParseUdpFrame(ParseError, Vec<u8>),
    NoClientWithMac(pull_resp::Packet, MacAddress),
    ClientDisconnected((MacAddress, SocketAddress)),
}

/// What the event loop hands to the decision core.
#[derive(Debug)]
pub enum InternalEvent {
    /// A downlink to schedule: the frame, its gateway, and the caller's
    /// waiter handle.
    Downlink(pull_resp::Packet, MacAddress, u64),
    /// An acknowledgement frame to send straight to a peer address.
    PacketBySocket(Packet, SocketAddress),
    /// A gateway was seen at an address.
    Client(MacAddress, SocketAddress),
    PacketReceived(RxPk, MacAddress),
    StatReceived(Stat, MacAddress),
    UnableToParseUdpFrame(ParseError, Vec<u8>),
    AckReceived(tx_ack::Packet),
    /// The periodic sweep tick.
    CheckCache,
    /// A spawned send failed.
    FailedSend(pull_resp::Packet, MacAddress),
    /// A spawned send went out under this token for this waiter.
    SuccessSend(u16, u64),
}

/// What the decision core asks the loop to do.
#[derive(Debug)]
pub enum Action {
    /// Hand an event to the application.
    Emit(Event),
    /// Serialize this frame and send it to this gateway address; report the
    /// outcome back as `SuccessSend` or `FailedSend`.
    SpawnSend(pull_resp::Packet, MacAddress, SocketAddress, u64),
}

/// The errors the downlink path reports to its caller.
#[derive(Debug)]
pub enum Error {
    /// The gateway rejected the transmission.
    Ack(tx_ack::Error),
    /// The caller's timeout passed before any acknowledgement.
    SendTimeout,
    /// `dispatch` was called on a handle with no frame set.
    DispatchWithNoSendPacket,
    /// The destination gateway is not in the connection table.
    UnknownMac,
    /// The runtime is shutting down.
    QueueClosed,
    /// The waiter was dropped before an acknowledgement arrived.
    AckRecv,
}

/// One gateway's entry in the connection table.
#[derive(Debug, Clone, Copy, PartialEq, Eq)]
pub struct Client {
    pub addr: SocketAddress,
    /// In milliseconds, on whatever clock the caller keeps.
    pub last_seen: u64,
}

/// The first entry for a gateway, if any.
pub open spec fn find_client(s: Seq<(MacAddress, Client)>, mac: MacAddress) -> Option<Client>
    decreases s.len(),
{
    if s.len() == 0 {
        None
    } else if s[0].0 == mac {
        Some(s[0].1)
    } else {
        find_client(s.skip(1), mac)
    }
}

/// Each gateway holds at most one entry.
pub open spec fn macs_unique(s: Seq<(MacAddress, Client)>) -> bool {
    forall|i: int, j: int| 0 <= i < j < s.len() ==> (#[trigger] s[i]).0 != (#[trigger] s[j]).0
}

/// The waiter registered under a token, if any.
pub open spec fn find_pending(s: Seq<(u16, u64)>, token: u16) -> Option<u64>
    decreases s.len(),
{
    if s.len() == 0 {
        None
    } else if s[0].0 == token {
        Some(s[0].1)
    } else {
        find_pending(s.skip(1), token)
    }
}

/// Whether an entry has gone quiet past the threshold.
pub open spec fn is_stale(c: Client, now: u64, threshold: u64) -> bool {
    now > c.last_seen && now - c.last_seen > threshold
}

/// The entries a sweep keeps, in their table order.
pub open spec fn sweep_kept(s: Seq<(MacAddress, Client)>, now: u64, threshold: u64) -> Seq<
    (MacAddress, Client),
>
    decreases s.len(),
{
    if s.len() == 0 {
        Seq::empty()
    } else {
        sweep_kept(s.drop_last(), now, threshold) + (if is_stale(s.last().1, now, threshold) {
            Seq::empty()
        } else {
            seq![s.last()]
        })
    }
}

/// The disconnect events a sweep emits, one per removed entry, in table
/// order.
pub open spec fn sweep_removed(s: Seq<(MacAddress, Client)>, now: u64, threshold: u64) -> Seq<
    (MacAddress, SocketAddress),
>
    decreases s.len(),
{
    if s.len() == 0 {
        Seq::empty()
    } else {
        sweep_removed(s.drop_last(), now, threshold) + (if is_stale(s.last().1, now, threshold) {
            seq![(s.last().0, s.last().1.addr)]
        } else {
            Seq::empty()
        })
    }
}

/// How often a gateway is named in a sweep's disconnect events.
pub open spec fn count_disconnects(
    ev: Seq<(MacAddress, SocketAddress)>,
    mac: MacAddress,
) -> int
    decreases ev.len(),
{
    if ev.len() == 0 {
        0int
    } else {
        count_disconnects(ev.drop_last(), mac) + (if ev.last().0 == mac {
            1int
        } else {
            0int
        })
    }
}

/// A gateway quiet past the threshold leaves the table in one sweep, and
/// exactly one disconnect event names it; a live gateway stays, and none
/// names it.
pub proof fn lemma_sweep(s: Seq<(MacAddress, Client)>, mac: MacAddress, now: u64, threshold: u64)
    requires
        macs_unique(s),
    ensures
        match find_client(s, mac) {
            Some(c) => if is_stale(c, now, threshold) {
                find_client(sweep_kept(s, now, threshold), mac) is None && count_disconnects(
                    sweep_removed(s, now, threshold),
                    mac,
                ) == 1
            } else {
                find_client(sweep_kept(s, now, threshold), mac) == Some(c) && count_disconnects(
                    sweep_removed(s, now, threshold),
                    mac,
                ) == 0
            },
            None => find_client(sweep_kept(s, now, threshold), mac) is None && count_disconnects(
                sweep_removed(s, now, threshold),
                mac,
            ) == 0,
        },
    decreases s.len(),
{
    if s.len() > 0 {
        let head = s.drop_last();
        let e = s.last();
        assert(macs_unique(head)) by {
            assert(forall|i: int| 0 <= i < head.len() ==> head[i] == s[i]);
        }
        lemma_sweep(head, mac, now, threshold);
        lemma_find_client_snoc(s, mac);
        let kh = sweep_kept(head, now, threshold);
        let rh = sweep_removed(head, now, threshold);
        if find_client(head, mac) is Some {
            assert(e.0 != mac) by {
                lemma_find_some_index(head, mac);
                let w = choose|w: int| 0 <= w < head.len() && (#[trigger] head[w]).0 == mac;
                assert(s[w] == head[w]);
                assert(s[s.len() - 1] == e);
            }
        }
        if is_stale(e.1, now, threshold) {
            assert(sweep_kept(s, now, threshold) =~= kh);
            let rs = sweep_removed(s, now, threshold);
            assert(rs =~= rh.push((e.0, e.1.addr)));
            assert(rs.drop_last() =~= rh);
            assert(rs.last() == (e.0, e.1.addr));
            assert(count_disconnects(rs, mac) == count_disconnects(rh, mac) + (if e.0 == mac {
                1int
            } else {
                0int
            }));
        } else {
            assert(sweep_removed(s, now, threshold) =~= rh);
            let ks = sweep_kept(s, now, threshold);
            assert(ks =~= kh.push(e));
            lemma_find_client_snoc(kh.push(e), mac);
            assert(kh.push(e).drop_last() =~= kh);
            assert(kh.push(e).last() == e);
        }
    }
}

/// A found gateway stands at some index.
proof fn lemma_find_some_index(s: Seq<(MacAddress, Client)>, mac: MacAddress)
    requires
        find_client(s, mac) is Some,
    ensures
        exists|i: int| 0 <= i < s.len() && (#[trigger] s[i]).0 == mac,
    decreases s.len(),
{
    if s.len() > 0 {
        if s[0].0 == mac {
        } else {
            lemma_find_some_index(s.skip(1), mac);
            let w = choose|w: int|
                0 <= w < s.skip(1).len() && (#[trigger] s.skip(1)[w]).0 == mac;
            assert(s[w + 1] == s.skip(1)[w]);
        }
    }
}

/// Looking a gateway up reads the last entry only when no earlier entry has
/// it.
proof fn lemma_find_client_snoc(s: Seq<(MacAddress, Client)>, mac: MacAddress)
    requires
        s.len() > 0,
    ensures
        find_client(s, mac) == (match find_client(s.drop_last(), mac) {
            Some(c) => Some(c),
            None => if s.last().0 == mac {
                Some(s.last().1)
            } else {
                None
            },
        }),
    decreases s.len(),
{
    if s.len() == 1 {
        assert(s.drop_last() =~= Seq::<(MacAddress, Client)>::empty());
    } else {
        assert(s.skip(1).drop_last() =~= s.drop_last().skip(1));
        assert(s.skip(1).last() == s.last());
        lemma_find_client_snoc(s.skip(1), mac);
    }
}

/// In a table with unique gateways, an entry at the end means no earlier
/// entry names the same gateway.
proof fn lemma_find_client_unique(s: Seq<(MacAddress, Client)>, mac: MacAddress)
    requires
        macs_unique(s),
        s.len() > 0,
        s.last().0 == mac,
    ensures
        find_client(s.drop_last(), mac) is None,
    decreases s.len(),
{
    let head = s.drop_last();
    if head.len() > 0 {
        assert(head[0] == s[0]);
        assert(s[0].0 != mac);
        assert(macs_unique(head.skip(1))) by {
            assert(forall|i: int| 0 <= i < head.skip(1).len() ==> head.skip(1)[i] == s[i + 1]);
        }
        assert(head.skip(1) =~= s.skip(1).drop_last());
        assert(s.skip(1).last() == s.last());
        assert(macs_unique(s.skip(1))) by {
            assert(forall|i: int| 0 <= i < s.skip(1).len() ==> s.skip(1)[i] == s[i + 1]);
        }
        lemma_find_client_unique(s.skip(1), mac);
    }
}

/// Appending one entry to a table changes a lookup only for that entry's
/// gateway, and only when it was absent.
proof fn lemma_find_client_snoc_general(
    s: Seq<(MacAddress, Client)>,
    e: (MacAddress, Client),
    mac: MacAddress,
    now: u64,
    threshold: u64,
)
    ensures
        find_client(s.push(e), mac) == (match find_client(s, mac) {
            Some(c) => Some(c),
            None => if e.0 == mac {
                Some(e.1)
            } else {
                None
            },
        }),
{
    lemma_find_client_snoc(s.push(e), mac);
    assert(s.push(e).drop_last() =~= s);
}

/// How a sweep's kept table answers a lookup, stepping over the last entry.
proof fn lemma_find_client_append(
    kept_head: Seq<(MacAddress, Client)>,
    e: (MacAddress, Client),
    mac: MacAddress,
    now: u64,
    threshold: u64,
)
    ensures
        !is_stale(e.1, now, threshold) ==> find_client(kept_head + seq![e], mac) == (
        match find_client(kept_head, mac) {
            Some(c) => Some(c),
            None => if e.0 == mac {
                Some(e.1)
            } else {
                None
            },
        }),
        is_stale(e.1, now, threshold) ==> kept_head + Seq::<(MacAddress, Client)>::empty()
            =~= kept_head,
{
    if !is_stale(e.1, now, threshold) {
        assert(kept_head + seq![e] =~= kept_head.push(e));
        lemma_find_client_snoc_general(kept_head, e, mac, now, threshold);
    }
}

/// The connection table, the pending-downlink table, and the sweep
/// threshold: everything the internal task owns besides the socket.
#[derive(Debug)]
pub struct ServerState {
    clients: Vec<(MacAddress, Client)>,
    pending: Vec<(u16, u64)>,
    disconnect_threshold: Option<u64>,
}

impl ServerState {
    /// Both tables keep at most one entry per key.
    pub closed spec fn wf(&self) -> bool {
        &&& macs_unique(self.clients@)
        &&& forall|i: int, j: int|
            0 <= i < j < self.pending@.len() ==> (#[trigger] self.pending@[i]).0 != (
            #[trigger] self.pending@[j]).0
    }

    pub closed spec fn spec_clients(&self) -> Seq<(MacAddress, Client)> {
        self.clients@
    }

    pub closed spec fn spec_pending(&self) -> Seq<(u16, u64)> {
        self.pending@
    }

    pub closed spec fn spec_threshold(&self) -> Option<u64> {
        self.disconnect_threshold
    }

    /// What well-formedness gives a caller: both tables hold at most one
    /// entry per key, so the laws stated over them (the sweep law among
    /// them) apply to any well-formed state.
    pub proof fn lemma_wf_tables(&self)
        requires
            self.wf(),
        ensures
            macs_unique(self.spec_clients()),
            forall|i: int, j: int|
                0 <= i < j < self.spec_pending().len() ==> (#[trigger] self.spec_pending()[i]).0
                    != (#[trigger] self.spec_pending()[j]).0,
    {
    }

    /// An empty state with the given sweep threshold, in milliseconds.
    pub fn new(disconnect_threshold: Option<u64>) -> (r: ServerState)
        ensures
            r.wf(),
            r.spec_clients().len() == 0,
            r.spec_pending().len() == 0,
            r.spec_threshold() == disconnect_threshold,
    {
        ServerState { clients: Vec::new(), pending: Vec::new(), disconnect_threshold }
    }

    /// Finds a gateway's position in the table.
    fn position_of(&self, mac: &MacAddress) -> (r: Option<usize>)
        ensures
            match r {
                Some(i) => i < self.clients@.len() && self.clients@[i as int].0 == *mac
                    && find_client(self.clients@, *mac) == Some(self.clients@[i as int].1),
                None => find_client(self.clients@, *mac) is None,
            },
    {
        let mut i: usize = 0;
        proof {
            assert(self.clients@.skip(0) =~= self.clients@);
        }
        while i < self.clients.len()
            invariant
                i <= self.clients@.len(),
                find_client(self.clients@, *mac) == find_client(
                    self.clients@.skip(i as int),
                    *mac,
                ),
                forall|j: int| 0 <= j < i ==> (#[trigger] self.clients@[j]).0 != *mac,
            decreases self.clients@.len() - i,
        {
            let ghost rest = self.clients@.skip(i as int);
            if self.clients[i].0 == *mac {
                proof {
                    assert(rest[0] == self.clients@[i as int]);
                }
                return Some(i);
            }
            proof {
                assert(rest.skip(1) =~= self.clients@.skip(i + 1));
            }
            i += 1;
        }
        None
    }

    /// A gateway was seen at an address: a new entry and a `NewClient`, a
    /// moved entry and exactly one `UpdateClient`, or a refreshed `last_seen`
    /// and no event.
    pub fn handle_client(&mut self, mac: MacAddress, addr: SocketAddress, now: u64) -> (r: Vec<
        Event,
    >)
        requires
            old(self).wf(),
        ensures
            final(self).wf(),
            final(self).spec_pending() == old(self).spec_pending(),
            final(self).spec_threshold() == old(self).spec_threshold(),
            match find_client(old(self).spec_clients(), mac) {
                None => {
                    &&& final(self).spec_clients() == old(self).spec_clients().push(
                        (mac, Client { addr, last_seen: now }),
                    )
                    &&& r@ =~= seq![Event::NewClient((mac, addr))]
                },
                Some(c) => {
                    &&& final(self).spec_clients().len() == old(self).spec_clients().len()
                    &&& find_client(final(self).spec_clients(), mac) == Some(
                        Client { addr, last_seen: now },
                    )
                    &&& forall|j: int|
                        0 <= j < old(self).spec_clients().len() && (#[trigger] old(
                            self,
                        ).spec_clients()[j]).0 != mac ==> final(self).spec_clients()[j] == old(
                            self,
                        ).spec_clients()[j]
                    &&& (c.addr != addr ==> r@ =~= seq![Event::UpdateClient((mac, addr))])
                    &&& (c.addr == addr ==> r@ =~= Seq::<Event>::empty())
                },
            },
    {
        let mut events: Vec<Event> = Vec::new();
        match self.position_of(&mac) {
            None => {
                self.clients.push((mac, Client { addr, last_seen: now }));
                events.push(Event::NewClient((mac, addr)));
                proof {
                    lemma_find_client_snoc(self.clients@, mac);
                    assert(self.clients@.drop_last() =~= old(self).clients@);
                    assert(macs_unique(self.clients@)) by {
                        lemma_unique_push(old(self).clients@, mac);
                    }
                }
            },
            Some(i) => {
                let ghost oldseq = self.clients@;
                let same = self.clients[i].1.addr == addr;
                self.clients[i] = (mac, Client { addr, last_seen: now });
                if !same {
                    events.push(Event::UpdateClient((mac, addr)));
                }
                proof {
                    assert(macs_unique(self.clients@)) by {
                        assert(forall|a: int, b: int|
                            0 <= a < b < self.clients@.len() ==> (#[trigger] self.clients@[a]).0
                                != (#[trigger] self.clients@[b]).0) by {
                            assert(forall|k: int|
                                0 <= k < self.clients@.len() ==> (#[trigger] self.clients@[k]).0
                                    == oldseq[k].0);
                        }
                    }
                    lemma_find_client_update(oldseq, self.clients@, i as int, mac);
                }
            },
        }
        events
    }

    /// The sweep: every entry quiet past the threshold leaves the table, and
    /// one `ClientDisconnected` is emitted for it, in table order. Without a
    /// threshold nothing happens.
    pub fn check_cache(&mut self, now: u64) -> (r: Vec<Event>)
        requires
            old(self).wf(),
        ensures
            final(self).wf(),
            final(self).spec_pending() == old(self).spec_pending(),
            final(self).spec_threshold() == old(self).spec_threshold(),
            match old(self).spec_threshold() {
                None => final(self).spec_clients() == old(self).spec_clients() && r@ =~= Seq::<
                    Event,
                >::empty(),
                Some(th) => {
                    &&& final(self).spec_clients() == sweep_kept(
                        old(self).spec_clients(),
                        now,
                        th,
                    )
                    &&& r@.len() == sweep_removed(old(self).spec_clients(), now, th).len()
                    &&& forall|k: int|
                        0 <= k < r@.len() ==> r@[k] == Event::ClientDisconnected(
                            #[trigger] sweep_removed(old(self).spec_clients(), now, th)[k],
                        )
                },
            },
    {
        let threshold = match self.disconnect_threshold {
            None => {
                return Vec::new();
            },
            Some(th) => th,
        };
        let mut kept: Vec<(MacAddress, Client)> = Vec::new();
        let mut events: Vec<Event> = Vec::new();
        let mut i: usize = 0;
        let ghost orig = self.clients@;
        while i < self.clients.len()
            invariant
                i <= self.clients@.len(),
                self.clients@ == orig,
                self.disconnect_threshold == Some(threshold),
                kept@ == sweep_kept(orig.take(i as int), now, threshold),
                events@.len() == sweep_removed(orig.take(i as int), now, threshold).len(),
                forall|k: int|
                    0 <= k < events@.len() ==> events@[k] == Event::ClientDisconnected(
                        #[trigger] sweep_removed(orig.take(i as int), now, threshold)[k],
                    ),
            decreases self.clients@.len() - i,
        {
            let entry = (self.clients[i].0, self.clients[i].1);
            let stale = now > entry.1.last_seen && now - entry.1.last_seen > threshold;
            proof {
                assert(orig.take(i + 1).drop_last() =~= orig.take(i as int));
                assert(orig.take(i + 1).last() == orig[i as int]);
            }
            if stale {
                events.push(Event::ClientDisconnected((entry.0, entry.1.addr)));
            } else {
                kept.push(entry);
            }
            i += 1;
        }
        proof {
            assert(orig.take(orig.len() as int) =~= orig);
            assert(macs_unique(kept@)) by {
                lemma_sweep_kept_unique(orig, now, threshold);
            }
        }
        self.clients = kept;
        events
    }

    /// A downlink request: with the gateway known, ask the loop to send and
    /// report back; with it unknown, tell the application and drop the
    /// waiter.
    pub fn handle_downlink(
        &mut self,
        packet: pull_resp::Packet,
        mac: MacAddress,
        waiter: u64,
    ) -> (r: Vec<Action>)
        requires
            old(self).wf(),
        ensures
            final(self).wf(),
            *final(self) == *old(self),
            match find_client(old(self).spec_clients(), mac) {
                None => r@ =~= seq![
                    Action::Emit(Event::NoClientWithMac(packet, mac)),
                ],
                Some(c) => r@ =~= seq![Action::SpawnSend(packet, mac, c.addr, waiter)],
            },
    {
        let mut actions: Vec<Action> = Vec::new();
        match self.position_of(&mac) {
            None => {
                actions.push(Action::Emit(Event::NoClientWithMac(packet, mac)));
            },
            Some(i) => {
                let addr = self.clients[i].1.addr;
                actions.push(Action::SpawnSend(packet, mac, addr, waiter));
            },
        }
        actions
    }

    /// A spawned send went out: register the waiter under the frame's token,
    /// replacing any stale entry under the same token.
    pub fn handle_success_send(&mut self, token: u16, waiter: u64)
        requires
            old(self).wf(),
        ensures
            final(self).wf(),
            final(self).spec_clients() == old(self).spec_clients(),
            final(self).spec_threshold() == old(self).spec_threshold(),
            find_pending(final(self).spec_pending(), token) == Some(waiter),
            forall|t: u16|
                t != token ==> find_pending(final(self).spec_pending(), t) == find_pending(
                    old(self).spec_pending(),
                    t,
                ),
    {
        let ghost orig = self.pending@;
        match self.pending_position(token) {
            Some(i) => {
                self.pending[i] = (token, waiter);
                proof {
                    lemma_find_pending_update(orig, self.pending@, i as int, token);
                    assert(self.wf()) by {
                        assert(forall|k: int|
                            0 <= k < self.pending@.len() ==> (#[trigger] self.pending@[k]).0
                                == orig[k].0);
                    }
                }
            },
            None => {
                self.pending.push((token, waiter));
                proof {
                    lemma_find_pending_snoc(self.pending@, token);
                    assert(self.pending@.drop_last() =~= orig);
                    assert(self.pending@.last() == (token, waiter));
                    lemma_pending_none_absent(orig, token);
                    assert(self.wf()) by {
                        assert(forall|k: int| 0 <= k < orig.len() ==> self.pending@[k] == orig[k]);
                    }
                    assert forall|t: u16| t != token implies find_pending(
                        self.pending@,
                        t,
                    ) == find_pending(orig, t) by {
                        lemma_find_pending_snoc(self.pending@, t);
                        assert(self.pending@.drop_last() =~= orig);
                    }
                }
            },
        }
    }

    /// Finds a token's position in the pending table.
    fn pending_position(&self, token: u16) -> (r: Option<usize>)
        ensures
            match r {
                Some(i) => i < self.pending@.len() && self.pending@[i as int].0 == token
                    && find_pending(self.pending@, token) == Some(self.pending@[i as int].1)
                    && forall|j: int| 0 <= j < i ==> (#[trigger] self.pending@[j]).0 != token,
                None => find_pending(self.pending@, token) is None,
            },
    {
        let mut i: usize = 0;
        proof {
            assert(self.pending@.skip(0) =~= self.pending@);
        }
        while i < self.pending.len()
            invariant
                i <= self.pending@.len(),
                find_pending(self.pending@, token) == find_pending(
                    self.pending@.skip(i as int),
                    token,
                ),
                forall|j: int| 0 <= j < i ==> (#[trigger] self.pending@[j]).0 != token,
            decreases self.pending@.len() - i,
        {
            let ghost rest = self.pending@.skip(i as int);
            if self.pending[i].0 == token {
                proof {
                    assert(rest[0] == self.pending@[i as int]);
                }
                return Some(i);
            }
            proof {
                assert(rest.skip(1) =~= self.pending@.skip(i + 1));
            }
            i += 1;
        }
        None
    }

    /// An acknowledgement arrived: exactly the waiter registered under its
    /// token receives it, and the entry leaves the table. A token nobody
    /// waits for — the caller timed out, or the ack is stray — is dropped
    /// and the state is untouched.
    pub fn handle_ack(&mut self, txack: tx_ack::Packet) -> (r: Option<(u64, tx_ack::Packet)>)
        requires
            old(self).wf(),
        ensures
            final(self).wf(),
            final(self).spec_clients() == old(self).spec_clients(),
            final(self).spec_threshold() == old(self).spec_threshold(),
            match find_pending(old(self).spec_pending(), txack.random_token) {
                None => r is None && *final(self) == *old(self),
                Some(w) => {
                    &&& r == Some((w, txack))
                    &&& find_pending(final(self).spec_pending(), txack.random_token) is None
                    &&& forall|t: u16|
                        t != txack.random_token ==> find_pending(final(self).spec_pending(), t)
                            == find_pending(old(self).spec_pending(), t)
                },
            },
    {
        let token = txack.random_token;
        match self.pending_position(token) {
            None => None,
            Some(i) => {
                let ghost orig = self.pending@;
                let entry = self.pending.remove(i);
                proof {
                    lemma_find_pending_remove(orig, self.pending@, i as int, token);
                }
                Some((entry.1, txack))
            },
        }
    }

    /// A spawned send failed: the gateway's entry is evicted at once and the
    /// application is told no client has that address any more.
    pub fn handle_failed_send(&mut self, packet: pull_resp::Packet, mac: MacAddress) -> (r: Vec<
        Event,
    >)
        requires
            old(self).wf(),
        ensures
            final(self).wf(),
            final(self).spec_pending() == old(self).spec_pending(),
            final(self).spec_threshold() == old(self).spec_threshold(),
            find_client(final(self).spec_clients(), mac) is None,
            forall|m: MacAddress|
                m != mac ==> find_client(final(self).spec_clients(), m) == find_client(
                    old(self).spec_clients(),
                    m,
                ),
            r@ =~= seq![Event::NoClientWithMac(packet, mac)],
    {
        let ghost orig = self.clients@;
        match self.position_of(&mac) {
            None => {
                proof {
                    assert forall|m: MacAddress| m != mac implies find_client(
                        self.clients@,
                        m,
                    ) == find_client(orig, m) by {}
                }
            },
            Some(i) => {
                self.clients.remove(i);
                proof {
                    lemma_find_client_remove(orig, self.clients@, i as int, mac);
                }
            },
        }
        let mut events: Vec<Event> = Vec::new();
        events.push(Event::NoClientWithMac(packet, mac));
        events
    }
}

/// Pushing a new gateway keeps the table unique when it was absent.
proof fn lemma_unique_push(s: Seq<(MacAddress, Client)>, mac: MacAddress)
    requires
        macs_unique(s),
        find_client(s, mac) is None,
    ensures
        forall|c: Client| macs_unique(s.push((mac, c))),
{
    assert forall|c: Client| macs_unique(s.push((mac, c))) by {
        lemma_find_none_absent(s, mac);
        let t = s.push((mac, c));
        assert(forall|i: int| 0 <= i < s.len() ==> t[i] == s[i]);
    }
}

/// A lookup that answers none means no entry names the gateway.
proof fn lemma_find_none_absent(s: Seq<(MacAddress, Client)>, mac: MacAddress)
    requires
        find_client(s, mac) is None,
    ensures
        forall|i: int| 0 <= i < s.len() ==> (#[trigger] s[i]).0 != mac,
    decreases s.len(),
{
    if s.len() > 0 {
        lemma_find_none_absent(s.skip(1), mac);
        assert forall|i: int| 0 <= i < s.len() implies (#[trigger] s[i]).0 != mac by {
            if i > 0 {
                assert(s.skip(1)[i - 1] == s[i]);
            }
        }
    }
}

/// Replacing the entry at a gateway's position answers lookups with the new
/// entry for it and the old entries for every other gateway.
proof fn lemma_find_client_update(
    orig: Seq<(MacAddress, Client)>,
    upd: Seq<(MacAddress, Client)>,
    i: int,
    mac: MacAddress,
)
    requires
        0 <= i < orig.len(),
        upd.len() == orig.len(),
        orig[i].0 == mac,
        upd[i].0 == mac,
        forall|k: int| 0 <= k < orig.len() && k != i ==> #[trigger] upd[k] == orig[k],
        forall|k: int| 0 <= k < i ==> (#[trigger] orig[k]).0 != mac,
    ensures
        find_client(upd, mac) == Some(upd[i].1),
    decreases i,
{
    if i == 0 {
        assert(upd[0].0 == mac);
    } else {
        assert(upd[0] == orig[0]);
        assert(upd[0].0 != mac);
        lemma_find_client_update(orig.skip(1), upd.skip(1), i - 1, mac);
        assert(forall|k: int| 0 <= k < orig.skip(1).len() ==> orig.skip(1)[k] == orig[k + 1]);
        assert(forall|k: int| 0 <= k < upd.skip(1).len() ==> upd.skip(1)[k] == upd[k + 1]);
    }
}

/// Removing the first entry under a gateway leaves lookups for every other
/// gateway unchanged, and makes that one absent when the table was unique.
proof fn lemma_find_client_remove(
    orig: Seq<(MacAddress, Client)>,
    rem: Seq<(MacAddress, Client)>,
    i: int,
    mac: MacAddress,
)
    requires
        0 <= i < orig.len(),
        rem =~= orig.subrange(0, i) + orig.subrange(i + 1, orig.len() as int),
        orig[i].0 == mac,
        forall|k: int| 0 <= k < i ==> (#[trigger] orig[k]).0 != mac,
        macs_unique(orig),
    ensures
        find_client(rem, mac) is None,
        forall|m: MacAddress|
            m != mac ==> find_client(rem, m) == find_client(orig, m),
        macs_unique(rem),
    decreases i,
{
    if i == 0 {
        assert(rem =~= orig.skip(1));
        assert(macs_unique(orig.skip(1))) by {
            assert(forall|k: int| 0 <= k < orig.skip(1).len() ==> orig.skip(1)[k] == orig[k + 1]);
        }
        lemma_unique_head_absent(orig, mac);
        assert forall|m: MacAddress| m != mac implies find_client(rem, m) == find_client(
            orig,
            m,
        ) by {
            assert(find_client(orig, m) == find_client(orig.skip(1), m));
        }
    } else {
        assert(rem[0] == orig[0]);
        lemma_find_client_remove(orig.skip(1), rem.skip(1), i - 1, mac);
        assert(rem.skip(1) =~= orig.skip(1).subrange(0, i - 1) + orig.skip(1).subrange(
            i,
            orig.skip(1).len() as int,
        ));
        assert(forall|k: int| 0 <= k < orig.skip(1).len() ==> orig.skip(1)[k] == orig[k + 1]);
        assert(macs_unique(orig.skip(1))) by {
            assert(forall|k: int| 0 <= k < orig.skip(1).len() ==> orig.skip(1)[k] == orig[k + 1]);
        }
        assert(macs_unique(rem)) by {
            assert(forall|a: int, b: int|
                0 <= a < b < rem.len() ==> (#[trigger] rem[a]).0 != (#[trigger] rem[b]).0) by {
                assert(forall|k: int|
                    0 <= k < rem.len() ==> rem[k] == (if k < i {
                        orig[k]
                    } else {
                        orig[k + 1]
                    }));
            }
        }
        assert forall|m: MacAddress| m != mac implies find_client(rem, m) == find_client(
            orig,
            m,
        ) by {
            assert(find_client(rem.skip(1), m) == find_client(orig.skip(1), m));
        }
    }
}

/// With unique gateways, the head's gateway is absent from the tail.
proof fn lemma_unique_head_absent(s: Seq<(MacAddress, Client)>, mac: MacAddress)
    requires
        macs_unique(s),
        s.len() > 0,
        s[0].0 == mac,
    ensures
        find_client(s.skip(1), mac) is None,
{
    lemma_absent_find_none(s.skip(1), mac);
    assert(forall|k: int| 0 <= k < s.skip(1).len() ==> s.skip(1)[k] == s[k + 1]);
}

/// A gateway no entry names is not found.
proof fn lemma_absent_find_none(s: Seq<(MacAddress, Client)>, mac: MacAddress)
    requires
        forall|i: int| 0 <= i < s.len() ==> (#[trigger] s[i]).0 != mac,
    ensures
        find_client(s, mac) is None,
    decreases s.len(),
{
    if s.len() > 0 {
        assert(forall|i: int| 0 <= i < s.skip(1).len() ==> s.skip(1)[i] == s[i + 1]);
        lemma_absent_find_none(s.skip(1), mac);
    }
}

/// A kept table stays unique.
proof fn lemma_sweep_kept_unique(s: Seq<(MacAddress, Client)>, now: u64, threshold: u64)
    requires
        macs_unique(s),
    ensures
        macs_unique(sweep_kept(s, now, threshold)),
        forall|k: int|
            0 <= k < sweep_kept(s, now, threshold).len() ==> s.contains(
                #[trigger] sweep_kept(s, now, threshold)[k],
            ),
    decreases s.len(),
{
    if s.len() > 0 {
        let head = s.drop_last();
        assert(macs_unique(head)) by {
            assert(forall|i: int| 0 <= i < head.len() ==> head[i] == s[i]);
        }
        lemma_sweep_kept_unique(head, now, threshold);
        assert(forall|k: int| 0 <= k < head.len() ==> head[k] == s[k]);
        assert(forall|e: (MacAddress, Client)| head.contains(e) ==> s.contains(e)) by {
            assert forall|e: (MacAddress, Client)| head.contains(e) implies s.contains(e) by {
                let w = choose|w: int| 0 <= w < head.len() && head[w] == e;
                assert(s[w] == e);
            }
        }
        if !is_stale(s.last().1, now, threshold) {
            let kept = sweep_kept(s, now, threshold);
            assert(kept =~= sweep_kept(head, now, threshold).push(s.last()));
            assert(s.contains(s.last())) by {
                assert(s[s.len() - 1] == s.last());
            }
            assert(macs_unique(kept)) by {
                assert forall|a: int, b: int| 0 <= a < b < kept.len() implies (
                #[trigger] kept[a]).0 != (#[trigger] kept[b]).0 by {
                    if b == kept.len() - 1 {
                        let e = kept[a];
                        assert(sweep_kept(head, now, threshold).contains(e)) by {
                            assert(sweep_kept(head, now, threshold)[a] == e);
                        }
                        assert(head.contains(e));
                        let w = choose|w: int| 0 <= w < head.len() && head[w] == e;
                        assert(s[w] == e);
                        assert(s[w].0 != s.last().0);
                    }
                }
            }
        } else {
            assert(sweep_kept(s, now, threshold) =~= sweep_kept(head, now, threshold));
        }
    }
}

/// Looking a token up reads the last entry only when no earlier entry has it.
proof fn lemma_find_pending_snoc(s: Seq<(u16, u64)>, token: u16)
    requires
        s.len() > 0,
    ensures
        find_pending(s, token) == (match find_pending(s.drop_last(), token) {
            Some(w) => Some(w),
            None => if s.last().0 == token {
                Some(s.last().1)
            } else {
                None
            },
        }),
    decreases s.len(),
{
    if s.len() == 1 {
        assert(s.drop_last() =~= Seq::<(u16, u64)>::empty());
    } else {
        assert(s.skip(1).drop_last() =~= s.drop_last().skip(1));
        assert(s.skip(1).last() == s.last());
        lemma_find_pending_snoc(s.skip(1), token);
    }
}

/// Replacing the entry at a token's position answers lookups with the new
/// waiter for it and the old entries for every other token.
proof fn lemma_find_pending_update(orig: Seq<(u16, u64)>, upd: Seq<(u16, u64)>, i: int, token: u16)
    requires
        0 <= i < orig.len(),
        upd.len() == orig.len(),
        orig[i].0 == token,
        upd[i].0 == token,
        forall|k: int| 0 <= k < orig.len() && k != i ==> #[trigger] upd[k] == orig[k],
        forall|k: int| 0 <= k < i ==> (#[trigger] orig[k]).0 != token,
    ensures
        find_pending(upd, token) == Some(upd[i].1),
        forall|t: u16| t != token ==> find_pending(upd, t) == find_pending(orig, t),
    decreases orig.len(),
{
    if i == 0 {
        assert forall|t: u16| t != token implies find_pending(upd, t) == find_pending(
            orig,
            t,
        ) by {
            assert(forall|k: int|
                0 <= k < orig.skip(1).len() ==> orig.skip(1)[k] == upd.skip(1)[k]);
            assert(orig.skip(1) =~= upd.skip(1));
        }
    } else {
        assert(upd[0] == orig[0]);
        lemma_find_pending_update(orig.skip(1), upd.skip(1), i - 1, token);
        assert(forall|k: int| 0 <= k < orig.skip(1).len() ==> orig.skip(1)[k] == orig[k + 1]);
        assert(forall|k: int| 0 <= k < upd.skip(1).len() ==> upd.skip(1)[k] == upd[k + 1]);
        assert forall|t: u16| t != token implies find_pending(upd, t) == find_pending(
            orig,
            t,
        ) by {
            assert(find_pending(upd.skip(1), t) == find_pending(orig.skip(1), t));
        }
    }
}

/// A token the lookup misses stands at no index.
proof fn lemma_pending_none_absent(s: Seq<(u16, u64)>, token: u16)
    requires
        find_pending(s, token) is None,
    ensures
        forall|i: int| 0 <= i < s.len() ==> (#[trigger] s[i]).0 != token,
    decreases s.len(),
{
    if s.len() > 0 {
        lemma_pending_none_absent(s.skip(1), token);
        assert forall|i: int| 0 <= i < s.len() implies (#[trigger] s[i]).0 != token by {
            if i > 0 {
                assert(s.skip(1)[i - 1] == s[i]);
            }
        }
    }
}

/// A table whose entries all avoid a token does not find it.
proof fn lemma_find_pending_absent(s: Seq<(u16, u64)>, token: u16)
    requires
        forall|i: int| 0 <= i < s.len() ==> (#[trigger] s[i]).0 != token,
    ensures
        find_pending(s, token) is None,
    decreases s.len(),
{
    if s.len() > 0 {
        assert(forall|i: int| 0 <= i < s.skip(1).len() ==> s.skip(1)[i] == s[i + 1]);
        lemma_find_pending_absent(s.skip(1), token);
    }
}

/// One more taken entry extends a prefix lookup by the last element alone.
proof fn lemma_find_pending_take_snoc(s: Seq<(u16, u64)>, i: int, token: u16)
    requires
        0 <= i < s.len(),
    ensures
        find_pending(s.take(i + 1), token) == (match find_pending(s.take(i), token) {
            Some(w) => Some(w),
            None => if s[i].0 == token {
                Some(s[i].1)
            } else {
                None
            },
        }),
{
    lemma_find_pending_snoc(s.take(i + 1), token);
    assert(s.take(i + 1).drop_last() =~= s.take(i));
    assert(s.take(i + 1).last() == s[i]);
}

/// Removing the first entry under a token leaves every other token's lookup
/// unchanged and makes that one absent, in a unique table.
proof fn lemma_find_pending_remove(orig: Seq<(u16, u64)>, rem: Seq<(u16, u64)>, i: int, token: u16)
    requires
        0 <= i < orig.len(),
        rem =~= orig.subrange(0, i) + orig.subrange(i + 1, orig.len() as int),
        orig[i].0 == token,
        forall|k: int| 0 <= k < i ==> (#[trigger] orig[k]).0 != token,
        forall|a: int, b: int|
            0 <= a < b < orig.len() ==> (#[trigger] orig[a]).0 != (#[trigger] orig[b]).0,
    ensures
        find_pending(rem, token) is None,
        forall|t: u16| t != token ==> find_pending(rem, t) == find_pending(orig, t),
        forall|a: int, b: int|
            0 <= a < b < rem.len() ==> (#[trigger] rem[a]).0 != (#[trigger] rem[b]).0,
    decreases i,
{
    assert(forall|k: int|
        0 <= k < rem.len() ==> rem[k] == (if k < i {
            orig[k]
        } else {
            orig[k + 1]
        }));
    if i == 0 {
        assert(rem =~= orig.skip(1));
        lemma_find_pending_absent(rem, token);
        assert forall|t: u16| t != token implies find_pending(rem, t) == find_pending(
            orig,
            t,
        ) by {
            assert(find_pending(orig, t) == find_pending(orig.skip(1), t));
        }
    } else {
        assert(rem[0] == orig[0]);
        lemma_find_pending_remove(orig.skip(1), rem.skip(1), i - 1, token);
        assert(rem.skip(1) =~= orig.skip(1).subrange(0, i - 1) + orig.skip(1).subrange(
            i,
            orig.skip(1).len() as int,
        ));
        assert(forall|k: int| 0 <= k < orig.skip(1).len() ==> orig.skip(1)[k] == orig[k + 1]);
        assert(forall|k: int| 0 <= k < rem.skip(1).len() ==> rem.skip(1)[k] == rem[k + 1]);
        assert forall|t: u16| t != token implies find_pending(rem, t) == find_pending(
            orig,
            t,
        ) by {
            assert(find_pending(rem.skip(1), t) == find_pending(orig.skip(1), t));
        }
    }
}

/// What the receive task does with one parsed uplink: the exact list of
/// internal events. Every uplink kind that names its gateway refreshes the
/// connection table first; received frames are reported before the telemetry
/// drawn from the same datagram; the acknowledgement is queued last.
pub open spec fn spec_uplink_events(up: Up, src: SocketAddress) -> Seq<InternalEvent> {
    match up {
        Up::PullData(p) => seq![
            InternalEvent::Client(p.gateway_mac, src),
            InternalEvent::PacketBySocket(
                Packet::Down(Down::PullAck(pull_ack::Packet { random_token: p.random_token })),
                src,
            ),
        ],
        Up::TxAck(p) => seq![
            InternalEvent::Client(p.gateway_mac, src),
            InternalEvent::AckReceived(p),
        ],
        Up::PushData(p) => seq![InternalEvent::Client(p.gateway_mac, src)] + (match p.data.rxpk {
            Some(l) => Seq::new(
                l@.len(),
                |k: int| InternalEvent::PacketReceived(l@[k], p.gateway_mac),
            ),
            None => Seq::empty(),
        }) + (match p.data.stat {
            Some(st) => seq![InternalEvent::StatReceived(st, p.gateway_mac)],
            None => Seq::empty(),
        }) + seq![
            InternalEvent::PacketBySocket(
                Packet::Down(Down::PushAck(push_ack::Packet { random_token: p.random_token })),
                src,
            ),
        ],
    }
}

/// Routes one parsed uplink into internal events.
pub fn route_uplink(up: Up, src: SocketAddress) -> (r: Vec<InternalEvent>)
    ensures
        r@ == spec_uplink_events(up, src),
{
    let mut events: Vec<InternalEvent> = Vec::new();
    match up {
        Up::PullData(p) => {
            events.push(InternalEvent::Client(p.gateway_mac, src));
            events.push(
                InternalEvent::PacketBySocket(
                    Packet::Down(
                        Down::PullAck(pull_ack::Packet { random_token: p.random_token }),
                    ),
                    src,
                ),
            );
            proof {
                assert(events@ =~= spec_uplink_events(Up::PullData(p), src));
            }
        },
        Up::TxAck(p) => {
            events.push(InternalEvent::Client(p.gateway_mac, src));
            events.push(InternalEvent::AckReceived(p));
            proof {
                assert(events@ =~= spec_uplink_events(Up::TxAck(p), src));
            }
        },
        Up::PushData(p) => {
            let ghost whole = p;
            let token = p.random_token;
            let mac = p.gateway_mac;
            events.push(InternalEvent::Client(mac, src));
            let mut rxpk = p.data.rxpk;
            let ghost orig_rxpk = rxpk;
            if let Some(mut list) = rxpk {
                let ghost orig = list@;
                let total = list.len();
                proof {
                    assert(orig.len() == total);
                }
                let mut k: usize = 0;
                while list.len() > 0
                    invariant
                        orig.len() <= usize::MAX,
                        k + list@.len() == orig.len(),
                        list@ == orig.skip(k as int),
                        events@ =~= seq![InternalEvent::Client(mac, src)] + Seq::new(
                            k as nat,
                            |j: int| InternalEvent::PacketReceived(orig[j], mac),
                        ),
                    decreases list@.len(),
                {
                    let ghost before = list@;
                    let pk = list.remove(0);
                    events.push(InternalEvent::PacketReceived(pk, mac));
                    proof {
                        assert(before[0] == orig[k as int]);
                        assert(before.subrange(1, before.len() as int) =~= orig.skip(k + 1));
                        assert(events@ =~= seq![InternalEvent::Client(mac, src)] + Seq::new(
                            (k + 1) as nat,
                            |j: int| InternalEvent::PacketReceived(orig[j], mac),
                        ));
                    }
                    k += 1;
                }
                proof {
                    assert(orig.skip(orig.len() as int).len() == 0);
                }
            }
            if let Some(st) = p.data.stat {
                events.push(InternalEvent::StatReceived(st, mac));
            }
            events.push(
                InternalEvent::PacketBySocket(
                    Packet::Down(Down::PushAck(push_ack::Packet { random_token: token })),
                    src,
                ),
            );
            proof {
                assert(events@ =~= spec_uplink_events(Up::PushData(whole), src));
            }
        },
    }
    events
}

/// A downlink in the making: the destination and, once set, the frame.
#[derive(Debug)]
pub struct Downlink {
    pub mac: MacAddress,
    pub packet: Option<pull_resp::Packet>,
}

impl Downlink {
    /// An empty handle for a gateway.
    pub fn new(mac: MacAddress) -> (r: Downlink)
        ensures
            r.mac == mac,
            r.packet is None,
    {
        Downlink { mac, packet: None }
    }

    /// Wraps a transmit descriptor in a frame under a fresh random token.
    pub fn set_packet(&mut self, txpk: TxPk)
        ensures
            final(self).mac == old(self).mac,
            final(self).packet matches Some(p) && p.data.txpk == txpk,
    {
        let token: u16 = rand::random();
        self.packet = Some(
            pull_resp::Packet { random_token: token, data: pull_resp::Data::from_txpk(txpk) },
        );
    }

    pub fn get_destination_mac(&mut self) -> (r: MacAddress)
        ensures
            r == old(self).mac,
            *final(self) == *old(self),
    {
        self.mac
    }

    /// The internal event a dispatch submits, carrying the caller's waiter;
    /// a handle with no frame set is refused.
    pub fn into_event(self, waiter: u64) -> (r: Result<InternalEvent, Error>)
        ensures
            match self.packet {
                Some(p) => r matches Ok(InternalEvent::Downlink(q, m, w)) && q == p && m
                    == self.mac && w == waiter,
                None => r matches Err(Error::DispatchWithNoSendPacket),
            },
    {
        match self.packet {
            Some(p) => Ok(InternalEvent::Downlink(p, self.mac, waiter)),
            None => Err(Error::DispatchWithNoSendPacket),
        }
    }
}

/// Builds a downlink handle, wrapping a descriptor, when given, in a frame
/// under a fresh random token.
pub fn prepare_downlink(txpk: Option<TxPk>, mac: MacAddress) -> (r: Downlink)
    ensures
        r.mac == mac,
        match txpk {
            Some(t) => r.packet matches Some(p) && p.data.txpk == t,
            None => r.packet is None,
        },
{
    let mut d = Downlink::new(mac);
    if let Some(t) = txpk {
        d.set_packet(t);
    }
    d
}

} // verus!
