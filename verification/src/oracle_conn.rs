//! The decisions of one oracle connection: which bytes to send to the peer,
//! which attestations to record, and when to close.
use vstd::prelude::*;
use crate::bytes::same_bytes;
use crate::crypto::{recover_signer, spec_recover_signer};
use crate::oracle_proto::{
    addresses_view, dec_message, enc_message, MessageView, OracleProtoMessage,
    OracleProtoMessageId, OracleProtoMessageKind, SignedTicker, SignedTickerView,
};
use crate::ticker::enc_ticker;

verus! {

/// The attestations recorded for `id`, or none.
pub open spec fn list_of(t: Map<Seq<u8>, Seq<Seq<u8>>>, id: Seq<u8>) -> Seq<Seq<u8>> {
    if t.dom().contains(id) {
        t[id]
    } else {
        Seq::empty()
    }
}

type Entries = Seq<([u8; 32], Vec<[u8; 20]>)>;

/// No id occurs twice.
pub open spec fn entries_wf(e: Seq<([u8; 32], Vec<[u8; 20]>)>) -> bool {
    forall|i: int, j: int| 0 <= i < j < e.len() ==> #[trigger] e[i].0@ != #[trigger] e[j].0@
}

pub open spec fn entries_has(e: Seq<([u8; 32], Vec<[u8; 20]>)>, k: Seq<u8>) -> bool {
    exists|i: int| 0 <= i < e.len() && #[trigger] e[i].0@ == k
}

pub open spec fn entries_index(e: Seq<([u8; 32], Vec<[u8; 20]>)>, k: Seq<u8>) -> int {
    choose|i: int| 0 <= i < e.len() && #[trigger] e[i].0@ == k
}

/// Each id with its attestations.
pub open spec fn entries_view(e: Seq<([u8; 32], Vec<[u8; 20]>)>) -> Map<Seq<u8>, Seq<Seq<u8>>> {
    Map::new(
        |k: Seq<u8>| entries_has(e, k),
        |k: Seq<u8>| addresses_view(e[entries_index(e, k)].1@),
    )
}

proof fn lemma_entries_at(e: Entries, i: int)
    requires
        entries_wf(e),
        0 <= i < e.len(),
    ensures
        entries_view(e).dom().contains(e[i].0@),
        entries_view(e)[e[i].0@] == addresses_view(e[i].1@),
{
    let k = e[i].0@;
    assert(entries_has(e, k));
    let j = entries_index(e, k);
    if j < i {
        assert(e[j].0@ != e[i].0@);
    } else if j > i {
        assert(e[i].0@ != e[j].0@);
    }
}

proof fn lemma_entries_update(e: Entries, i: int, l: Vec<[u8; 20]>)
    requires
        entries_wf(e),
        0 <= i < e.len(),
    ensures
        entries_wf(e.update(i, (e[i].0, l))),
        entries_view(e.update(i, (e[i].0, l))) == entries_view(e).insert(
            e[i].0@,
            addresses_view(l@),
        ),
{
    let e2 = e.update(i, (e[i].0, l));
    let key = e[i].0@;
    let after = entries_view(e).insert(key, addresses_view(l@));
    assert(entries_wf(e2)) by {
        assert forall|a: int, b: int| 0 <= a < b < e2.len() implies #[trigger] e2[a].0@
            != #[trigger] e2[b].0@ by {
            assert(e[a].0@ != e[b].0@);
        }
    }
    lemma_entries_at(e2, i);
    assert forall|k: Seq<u8>| #[trigger] entries_view(e2).dom().contains(k) == after.dom().contains(
        k,
    ) by {
        if k != key {
            if entries_has(e, k) {
                let j = entries_index(e, k);
                assert(e2[j].0@ == k);
            }
            if entries_has(e2, k) {
                let j = entries_index(e2, k);
                assert(e[j].0@ == k);
            }
        }
    }
    assert forall|k: Seq<u8>| #[trigger] entries_view(e2).dom().contains(k) implies entries_view(
        e2,
    )[k] == after[k] by {
        if k != key {
            let j = entries_index(e2, k);
            assert(e2[j].0@ == k);
            assert(j != i);
            assert(e[j] == e2[j]);
            lemma_entries_at(e, j);
            lemma_entries_at(e2, j);
        }
    }
    assert(entries_view(e2) =~= after);
}

proof fn lemma_entries_push(e: Entries, key: [u8; 32], l: Vec<[u8; 20]>)
    requires
        entries_wf(e),
        !entries_view(e).dom().contains(key@),
    ensures
        entries_wf(e.push((key, l))),
        entries_view(e.push((key, l))) == entries_view(e).insert(key@, addresses_view(l@)),
{
    let e2 = e.push((key, l));
    let n = e.len() as int;
    let after = entries_view(e).insert(key@, addresses_view(l@));
    assert(entries_wf(e2)) by {
        assert forall|a: int, b: int| 0 <= a < b < e2.len() implies #[trigger] e2[a].0@
            != #[trigger] e2[b].0@ by {
            assert(e2[a] == e[a]);
            if b == n {
                if e[a].0@ == key@ {
                    assert(entries_has(e, key@));
                }
            } else {
                assert(e2[b] == e[b]);
            }
        }
    }
    lemma_entries_at(e2, n);
    assert forall|k: Seq<u8>| #[trigger] entries_view(e2).dom().contains(k) == after.dom().contains(
        k,
    ) by {
        if k != key@ {
            if entries_has(e, k) {
                let j = entries_index(e, k);
                assert(e2[j].0@ == k);
            }
            if entries_has(e2, k) {
                let j = entries_index(e2, k);
                assert(j != n);
                assert(e[j].0@ == k);
            }
        }
    }
    assert forall|k: Seq<u8>| #[trigger] entries_view(e2).dom().contains(k) implies entries_view(
        e2,
    )[k] == after[k] by {
        if k != key@ {
            let j = entries_index(e2, k);
            assert(e2[j].0@ == k);
            assert(j != n);
            assert(e[j] == e2[j]);
            lemma_entries_at(e, j);
            lemma_entries_at(e2, j);
        }
    }
    assert(entries_view(e2) =~= after);
}

/// The addresses that attested each ticker id, in the order in which they came.
pub struct AttestationTable {
    entries: Vec<([u8; 32], Vec<[u8; 20]>)>,
}

impl AttestationTable {
    /// No id occurs twice.
    pub closed spec fn wf(&self) -> bool {
        entries_wf(self.entries@)
    }

    /// Each id with its attestations.
    pub closed spec fn view(&self) -> Map<Seq<u8>, Seq<Seq<u8>>> {
        entries_view(self.entries@)
    }

    /// An empty table.
    pub fn new() -> (t: AttestationTable)
        ensures
            t.wf(),
            t.view() == Map::<Seq<u8>, Seq<Seq<u8>>>::empty(),
    {
        let t = AttestationTable { entries: Vec::new() };
        assert(t.view() =~= Map::<Seq<u8>, Seq<Seq<u8>>>::empty());
        t
    }

    fn find(&self, id: &[u8; 32]) -> (r: Option<usize>)
        requires
            self.wf(),
        ensures
            r matches Some(i) ==> i < self.entries@.len() && self.entries@[i as int].0@ == id@,
            r is None ==> !self.view().dom().contains(id@),
    {
        let mut i: usize = 0;
        while i < self.entries.len()
            invariant
                i <= self.entries@.len(),
                forall|j: int| 0 <= j < i ==> self.entries@[j].0@ != id@,
            decreases self.entries.len() - i,
        {
            if same_bytes(&self.entries[i].0, id) {
                return Some(i);
            }
            i = i + 1;
        }
        None
    }

    /// The addresses that attested `id`, in order; none where `id` is unknown.
    pub fn get(&self, id: &[u8; 32]) -> (v: Vec<[u8; 20]>)
        requires
            self.wf(),
        ensures
            addresses_view(v@) == list_of(self.view(), id@),
    {
        match self.find(id) {
            Some(i) => {
                proof {
                    lemma_entries_at(self.entries@, i as int);
                }
                let src = &self.entries[i].1;
                let mut out: Vec<[u8; 20]> = Vec::new();
                let mut j: usize = 0;
                while j < src.len()
                    invariant
                        j <= src@.len(),
                        out@ == src@.subrange(0, j as int),
                    decreases src.len() - j,
                {
                    out.push(src[j]);
                    j = j + 1;
                    assert(out@ =~= src@.subrange(0, j as int));
                }
                assert(out@ =~= src@);
                out
            },
            None => {
                let out: Vec<[u8; 20]> = Vec::new();
                assert(addresses_view(out@) =~= Seq::<Seq<u8>>::empty());
                out
            },
        }
    }

    /// Appends `addr` to the attestations of `id`.
    pub fn record(&mut self, id: [u8; 32], addr: [u8; 20])
        requires
            old(self).wf(),
        ensures
            final(self).wf(),
            final(self).view() == old(self).view().insert(
                id@,
                list_of(old(self).view(), id@).push(addr@),
            ),
    {
        let ghost old_entries = self.entries@;
        match self.find(&id) {
            Some(i) => {
                proof {
                    lemma_entries_at(old_entries, i as int);
                }
                let (key, mut list) = self.entries.remove(i);
                list.push(addr);
                self.entries.insert(i, (key, list));
                assert(self.entries@ =~= old_entries.update(i as int, (old_entries[i as int].0, list)));
                assert(addresses_view(list@) =~= addresses_view(old_entries[i as int].1@).push(
                    addr@,
                ));
                proof {
                    lemma_entries_update(old_entries, i as int, list);
                }
            },
            None => {
                let mut list: Vec<[u8; 20]> = Vec::new();
                list.push(addr);
                self.entries.push((id, list));
                assert(addresses_view(list@) =~= Seq::<Seq<u8>>::empty().push(addr@));
                proof {
                    lemma_entries_push(old_entries, id, list);
                }
            },
        }
    }
}

/// The attestations after a signed ticker came in, or `None` where its signer
/// cannot be recovered: an address is appended only where it is the ticker's
/// signer as recovered from the signature over the ticker's encoding.
pub open spec fn table_after_tick(
    t: Map<Seq<u8>, Seq<Seq<u8>>>,
    v: SignedTickerView,
) -> Option<Map<Seq<u8>, Seq<Seq<u8>>>> {
    match spec_recover_signer(v.signature, enc_ticker(v.ticker)) {
        Some(addr) => Some(
            if addr == v.signer {
                t.insert(v.id, list_of(t, v.id).push(addr))
            } else {
                t
            },
        ),
        None => None,
    }
}

/// What a message from the peer asks of the connection.
pub enum PeerAction<P> {
    /// Send these bytes to the peer.
    Send(Vec<u8>),
    /// Hand these attestations to the requester that waits for them, then go on
    /// reading.
    Deliver(P, Vec<[u8; 20]>),
    /// Nothing to do; go on reading.
    Continue,
    /// End the connection.
    Close,
}

/// What a connection serves next.
#[derive(Clone, Copy, Debug, PartialEq, Eq, Structural)]
pub enum Source {
    /// Its opening ping.
    InitialPing,
    /// A local request for attestations.
    Command,
    /// A ticker signed by this node, to gossip.
    LocalTick,
    /// The next message from the peer, or the peer's end.
    Peer,
}

/// The source served first: the opening ping while it is due, then a waiting
/// local request, then a waiting local ticker, and only then the peer.
pub open spec fn source_order(ping_due: bool, command_ready: bool, tick_ready: bool) -> Source {
    if ping_due {
        Source::InitialPing
    } else if command_ready {
        Source::Command
    } else if tick_ready {
        Source::LocalTick
    } else {
        Source::Peer
    }
}

/// The state of one connection: the attestations that the peer's tickers
/// earned, the requester that waits for the peer's attestations, and whether
/// the opening ping is still to be sent.
pub struct OracleConnectionState<P> {
    attestations: AttestationTable,
    pending_att: Option<P>,
    initial_ping: bool,
}

impl<P> OracleConnectionState<P> {
    pub closed spec fn wf(&self) -> bool {
        self.attestations.wf()
    }

    /// The attestations recorded on this connection.
    pub closed spec fn table(&self) -> Map<Seq<u8>, Seq<Seq<u8>>> {
        self.attestations.view()
    }

    /// The requester that waits for the peer's attestations, if any.
    pub closed spec fn pending(&self) -> Option<P> {
        self.pending_att
    }

    /// Whether the opening ping is still to be sent.
    pub closed spec fn ping_due(&self) -> bool {
        self.initial_ping
    }

    /// A new connection; one that this node opened starts with a ping.
    pub fn new(outgoing: bool) -> (s: Self)
        ensures
            s.wf(),
            s.table() == Map::<Seq<u8>, Seq<Seq<u8>>>::empty(),
            s.pending() is None,
            s.ping_due() == outgoing,
    {
        OracleConnectionState {
            attestations: AttestationTable::new(),
            pending_att: None,
            initial_ping: outgoing,
        }
    }

    /// The source to serve first, given whether a local request and a local
    /// ticker are waiting (see `source_order`).
    pub fn next_source(&self, command_ready: bool, tick_ready: bool) -> (src: Source)
        ensures
            src == source_order(self.ping_due(), command_ready, tick_ready),
    {
        if self.initial_ping {
            Source::InitialPing
        } else if command_ready {
            Source::Command
        } else if tick_ready {
            Source::LocalTick
        } else {
            Source::Peer
        }
    }

    /// The opening ping, once.
    pub fn take_initial_ping(&mut self) -> (r: Option<Vec<u8>>)
        requires
            old(self).wf(),
        ensures
            final(self).wf(),
            final(self).table() == old(self).table(),
            final(self).pending() == old(self).pending(),
            !final(self).ping_due(),
            old(self).ping_due() ==> (r matches Some(b) && b@ == enc_message(
                OracleProtoMessageId::Ping,
                MessageView::Ping,
            )),
            !old(self).ping_due() ==> r is None,
    {
        if self.initial_ping {
            self.initial_ping = false;
            Some(OracleProtoMessage::ping().encoded())
        } else {
            None
        }
    }

    /// A local request for the attestations of `id`: answers with the
    /// attestations recorded for it, and keeps `responder` to hand the peer's
    /// own attestations to.
    pub fn on_attestation_request(&mut self, id: [u8; 32], responder: P) -> (r: Vec<u8>)
        requires
            old(self).wf(),
        ensures
            final(self).wf(),
            final(self).table() == old(self).table(),
            final(self).pending() == Some(responder),
            final(self).ping_due() == old(self).ping_due(),
            r@ == enc_message(
                OracleProtoMessageId::Attestations,
                MessageView::Attestations(list_of(old(self).table(), id@)),
            ),
    {
        let attestations = self.attestations.get(&id);
        self.pending_att = Some(responder);
        OracleProtoMessage::attestations(attestations).encoded()
    }

    /// A ticker signed by this node, to be gossiped to the peer.
    pub fn on_local_tick(tick: SignedTicker) -> (r: Vec<u8>)
        ensures
            r@ == enc_message(OracleProtoMessageId::TickData, MessageView::SignedTicker(tick@)),
    {
        OracleProtoMessage::signed_ticker(Box::new(tick)).encoded()
    }

    /// A message from the peer. A message that does not decode, or a ticker whose
    /// signer cannot be recovered, ends the connection. A ping is answered with a
    /// pong. A ticker is attested where its recovered signer is its claimed
    /// signer, and answered with the attestations of its id. Attestations go to
    /// the waiting requester, if any.
    pub fn on_peer_message(&mut self, msg: &[u8]) -> (r: PeerAction<P>)
        requires
            old(self).wf(),
        ensures
            final(self).wf(),
            final(self).ping_due() == old(self).ping_due(),
            match dec_message(msg@) {
                None => {
                    &&& r is Close
                    &&& final(self).table() == old(self).table()
                    &&& final(self).pending() == old(self).pending()
                },
                Some((_, MessageView::Ping)) => {
                    &&& final(self).table() == old(self).table()
                    &&& final(self).pending() == old(self).pending()
                    &&& (r matches PeerAction::Send(b) && b@ == enc_message(
                        OracleProtoMessageId::Pong,
                        MessageView::Pong,
                    ))
                },
                Some((_, MessageView::Pong)) => {
                    &&& r is Continue
                    &&& final(self).table() == old(self).table()
                    &&& final(self).pending() == old(self).pending()
                },
                Some((_, MessageView::Attestations(a))) => {
                    &&& final(self).table() == old(self).table()
                    &&& final(self).pending() is None
                    &&& match old(self).pending() {
                        Some(p) => (r matches PeerAction::Deliver(q, list) && q == p
                            && addresses_view(list@) == a),
                        None => r is Continue,
                    }
                },
                Some((_, MessageView::SignedTicker(v))) => {
                    &&& final(self).pending() == old(self).pending()
                    &&& match table_after_tick(old(self).table(), v) {
                        None => r is Close && final(self).table() == old(self).table(),
                        Some(t) => {
                            &&& final(self).table() == t
                            &&& (r matches PeerAction::Send(b) && b@ == enc_message(
                                OracleProtoMessageId::Attestations,
                                MessageView::Attestations(list_of(t, v.id)),
                            ))
                        },
                    }
                },
            },
    {
        let mut rest: &[u8] = msg;
        let msg = match OracleProtoMessage::decode_message(&mut rest) {
            Some(m) => m,
            None => return PeerAction::Close,
        };
        match msg.message {
            OracleProtoMessageKind::Ping => PeerAction::Send(OracleProtoMessage::pong().encoded()),
            OracleProtoMessageKind::Pong => PeerAction::Continue,
            OracleProtoMessageKind::Attestations(attestations) => {
                let pending = self.pending_att.take();
                match pending {
                    Some(p) => PeerAction::Deliver(p, attestations),
                    None => PeerAction::Continue,
                }
            },
            OracleProtoMessageKind::SignedTicker(signed_data) => {
                let buffer = signed_data.ticker.encoded();
                let addr = match recover_signer(signed_data.signature.as_slice(), buffer.as_slice()) {
                    Some(a) => a,
                    None => return PeerAction::Close,
                };
                if same_bytes(&addr, &signed_data.signer) {
                    self.attestations.record(signed_data.id, addr);
                }
                let attestations = self.attestations.get(&signed_data.id);
                PeerAction::Send(OracleProtoMessage::attestations(attestations).encoded())
            },
        }
    }
}

/// Recording a ticker's attestation never drops or reorders an attestation: every
/// id's list after the step starts with its list before.
pub proof fn lemma_attestations_only_grow(t: Map<Seq<u8>, Seq<Seq<u8>>>, v: SignedTickerView)
    requires
        table_after_tick(t, v) is Some,
    ensures
        forall|id: Seq<u8>|
            #![trigger list_of(table_after_tick(t, v).unwrap(), id)]
            list_of(t, id).len() <= list_of(table_after_tick(t, v).unwrap(), id).len()
                && list_of(table_after_tick(t, v).unwrap(), id).subrange(
                0,
                list_of(t, id).len() as int,
            ) == list_of(t, id),
{
    let t2 = table_after_tick(t, v).unwrap();
    assert forall|id: Seq<u8>| #![trigger list_of(t2, id)]
        list_of(t, id).len() <= list_of(t2, id).len() && list_of(t2, id).subrange(
            0,
            list_of(t, id).len() as int,
        ) == list_of(t, id) by {
        assert(list_of(t2, id).subrange(0, list_of(t, id).len() as int) =~= list_of(t, id));
    }
}

/// Every address that a ticker adds to the table is the ticker's claimed signer
/// and the signer recovered from its signature, and it is added under the
/// ticker's id only.
pub proof fn lemma_attestation_is_verified_signer(
    t: Map<Seq<u8>, Seq<Seq<u8>>>,
    v: SignedTickerView,
)
    requires
        table_after_tick(t, v) is Some,
        table_after_tick(t, v).unwrap() != t,
    ensures
        spec_recover_signer(v.signature, enc_ticker(v.ticker)) == Some(v.signer),
        table_after_tick(t, v).unwrap() == t.insert(v.id, list_of(t, v.id).push(v.signer)),
{
}

} // verus!
