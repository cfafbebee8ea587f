//! Messages of the oracle's RLPx subprotocol: a type byte followed by the RLP
//! encoding of the payload.
use vstd::prelude::*;
use crate::crypto::{keccak256, spec_keccak256};
use crate::rlp::{
    copy_range, dec_bytes, dec_fixed, dec_list, decode_bytes, decode_fixed, decode_list, enc_bytes,
    enc_list, encode_bytes_into, encode_list_into, is_prefix, lemma_dec_bytes_sound,
    lemma_dec_list_sound, lemma_parse_bytes, lemma_parse_list, rest,
};
use crate::ticker::{
    dec_ticker, enc_ticker, lemma_ticker_roundtrip, lemma_ticker_sound, ticker_view_wf, FieldView,
    Ticker,
};

verus! {

// ---------------------------------------------------------------------------
// Fixed-size byte arrays
// ---------------------------------------------------------------------------

/// The 20 bytes of `v`.
pub fn to_address(v: &[u8]) -> (a: [u8; 20])
    requires
        v@.len() == 20,
    ensures
        a@ == v@,
{
    let mut a = [0u8; 20];
    let mut i: usize = 0;
    while i < 20
        invariant
            i <= 20,
            v@.len() == 20,
            forall|j: int| 0 <= j < i ==> a@[j] == v@[j],
        decreases 20 - i,
    {
        a[i] = v[i];
        i = i + 1;
    }
    assert(a@ =~= v@);
    a
}

/// The 32 bytes of `v`.
pub fn to_hash(v: &[u8]) -> (a: [u8; 32])
    requires
        v@.len() == 32,
    ensures
        a@ == v@,
{
    let mut a = [0u8; 32];
    let mut i: usize = 0;
    while i < 32
        invariant
            i <= 32,
            v@.len() == 32,
            forall|j: int| 0 <= j < i ==> a@[j] == v@[j],
        decreases 32 - i,
    {
        a[i] = v[i];
        i = i + 1;
    }
    assert(a@ =~= v@);
    a
}

// ---------------------------------------------------------------------------
// Signed tickers
// ---------------------------------------------------------------------------

pub struct SignedTickerView {
    pub ticker: Seq<FieldView>,
    pub signature: Seq<u8>,
    pub signer: Seq<u8>,
    pub id: Seq<u8>,
}

/// The encoded fields of a signed ticker, one after the other.
pub open spec fn signed_payload(v: SignedTickerView) -> Seq<u8> {
    enc_ticker(v.ticker) + enc_bytes(v.signature) + enc_bytes(v.signer) + enc_bytes(v.id)
}

/// The RLP encoding of a signed ticker.
pub open spec fn enc_signed(v: SignedTickerView) -> Seq<u8> {
    enc_list(signed_payload(v))
}

/// A signed ticker that can be encoded: a well-formed ticker, a 20-byte signer,
/// a 32-byte id, and an encoding whose length fits in 64 bits.
pub open spec fn signed_wf(v: SignedTickerView) -> bool {
    &&& ticker_view_wf(v.ticker)
    &&& v.signer.len() == 20
    &&& v.id.len() == 32
    &&& signed_payload(v).len() < 0x1_0000_0000_0000_0000
}

/// The four fields of a signed ticker, read one after the other from the start
/// of `b`, and how many bytes they take.
pub open spec fn dec_signed_fields(b0: Seq<u8>) -> Option<(SignedTickerView, nat)> {
    match dec_ticker(b0) {
        Some((t, k1)) => {
            let b1 = b0.subrange(k1 as int, b0.len() as int);
            match dec_bytes(b1) {
                Some((sig, k2)) => {
                    let b2 = b1.subrange(k2 as int, b1.len() as int);
                    match dec_fixed(b2, 20) {
                        Some((signer, k3)) => {
                            let b3 = b2.subrange(k3 as int, b2.len() as int);
                            match dec_fixed(b3, 32) {
                                Some((id, k4)) => Some(
                                    (
                                        SignedTickerView { ticker: t, signature: sig, signer, id },
                                        k1 + k2 + k3 + k4,
                                    ),
                                ),
                                None => None,
                            }
                        },
                        None => None,
                    }
                },
                None => None,
            }
        },
        None => None,
    }
}

/// A signed ticker at the start of `buf`. As a derived RLP decoder does, the
/// fields are read from the rest of the buffer and must end where the list ends.
pub open spec fn dec_signed(buf: Seq<u8>) -> Option<(SignedTickerView, nat)> {
    match dec_list(buf) {
        Some((s, e)) => match dec_signed_fields(buf.subrange(s as int, buf.len() as int)) {
            Some((v, k)) => if s + k == e {
                Some((v, e))
            } else {
                None
            },
            None => None,
        },
        None => None,
    }
}

#[verifier::spinoff_prover]
#[verifier::rlimit(40)]
proof fn lemma_signed_fields_roundtrip(v: SignedTickerView, tail: Seq<u8>)
    requires
        signed_wf(v),
    ensures
        dec_signed_fields(signed_payload(v) + tail) == Some((v, signed_payload(v).len())),
{
    let t = enc_ticker(v.ticker);
    let sg = enc_bytes(v.signature);
    let a = enc_bytes(v.signer);
    let i = enc_bytes(v.id);
    let b0 = signed_payload(v) + tail;
    assert(b0 =~= t + (sg + a + i + tail));
    assert(crate::ticker::enc_fields(v.ticker).len() < 0x1_0000_0000_0000_0000);
    lemma_ticker_roundtrip(v.ticker, sg + a + i + tail);
    assert(dec_ticker(b0) == Some((v.ticker, t.len())));
    let b1 = b0.subrange(t.len() as int, b0.len() as int);
    assert(b1 =~= sg + (a + i + tail));
    lemma_parse_bytes(v.signature, a + i + tail);
    assert(dec_bytes(b1) == Some((v.signature, sg.len())));
    let b2 = b1.subrange(sg.len() as int, b1.len() as int);
    assert(b2 =~= a + (i + tail));
    lemma_parse_bytes(v.signer, i + tail);
    assert(dec_fixed(b2, 20) == Some((v.signer, a.len())));
    let b3 = b2.subrange(a.len() as int, b2.len() as int);
    assert(b3 =~= i + tail);
    lemma_parse_bytes(v.id, tail);
    assert(dec_fixed(b3, 32) == Some((v.id, i.len())));
}

/// Decoding gives back every well-formed signed ticker, whatever follows it.
#[verifier::spinoff_prover]
#[verifier::rlimit(40)]
pub proof fn lemma_signed_roundtrip(v: SignedTickerView, tail: Seq<u8>)
    requires
        signed_wf(v),
    ensures
        dec_signed(enc_signed(v) + tail) == Some((v, enc_signed(v).len())),
{
    let p = signed_payload(v);
    let buf = enc_signed(v) + tail;
    lemma_parse_list(p, tail);
    let s = (enc_list(p).len() - p.len()) as nat;
    let b0 = buf.subrange(s as int, buf.len() as int);
    assert(b0 =~= p + tail);
    lemma_signed_fields_roundtrip(v, tail);
}

#[verifier::spinoff_prover]
#[verifier::rlimit(40)]
proof fn lemma_signed_fields_sound(b0: Seq<u8>)
    requires
        dec_signed_fields(b0) is Some,
        b0.len() < 0x1_0000_0000_0000_0000,
    ensures
        ({
            let (v, k) = dec_signed_fields(b0).unwrap();
            &&& ticker_view_wf(v.ticker)
            &&& v.signer.len() == 20
            &&& v.id.len() == 32
            &&& is_prefix(signed_payload(v), b0)
            &&& signed_payload(v).len() == k
        }),
{
    lemma_ticker_sound(b0);
    let (t, k1) = dec_ticker(b0).unwrap();
    let b1 = b0.subrange(k1 as int, b0.len() as int);
    lemma_dec_bytes_sound(b1);
    let (sig, k2) = dec_bytes(b1).unwrap();
    let b2 = b1.subrange(k2 as int, b1.len() as int);
    lemma_dec_bytes_sound(b2);
    let (signer, k3) = dec_fixed(b2, 20).unwrap();
    let b3 = b2.subrange(k3 as int, b2.len() as int);
    lemma_dec_bytes_sound(b3);
    let (id, k4) = dec_fixed(b3, 32).unwrap();
    let v = SignedTickerView { ticker: t, signature: sig, signer, id };
    assert(b0.subrange(0, k1 as int) =~= enc_ticker(t));
    assert(b1.subrange(0, k2 as int) =~= enc_bytes(sig));
    assert(b2.subrange(0, k3 as int) =~= enc_bytes(signer));
    assert(b3.subrange(0, k4 as int) =~= enc_bytes(id));
    assert(b0.subrange(0, (k1 + k2 + k3 + k4) as int) =~= b0.subrange(0, k1 as int)
        + b1.subrange(0, k2 as int) + b2.subrange(0, k3 as int) + b3.subrange(0, k4 as int));
}

/// Whatever signed ticker decodes is well-formed and encoded canonically at the
/// start of the buffer.
#[verifier::spinoff_prover]
#[verifier::rlimit(40)]
pub proof fn lemma_signed_sound(buf: Seq<u8>)
    requires
        dec_signed(buf) is Some,
        buf.len() < 0x1_0000_0000_0000_0000,
    ensures
        ({
            let (v, n) = dec_signed(buf).unwrap();
            &&& signed_wf(v)
            &&& is_prefix(enc_signed(v), buf)
            &&& enc_signed(v).len() == n
        }),
{
    let (s, e) = dec_list(buf).unwrap();
    lemma_dec_list_sound(buf);
    let b0 = buf.subrange(s as int, buf.len() as int);
    lemma_signed_fields_sound(b0);
    let (v, k) = dec_signed_fields(b0).unwrap();
    assert(buf.subrange(s as int, e as int) =~= b0.subrange(0, k as int));
}

/// A ticker together with its signature, its signer and its id, the Keccak-256
/// digest of the ticker's encoding.
#[derive(Clone, Debug, PartialEq)]
pub struct SignedTicker {
    pub ticker: Ticker,
    pub signature: Vec<u8>,
    pub signer: [u8; 20],
    pub id: [u8; 32],
}

impl View for SignedTicker {
    type V = SignedTickerView;

    open spec fn view(&self) -> SignedTickerView {
        SignedTickerView {
            ticker: self.ticker@,
            signature: self.signature@,
            signer: self.signer@,
            id: self.id@,
        }
    }
}

impl SignedTicker {
    /// Signs off a ticker: keeps the raw 65-byte signature and the signer, and
    /// takes as id the Keccak-256 digest of the ticker's encoding.
    pub fn new(ticker: Ticker, signature: [u8; 65], signer: [u8; 20]) -> (st: SignedTicker)
        ensures
            st@.ticker == ticker@,
            st.signature@ == signature@,
            st.signer == signer,
            st.id@ == spec_keccak256(enc_ticker(ticker@)),
    {
        let buffer = ticker.encoded();
        let id = keccak256(buffer.as_slice());
        let mut sig: Vec<u8> = Vec::new();
        let mut i: usize = 0;
        while i < 65
            invariant
                i <= 65,
                sig@ == signature@.subrange(0, i as int),
            decreases 65 - i,
        {
            sig.push(signature[i]);
            i = i + 1;
            assert(sig@ =~= signature@.subrange(0, i as int));
        }
        assert(sig@ =~= signature@);
        SignedTicker { ticker, signature: sig, signer, id }
    }

    /// Appends the RLP encoding of the signed ticker.
    pub fn encode_into(&self, out: &mut Vec<u8>)
        ensures
            final(out)@ == old(out)@ + enc_signed(self@),
            signed_wf(self@),
    {
        let mut payload: Vec<u8> = Vec::new();
        self.ticker.encode_into(&mut payload);
        encode_bytes_into(&mut payload, self.signature.as_slice());
        encode_bytes_into(&mut payload, self.signer.as_slice());
        encode_bytes_into(&mut payload, self.id.as_slice());
        assert(payload@ =~= signed_payload(self@));
        let n = payload.len();
        encode_list_into(out, payload.as_slice());
    }

    /// Reads a signed ticker at `pos`.
    pub fn decode_at(buf: &[u8], pos: usize) -> (r: Option<(SignedTicker, usize)>)
        requires
            pos <= buf.len(),
        ensures
            r is None <==> dec_signed(rest(buf@, pos as int)) is None,
            r matches Some((st, next)) ==> {
                &&& pos <= next <= buf.len()
                &&& dec_signed(rest(buf@, pos as int)) == Some((st@, (next - pos) as nat))
            },
    {
        let ghost r = rest(buf@, pos as int);
        let (s, e) = match decode_list(buf, pos) {
            Some(x) => x,
            None => return None,
        };
        assert(rest(buf@, s as int) =~= r.subrange((s - pos) as int, r.len() as int));
        match Self::decode_fields_at(buf, s) {
            Some((st, next)) => if next == e {
                Some((st, e))
            } else {
                None
            },
            None => None,
        }
    }

    fn decode_fields_at(buf: &[u8], pos: usize) -> (r: Option<(SignedTicker, usize)>)
        requires
            pos <= buf.len(),
        ensures
            r is None <==> dec_signed_fields(rest(buf@, pos as int)) is None,
            r matches Some((st, next)) ==> {
                &&& pos <= next <= buf.len()
                &&& dec_signed_fields(rest(buf@, pos as int)) == Some((st@, (next - pos) as nat))
            },
    {
        let ghost b0 = rest(buf@, pos as int);
        let (ticker, p1) = match Ticker::decode_at(buf, pos) {
            Some(x) => x,
            None => return None,
        };
        let ghost b1 = b0.subrange((p1 - pos) as int, b0.len() as int);
        assert(rest(buf@, p1 as int) =~= b1);
        let (ss, se) = match decode_bytes(buf, p1) {
            Some(x) => x,
            None => return None,
        };
        let ghost b2 = b1.subrange((se - p1) as int, b1.len() as int);
        assert(rest(buf@, se as int) =~= b2);
        let (as_, ae) = match decode_fixed(buf, se, 20) {
            Some(x) => x,
            None => return None,
        };
        let ghost b3 = b2.subrange((ae - se) as int, b2.len() as int);
        assert(rest(buf@, ae as int) =~= b3);
        let (is, ie) = match decode_fixed(buf, ae, 32) {
            Some(x) => x,
            None => return None,
        };
        let signature = copy_range(buf, ss, se);
        let signer_bytes = copy_range(buf, as_, ae);
        let id_bytes = copy_range(buf, is, ie);
        let signer = to_address(signer_bytes.as_slice());
        let id = to_hash(id_bytes.as_slice());
        let st = SignedTicker { ticker, signature, signer, id };
        Some((st, ie))
    }
}

// ---------------------------------------------------------------------------
// Lists of addresses
// ---------------------------------------------------------------------------

/// The addresses encoded one after the other.
pub open spec fn enc_addrs(a: Seq<Seq<u8>>) -> Seq<u8>
    decreases a.len(),
{
    if a.len() == 0 {
        Seq::empty()
    } else {
        enc_bytes(a[0]) + enc_addrs(a.drop_first())
    }
}

/// Addresses, one after the other, that make up all of `p`.
pub open spec fn dec_addrs(p: Seq<u8>) -> Option<Seq<Seq<u8>>>
    decreases p.len(),
{
    if p.len() == 0 {
        Some(Seq::empty())
    } else {
        match dec_fixed(p, 20) {
            Some((x, k)) => if k == 0 || k > p.len() {
                None
            } else {
                match dec_addrs(p.subrange(k as int, p.len() as int)) {
                    Some(r) => Some(seq![x] + r),
                    None => None,
                }
            },
            None => None,
        }
    }
}

/// Every address has 20 bytes and the list's encoding fits in 64 bits.
pub open spec fn addrs_wf(a: Seq<Seq<u8>>) -> bool {
    &&& forall|i: int| 0 <= i < a.len() ==> (#[trigger] a[i]).len() == 20
    &&& enc_addrs(a).len() < 0x1_0000_0000_0000_0000
}

/// A list of addresses at the start of `buf`.
pub open spec fn dec_addr_list(buf: Seq<u8>) -> Option<(Seq<Seq<u8>>, nat)> {
    match dec_list(buf) {
        Some((s, e)) => match dec_addrs(buf.subrange(s as int, e as int)) {
            Some(a) => Some((a, e)),
            None => None,
        },
        None => None,
    }
}

proof fn lemma_enc_addrs_len(a: Seq<Seq<u8>>)
    requires
        forall|i: int| 0 <= i < a.len() ==> (#[trigger] a[i]).len() == 20,
    ensures
        enc_addrs(a).len() == 21 * a.len(),
    decreases a.len(),
{
    if a.len() > 0 {
        assert(a[0].len() == 20);
        lemma_enc_addrs_len(a.drop_first());
    }
}

proof fn lemma_enc_addrs_push(a: Seq<Seq<u8>>, x: Seq<u8>)
    ensures
        enc_addrs(a.push(x)) == enc_addrs(a) + enc_bytes(x),
    decreases a.len(),
{
    if a.len() == 0 {
        assert(a.push(x).drop_first() =~= a);
        assert(enc_addrs(a.push(x)) =~= enc_addrs(a) + enc_bytes(x));
    } else {
        lemma_enc_addrs_push(a.drop_first(), x);
        assert(a.push(x).drop_first() =~= a.drop_first().push(x));
        assert(enc_addrs(a.push(x)) =~= enc_addrs(a) + enc_bytes(x));
    }
}

proof fn lemma_dec_addrs_roundtrip(a: Seq<Seq<u8>>)
    requires
        forall|i: int| 0 <= i < a.len() ==> (#[trigger] a[i]).len() == 20,
    ensures
        dec_addrs(enc_addrs(a)) == Some(a),
    decreases a.len(),
{
    if a.len() > 0 {
        let p = enc_addrs(a);
        let t = enc_addrs(a.drop_first());
        assert(a[0].len() == 20);
        lemma_parse_bytes(a[0], t);
        lemma_enc_addrs_len(a.drop_first());
        assert(p.subrange(21, p.len() as int) =~= t);
        lemma_dec_addrs_roundtrip(a.drop_first());
        assert(seq![a[0]] + a.drop_first() =~= a);
    }
}

proof fn lemma_dec_addrs_sound(p: Seq<u8>)
    requires
        dec_addrs(p) is Some,
    ensures
        enc_addrs(dec_addrs(p).unwrap()) == p,
        forall|i: int|
            0 <= i < dec_addrs(p).unwrap().len() ==> (#[trigger] dec_addrs(p).unwrap()[i]).len()
                == 20,
    decreases p.len(),
{
    if p.len() == 0 {
        assert(enc_addrs(Seq::<Seq<u8>>::empty()) =~= p);
    } else {
        let (x, k) = dec_fixed(p, 20).unwrap();
        let t = p.subrange(k as int, p.len() as int);
        lemma_dec_bytes_sound(p);
        lemma_dec_addrs_sound(t);
        let r = dec_addrs(t).unwrap();
        let a = seq![x] + r;
        assert(a.drop_first() =~= r);
        assert(a[0] == x);
        assert(p =~= p.subrange(0, k as int) + t);
        assert forall|i: int| 0 <= i < a.len() implies (#[trigger] a[i]).len() == 20 by {
            if i > 0 {
                assert(a[i] == r[i - 1]);
            }
        }
    }
}

// ---------------------------------------------------------------------------
// Messages
// ---------------------------------------------------------------------------

/// The type of an oracle message, sent as its first byte.
#[derive(Clone, Copy, Debug, PartialEq, Eq, Structural)]
pub enum OracleProtoMessageId {
    Ping,
    Pong,
    TickData,
    Attestations,
}

/// The byte that stands for a message type.
pub open spec fn id_byte(t: OracleProtoMessageId) -> u8 {
    match t {
        OracleProtoMessageId::Ping => 0x00,
        OracleProtoMessageId::Pong => 0x01,
        OracleProtoMessageId::TickData => 0x02,
        OracleProtoMessageId::Attestations => 0x03,
    }
}

/// The message type that a byte stands for.
pub open spec fn id_of_byte(b: u8) -> Option<OracleProtoMessageId> {
    if b == 0x00 {
        Some(OracleProtoMessageId::Ping)
    } else if b == 0x01 {
        Some(OracleProtoMessageId::Pong)
    } else if b == 0x02 {
        Some(OracleProtoMessageId::TickData)
    } else if b == 0x03 {
        Some(OracleProtoMessageId::Attestations)
    } else {
        None
    }
}

fn message_id_byte(t: OracleProtoMessageId) -> (b: u8)
    ensures
        b == id_byte(t),
{
    match t {
        OracleProtoMessageId::Ping => 0x00,
        OracleProtoMessageId::Pong => 0x01,
        OracleProtoMessageId::TickData => 0x02,
        OracleProtoMessageId::Attestations => 0x03,
    }
}

/// What an oracle message carries.
#[derive(Clone, Debug, PartialEq)]
pub enum OracleProtoMessageKind {
    Ping,
    Pong,
    SignedTicker(Box<SignedTicker>),
    Attestations(Vec<[u8; 20]>),
}

pub enum MessageView {
    Ping,
    Pong,
    SignedTicker(SignedTickerView),
    Attestations(Seq<Seq<u8>>),
}

pub open spec fn addresses_view(v: Seq<[u8; 20]>) -> Seq<Seq<u8>> {
    v.map_values(|a: [u8; 20]| a@)
}

impl View for OracleProtoMessageKind {
    type V = MessageView;

    open spec fn view(&self) -> MessageView {
        match self {
            OracleProtoMessageKind::Ping => MessageView::Ping,
            OracleProtoMessageKind::Pong => MessageView::Pong,
            OracleProtoMessageKind::SignedTicker(st) => MessageView::SignedTicker((**st)@),
            OracleProtoMessageKind::Attestations(a) => MessageView::Attestations(
                addresses_view(a@),
            ),
        }
    }
}

/// A message of the oracle subprotocol. Its type byte and its payload are kept
/// apart, as on the wire.
#[derive(Clone, Debug)]
pub struct OracleProtoMessage {
    pub message_type: OracleProtoMessageId,
    pub message: OracleProtoMessageKind,
}

/// The bytes of a message: its type byte, then the payload.
pub open spec fn enc_message(t: OracleProtoMessageId, m: MessageView) -> Seq<u8> {
    seq![id_byte(t)] + match m {
        MessageView::Ping => Seq::empty(),
        MessageView::Pong => Seq::empty(),
        MessageView::SignedTicker(v) => enc_signed(v),
        MessageView::Attestations(a) => enc_list(enc_addrs(a)),
    }
}

/// Whether the type byte agrees with the payload.
pub open spec fn kind_matches(t: OracleProtoMessageId, m: MessageView) -> bool {
    match m {
        MessageView::Ping => t == OracleProtoMessageId::Ping,
        MessageView::Pong => t == OracleProtoMessageId::Pong,
        MessageView::SignedTicker(_) => t == OracleProtoMessageId::TickData,
        MessageView::Attestations(_) => t == OracleProtoMessageId::Attestations,
    }
}

/// A message whose type agrees with its payload and whose payload can be encoded.
pub open spec fn message_wf(t: OracleProtoMessageId, m: MessageView) -> bool {
    &&& kind_matches(t, m)
    &&& match m {
        MessageView::SignedTicker(v) => signed_wf(v),
        MessageView::Attestations(a) => addrs_wf(a),
        _ => true,
    }
}

/// The message at the start of `buf`; what follows it is ignored.
pub open spec fn dec_message(buf: Seq<u8>) -> Option<(OracleProtoMessageId, MessageView)> {
    if buf.len() == 0 {
        None
    } else {
        let body = buf.subrange(1, buf.len() as int);
        match id_of_byte(buf[0]) {
            Some(OracleProtoMessageId::Ping) => Some(
                (OracleProtoMessageId::Ping, MessageView::Ping),
            ),
            Some(OracleProtoMessageId::Pong) => Some(
                (OracleProtoMessageId::Pong, MessageView::Pong),
            ),
            Some(OracleProtoMessageId::Attestations) => match dec_addr_list(body) {
                Some((a, _)) => Some(
                    (OracleProtoMessageId::Attestations, MessageView::Attestations(a)),
                ),
                None => None,
            },
            Some(OracleProtoMessageId::TickData) => match dec_signed(body) {
                Some((v, _)) => Some((OracleProtoMessageId::TickData, MessageView::SignedTicker(v))),
                None => None,
            },
            None => None,
        }
    }
}

/// Decoding gives back every well-formed message, whatever follows it.
#[verifier::spinoff_prover]
#[verifier::rlimit(40)]
pub proof fn lemma_message_roundtrip(t: OracleProtoMessageId, m: MessageView, tail: Seq<u8>)
    requires
        message_wf(t, m),
    ensures
        dec_message(enc_message(t, m) + tail) == Some((t, m)),
{
    let buf = enc_message(t, m) + tail;
    let body = buf.subrange(1, buf.len() as int);
    match m {
        MessageView::SignedTicker(v) => {
            assert(body =~= enc_signed(v) + tail);
            lemma_signed_roundtrip(v, tail);
        },
        MessageView::Attestations(a) => {
            assert(body =~= enc_list(enc_addrs(a)) + tail);
            lemma_parse_list(enc_addrs(a), tail);
            let s = (enc_list(enc_addrs(a)).len() - enc_addrs(a).len()) as int;
            assert(body.subrange(s, enc_list(enc_addrs(a)).len() as int) =~= enc_addrs(a));
            lemma_dec_addrs_roundtrip(a);
        },
        _ => {},
    }
}

/// Whatever decodes is a well-formed message whose encoding starts the buffer.
#[verifier::spinoff_prover]
#[verifier::rlimit(40)]
pub proof fn lemma_message_sound(buf: Seq<u8>)
    requires
        dec_message(buf) is Some,
        buf.len() < 0x1_0000_0000_0000_0000,
    ensures
        ({
            let (t, m) = dec_message(buf).unwrap();
            &&& message_wf(t, m)
            &&& is_prefix(enc_message(t, m), buf)
        }),
{
    let body = buf.subrange(1, buf.len() as int);
    let (t, m) = dec_message(buf).unwrap();
    match m {
        MessageView::SignedTicker(v) => {
            lemma_signed_sound(body);
            assert(buf.subrange(0, enc_message(t, m).len() as int) =~= seq![buf[0]]
                + body.subrange(0, enc_signed(v).len() as int));
        },
        MessageView::Attestations(a) => {
            let (s, e) = dec_list(body).unwrap();
            lemma_dec_list_sound(body);
            lemma_dec_addrs_sound(body.subrange(s as int, e as int));
            lemma_enc_addrs_len(a);
            assert(buf.subrange(0, enc_message(t, m).len() as int) =~= seq![buf[0]]
                + body.subrange(0, e as int));
        },
        _ => {
            assert(buf.subrange(0, 1) =~= seq![buf[0]]);
            assert(enc_message(t, m) =~= seq![buf[0]]);
        },
    }
}

/// No buffer starts with the encodings of two different well-formed messages.
#[verifier::spinoff_prover]
#[verifier::rlimit(40)]
pub proof fn lemma_message_prefix_unique(
    t1: OracleProtoMessageId,
    m1: MessageView,
    t2: OracleProtoMessageId,
    m2: MessageView,
    buf: Seq<u8>,
)
    requires
        message_wf(t1, m1),
        message_wf(t2, m2),
        is_prefix(enc_message(t1, m1), buf),
        is_prefix(enc_message(t2, m2), buf),
    ensures
        t1 == t2,
        m1 == m2,
{
    let n1 = enc_message(t1, m1).len() as int;
    let n2 = enc_message(t2, m2).len() as int;
    assert(buf =~= enc_message(t1, m1) + buf.subrange(n1, buf.len() as int));
    assert(buf =~= enc_message(t2, m2) + buf.subrange(n2, buf.len() as int));
    lemma_message_roundtrip(t1, m1, buf.subrange(n1, buf.len() as int));
    lemma_message_roundtrip(t2, m2, buf.subrange(n2, buf.len() as int));
}

impl OracleProtoMessage {
    /// The message's type and payload as values.
    pub open spec fn spec_parts(&self) -> (OracleProtoMessageId, MessageView) {
        (self.message_type, self.message@)
    }

    /// An attestations message.
    pub fn attestations(attestations: Vec<[u8; 20]>) -> (m: OracleProtoMessage)
        ensures
            m.message_type == OracleProtoMessageId::Attestations,
            m.message@ == MessageView::Attestations(addresses_view(attestations@)),
    {
        OracleProtoMessage {
            message_type: OracleProtoMessageId::Attestations,
            message: OracleProtoMessageKind::Attestations(attestations),
        }
    }

    /// A signed ticker message.
    pub fn signed_ticker(data: Box<SignedTicker>) -> (m: OracleProtoMessage)
        ensures
            m.message_type == OracleProtoMessageId::TickData,
            m.message@ == MessageView::SignedTicker((*data)@),
    {
        OracleProtoMessage {
            message_type: OracleProtoMessageId::TickData,
            message: OracleProtoMessageKind::SignedTicker(data),
        }
    }

    /// A ping message.
    pub fn ping() -> (m: OracleProtoMessage)
        ensures
            m.message_type == OracleProtoMessageId::Ping,
            m.message@ == MessageView::Ping,
    {
        OracleProtoMessage {
            message_type: OracleProtoMessageId::Ping,
            message: OracleProtoMessageKind::Ping,
        }
    }

    /// A pong message.
    pub fn pong() -> (m: OracleProtoMessage)
        ensures
            m.message_type == OracleProtoMessageId::Pong,
            m.message@ == MessageView::Pong,
    {
        OracleProtoMessage {
            message_type: OracleProtoMessageId::Pong,
            message: OracleProtoMessageKind::Pong,
        }
    }

    /// The message on the wire: its type byte, then the RLP encoding of its payload.
    /// Where its type agrees with its payload (as every constructor makes it), the
    /// message is well-formed and decoding the bytes gives it back, all of them
    /// read.
    pub fn encoded(&self) -> (v: Vec<u8>)
        ensures
            v@ == enc_message(self.message_type, self.message@),
            kind_matches(self.message_type, self.message@) ==> message_wf(
                self.message_type,
                self.message@,
            ) && dec_message(v@) == Some(self.spec_parts()),
    {
        let mut buf: Vec<u8> = Vec::new();
        buf.push(message_id_byte(self.message_type));
        match &self.message {
            OracleProtoMessageKind::Ping => {},
            OracleProtoMessageKind::Pong => {},
            OracleProtoMessageKind::Attestations(data) => {
                let mut payload: Vec<u8> = Vec::new();
                let mut i: usize = 0;
                while i < data.len()
                    invariant
                        i <= data.len(),
                        payload@ == enc_addrs(addresses_view(data@.take(i as int))),
                    decreases data.len() - i,
                {
                    encode_bytes_into(&mut payload, data[i].as_slice());
                    proof {
                        let before = addresses_view(data@.take(i as int));
                        assert(addresses_view(data@.take(i + 1)) =~= before.push(data@[i as int]@));
                        lemma_enc_addrs_push(before, data@[i as int]@);
                    }
                    i = i + 1;
                }
                assert(data@.take(i as int) =~= data@);
                assert(payload@.len() == payload.len());
                encode_list_into(&mut buf, payload.as_slice());
            },
            OracleProtoMessageKind::SignedTicker(data) => {
                data.encode_into(&mut buf);
            },
        }
        assert(buf@ =~= enc_message(self.message_type, self.message@));
        proof {
            if kind_matches(self.message_type, self.message@) {
                assert(buf@ + Seq::<u8>::empty() =~= buf@);
                lemma_message_roundtrip(self.message_type, self.message@, Seq::empty());
            }
        }
        buf
    }

    /// Reads the message at the start of `buf` and moves `buf` past it; `None`
    /// where the buffer starts with no well-formed message. A failed read moves
    /// past the message-type byte, where there is one.
    pub fn decode_message<'a>(buf: &mut &'a [u8]) -> (r: Option<OracleProtoMessage>)
        ensures
            r is None <==> dec_message(old(buf)@) is None,
            r matches Some(m) ==> dec_message(old(buf)@) == Some(m.spec_parts()),
            r matches Some(m) ==> message_wf(m.message_type, m.message@) && is_prefix(
                enc_message(m.message_type, m.message@),
                old(buf)@,
            ) && final(buf)@ == old(buf)@.subrange(
                enc_message(m.message_type, m.message@).len() as int,
                old(buf)@.len() as int,
            ),
            r is None ==> forall|t: OracleProtoMessageId, m: MessageView|
                message_wf(t, m) ==> !is_prefix(#[trigger] enc_message(t, m), old(buf)@),
            r is None ==> final(buf)@ == (if old(buf)@.len() == 0 {
                old(buf)@
            } else {
                old(buf)@.subrange(1, old(buf)@.len() as int)
            }),
    {
        let b: &'a [u8] = *buf;
        let r = Self::decode_parts(b);
        let n = b.len();
        proof {
            assert(n as nat == b@.len());
            if r is Some {
                lemma_message_sound(b@);
            } else {
                assert forall|t: OracleProtoMessageId, m: MessageView|
                    message_wf(t, m) implies !is_prefix(#[trigger] enc_message(t, m), b@) by {
                    if is_prefix(enc_message(t, m), b@) {
                        let k = enc_message(t, m).len() as int;
                        assert(b@ =~= enc_message(t, m) + b@.subrange(k, b@.len() as int));
                        lemma_message_roundtrip(t, m, b@.subrange(k, b@.len() as int));
                    }
                }
            }
        }
        match r {
            Some(m) => {
                let used = m.encoded().len();
                *buf = &b[used..n];
                Some(m)
            },
            None => {
                if n > 0 {
                    *buf = &b[1..n];
                }
                None
            },
        }
    }

    fn decode_parts(buf: &[u8]) -> (r: Option<OracleProtoMessage>)
        ensures
            r is None <==> dec_message(buf@) is None,
            r matches Some(m) ==> dec_message(buf@) == Some(m.spec_parts()),
    {
        if buf.len() == 0 {
            return None;
        }
        let id = buf[0];
        assert(rest(buf@, 1) =~= buf@.subrange(1, buf@.len() as int));
        if id == 0x00 {
            Some(Self::ping())
        } else if id == 0x01 {
            Some(Self::pong())
        } else if id == 0x02 {
            match SignedTicker::decode_at(buf, 1) {
                Some((st, _)) => Some(Self::signed_ticker(Box::new(st))),
                None => None,
            }
        } else if id == 0x03 {
            match decode_address_list(buf, 1) {
                Some((a, _)) => Some(Self::attestations(a)),
                None => None,
            }
        } else {
            None
        }
    }
}

/// Reads a list of addresses at `pos`.
pub fn decode_address_list(buf: &[u8], pos: usize) -> (r: Option<(Vec<[u8; 20]>, usize)>)
    requires
        pos <= buf.len(),
    ensures
        r is None <==> dec_addr_list(rest(buf@, pos as int)) is None,
        r matches Some((a, next)) ==> {
            &&& pos <= next <= buf.len()
            &&& dec_addr_list(rest(buf@, pos as int)) == Some(
                (addresses_view(a@), (next - pos) as nat),
            )
        },
{
    let ghost r = rest(buf@, pos as int);
    let (s, e) = match decode_list(buf, pos) {
        Some(x) => x,
        None => return None,
    };
    let payload = &buf[s..e];
    let ghost p = payload@;
    assert(p =~= r.subrange((s - pos) as int, (e - pos) as int));
    let mut out: Vec<[u8; 20]> = Vec::new();
    let mut cur: usize = 0;
    assert(p.subrange(0, p.len() as int) =~= p);
    assert(forall|tl: Seq<Seq<u8>>| addresses_view(out@) + tl =~= tl);
    while cur < payload.len()
        invariant
            cur <= payload.len(),
            p == payload@,
            pos <= s <= e <= buf.len(),
            r == rest(buf@, pos as int),
            p == r.subrange((s - pos) as int, (e - pos) as int),
            dec_list(r) == Some(((s - pos) as nat, (e - pos) as nat)),
            dec_addrs(p) == match dec_addrs(p.subrange(cur as int, p.len() as int)) {
                Some(tl) => Some(addresses_view(out@) + tl),
                None => None::<Seq<Seq<u8>>>,
            },
        decreases payload.len() - cur,
    {
        let ghost t = p.subrange(cur as int, p.len() as int);
        assert(rest(payload@, cur as int) =~= t);
        match decode_fixed(payload, cur, 20) {
            Some((xs, xe)) => {
                let x = to_address(&payload[xs..xe]);
                proof {
                    assert(payload@.subrange(xs as int, xe as int) =~= x@);
                    assert(t.subrange((xe - cur) as int, t.len() as int) =~= p.subrange(
                        xe as int,
                        p.len() as int,
                    ));
                    assert(addresses_view(out@.push(x)) =~= addresses_view(out@).push(x@));
                    match dec_addrs(p.subrange(xe as int, p.len() as int)) {
                        Some(tl) => {
                            assert(addresses_view(out@) + (seq![x@] + tl) =~= addresses_view(
                                out@,
                            ).push(x@) + tl);
                        },
                        None => {},
                    }
                }
                out.push(x);
                cur = xe;
            },
            None => {
                assert(dec_addrs(t) is None);
                return None;
            },
        }
    }
    assert(p.subrange(cur as int, p.len() as int) =~= Seq::<u8>::empty());
    assert(addresses_view(out@) + Seq::<Seq<u8>>::empty() =~= addresses_view(out@));
    Some((out, e))
}

} // verus!
