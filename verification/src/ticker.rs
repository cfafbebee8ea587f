//! Price ticker data as the oracle signs and gossips it, with its RLP encoding.
use vstd::prelude::*;
use vstd::utf8::*;
use crate::rlp::{
    decode_list, decode_text, decode_u64, dec_list, dec_text, dec_u64, enc_list, enc_text, enc_u64,
    encode_list_into, encode_text_into, encode_u64_into, is_prefix, lemma_dec_list_sound,
    lemma_dec_text_roundtrip, lemma_dec_text_sound, lemma_dec_u64_roundtrip, lemma_dec_u64_sound,
    lemma_parse_list, rest,
};

verus! {

/// What one field of a record holds.
pub enum FieldView {
    Text(Seq<char>),
    Int(u64),
}

/// The kind of a field.
#[derive(Clone, Copy, PartialEq, Eq, Structural)]
pub enum FieldKind {
    Text,
    Int,
}

pub open spec fn kind_of(f: FieldView) -> FieldKind {
    match f {
        FieldView::Text(_) => FieldKind::Text,
        FieldView::Int(_) => FieldKind::Int,
    }
}

/// Whether the fields are of the given kinds, one for one.
pub open spec fn has_kinds(fs: Seq<FieldView>, ks: Seq<FieldKind>) -> bool {
    &&& fs.len() == ks.len()
    &&& forall|i: int| 0 <= i < fs.len() ==> #[trigger] kind_of(fs[i]) == ks[i]
}

/// A field is encodable when its bytes have a length below `2^64`.
pub open spec fn field_wf(f: FieldView) -> bool {
    match f {
        FieldView::Text(s) => encode_utf8(s).len() < 0x1_0000_0000_0000_0000,
        FieldView::Int(_) => true,
    }
}

pub open spec fn fields_wf(fs: Seq<FieldView>) -> bool {
    forall|i: int| 0 <= i < fs.len() ==> #[trigger] field_wf(fs[i])
}

pub open spec fn enc_field(f: FieldView) -> Seq<u8> {
    match f {
        FieldView::Text(s) => enc_text(s),
        FieldView::Int(n) => enc_u64(n),
    }
}

/// The fields encoded one after the other.
pub open spec fn enc_fields(fs: Seq<FieldView>) -> Seq<u8>
    decreases fs.len(),
{
    if fs.len() == 0 {
        Seq::empty()
    } else {
        enc_fields(fs.drop_last()) + enc_field(fs.last())
    }
}

pub open spec fn dec_field(k: FieldKind, buf: Seq<u8>) -> Option<(FieldView, nat)> {
    match k {
        FieldKind::Text => match dec_text(buf) {
            Some((s, n)) => Some((FieldView::Text(s), n)),
            None => None,
        },
        FieldKind::Int => match dec_u64(buf) {
            Some((v, n)) => Some((FieldView::Int(v), n)),
            None => None,
        },
    }
}

/// Fields of the given kinds, read one after the other from the start of `buf`.
pub open spec fn dec_fields(ks: Seq<FieldKind>, buf: Seq<u8>) -> Option<(Seq<FieldView>, nat)>
    decreases ks.len(),
{
    if ks.len() == 0 {
        Some((Seq::empty(), 0))
    } else {
        match dec_fields(ks.drop_last(), buf) {
            Some((fs, k)) => if k <= buf.len() {
                match dec_field(ks.last(), buf.subrange(k as int, buf.len() as int)) {
                    Some((f, k2)) => Some((fs.push(f), k + k2)),
                    None => None,
                }
            } else {
                None
            },
            None => None,
        }
    }
}

/// Decoding a field of its kind gives back every well-formed field, whatever
/// follows it.
pub proof fn lemma_dec_field_roundtrip(f: FieldView, rest: Seq<u8>)
    requires
        field_wf(f),
    ensures
        dec_field(kind_of(f), enc_field(f) + rest) == Some((f, enc_field(f).len())),
{
    match f {
        FieldView::Text(s) => lemma_dec_text_roundtrip(s, rest),
        FieldView::Int(n) => lemma_dec_u64_roundtrip(n, rest),
    }
}

/// Whatever field decodes has the kind asked for, is well-formed and is encoded
/// canonically at the start of the buffer.
pub proof fn lemma_dec_field_sound(k: FieldKind, buf: Seq<u8>)
    requires
        dec_field(k, buf) is Some,
        buf.len() < 0x1_0000_0000_0000_0000,
    ensures
        ({
            let (f, n) = dec_field(k, buf).unwrap();
            &&& kind_of(f) == k
            &&& field_wf(f)
            &&& is_prefix(enc_field(f), buf)
            &&& enc_field(f).len() == n
        }),
{
    match k {
        FieldKind::Text => {
            lemma_dec_text_sound(buf);
        },
        FieldKind::Int => lemma_dec_u64_sound(buf),
    }
}

/// Decoding fields of their kinds gives back every well-formed run of fields,
/// whatever follows it.
pub proof fn lemma_dec_fields_roundtrip(fs: Seq<FieldView>, rest: Seq<u8>)
    requires
        fields_wf(fs),
    ensures
        forall|ks: Seq<FieldKind>|
            has_kinds(fs, ks) ==> #[trigger] dec_fields(ks, enc_fields(fs) + rest) == Some(
                (fs, enc_fields(fs).len()),
            ),
    decreases fs.len(),
{
    if fs.len() > 0 {
        let init = fs.drop_last();
        let last = fs.last();
        assert(field_wf(fs[fs.len() - 1]));
        assert(fields_wf(init)) by {
            assert forall|i: int| 0 <= i < init.len() implies #[trigger] field_wf(init[i]) by {
                assert(init[i] == fs[i]);
            }
        }
        let tail = enc_field(last) + rest;
        lemma_dec_fields_roundtrip(init, tail);
        assert(enc_fields(fs) + rest =~= enc_fields(init) + tail);
        let buf = enc_fields(fs) + rest;
        let k = enc_fields(init).len();
        assert(buf.subrange(k as int, buf.len() as int) =~= tail);
        lemma_dec_field_roundtrip(last, rest);
        assert(init.push(last) =~= fs);
        assert forall|ks: Seq<FieldKind>| has_kinds(fs, ks) implies #[trigger] dec_fields(
            ks,
            enc_fields(fs) + rest,
        ) == Some((fs, enc_fields(fs).len())) by {
            assert(has_kinds(init, ks.drop_last())) by {
                assert forall|i: int| 0 <= i < init.len() implies #[trigger] kind_of(init[i])
                    == ks.drop_last()[i] by {
                    assert(kind_of(fs[i]) == ks[i]);
                }
            }
            assert(kind_of(fs[fs.len() - 1]) == ks[ks.len() - 1]);
            assert(ks.last() == kind_of(last));
            assert(dec_fields(ks.drop_last(), enc_fields(init) + tail) == Some((init, k)));
            assert(dec_fields(ks.drop_last(), buf) == Some((init, k)));
            assert(dec_field(ks.last(), buf.subrange(k as int, buf.len() as int)) == Some(
                (last, enc_field(last).len()),
            ));
        }
    } else {
        assert(enc_fields(fs) + rest =~= rest);
    }
}

/// Whatever fields decode have the kinds asked for, are well-formed and are
/// encoded canonically at the start of the buffer.
pub proof fn lemma_dec_fields_sound(ks: Seq<FieldKind>, buf: Seq<u8>)
    requires
        dec_fields(ks, buf) is Some,
        buf.len() < 0x1_0000_0000_0000_0000,
    ensures
        ({
            let (fs, n) = dec_fields(ks, buf).unwrap();
            &&& has_kinds(fs, ks)
            &&& fields_wf(fs)
            &&& is_prefix(enc_fields(fs), buf)
            &&& enc_fields(fs).len() == n
        }),
    decreases ks.len(),
{
    if ks.len() == 0 {
        assert(buf.subrange(0, 0) =~= Seq::<u8>::empty());
    } else {
        lemma_dec_fields_sound(ks.drop_last(), buf);
        let (fs0, k) = dec_fields(ks.drop_last(), buf).unwrap();
        let tail = buf.subrange(k as int, buf.len() as int);
        lemma_dec_field_sound(ks.last(), tail);
        let (f, k2) = dec_field(ks.last(), tail).unwrap();
        let fs = fs0.push(f);
        assert(fs.drop_last() =~= fs0);
        assert(has_kinds(fs, ks)) by {
            assert forall|i: int| 0 <= i < fs.len() implies #[trigger] kind_of(fs[i]) == ks[i] by {
                if i < fs0.len() {
                    assert(fs[i] == fs0[i]);
                    assert(kind_of(fs0[i]) == ks.drop_last()[i]);
                }
            }
        }
        assert(fields_wf(fs)) by {
            assert forall|i: int| 0 <= i < fs.len() implies #[trigger] field_wf(fs[i]) by {
                if i < fs0.len() {
                    assert(fs[i] == fs0[i]);
                }
            }
        }
        assert(k <= buf.len());
        assert(k2 <= tail.len());
        assert(fs.last() == f);
        assert(enc_fields(fs) == enc_fields(fs0) + enc_field(f));
        assert(buf.subrange(0, (k + k2) as int) =~= buf.subrange(0, k as int) + tail.subrange(
            0,
            k2 as int,
        ));
        assert(is_prefix(enc_fields(fs), buf));
        assert(dec_fields(ks, buf) == Some((fs, k + k2)));
    }
}

/// The kinds of the ticker's fields, in order.
pub open spec fn ticker_kinds() -> Seq<FieldKind> {
    seq![
        FieldKind::Text, FieldKind::Int, FieldKind::Text, FieldKind::Text, FieldKind::Text,
        FieldKind::Text, FieldKind::Text, FieldKind::Text, FieldKind::Text, FieldKind::Text,
        FieldKind::Text, FieldKind::Text, FieldKind::Text, FieldKind::Text, FieldKind::Text,
        FieldKind::Text, FieldKind::Text, FieldKind::Text, FieldKind::Int, FieldKind::Int,
        FieldKind::Int, FieldKind::Int, FieldKind::Int,
    ]
}

fn ticker_kind(i: usize) -> (k: FieldKind)
    requires
        i < 23,
    ensures
        k == ticker_kinds()[i as int],
{
    if i == 1 || i >= 18 {
        FieldKind::Int
    } else {
        FieldKind::Text
    }
}

/// Binance ticker data, the record that the oracle signs.
#[derive(Clone, Debug, PartialEq, Eq, Default)]
pub struct Ticker {
    /// Event type (e.g., "24hrTicker")
    pub event_type: String,
    /// Event time (timestamp)
    pub event_time: u64,
    /// Trading pair symbol
    pub symbol: String,
    /// Price change over the last 24 hours
    pub price_change: String,
    /// Price change percent
    pub price_change_percent: String,
    /// Weighted average price
    pub weighted_avg_price: String,
    /// Previous day's close price
    pub prev_close_price: String,
    /// Current price (last trade price)
    pub last_price: String,
    /// Last quantity traded
    pub last_quantity: String,
    /// Best bid price
    pub best_bid_price: String,
    /// Best bid quantity
    pub best_bid_quantity: String,
    /// Best ask price
    pub best_ask_price: String,
    /// Best ask quantity
    pub best_ask_quantity: String,
    /// Open price for the 24-hour period
    pub open_price: String,
    /// High price of the 24-hour period
    pub high_price: String,
    /// Low price of the 24-hour period
    pub low_price: String,
    /// Total traded volume of the base asset
    pub volume: String,
    /// Total traded volume of the quote asset
    pub quote_volume: String,
    /// Open time (timestamp)
    pub open_time: u64,
    /// Close time (timestamp)
    pub close_time: u64,
    /// First trade ID
    pub first_trade_id: u64,
    /// Last trade ID
    pub last_trade_id: u64,
    /// Total number of trades
    pub num_trades: u64,
}

impl View for Ticker {
    /// The fields in the order in which they are encoded.
    type V = Seq<FieldView>;

    open spec fn view(&self) -> Seq<FieldView> {
        seq![
            FieldView::Text(self.event_type@),
            FieldView::Int(self.event_time),
            FieldView::Text(self.symbol@),
            FieldView::Text(self.price_change@),
            FieldView::Text(self.price_change_percent@),
            FieldView::Text(self.weighted_avg_price@),
            FieldView::Text(self.prev_close_price@),
            FieldView::Text(self.last_price@),
            FieldView::Text(self.last_quantity@),
            FieldView::Text(self.best_bid_price@),
            FieldView::Text(self.best_bid_quantity@),
            FieldView::Text(self.best_ask_price@),
            FieldView::Text(self.best_ask_quantity@),
            FieldView::Text(self.open_price@),
            FieldView::Text(self.high_price@),
            FieldView::Text(self.low_price@),
            FieldView::Text(self.volume@),
            FieldView::Text(self.quote_volume@),
            FieldView::Int(self.open_time),
            FieldView::Int(self.close_time),
            FieldView::Int(self.first_trade_id),
            FieldView::Int(self.last_trade_id),
            FieldView::Int(self.num_trades),
        ]
    }
}

/// A ticker's view: 23 encodable fields of the ticker's kinds.
pub open spec fn ticker_view_wf(t: Seq<FieldView>) -> bool {
    &&& has_kinds(t, ticker_kinds())
    &&& fields_wf(t)
}

/// The RLP encoding of a ticker: a list of its fields.
pub open spec fn enc_ticker(t: Seq<FieldView>) -> Seq<u8> {
    enc_list(enc_fields(t))
}

/// A ticker at the start of `buf`. As a derived RLP decoder does, the fields are
/// read from the rest of the buffer and must end exactly where the list ends.
pub open spec fn dec_ticker(buf: Seq<u8>) -> Option<(Seq<FieldView>, nat)> {
    match dec_list(buf) {
        Some((s, e)) => match dec_fields(ticker_kinds(), buf.subrange(s as int, buf.len() as int)) {
            Some((fs, k)) => if s + k == e {
                Some((fs, e))
            } else {
                None
            },
            None => None,
        },
        None => None,
    }
}

/// Decoding gives back every well-formed ticker, whatever follows it.
pub proof fn lemma_ticker_roundtrip(t: Seq<FieldView>, rest: Seq<u8>)
    requires
        ticker_view_wf(t),
        enc_fields(t).len() < 0x1_0000_0000_0000_0000,
    ensures
        dec_ticker(enc_ticker(t) + rest) == Some((t, enc_ticker(t).len())),
{
    let p = enc_fields(t);
    lemma_parse_list(p, rest);
    let buf = enc_ticker(t) + rest;
    let s = (enc_list(p).len() - p.len()) as nat;
    assert(buf.subrange(s as int, buf.len() as int) =~= p + rest);
    lemma_dec_fields_roundtrip(t, rest);
}

/// Whatever ticker decodes is well-formed and encoded canonically at the start
/// of the buffer.
pub proof fn lemma_ticker_sound(buf: Seq<u8>)
    requires
        dec_ticker(buf) is Some,
        buf.len() < 0x1_0000_0000_0000_0000,
    ensures
        ({
            let (t, n) = dec_ticker(buf).unwrap();
            &&& ticker_view_wf(t)
            &&& is_prefix(enc_ticker(t), buf)
            &&& enc_ticker(t).len() == n
        }),
{
    let (s, e) = dec_list(buf).unwrap();
    lemma_dec_list_sound(buf);
    let tail = buf.subrange(s as int, buf.len() as int);
    lemma_dec_fields_sound(ticker_kinds(), tail);
    let (t, k) = dec_fields(ticker_kinds(), tail).unwrap();
    assert(enc_fields(t) =~= buf.subrange(s as int, e as int)) by {
        assert(tail.subrange(0, k as int) =~= buf.subrange(s as int, e as int));
    }
}

/// One field of a record, as the codec handles it.
pub enum Field {
    Text(String),
    Int(u64),
}

impl View for Field {
    type V = FieldView;

    open spec fn view(&self) -> FieldView {
        match self {
            Field::Text(s) => FieldView::Text(s@),
            Field::Int(n) => FieldView::Int(*n),
        }
    }
}

pub open spec fn fields_view(v: Seq<Field>) -> Seq<FieldView> {
    v.map_values(|f: Field| f@)
}

proof fn lemma_enc_fields_push(fs: Seq<FieldView>, f: FieldView)
    ensures
        enc_fields(fs.push(f)) == enc_fields(fs) + enc_field(f),
{
    assert(fs.push(f).drop_last() =~= fs);
}

/// Appends the fields, encoded one after the other.
fn encode_fields_into(out: &mut Vec<u8>, fields: &Vec<Field>)
    ensures
        final(out)@ == old(out)@ + enc_fields(fields_view(fields@)),
        fields_wf(fields_view(fields@)),
{
    let mut i: usize = 0;
    while i < fields.len()
        invariant
            i <= fields.len(),
            out@ == old(out)@ + enc_fields(fields_view(fields@.take(i as int))),
            fields_wf(fields_view(fields@.take(i as int))),
        decreases fields.len() - i,
    {
        let ghost before = out@;
        match &fields[i] {
            Field::Text(s) => {
                let bytes = s.as_str().as_bytes();
                let n = bytes.len();
                assert(n as nat == encode_utf8(s@).len());
                assert(fields@[i as int]@ == FieldView::Text(s@));
                assert(field_wf(fields@[i as int]@));
                encode_text_into(out, s.as_str());
            },
            Field::Int(n) => {
                encode_u64_into(out, *n);
            },
        }
        proof {
            let fv = fields_view(fields@.take(i as int));
            assert(fields_view(fields@.take(i + 1)) =~= fv.push(fields@[i as int]@));
            lemma_enc_fields_push(fv, fields@[i as int]@);
            let nv = fv.push(fields@[i as int]@);
            assert forall|j: int| 0 <= j < nv.len() implies #[trigger] field_wf(nv[j]) by {
                if j < fv.len() {
                    assert(nv[j] == fv[j]);
                }
            }
        }
        i = i + 1;
    }
    assert(fields@.take(i as int) =~= fields@);
}

/// Reads fields of the ticker's kinds starting at `pos`.
fn decode_ticker_fields(buf: &[u8], pos: usize) -> (r: Option<(Vec<Field>, usize)>)
    requires
        pos <= buf.len(),
    ensures
        r is None <==> dec_fields(ticker_kinds(), rest(buf@, pos as int)) is None,
        r matches Some((fs, next)) ==> {
            &&& pos <= next <= buf.len()
            &&& dec_fields(ticker_kinds(), rest(buf@, pos as int)) == Some(
                (fields_view(fs@), (next - pos) as nat),
            )
        },
{
    let ghost r = rest(buf@, pos as int);
    let mut fields: Vec<Field> = Vec::new();
    let mut cur = pos;
    let mut i: usize = 0;
    while i < 23
        invariant
            i <= 23,
            pos <= cur <= buf.len(),
            r == rest(buf@, pos as int),
            dec_fields(ticker_kinds().take(i as int), r) == Some(
                (fields_view(fields@), (cur - pos) as nat),
            ),
        decreases 23 - i,
    {
        let k = ticker_kind(i);
        let ghost ks = ticker_kinds().take(i + 1);
        assert(ks.drop_last() =~= ticker_kinds().take(i as int));
        assert(ks.last() == k);
        assert(rest(buf@, cur as int) =~= r.subrange((cur - pos) as int, r.len() as int));
        match k {
            FieldKind::Text => match decode_text(buf, cur) {
                Some((s, next)) => {
                    let ghost old_fields = fields@;
                    fields.push(Field::Text(s));
                    assert(fields_view(fields@) =~= fields_view(old_fields).push(
                        FieldView::Text(s@),
                    ));
                    cur = next;
                },
                None => {
                    proof { lemma_dec_fields_none_extends(ticker_kinds(), r, (i + 1) as nat) }
                    return None;
                },
            },
            FieldKind::Int => match decode_u64(buf, cur) {
                Some((n, next)) => {
                    let ghost old_fields = fields@;
                    fields.push(Field::Int(n));
                    assert(fields_view(fields@) =~= fields_view(old_fields).push(
                        FieldView::Int(n),
                    ));
                    cur = next;
                },
                None => {
                    proof { lemma_dec_fields_none_extends(ticker_kinds(), r, (i + 1) as nat) }
                    return None;
                },
            },
        }
        i = i + 1;
    }
    assert(ticker_kinds().take(23) =~= ticker_kinds());
    Some((fields, cur))
}

/// Once a prefix of the kinds fails to decode, so do all longer prefixes.
proof fn lemma_dec_fields_none_extends(ks: Seq<FieldKind>, buf: Seq<u8>, i: nat)
    requires
        i <= ks.len(),
        dec_fields(ks.take(i as int), buf) is None,
    ensures
        dec_fields(ks, buf) is None,
    decreases ks.len() - i,
{
    if i < ks.len() {
        let next = ks.take(i + 1 as int);
        assert(next.drop_last() =~= ks.take(i as int));
        lemma_dec_fields_none_extends(ks, buf, i + 1);
    } else {
        assert(ks.take(i as int) =~= ks);
    }
}

fn text_at(fields: &Vec<Field>, i: usize) -> (s: String)
    requires
        i < fields@.len(),
        fields@[i as int] is Text,
    ensures
        fields@[i as int]@ == FieldView::Text(s@),
{
    match &fields[i] {
        Field::Text(s) => s.clone(),
        Field::Int(_) => {
            assert(false);
            String::new()
        },
    }
}

fn int_at(fields: &Vec<Field>, i: usize) -> (n: u64)
    requires
        i < fields@.len(),
        fields@[i as int] is Int,
    ensures
        fields@[i as int]@ == FieldView::Int(n),
{
    match &fields[i] {
        Field::Int(n) => *n,
        Field::Text(_) => {
            assert(false);
            0
        },
    }
}

impl Ticker {
    /// The fields in encoding order.
    pub fn fields(&self) -> (v: Vec<Field>)
        ensures
            fields_view(v@) == self@,
    {
        let mut v: Vec<Field> = Vec::new();
        v.push(Field::Text(self.event_type.clone()));
        v.push(Field::Int(self.event_time));
        v.push(Field::Text(self.symbol.clone()));
        v.push(Field::Text(self.price_change.clone()));
        v.push(Field::Text(self.price_change_percent.clone()));
        v.push(Field::Text(self.weighted_avg_price.clone()));
        v.push(Field::Text(self.prev_close_price.clone()));
        v.push(Field::Text(self.last_price.clone()));
        v.push(Field::Text(self.last_quantity.clone()));
        v.push(Field::Text(self.best_bid_price.clone()));
        v.push(Field::Text(self.best_bid_quantity.clone()));
        v.push(Field::Text(self.best_ask_price.clone()));
        v.push(Field::Text(self.best_ask_quantity.clone()));
        v.push(Field::Text(self.open_price.clone()));
        v.push(Field::Text(self.high_price.clone()));
        v.push(Field::Text(self.low_price.clone()));
        v.push(Field::Text(self.volume.clone()));
        v.push(Field::Text(self.quote_volume.clone()));
        v.push(Field::Int(self.open_time));
        v.push(Field::Int(self.close_time));
        v.push(Field::Int(self.first_trade_id));
        v.push(Field::Int(self.last_trade_id));
        v.push(Field::Int(self.num_trades));
        assert(fields_view(v@) =~= self@);
        v
    }

    /// Builds a ticker from its fields in encoding order.
    pub fn from_fields(fields: &Vec<Field>) -> (t: Ticker)
        requires
            has_kinds(fields_view(fields@), ticker_kinds()),
        ensures
            t@ == fields_view(fields@),
    {
        let ghost fv = fields_view(fields@);
        assert(fields@.len() == 23);
        assert forall|i: int| 0 <= i < 23 implies (#[trigger] fields@[i] is Text) == (ticker_kinds()[i] == FieldKind::Text) by {
            assert(fv[i] == fields@[i]@);
            assert(kind_of(fv[i]) == ticker_kinds()[i]);
        }
        let t = Ticker {
            event_type: text_at(fields, 0),
            event_time: int_at(fields, 1),
            symbol: text_at(fields, 2),
            price_change: text_at(fields, 3),
            price_change_percent: text_at(fields, 4),
            weighted_avg_price: text_at(fields, 5),
            prev_close_price: text_at(fields, 6),
            last_price: text_at(fields, 7),
            last_quantity: text_at(fields, 8),
            best_bid_price: text_at(fields, 9),
            best_bid_quantity: text_at(fields, 10),
            best_ask_price: text_at(fields, 11),
            best_ask_quantity: text_at(fields, 12),
            open_price: text_at(fields, 13),
            high_price: text_at(fields, 14),
            low_price: text_at(fields, 15),
            volume: text_at(fields, 16),
            quote_volume: text_at(fields, 17),
            open_time: int_at(fields, 18),
            close_time: int_at(fields, 19),
            first_trade_id: int_at(fields, 20),
            last_trade_id: int_at(fields, 21),
            num_trades: int_at(fields, 22),
        };
        assert(t@ =~= fv);
        t
    }

    /// Appends the RLP encoding of the ticker.
    pub fn encode_into(&self, out: &mut Vec<u8>)
        ensures
            final(out)@ == old(out)@ + enc_ticker(self@),
            ticker_view_wf(self@),
    {
        let fields = self.fields();
        let mut payload: Vec<u8> = Vec::new();
        encode_fields_into(&mut payload, &fields);
        assert(payload@ =~= enc_fields(self@));
        encode_list_into(out, payload.as_slice());
    }

    /// The RLP encoding of the ticker, the bytes that the oracle signs.
    pub fn encoded(&self) -> (v: Vec<u8>)
        ensures
            v@ == enc_ticker(self@),
            ticker_view_wf(self@),
    {
        let mut v: Vec<u8> = Vec::new();
        self.encode_into(&mut v);
        assert(v@ =~= enc_ticker(self@));
        v
    }

    /// Reads a ticker at `pos`.
    pub fn decode_at(buf: &[u8], pos: usize) -> (r: Option<(Ticker, usize)>)
        requires
            pos <= buf.len(),
        ensures
            r is None <==> dec_ticker(rest(buf@, pos as int)) is None,
            r matches Some((t, next)) ==> {
                &&& pos <= next <= buf.len()
                &&& dec_ticker(rest(buf@, pos as int)) == Some((t@, (next - pos) as nat))
            },
    {
        let ghost r = rest(buf@, pos as int);
        match decode_list(buf, pos) {
            Some((s, e)) => {
                assert(rest(buf@, s as int) =~= r.subrange((s - pos) as int, r.len() as int));
                match decode_ticker_fields(buf, s) {
                    Some((fields, next)) => {
                        if next != e {
                            return None;
                        }
                        proof {
                            lemma_dec_fields_sound(ticker_kinds(), rest(buf@, s as int));
                        }
                        assert(fields@.len() == fields_view(fields@).len());
                        let t = Ticker::from_fields(&fields);
                        Some((t, e))
                    },
                    None => None,
                }
            },
            None => None,
        }
    }
}

} // verus!
