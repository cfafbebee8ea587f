//! Recursive-length-prefix (RLP) encoding: byte strings, unsigned integers,
//! text and lists, with a decoder that accepts exactly the canonical encodings.
use vstd::prelude::*;
use vstd::utf8::*;

verus! {

// ---------------------------------------------------------------------------
// Mathematical model
// ---------------------------------------------------------------------------

/// `256^k`.
pub open spec fn pow256(k: nat) -> nat
    decreases k,
{
    if k == 0 { 1 } else { 256 * pow256((k - 1) as nat) }
}

/// Minimal big-endian bytes of `n` (`0` has none).
pub open spec fn be_bytes(n: nat) -> Seq<u8>
    decreases n,
{
    if n == 0 {
        Seq::empty()
    } else {
        be_bytes(n / 256).push((n % 256) as u8)
    }
}

/// The number that big-endian bytes stand for.
pub open spec fn be_value(s: Seq<u8>) -> nat
    decreases s.len(),
{
    if s.len() == 0 {
        0
    } else {
        (be_value(s.drop_last()) * 256 + s.last()) as nat
    }
}

/// The prefix that announces a payload of `len` bytes; `offset` is `0x80` for a
/// byte string and `0xc0` for a list.
pub open spec fn length_prefix(offset: int, len: nat) -> Seq<u8> {
    if len <= 55 {
        seq![(offset + len) as u8]
    } else {
        seq![(offset + 55 + be_bytes(len).len()) as u8] + be_bytes(len)
    }
}

/// Encoding of a byte string.
pub open spec fn enc_bytes(b: Seq<u8>) -> Seq<u8> {
    if b.len() == 1 && b[0] < 0x80 {
        b
    } else {
        length_prefix(0x80, b.len()) + b
    }
}

/// Encoding of an unsigned integer: the byte string of its minimal big-endian bytes.
pub open spec fn enc_u64(n: u64) -> Seq<u8> {
    enc_bytes(be_bytes(n as nat))
}

/// Encoding of text: the byte string of its UTF-8 bytes.
pub open spec fn enc_text(s: Seq<char>) -> Seq<u8> {
    enc_bytes(encode_utf8(s))
}

/// Encoding of a list whose items, encoded one after the other, are `payload`.
pub open spec fn enc_list(payload: Seq<u8>) -> Seq<u8> {
    length_prefix(0xc0, payload.len()) + payload
}

/// Whether `prefix` stands at the start of `buf`.
pub open spec fn is_prefix(prefix: Seq<u8>, buf: Seq<u8>) -> bool {
    prefix.len() <= buf.len() && buf.subrange(0, prefix.len() as int) == prefix
}

/// The header at the start of `buf`: whether it opens a list, where its payload
/// starts and how long the payload is. `None` where the header is not canonical
/// or announces more bytes than `buf` holds.
pub open spec fn parse_header(buf: Seq<u8>) -> Option<(bool, nat, nat)> {
    if buf.len() == 0 {
        None
    } else {
        let b = buf[0];
        if b < 0x80 {
            Some((false, 0, 1))
        } else if b <= 0xb7 {
            let len = (b - 0x80) as nat;
            if len == 1 && (buf.len() < 2 || buf[1] < 0x80) {
                None
            } else if buf.len() < 1 + len {
                None
            } else {
                Some((false, 1, len))
            }
        } else if b <= 0xbf || b >= 0xf8 {
            let lol = (if b >= 0xf8 { b - 0xf7 } else { b - 0xb7 }) as nat;
            if buf.len() < 1 + lol {
                None
            } else if buf[1] == 0 {
                None
            } else {
                let len = be_value(buf.subrange(1, 1 + lol as int));
                if len < 56 {
                    None
                } else if buf.len() < 1 + lol + len {
                    None
                } else {
                    Some((b >= 0xf8, 1 + lol, len))
                }
            }
        } else {
            let len = (b - 0xc0) as nat;
            if buf.len() < 1 + len {
                None
            } else {
                Some((true, 1, len))
            }
        }
    }
}

/// A byte string at the start of `buf`: its payload and the length of its encoding.
pub open spec fn dec_bytes(buf: Seq<u8>) -> Option<(Seq<u8>, nat)> {
    match parse_header(buf) {
        Some((list, s, l)) => if list {
            None
        } else {
            Some((buf.subrange(s as int, (s + l) as int), s + l))
        },
        None => None,
    }
}

/// An unsigned integer at the start of `buf`.
pub open spec fn dec_u64(buf: Seq<u8>) -> Option<(u64, nat)> {
    match dec_bytes(buf) {
        Some((p, k)) => if p.len() <= 8 && (p.len() == 0 || p[0] != 0) {
            Some((be_value(p) as u64, k))
        } else {
            None
        },
        None => None,
    }
}

/// A byte string of exactly `n` bytes at the start of `buf`.
pub open spec fn dec_fixed(buf: Seq<u8>, n: nat) -> Option<(Seq<u8>, nat)> {
    match dec_bytes(buf) {
        Some((p, k)) => if p.len() == n {
            Some((p, k))
        } else {
            None
        },
        None => None,
    }
}

/// Text at the start of `buf`; its bytes must be UTF-8.
pub open spec fn dec_text(buf: Seq<u8>) -> Option<(Seq<char>, nat)> {
    match dec_bytes(buf) {
        Some((p, k)) => if valid_utf8(p) {
            Some((decode_utf8(p), k))
        } else {
            None
        },
        None => None,
    }
}

/// A list at the start of `buf`: where its payload starts and ends.
pub open spec fn dec_list(buf: Seq<u8>) -> Option<(nat, nat)> {
    match parse_header(buf) {
        Some((list, s, l)) => if list {
            Some((s, s + l))
        } else {
            None
        },
        None => None,
    }
}

// ---------------------------------------------------------------------------
// Lemmas on big-endian numbers
// ---------------------------------------------------------------------------

/// Reading the big-endian bytes of a number gives the number back.
pub proof fn lemma_be_value_of_be_bytes(n: nat)
    ensures
        be_value(be_bytes(n)) == n,
    decreases n,
{
    if n > 0 {
        lemma_be_value_of_be_bytes(n / 256);
        let s = be_bytes(n);
        assert(s.drop_last() =~= be_bytes(n / 256));
    }
}

/// The big-endian bytes of a positive number do not start with zero.
pub proof fn lemma_be_bytes_leading(n: nat)
    requires
        n > 0,
    ensures
        be_bytes(n).len() > 0,
        be_bytes(n)[0] != 0,
    decreases n,
{
    if n / 256 > 0 {
        lemma_be_bytes_leading(n / 256);
    } else {
        assert(be_bytes(n / 256).len() == 0);
    }
}

/// A number below `256^k` takes at most `k` big-endian bytes.
pub proof fn lemma_be_bytes_len(n: nat, k: nat)
    requires
        n < pow256(k),
    ensures
        be_bytes(n).len() <= k,
    decreases k,
{
    if n > 0 {
        assert(k > 0);
        lemma_be_bytes_len(n / 256, (k - 1) as nat);
    }
}

/// The value of `k` big-endian bytes is below `256^k`.
pub proof fn lemma_be_value_bound(s: Seq<u8>)
    ensures
        be_value(s) < pow256(s.len()),
    decreases s.len(),
{
    if s.len() > 0 {
        lemma_be_value_bound(s.drop_last());
        let v = be_value(s.drop_last());
        let p = pow256((s.len() - 1) as nat);
        assert(v * 256 + s.last() < 256 * p) by (nonlinear_arith)
            requires
                v < p,
                s.last() < 256,
        ;
    }
}

/// Bytes without a leading zero are the big-endian bytes of their value.
pub proof fn lemma_be_bytes_of_be_value(s: Seq<u8>)
    requires
        s.len() > 0,
        s[0] != 0,
    ensures
        be_value(s) > 0,
        be_bytes(be_value(s)) =~= s,
    decreases s.len(),
{
    let d = s.drop_last();
    let b = s.last();
    if s.len() == 1 {
        assert(be_value(d) == 0);
        assert(be_value(s) == b);
        assert(be_bytes((b as nat) / 256).len() == 0);
    } else {
        lemma_be_bytes_of_be_value(d);
        let v = be_value(d);
        let n = be_value(s);
        assert(n == v * 256 + b);
        assert((v * 256 + b) / 256 == v && (v * 256 + b) % 256 == b) by (nonlinear_arith)
            requires
                0 <= b < 256,
                v >= 0,
        ;
    }
}

/// `256^8` is `2^64`.
pub proof fn lemma_pow256_8()
    ensures
        pow256(8) == 0x1_0000_0000_0000_0000,
{
    reveal_with_fuel(pow256, 9);
}

/// Lengths below `2^64` take at most eight big-endian bytes.
pub proof fn lemma_be_bytes_len_u64(n: nat)
    requires
        n < 0x1_0000_0000_0000_0000,
    ensures
        be_bytes(n).len() <= 8,
{
    lemma_pow256_8();
    lemma_be_bytes_len(n, 8);
}

// ---------------------------------------------------------------------------
// Lemmas on headers: every canonical encoding parses, and whatever parses is canonical
// ---------------------------------------------------------------------------

/// The length of the prefix that `enc_bytes(p)` puts before `p`.
pub open spec fn bytes_prefix_len(p: Seq<u8>) -> nat {
    (enc_bytes(p).len() - p.len()) as nat
}

/// The header of an encoded byte string reads back as a string header with its
/// payload, whatever follows the encoding.
pub proof fn lemma_parse_bytes(p: Seq<u8>, rest: Seq<u8>)
    requires
        p.len() < 0x1_0000_0000_0000_0000,
    ensures
        parse_header(enc_bytes(p) + rest) == Some((false, bytes_prefix_len(p), p.len())),
        (enc_bytes(p) + rest).subrange(bytes_prefix_len(p) as int, (bytes_prefix_len(p) + p.len()) as int) =~= p,
        dec_bytes(enc_bytes(p) + rest) == Some((p, enc_bytes(p).len())),
{
    let buf = enc_bytes(p) + rest;
    let len = p.len();
    if len == 1 && p[0] < 0x80 {
    } else if len <= 55 {
        if len == 1 {
            assert(buf[1] == p[0]);
        }
    } else {
        let lb = be_bytes(len);
        lemma_be_bytes_len_u64(len);
        lemma_be_bytes_leading(len);
        lemma_be_value_of_be_bytes(len);
        assert(buf.subrange(1, 1 + lb.len() as int) =~= lb);
        assert(buf[1] == lb[0]);
    }
    assert(buf.subrange(bytes_prefix_len(p) as int, (bytes_prefix_len(p) + p.len()) as int) =~= p);
}

/// The header of an encoded list reads back as a list header with its payload,
/// whatever follows the encoding.
pub proof fn lemma_parse_list(payload: Seq<u8>, rest: Seq<u8>)
    requires
        payload.len() < 0x1_0000_0000_0000_0000,
    ensures
        parse_header(enc_list(payload) + rest) == Some(
            (true, (enc_list(payload).len() - payload.len()) as nat, payload.len()),
        ),
        dec_list(enc_list(payload) + rest) == Some(
            ((enc_list(payload).len() - payload.len()) as nat, enc_list(payload).len()),
        ),
        (enc_list(payload) + rest).subrange(
            (enc_list(payload).len() - payload.len()) as int,
            enc_list(payload).len() as int,
        ) =~= payload,
{
    let buf = enc_list(payload) + rest;
    let len = payload.len();
    if len > 55 {
        let lb = be_bytes(len);
        lemma_be_bytes_len_u64(len);
        lemma_be_bytes_leading(len);
        lemma_be_value_of_be_bytes(len);
        assert(buf.subrange(1, 1 + lb.len() as int) =~= lb);
        assert(buf[1] == lb[0]);
    }
}

/// Whatever header parses is the canonical prefix of its payload.
pub proof fn lemma_parsed_is_canonical(buf: Seq<u8>)
    requires
        parse_header(buf) is Some,
    ensures
        ({
            let (list, s, l) = parse_header(buf).unwrap();
            let p = buf.subrange(s as int, (s + l) as int);
            &&& s + l <= buf.len()
            &&& buf.subrange(0, (s + l) as int) =~= (if list {
                enc_list(p)
            } else {
                enc_bytes(p)
            })
        }),
{
    let (list, s, l) = parse_header(buf).unwrap();
    let p = buf.subrange(s as int, (s + l) as int);
    let b = buf[0];
    if b < 0x80 {
        assert(p =~= seq![b]);
    } else if b <= 0xb7 {
        assert(buf.subrange(0, (s + l) as int) =~= seq![b] + p);
    } else if b <= 0xbf || b >= 0xf8 {
        let lol = (if b >= 0xf8 { b - 0xf7 } else { b - 0xb7 }) as nat;
        let lenb = buf.subrange(1, 1 + lol as int);
        lemma_be_bytes_of_be_value(lenb);
        assert(buf.subrange(0, (s + l) as int) =~= seq![b] + lenb + p);
    } else {
        assert(buf.subrange(0, (s + l) as int) =~= seq![b] + p);
    }
}

/// Decoding a byte string finds exactly the canonical encoding at the start of the buffer.
pub proof fn lemma_dec_bytes_sound(buf: Seq<u8>)
    requires
        dec_bytes(buf) is Some,
    ensures
        is_prefix(enc_bytes(dec_bytes(buf).unwrap().0), buf),
        enc_bytes(dec_bytes(buf).unwrap().0).len() == dec_bytes(buf).unwrap().1,
{
    lemma_parsed_is_canonical(buf);
}

/// Whatever list header decodes is the canonical header of the payload it
/// delimits, at the start of the buffer.
pub proof fn lemma_dec_list_sound(buf: Seq<u8>)
    requires
        dec_list(buf) is Some,
    ensures
        ({
            let (s, e) = dec_list(buf).unwrap();
            &&& s <= e <= buf.len()
            &&& is_prefix(enc_list(buf.subrange(s as int, e as int)), buf)
            &&& enc_list(buf.subrange(s as int, e as int)).len() == e
        }),
{
    lemma_parsed_is_canonical(buf);
}

/// Decoding gives back every encoded number, whatever follows it.
pub proof fn lemma_dec_u64_roundtrip(n: u64, rest: Seq<u8>)
    ensures
        dec_u64(enc_u64(n) + rest) == Some((n, enc_u64(n).len())),
{
    let p = be_bytes(n as nat);
    lemma_be_bytes_len_u64(n as nat);
    lemma_parse_bytes(p, rest);
    lemma_be_value_of_be_bytes(n as nat);
    if n > 0 {
        lemma_be_bytes_leading(n as nat);
    }
}

/// Whatever number decodes is encoded canonically at the start of the buffer.
pub proof fn lemma_dec_u64_sound(buf: Seq<u8>)
    requires
        dec_u64(buf) is Some,
    ensures
        is_prefix(enc_u64(dec_u64(buf).unwrap().0), buf),
        enc_u64(dec_u64(buf).unwrap().0).len() == dec_u64(buf).unwrap().1,
{
    let (p, k) = dec_bytes(buf).unwrap();
    lemma_dec_bytes_sound(buf);
    lemma_be_value_bound(p);
    lemma_pow256_8();
    if p.len() > 0 {
        lemma_be_bytes_of_be_value(p);
        assert(pow256(p.len()) <= pow256(8)) by {
            lemma_pow256_mono(p.len(), 8);
        }
    }
}

/// Powers of 256 grow with the exponent.
pub proof fn lemma_pow256_mono(a: nat, b: nat)
    requires
        a <= b,
    ensures
        pow256(a) <= pow256(b),
    decreases b,
{
    if a < b {
        lemma_pow256_mono(a, (b - 1) as nat);
    }
}

/// Decoding a string of known length gives back every encoded string of that
/// length, whatever follows it.
pub proof fn lemma_dec_fixed_roundtrip(p: Seq<u8>, rest: Seq<u8>)
    requires
        p.len() < 0x1_0000_0000_0000_0000,
    ensures
        dec_fixed(enc_bytes(p) + rest, p.len()) == Some((p, enc_bytes(p).len())),
{
    lemma_parse_bytes(p, rest);
}

/// Decoding gives back every encoded text, whatever follows it.
pub proof fn lemma_dec_text_roundtrip(s: Seq<char>, rest: Seq<u8>)
    requires
        encode_utf8(s).len() < 0x1_0000_0000_0000_0000,
    ensures
        dec_text(enc_text(s) + rest) == Some((s, enc_text(s).len())),
{
    broadcast use encode_utf8_valid_utf8, encode_utf8_decode_utf8;

    lemma_parse_bytes(encode_utf8(s), rest);
}

/// Whatever text decodes is encoded canonically at the start of the buffer.
pub proof fn lemma_dec_text_sound(buf: Seq<u8>)
    requires
        dec_text(buf) is Some,
    ensures
        is_prefix(enc_text(dec_text(buf).unwrap().0), buf),
        enc_text(dec_text(buf).unwrap().0).len() == dec_text(buf).unwrap().1,
{
    broadcast use decode_utf8_encode_utf8;

    lemma_dec_bytes_sound(buf);
}


// ---------------------------------------------------------------------------
// Encoders
// ---------------------------------------------------------------------------

/// Appends `bytes` to `out`.
pub fn extend_bytes(out: &mut Vec<u8>, bytes: &[u8])
    ensures
        final(out)@ == old(out)@ + bytes@,
{
    let mut i: usize = 0;
    while i < bytes.len()
        invariant
            i <= bytes.len(),
            out@ == old(out)@ + bytes@.subrange(0, i as int),
        decreases bytes.len() - i,
    {
        out.push(bytes[i]);
        i = i + 1;
        assert(out@ =~= old(out)@ + bytes@.subrange(0, i as int));
    }
    assert(bytes@.subrange(0, i as int) =~= bytes@);
}

/// Appends the minimal big-endian bytes of `n` to `out`.
fn push_be(out: &mut Vec<u8>, n: u64)
    ensures
        final(out)@ == old(out)@ + be_bytes(n as nat),
    decreases n,
{
    if n > 0 {
        push_be(out, n / 256);
        out.push((n % 256) as u8);
        assert(be_bytes(n as nat) == be_bytes((n / 256) as nat).push((n % 256) as u8));
    } else {
        assert(out@ =~= old(out)@ + be_bytes(n as nat));
    }
}

/// Appends the prefix announcing a payload of `len` bytes (`offset` `0x80` for
/// byte strings, `0xc0` for lists).
fn push_length_prefix(out: &mut Vec<u8>, offset: u8, len: usize)
    requires
        offset == 0x80 || offset == 0xc0,
    ensures
        final(out)@ == old(out)@ + length_prefix(offset as int, len as nat),
{
    if len <= 55 {
        out.push(offset + len as u8);
        assert(out@ =~= old(out)@ + length_prefix(offset as int, len as nat));
    } else {
        let mut digits: Vec<u8> = Vec::new();
        push_be(&mut digits, len as u64);
        proof {
            lemma_be_bytes_len_u64(len as nat);
            assert(digits@ =~= be_bytes(len as nat));
        }
        out.push(offset + 55 + digits.len() as u8);
        extend_bytes(out, digits.as_slice());
        assert(out@ =~= old(out)@ + length_prefix(offset as int, len as nat));
    }
}

/// Appends the encoding of the byte string `bytes`.
pub fn encode_bytes_into(out: &mut Vec<u8>, bytes: &[u8])
    ensures
        final(out)@ == old(out)@ + enc_bytes(bytes@),
{
    if bytes.len() == 1 && bytes[0] < 0x80 {
        out.push(bytes[0]);
        assert(out@ =~= old(out)@ + enc_bytes(bytes@));
    } else {
        push_length_prefix(out, 0x80, bytes.len());
        extend_bytes(out, bytes);
        assert(out@ =~= old(out)@ + enc_bytes(bytes@));
    }
}

/// Appends the encoding of the unsigned integer `n`.
pub fn encode_u64_into(out: &mut Vec<u8>, n: u64)
    ensures
        final(out)@ == old(out)@ + enc_u64(n),
{
    let mut digits: Vec<u8> = Vec::new();
    push_be(&mut digits, n);
    assert(digits@ =~= be_bytes(n as nat));
    encode_bytes_into(out, digits.as_slice());
}

/// Appends the encoding of the text `s`.
pub fn encode_text_into(out: &mut Vec<u8>, s: &str)
    ensures
        final(out)@ == old(out)@ + enc_text(s@),
{
    encode_bytes_into(out, s.as_bytes());
}

/// Appends the encoding of a list whose encoded items are `payload`.
pub fn encode_list_into(out: &mut Vec<u8>, payload: &[u8])
    ensures
        final(out)@ == old(out)@ + enc_list(payload@),
{
    push_length_prefix(out, 0xc0, payload.len());
    extend_bytes(out, payload);
    assert(out@ =~= old(out)@ + enc_list(payload@));
}

// ---------------------------------------------------------------------------
// Decoders; each reads at `pos` and gives back where the item ends
// ---------------------------------------------------------------------------

/// What follows `pos` in `buf`.
pub open spec fn rest(buf: Seq<u8>, pos: int) -> Seq<u8> {
    buf.subrange(pos, buf.len() as int)
}

/// Reads the header at `pos`: whether it opens a list, and where its payload
/// starts and ends.
pub fn decode_header(buf: &[u8], pos: usize) -> (r: Option<(bool, usize, usize)>)
    requires
        pos <= buf.len(),
    ensures
        r is None <==> parse_header(rest(buf@, pos as int)) is None,
        r matches Some((list, s, e)) ==> {
            &&& pos <= s <= e <= buf.len()
            &&& parse_header(rest(buf@, pos as int)) == Some(
                (list, (s - pos) as nat, (e - s) as nat),
            )
        },
{
    let ghost r = rest(buf@, pos as int);
    if pos == buf.len() {
        return None;
    }
    let avail = buf.len() - pos;
    let b = buf[pos];
    assert(r[0] == b);
    if b < 0x80 {
        Some((false, pos, pos + 1))
    } else if b <= 0xb7 {
        let len = (b - 0x80) as usize;
        if len == 1 && (avail < 2 || buf[pos + 1] < 0x80) {
            None
        } else if avail < 1 + len {
            None
        } else {
            Some((false, pos + 1, pos + 1 + len))
        }
    } else if b <= 0xbf || b >= 0xf8 {
        let lol: usize = if b >= 0xf8 { (b - 0xf7) as usize } else { (b - 0xb7) as usize };
        if avail < 1 + lol {
            return None;
        }
        if buf[pos + 1] == 0 {
            return None;
        }
        let mut v: u64 = 0;
        let mut i: usize = 0;
        while i < lol
            invariant
                1 <= lol <= 8,
                pos + 1 + lol <= buf.len(),
                i <= lol,
                v == be_value(buf@.subrange(pos + 1, pos + 1 + i)),
                v < pow256(i as nat),
            decreases lol - i,
        {
            let ghost old_s = buf@.subrange(pos + 1, pos + 1 + i);
            let ghost new_s = buf@.subrange(pos + 1, pos + 1 + i + 1);
            let x = buf[pos + 1 + i];
            proof {
                assert(new_s.drop_last() =~= old_s);
                assert(new_s.last() == x);
                lemma_pow256_mono((i + 1) as nat, 8);
                lemma_pow256_8();
                assert(v * 256 + x < 256 * pow256(i as nat)) by (nonlinear_arith)
                    requires
                        v < pow256(i as nat),
                        x < 256,
                ;
            }
            v = v * 256 + x as u64;
            i = i + 1;
        }
        assert(buf@.subrange(pos + 1, pos + 1 + lol) =~= r.subrange(1, 1 + lol as int));
        if v < 56 {
            return None;
        }
        if ((avail - 1 - lol) as u64) < v {
            return None;
        }
        let len = v as usize;
        Some((b >= 0xf8, pos + 1 + lol, pos + 1 + lol + len))
    } else {
        let len = (b - 0xc0) as usize;
        if avail < 1 + len {
            None
        } else {
            Some((true, pos + 1, pos + 1 + len))
        }
    }
}

/// Reads a byte string at `pos`; gives back where its payload starts and ends.
pub fn decode_bytes(buf: &[u8], pos: usize) -> (r: Option<(usize, usize)>)
    requires
        pos <= buf.len(),
    ensures
        r is None <==> dec_bytes(rest(buf@, pos as int)) is None,
        r matches Some((s, e)) ==> {
            &&& pos <= s <= e <= buf.len()
            &&& dec_bytes(rest(buf@, pos as int)) == Some(
                (buf@.subrange(s as int, e as int), (e - pos) as nat),
            )
        },
{
    match decode_header(buf, pos) {
        Some((list, s, e)) => {
            if list {
                None
            } else {
                assert(rest(buf@, pos as int).subrange((s - pos) as int, (e - pos) as int)
                    =~= buf@.subrange(s as int, e as int));
                Some((s, e))
            }
        },
        None => None,
    }
}

/// Reads an unsigned integer at `pos`.
pub fn decode_u64(buf: &[u8], pos: usize) -> (r: Option<(u64, usize)>)
    requires
        pos <= buf.len(),
    ensures
        r is None <==> dec_u64(rest(buf@, pos as int)) is None,
        r matches Some((n, next)) ==> {
            &&& pos <= next <= buf.len()
            &&& dec_u64(rest(buf@, pos as int)) == Some((n, (next - pos) as nat))
        },
{
    match decode_bytes(buf, pos) {
        Some((s, e)) => {
            let len = e - s;
            if len > 8 || (len > 0 && buf[s] == 0) {
                return None;
            }
            let mut v: u64 = 0;
            let mut i: usize = 0;
            while i < len
                invariant
                    len <= 8,
                    s + len == e <= buf.len(),
                    i <= len,
                    v == be_value(buf@.subrange(s as int, s + i)),
                    v < pow256(i as nat),
                decreases len - i,
            {
                let ghost old_s = buf@.subrange(s as int, s + i);
                let ghost new_s = buf@.subrange(s as int, s + i + 1);
                let x = buf[s + i];
                proof {
                    assert(new_s.drop_last() =~= old_s);
                    assert(new_s.last() == x);
                    lemma_pow256_mono((i + 1) as nat, 8);
                    lemma_pow256_8();
                    assert(v * 256 + x < 256 * pow256(i as nat)) by (nonlinear_arith)
                        requires
                            v < pow256(i as nat),
                            x < 256,
                    ;
                }
                v = v * 256 + x as u64;
                i = i + 1;
            }
            assert(buf@.subrange(s as int, s + len) =~= buf@.subrange(s as int, e as int));
            Some((v, e))
        },
        None => None,
    }
}

/// Reads a byte string of exactly `n` bytes at `pos`; gives back where its payload
/// starts and ends.
pub fn decode_fixed(buf: &[u8], pos: usize, n: usize) -> (r: Option<(usize, usize)>)
    requires
        pos <= buf.len(),
    ensures
        r is None <==> dec_fixed(rest(buf@, pos as int), n as nat) is None,
        r matches Some((s, e)) ==> {
            &&& pos <= s <= e <= buf.len()
            &&& e - s == n
            &&& dec_fixed(rest(buf@, pos as int), n as nat) == Some(
                (buf@.subrange(s as int, e as int), (e - pos) as nat),
            )
        },
{
    match decode_bytes(buf, pos) {
        Some((s, e)) => if e - s == n {
            Some((s, e))
        } else {
            None
        },
        None => None,
    }
}

/// The bytes of `buf` from `s` up to `e`.
pub fn copy_range(buf: &[u8], s: usize, e: usize) -> (v: Vec<u8>)
    requires
        s <= e <= buf.len(),
    ensures
        v@ == buf@.subrange(s as int, e as int),
{
    let mut v: Vec<u8> = Vec::new();
    let mut i = s;
    while i < e
        invariant
            s <= i <= e <= buf.len(),
            v@ == buf@.subrange(s as int, i as int),
        decreases e - i,
    {
        v.push(buf[i]);
        i = i + 1;
        assert(v@ =~= buf@.subrange(s as int, i as int));
    }
    v
}

/// Builds a `String` from UTF-8 bytes, or gives `None` where they are not UTF-8.
///
/// Trusted: calls `String::from_utf8` of std, whose documentation says that it
/// fails exactly on bytes that are not valid UTF-8; the contract claims that on
/// valid bytes the characters are the UTF-8 decoding of the bytes.
#[verifier::external_body]
fn string_from_utf8(bytes: Vec<u8>) -> (r: Option<String>)
    ensures
        r is Some <==> valid_utf8(bytes@),
        r matches Some(s) ==> s@ == decode_utf8(bytes@),
{
    String::from_utf8(bytes).ok()
}

/// Reads text at `pos`.
pub fn decode_text(buf: &[u8], pos: usize) -> (r: Option<(String, usize)>)
    requires
        pos <= buf.len(),
    ensures
        r is None <==> dec_text(rest(buf@, pos as int)) is None,
        r matches Some((t, next)) ==> {
            &&& pos <= next <= buf.len()
            &&& dec_text(rest(buf@, pos as int)) == Some((t@, (next - pos) as nat))
        },
{
    match decode_bytes(buf, pos) {
        Some((s, e)) => {
            let bytes = copy_range(buf, s, e);
            match string_from_utf8(bytes) {
                Some(t) => Some((t, e)),
                None => None,
            }
        },
        None => None,
    }
}

/// Reads a list header at `pos`; gives back where its payload starts and ends.
pub fn decode_list(buf: &[u8], pos: usize) -> (r: Option<(usize, usize)>)
    requires
        pos <= buf.len(),
    ensures
        r is None <==> dec_list(rest(buf@, pos as int)) is None,
        r matches Some((s, e)) ==> {
            &&& pos <= s <= e <= buf.len()
            &&& dec_list(rest(buf@, pos as int)) == Some(((s - pos) as nat, (e - pos) as nat))
        },
{
    match decode_header(buf, pos) {
        Some((list, s, e)) => if list {
            Some((s, e))
        } else {
            None
        },
        None => None,
    }
}

} // verus!
