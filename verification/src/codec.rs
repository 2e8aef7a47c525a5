//! The wire format of a span record, its encoder and its decoder.
//!
//! A record is encoded on its own, with no outer framing: six fixed
//! little-endian `u64` fields, then the name and the attribute list, each
//! length-prefixed with a two-byte little-endian count. Consecutive records
//! on the wire are simply concatenated; every length the decoder needs is in
//! the bytes themselves, so records can be decoded from a stream in order.

use vstd::prelude::*;

use crate::errors::Error;
use crate::record::{AttrModel, Attribute, SpanModel, SpanRecord, attrs_view, MAX_FIELD_LEN};

verus! {

/// The two bytes of `x`, least significant first.
pub open spec fn u16_le(x: u16) -> Seq<u8> {
    seq![(x & 0xff) as u8, ((x >> 8) & 0xff) as u8]
}

/// The eight bytes of `x`, least significant first.
pub open spec fn u64_le(x: u64) -> Seq<u8> {
    seq![
        (x & 0xff) as u8,
        ((x >> 8) & 0xff) as u8,
        ((x >> 16) & 0xff) as u8,
        ((x >> 24) & 0xff) as u8,
        ((x >> 32) & 0xff) as u8,
        ((x >> 40) & 0xff) as u8,
        ((x >> 48) & 0xff) as u8,
        ((x >> 56) & 0xff) as u8,
    ]
}

/// The `u16` read from two bytes, least significant first.
pub open spec fn le_to_u16(s: Seq<u8>) -> u16
    recommends
        s.len() == 2,
{
    (s[0] as u16) | ((s[1] as u16) << 8)
}

/// The `u64` read from eight bytes, least significant first.
pub open spec fn le_to_u64(s: Seq<u8>) -> u64
    recommends
        s.len() == 8,
{
    (s[0] as u64) | ((s[1] as u64) << 8) | ((s[2] as u64) << 16) | ((s[3] as u64) << 24)
        | ((s[4] as u64) << 32) | ((s[5] as u64) << 40) | ((s[6] as u64) << 48)
        | ((s[7] as u64) << 56)
}

/// The encoding of one attribute: length-prefixed key, then length-prefixed
/// value.
pub open spec fn attr_enc(a: AttrModel) -> Seq<u8> {
    u16_le(a.key.len() as u16) + a.key + u16_le(a.value.len() as u16) + a.value
}

/// The encodings of a list of attributes, concatenated in order.
pub open spec fn attrs_enc(attrs: Seq<AttrModel>) -> Seq<u8>
    decreases attrs.len(),
{
    if attrs.len() == 0 {
        Seq::empty()
    } else {
        attrs_enc(attrs.drop_last()) + attr_enc(attrs.last())
    }
}

/// The fixed part of a record's encoding: the six integer fields, the
/// length-prefixed name, and the attribute count.
pub open spec fn header_enc(m: SpanModel) -> Seq<u8> {
    u64_le(m.trace_id_hi) + u64_le(m.trace_id_lo) + u64_le(m.span_id) + u64_le(m.parent_span_id)
        + u64_le(m.start_ns) + u64_le(m.end_ns) + u16_le(m.name.len() as u16) + m.name
        + u16_le(m.attrs.len() as u16)
}

/// The complete encoding of one record.
pub open spec fn span_enc(m: SpanModel) -> Seq<u8> {
    header_enc(m) + attrs_enc(m.attrs)
}

/// The encodings of a batch of records, concatenated in the batch's order.
pub open spec fn batch_enc(b: Seq<SpanModel>) -> Seq<u8>
    decreases b.len(),
{
    if b.len() == 0 {
        Seq::empty()
    } else {
        batch_enc(b.drop_last()) + span_enc(b.last())
    }
}

fn push_u16(out: &mut Vec<u8>, x: u16)
    ensures
        final(out)@ == old(out)@ + u16_le(x),
{
    out.push((x & 0xff) as u8);
    out.push(((x >> 8) & 0xff) as u8);
    assert(out@ =~= old(out)@ + u16_le(x));
}

fn push_u64(out: &mut Vec<u8>, x: u64)
    ensures
        final(out)@ == old(out)@ + u64_le(x),
{
    out.push((x & 0xff) as u8);
    out.push(((x >> 8) & 0xff) as u8);
    out.push(((x >> 16) & 0xff) as u8);
    out.push(((x >> 24) & 0xff) as u8);
    out.push(((x >> 32) & 0xff) as u8);
    out.push(((x >> 40) & 0xff) as u8);
    out.push(((x >> 48) & 0xff) as u8);
    out.push(((x >> 56) & 0xff) as u8);
    assert(out@ =~= old(out)@ + u64_le(x));
}

fn push_bytes(out: &mut Vec<u8>, b: &Vec<u8>)
    ensures
        final(out)@ == old(out)@ + b@,
{
    let mut i: usize = 0;
    while i < b.len()
        invariant
            i <= b.len(),
            out@ == old(out)@ + b@.take(i as int),
        decreases b.len() - i,
    {
        out.push(b[i]);
        assert(b@.take(i as int).push(b@[i as int]) =~= b@.take(i + 1));
        i = i + 1;
    }
    assert(b@.take(b@.len() as int) =~= b@);
}

/// `attrs_enc` grows at the back, one attribute at a time.
proof fn lemma_attrs_enc_step(attrs: Seq<AttrModel>, i: int)
    requires
        0 <= i < attrs.len(),
    ensures
        attrs_enc(attrs.take(i + 1)) == attrs_enc(attrs.take(i)) + attr_enc(attrs[i]),
{
    assert(attrs.take(i + 1).drop_last() =~= attrs.take(i));
    assert(attrs.take(i + 1).last() == attrs[i]);
}

/// What a two-byte length field at `pos` parses to: the value and the
/// position after it, or nothing if the stream is too short.
pub open spec fn parse_u16(s: Seq<u8>, pos: int) -> Option<(u16, int)> {
    if 0 <= pos && pos + 2 <= s.len() {
        Some((le_to_u16(s.subrange(pos, pos + 2)), pos + 2))
    } else {
        None
    }
}

/// What an eight-byte field at `pos` parses to.
pub open spec fn parse_u64(s: Seq<u8>, pos: int) -> Option<(u64, int)> {
    if 0 <= pos && pos + 8 <= s.len() {
        Some((le_to_u64(s.subrange(pos, pos + 8)), pos + 8))
    } else {
        None
    }
}

/// What a run of `n` raw bytes at `pos` parses to.
pub open spec fn parse_bytes(s: Seq<u8>, pos: int, n: int) -> Option<(Seq<u8>, int)> {
    if 0 <= pos && 0 <= n && pos + n <= s.len() {
        Some((s.subrange(pos, pos + n), pos + n))
    } else {
        None
    }
}

/// What one attribute at `pos` parses to: length-prefixed key, then
/// length-prefixed value.
pub open spec fn parse_attr(s: Seq<u8>, pos: int) -> Option<(AttrModel, int)> {
    match parse_u16(s, pos) {
        None => None,
        Some((kl, p1)) => match parse_bytes(s, p1, kl as int) {
            None => None,
            Some((key, p2)) => match parse_u16(s, p2) {
                None => None,
                Some((vl, p3)) => match parse_bytes(s, p3, vl as int) {
                    None => None,
                    Some((value, p4)) => Some((AttrModel { key, value }, p4)),
                },
            },
        },
    }
}

/// What `n` consecutive attributes at `pos` parse to.
pub open spec fn parse_attrs(s: Seq<u8>, pos: int, n: int) -> Option<(Seq<AttrModel>, int)>
    decreases n,
{
    if n <= 0 {
        Some((Seq::empty(), pos))
    } else {
        match parse_attr(s, pos) {
            None => None,
            Some((a, p1)) => match parse_attrs(s, p1, n - 1) {
                None => None,
                Some((rest, p2)) => Some((seq![a] + rest, p2)),
            },
        }
    }
}

/// What one whole record at `pos` parses to. Every length the parse needs is
/// read from the bytes themselves, so the result is determined by the stream.
pub open spec fn parse_span(s: Seq<u8>, pos: int) -> Option<(SpanModel, int)> {
    match parse_u64(s, pos) {
        None => None,
        Some((trace_id_hi, p1)) => match parse_u64(s, p1) {
            None => None,
            Some((trace_id_lo, p2)) => match parse_u64(s, p2) {
                None => None,
                Some((span_id, p3)) => match parse_u64(s, p3) {
                    None => None,
                    Some((parent_span_id, p4)) => match parse_u64(s, p4) {
                        None => None,
                        Some((start_ns, p5)) => match parse_u64(s, p5) {
                            None => None,
                            Some((end_ns, p6)) => match parse_u16(s, p6) {
                                None => None,
                                Some((nl, p7)) => match parse_bytes(s, p7, nl as int) {
                                    None => None,
                                    Some((name, p8)) => match parse_u16(s, p8) {
                                        None => None,
                                        Some((ac, p9)) => match parse_attrs(s, p9, ac as int) {
                                            None => None,
                                            Some((attrs, p10)) => Some(
                                                (
                                                    SpanModel {
                                                        trace_id_hi,
                                                        trace_id_lo,
                                                        span_id,
                                                        parent_span_id,
                                                        start_ns,
                                                        end_ns,
                                                        name,
                                                        attrs,
                                                    },
                                                    p10,
                                                ),
                                            ),
                                        },
                                    },
                                },
                            },
                        },
                    },
                },
            },
        },
    }
}

fn read_u16(bytes: &Vec<u8>, pos: usize) -> (out: Option<(u16, usize)>)
    ensures
        match out {
            Some(p) => parse_u16(bytes@, pos as int) == Some((p.0, p.1 as int)),
            None => parse_u16(bytes@, pos as int) is None,
        },
{
    if bytes.len() >= 2 && pos <= bytes.len() - 2 {
        let b0 = bytes[pos];
        let b1 = bytes[pos + 1];
        let v: u16 = (b0 as u16) | ((b1 as u16) << 8);
        proof {
            let s = bytes@.subrange(pos as int, pos as int + 2);
            assert(s[0] == b0 && s[1] == b1);
        }
        Some((v, pos + 2))
    } else {
        None
    }
}

fn read_u64(bytes: &Vec<u8>, pos: usize) -> (out: Option<(u64, usize)>)
    ensures
        match out {
            Some(p) => parse_u64(bytes@, pos as int) == Some((p.0, p.1 as int)),
            None => parse_u64(bytes@, pos as int) is None,
        },
{
    if bytes.len() >= 8 && pos <= bytes.len() - 8 {
        let v: u64 = (bytes[pos] as u64) | ((bytes[pos + 1] as u64) << 8)
            | ((bytes[pos + 2] as u64) << 16) | ((bytes[pos + 3] as u64) << 24)
            | ((bytes[pos + 4] as u64) << 32) | ((bytes[pos + 5] as u64) << 40)
            | ((bytes[pos + 6] as u64) << 48) | ((bytes[pos + 7] as u64) << 56);
        proof {
            let s = bytes@.subrange(pos as int, pos as int + 8);
            assert(s[0] == bytes@[pos as int] && s[1] == bytes@[pos as int + 1]
                && s[2] == bytes@[pos as int + 2] && s[3] == bytes@[pos as int + 3]
                && s[4] == bytes@[pos as int + 4] && s[5] == bytes@[pos as int + 5]
                && s[6] == bytes@[pos as int + 6] && s[7] == bytes@[pos as int + 7]);
        }
        Some((v, pos + 8))
    } else {
        None
    }
}

fn read_bytes(bytes: &Vec<u8>, pos: usize, n: usize) -> (out: Option<(Vec<u8>, usize)>)
    ensures
        match out {
            Some(p) => parse_bytes(bytes@, pos as int, n as int) == Some((p.0@, p.1 as int)),
            None => parse_bytes(bytes@, pos as int, n as int) is None,
        },
{
    if pos <= bytes.len() && bytes.len() - pos >= n {
        let mut v: Vec<u8> = Vec::new();
        let mut i: usize = 0;
        while i < n
            invariant
                i <= n,
                pos + n <= bytes.len(),
                v@ == bytes@.subrange(pos as int, pos as int + i as int),
            decreases n - i,
        {
            v.push(bytes[pos + i]);
            assert(v@ =~= bytes@.subrange(pos as int, pos as int + i as int + 1));
            i = i + 1;
        }
        Some((v, pos + n))
    } else {
        None
    }
}

fn decode_attr(bytes: &Vec<u8>, pos: usize) -> (out: Option<(Attribute, usize)>)
    ensures
        match out {
            Some(p) => parse_attr(bytes@, pos as int) == Some((p.0@, p.1 as int)),
            None => parse_attr(bytes@, pos as int) is None,
        },
{
    let (kl, p1) = match read_u16(bytes, pos) {
        None => {
            return None;
        },
        Some(p) => p,
    };
    let (key, p2) = match read_bytes(bytes, p1, kl as usize) {
        None => {
            return None;
        },
        Some(p) => p,
    };
    let (vl, p3) = match read_u16(bytes, p2) {
        None => {
            return None;
        },
        Some(p) => p,
    };
    let (value, p4) = match read_bytes(bytes, p3, vl as usize) {
        None => {
            return None;
        },
        Some(p) => p,
    };
    Some((Attribute { key, value }, p4))
}

/// `batch_enc` grows at the back, one record at a time.
pub proof fn lemma_batch_enc_step(b: Seq<SpanModel>, i: int)
    requires
        0 <= i < b.len(),
    ensures
        batch_enc(b.take(i + 1)) == batch_enc(b.take(i)) + span_enc(b[i]),
{
    assert(b.take(i + 1).drop_last() =~= b.take(i));
    assert(b.take(i + 1).last() == b[i]);
}

/// Decode one record from `bytes` at `start`. The result is exactly what the
/// specification parser [`parse_span`] yields there: the record and the
/// position just after it, or `None` if the stream is truncated.
#[verifier::loop_isolation(false)]
pub fn decode_record(bytes: &Vec<u8>, start: usize) -> (out: Option<(SpanRecord, usize)>)
    ensures
        match out {
            Some(p) => parse_span(bytes@, start as int) == Some((p.0@, p.1 as int)),
            None => parse_span(bytes@, start as int) is None,
        },
{
    let (trace_id_hi, p1) = match read_u64(bytes, start) {
        None => {
            return None;
        },
        Some(p) => p,
    };
    let (trace_id_lo, p2) = match read_u64(bytes, p1) {
        None => {
            return None;
        },
        Some(p) => p,
    };
    let (span_id, p3) = match read_u64(bytes, p2) {
        None => {
            return None;
        },
        Some(p) => p,
    };
    let (parent_span_id, p4) = match read_u64(bytes, p3) {
        None => {
            return None;
        },
        Some(p) => p,
    };
    let (start_ns, p5) = match read_u64(bytes, p4) {
        None => {
            return None;
        },
        Some(p) => p,
    };
    let (end_ns, p6) = match read_u64(bytes, p5) {
        None => {
            return None;
        },
        Some(p) => p,
    };
    let (nl, p7) = match read_u16(bytes, p6) {
        None => {
            return None;
        },
        Some(p) => p,
    };
    let (name, p8) = match read_bytes(bytes, p7, nl as usize) {
        None => {
            return None;
        },
        Some(p) => p,
    };
    let (ac, p9) = match read_u16(bytes, p8) {
        None => {
            return None;
        },
        Some(p) => p,
    };

    let mut attributes: Vec<Attribute> = Vec::new();
    let mut pos: usize = p9;
    let mut i: usize = 0;
    let n: usize = ac as usize;
    while i < n
        invariant
            i <= n,
            parse_attrs(bytes@, p9 as int, n as int) == (match parse_attrs(
                bytes@,
                pos as int,
                n as int - i as int,
            ) {
                None => None::<(Seq<AttrModel>, int)>,
                Some(t) => Some((attrs_view(attributes@) + t.0, t.1)),
            }),
        decreases n - i,
    {
        let (a, p_next) = match decode_attr(bytes, pos) {
            None => {
                assert(parse_attrs(bytes@, pos as int, n as int - i as int) is None);
                assert(parse_attrs(bytes@, p9 as int, ac as int) is None);
                assert(parse_span(bytes@, start as int) is None);
                return None;
            },
            Some(p) => p,
        };
        proof {
            let s = bytes@;
            let rem = n as int - i as int;
            assert(parse_attrs(s, pos as int, rem) == (match parse_attrs(
                s,
                p_next as int,
                rem - 1,
            ) {
                None => None::<(Seq<AttrModel>, int)>,
                Some(t) => Some((seq![a@] + t.0, t.1)),
            }));
            assert(attrs_view(attributes@.push(a)) =~= attrs_view(attributes@) + seq![a@]);
            match parse_attrs(s, p_next as int, rem - 1) {
                Some(t) => {
                    assert((attrs_view(attributes@) + (seq![a@] + t.0)) =~= (attrs_view(
                        attributes@.push(a),
                    ) + t.0));
                },
                None => {},
            }
        }
        attributes.push(a);
        pos = p_next;
        i = i + 1;
    }
    assert(parse_attrs(bytes@, pos as int, 0) == Some((Seq::<AttrModel>::empty(), pos as int)));
    assert(attrs_view(attributes@) + Seq::<AttrModel>::empty() =~= attrs_view(attributes@));

    let rec = SpanRecord {
        trace_id_hi,
        trace_id_lo,
        span_id,
        parent_span_id,
        start_ns,
        end_ns,
        name,
        attributes,
    };
    assert(parse_span(bytes@, start as int) == Some((rec@, pos as int)));
    Some((rec, pos))
}

/// Encode one record. Succeeds exactly on the records that fit the wire
/// format's two-byte length fields; on any other record it returns
/// `SerialisationError` and produces no bytes.
pub fn encode_record(r: &SpanRecord) -> (out: Result<Vec<u8>, Error>)
    ensures
        match out {
            Ok(v) => r@.encodable() && v@ == span_enc(r@),
            Err(e) => !r@.encodable() && e is SerialisationError,
        },
{
    if r.name.len() > MAX_FIELD_LEN {
        return Err(Error::SerialisationError(String::from_str("record name does not fit the length field")));
    }
    if r.attributes.len() > MAX_FIELD_LEN {
        return Err(Error::SerialisationError(String::from_str("attribute list does not fit the count field")));
    }
    let mut i: usize = 0;
    while i < r.attributes.len()
        invariant
            i <= r.attributes.len(),
            forall|j: int| 0 <= j < i ==> #[trigger] r@.attrs[j].encodable(),
        decreases r.attributes.len() - i,
    {
        if r.attributes[i].key.len() > MAX_FIELD_LEN || r.attributes[i].value.len() > MAX_FIELD_LEN {
            assert(!r@.attrs[i as int].encodable());
            return Err(Error::SerialisationError(String::from_str("attribute does not fit the length fields")));
        }
        assert(r@.attrs[i as int].encodable());
        i = i + 1;
    }
    assert(r@.encodable());

    let mut out: Vec<u8> = Vec::new();
    push_u64(&mut out, r.trace_id_hi);
    push_u64(&mut out, r.trace_id_lo);
    push_u64(&mut out, r.span_id);
    push_u64(&mut out, r.parent_span_id);
    push_u64(&mut out, r.start_ns);
    push_u64(&mut out, r.end_ns);
    push_u16(&mut out, r.name.len() as u16);
    push_bytes(&mut out, &r.name);
    push_u16(&mut out, r.attributes.len() as u16);
    assert(out@ =~= header_enc(r@));

    let ghost header = out@;
    let mut i: usize = 0;
    while i < r.attributes.len()
        invariant
            i <= r.attributes.len(),
            r@.encodable(),
            r@.attrs == attrs_view(r.attributes@),
            r@.attrs.len() == r.attributes.len(),
            out@ == header + attrs_enc(r@.attrs.take(i as int)),
        decreases r.attributes.len() - i,
    {
        let a = &r.attributes[i];
        assert(a@ == r@.attrs[i as int]);
        let ghost before = out@;
        push_u16(&mut out, a.key.len() as u16);
        push_bytes(&mut out, &a.key);
        push_u16(&mut out, a.value.len() as u16);
        push_bytes(&mut out, &a.value);
        assert(out@ =~= before + attr_enc(r@.attrs[i as int]));
        proof {
            lemma_attrs_enc_step(r@.attrs, i as int);
            assert(out@ =~= header + attrs_enc(r@.attrs.take(i + 1)));
        }
        i = i + 1;
    }
    assert(r@.attrs.take(r@.attrs.len() as int) =~= r@.attrs);
    assert(out@ =~= span_enc(r@));
    Ok(out)
}

proof fn lemma_u16_roundtrip(x: u16)
    ensures
        le_to_u16(u16_le(x)) == x,
{
    let b0 = (x & 0xff) as u8;
    let b1 = ((x >> 8) & 0xff) as u8;
    assert((b0 as u16) | ((b1 as u16) << 8) == x) by (bit_vector)
        requires
            b0 == (x & 0xff) as u8,
            b1 == ((x >> 8) & 0xff) as u8,
    ;
    assert(u16_le(x)[0] == b0);
    assert(u16_le(x)[1] == b1);
}

proof fn lemma_u64_roundtrip(x: u64)
    ensures
        le_to_u64(u64_le(x)) == x,
{
    let b0 = (x & 0xff) as u8;
    let b1 = ((x >> 8) & 0xff) as u8;
    let b2 = ((x >> 16) & 0xff) as u8;
    let b3 = ((x >> 24) & 0xff) as u8;
    let b4 = ((x >> 32) & 0xff) as u8;
    let b5 = ((x >> 40) & 0xff) as u8;
    let b6 = ((x >> 48) & 0xff) as u8;
    let b7 = ((x >> 56) & 0xff) as u8;
    assert((b0 as u64) | ((b1 as u64) << 8) | ((b2 as u64) << 16) | ((b3 as u64) << 24)
        | ((b4 as u64) << 32) | ((b5 as u64) << 40) | ((b6 as u64) << 48) | ((b7 as u64) << 56)
        == x) by (bit_vector)
        requires
            b0 == (x & 0xff) as u8,
            b1 == ((x >> 8) & 0xff) as u8,
            b2 == ((x >> 16) & 0xff) as u8,
            b3 == ((x >> 24) & 0xff) as u8,
            b4 == ((x >> 32) & 0xff) as u8,
            b5 == ((x >> 40) & 0xff) as u8,
            b6 == ((x >> 48) & 0xff) as u8,
            b7 == ((x >> 56) & 0xff) as u8,
    ;
    assert(u64_le(x)[0] == b0);
    assert(u64_le(x)[1] == b1);
    assert(u64_le(x)[2] == b2);
    assert(u64_le(x)[3] == b3);
    assert(u64_le(x)[4] == b4);
    assert(u64_le(x)[5] == b5);
    assert(u64_le(x)[6] == b6);
    assert(u64_le(x)[7] == b7);
}

/// `attrs_enc` also unfolds at the front, one attribute at a time.
proof fn lemma_attrs_enc_first(attrs: Seq<AttrModel>)
    requires
        attrs.len() > 0,
    ensures
        attrs_enc(attrs) == attr_enc(attrs.first()) + attrs_enc(attrs.drop_first()),
    decreases attrs.len(),
{
    if attrs.len() == 1 {
        assert(attrs.drop_last() =~= Seq::<AttrModel>::empty());
        assert(attrs.drop_first() =~= Seq::<AttrModel>::empty());
        assert(attrs.last() == attrs.first());
        assert(attrs_enc(attrs) =~= attr_enc(attrs.first()) + attrs_enc(attrs.drop_first()));
    } else {
        lemma_attrs_enc_first(attrs.drop_last());
        assert(attrs.drop_last().first() == attrs.first());
        assert(attrs.drop_last().drop_first() =~= attrs.drop_first().drop_last());
        assert(attrs.drop_first().last() == attrs.last());
        assert(attrs_enc(attrs) =~= attr_enc(attrs.first()) + attrs_enc(attrs.drop_first()));
    }
}

/// A subrange of a subrange equality: where `s` holds `whole` at `pos`, it
/// holds each piece of `whole` at the corresponding offset.
proof fn lemma_subrange_at(s: Seq<u8>, pos: int, whole: Seq<u8>, lo: int, hi: int)
    requires
        0 <= pos,
        pos + whole.len() <= s.len(),
        s.subrange(pos, pos + whole.len()) == whole,
        0 <= lo <= hi <= whole.len(),
    ensures
        s.subrange(pos + lo, pos + hi) == whole.subrange(lo, hi),
{
    assert forall|j: int| 0 <= j < hi - lo implies s.subrange(pos + lo, pos + hi)[j]
        == whole.subrange(lo, hi)[j] by {
        assert(whole.subrange(lo, hi)[j] == whole[lo + j]);
        assert(whole[lo + j] == s.subrange(pos, pos + whole.len())[lo + j]);
    }
    assert(s.subrange(pos + lo, pos + hi) =~= whole.subrange(lo, hi));
}

/// Parsing at the place where an attribute's encoding lies yields exactly
/// that attribute.
proof fn lemma_parse_attr_enc(s: Seq<u8>, pos: int, a: AttrModel)
    requires
        a.encodable(),
        0 <= pos,
        pos + attr_enc(a).len() <= s.len(),
        s.subrange(pos, pos + attr_enc(a).len()) == attr_enc(a),
    ensures
        parse_attr(s, pos) == Some((a, pos + attr_enc(a).len())),
{
    let e = attr_enc(a);
    let kl = a.key.len() as int;
    let vl = a.value.len() as int;
    assert(e.len() == 2 + kl + 2 + vl);

    lemma_subrange_at(s, pos, e, 0, 2);
    assert(e.subrange(0, 2) =~= u16_le(a.key.len() as u16));
    lemma_u16_roundtrip(a.key.len() as u16);
    assert(parse_u16(s, pos) == Some((a.key.len() as u16, pos + 2)));
    assert((a.key.len() as u16) as int == kl);

    lemma_subrange_at(s, pos, e, 2, 2 + kl);
    assert(e.subrange(2, 2 + kl) =~= a.key);
    assert(parse_bytes(s, pos + 2, kl) == Some((a.key, pos + 2 + kl)));

    lemma_subrange_at(s, pos, e, 2 + kl, 4 + kl);
    assert(e.subrange(2 + kl, 4 + kl) =~= u16_le(a.value.len() as u16));
    lemma_u16_roundtrip(a.value.len() as u16);
    assert(parse_u16(s, pos + 2 + kl) == Some((a.value.len() as u16, pos + 4 + kl)));
    assert((a.value.len() as u16) as int == vl);

    lemma_subrange_at(s, pos, e, 4 + kl, 4 + kl + vl);
    assert(e.subrange(4 + kl, 4 + kl + vl) =~= a.value);
    assert(parse_bytes(s, pos + 4 + kl, vl) == Some((a.value, pos + 4 + kl + vl)));

    assert(AttrModel { key: a.key, value: a.value } == a);
}

/// Parsing at the place where a whole attribute list's encoding lies yields
/// exactly that list.
proof fn lemma_parse_attrs_enc(s: Seq<u8>, pos: int, attrs: Seq<AttrModel>)
    requires
        forall|i: int| 0 <= i < attrs.len() ==> #[trigger] attrs[i].encodable(),
        0 <= pos,
        pos + attrs_enc(attrs).len() <= s.len(),
        s.subrange(pos, pos + attrs_enc(attrs).len()) == attrs_enc(attrs),
    ensures
        parse_attrs(s, pos, attrs.len() as int) == Some((attrs, pos + attrs_enc(attrs).len())),
    decreases attrs.len(),
{
    if attrs.len() == 0 {
        assert(attrs_enc(attrs).len() == 0);
        assert(parse_attrs(s, pos, 0) == Some((Seq::<AttrModel>::empty(), pos)));
        assert(Seq::<AttrModel>::empty() =~= attrs);
    } else {
        let a0 = attrs.first();
        let rest = attrs.drop_first();
        lemma_attrs_enc_first(attrs);
        let e0 = attr_enc(a0);
        let erest = attrs_enc(rest);
        assert(attrs_enc(attrs).len() == e0.len() + erest.len());

        lemma_subrange_at(s, pos, attrs_enc(attrs), 0, e0.len() as int);
        assert(attrs_enc(attrs).subrange(0, e0.len() as int) =~= e0);
        assert(attrs[0].encodable());
        lemma_parse_attr_enc(s, pos, a0);

        let p1 = pos + e0.len();
        lemma_subrange_at(s, pos, attrs_enc(attrs), e0.len() as int, attrs_enc(attrs).len() as int);
        assert(attrs_enc(attrs).subrange(e0.len() as int, attrs_enc(attrs).len() as int) =~= erest);
        assert(forall|i: int| 0 <= i < rest.len() ==> #[trigger] rest[i].encodable()) by {
            assert(forall|i: int| 0 <= i < rest.len() ==> rest[i] == attrs[i + 1]);
        }
        lemma_parse_attrs_enc(s, p1, rest);

        assert(rest.len() as int == attrs.len() as int - 1);
        assert(seq![a0] + rest =~= attrs);
        assert(parse_attrs(s, pos, attrs.len() as int) == Some(
            (attrs, pos + attrs_enc(attrs).len()),
        ));
    }
}

/// Parsing at the place where a record's encoding lies yields exactly that
/// record.
proof fn lemma_parse_span_enc(s: Seq<u8>, pos: int, m: SpanModel)
    requires
        m.encodable(),
        0 <= pos,
        pos + span_enc(m).len() <= s.len(),
        s.subrange(pos, pos + span_enc(m).len()) == span_enc(m),
    ensures
        parse_span(s, pos) == Some((m, pos + span_enc(m).len())),
{
    let e = span_enc(m);
    let nl = m.name.len() as int;
    let al = attrs_enc(m.attrs).len() as int;
    assert(e.len() == 52 + nl + al);

    lemma_subrange_at(s, pos, e, 0, 8);
    assert(e.subrange(0, 8) =~= u64_le(m.trace_id_hi));
    lemma_u64_roundtrip(m.trace_id_hi);
    assert(parse_u64(s, pos) == Some((m.trace_id_hi, pos + 8)));

    lemma_subrange_at(s, pos, e, 8, 16);
    assert(e.subrange(8, 16) =~= u64_le(m.trace_id_lo));
    lemma_u64_roundtrip(m.trace_id_lo);
    assert(parse_u64(s, pos + 8) == Some((m.trace_id_lo, pos + 16)));

    lemma_subrange_at(s, pos, e, 16, 24);
    assert(e.subrange(16, 24) =~= u64_le(m.span_id));
    lemma_u64_roundtrip(m.span_id);
    assert(parse_u64(s, pos + 16) == Some((m.span_id, pos + 24)));

    lemma_subrange_at(s, pos, e, 24, 32);
    assert(e.subrange(24, 32) =~= u64_le(m.parent_span_id));
    lemma_u64_roundtrip(m.parent_span_id);
    assert(parse_u64(s, pos + 24) == Some((m.parent_span_id, pos + 32)));

    lemma_subrange_at(s, pos, e, 32, 40);
    assert(e.subrange(32, 40) =~= u64_le(m.start_ns));
    lemma_u64_roundtrip(m.start_ns);
    assert(parse_u64(s, pos + 32) == Some((m.start_ns, pos + 40)));

    lemma_subrange_at(s, pos, e, 40, 48);
    assert(e.subrange(40, 48) =~= u64_le(m.end_ns));
    lemma_u64_roundtrip(m.end_ns);
    assert(parse_u64(s, pos + 40) == Some((m.end_ns, pos + 48)));

    lemma_subrange_at(s, pos, e, 48, 50);
    assert(e.subrange(48, 50) =~= u16_le(m.name.len() as u16));
    lemma_u16_roundtrip(m.name.len() as u16);
    assert(parse_u16(s, pos + 48) == Some((m.name.len() as u16, pos + 50)));
    assert((m.name.len() as u16) as int == nl);

    lemma_subrange_at(s, pos, e, 50, 50 + nl);
    assert(e.subrange(50, 50 + nl) =~= m.name);
    assert(parse_bytes(s, pos + 50, nl) == Some((m.name, pos + 50 + nl)));

    lemma_subrange_at(s, pos, e, 50 + nl, 52 + nl);
    assert(e.subrange(50 + nl, 52 + nl) =~= u16_le(m.attrs.len() as u16));
    lemma_u16_roundtrip(m.attrs.len() as u16);
    assert(parse_u16(s, pos + 50 + nl) == Some((m.attrs.len() as u16, pos + 52 + nl)));
    assert((m.attrs.len() as u16) as int == m.attrs.len() as int);

    lemma_subrange_at(s, pos, e, 52 + nl, 52 + nl + al);
    assert(e.subrange(52 + nl, 52 + nl + al) =~= attrs_enc(m.attrs));
    lemma_parse_attrs_enc(s, pos + 52 + nl, m.attrs);
    assert(parse_attrs(s, pos + 52 + nl, m.attrs.len() as int) == Some(
        (m.attrs, pos + 52 + nl + al),
    ));

    assert(SpanModel {
        trace_id_hi: m.trace_id_hi,
        trace_id_lo: m.trace_id_lo,
        span_id: m.span_id,
        parent_span_id: m.parent_span_id,
        start_ns: m.start_ns,
        end_ns: m.end_ns,
        name: m.name,
        attrs: m.attrs,
    } == m);
}

/// Law: encoding then decoding yields the original record. A record's
/// encoding, followed by anything at all (the rest of a stream of records,
/// or nothing), parses back to exactly that record, consuming exactly the
/// encoding's bytes.
pub proof fn lemma_round_trip(m: SpanModel, tail: Seq<u8>)
    requires
        m.encodable(),
    ensures
        parse_span(span_enc(m) + tail, 0) == Some((m, span_enc(m).len() as int)),
{
    let s = span_enc(m) + tail;
    assert(s.subrange(0, span_enc(m).len() as int) =~= span_enc(m));
    lemma_parse_span_enc(s, 0, m);
}

/// Law: the encoding never conflates records — two encodable records with
/// the same encoding are the same record, so nothing is silently corrupted
/// on the wire.
pub proof fn lemma_encoding_injective(m1: SpanModel, m2: SpanModel)
    requires
        m1.encodable(),
        m2.encodable(),
        span_enc(m1) == span_enc(m2),
    ensures
        m1 == m2,
{
    lemma_round_trip(m1, Seq::empty());
    lemma_round_trip(m2, Seq::empty());
}

/// `batch_enc` also unfolds at the front, one record at a time.
pub proof fn lemma_batch_enc_first(b: Seq<SpanModel>)
    requires
        b.len() > 0,
    ensures
        batch_enc(b) == span_enc(b.first()) + batch_enc(b.drop_first()),
    decreases b.len(),
{
    if b.len() == 1 {
        assert(b.drop_last() =~= Seq::<SpanModel>::empty());
        assert(b.drop_first() =~= Seq::<SpanModel>::empty());
        assert(b.last() == b.first());
        assert(batch_enc(b) =~= span_enc(b.first()) + batch_enc(b.drop_first()));
    } else {
        lemma_batch_enc_first(b.drop_last());
        assert(b.drop_last().first() == b.first());
        assert(b.drop_last().drop_first() =~= b.drop_first().drop_last());
        assert(b.drop_first().last() == b.last());
        assert(batch_enc(b) =~= span_enc(b.first()) + batch_enc(b.drop_first()));
    }
}

/// Law: a wire stream carrying an encoded batch decodes back to the batch,
/// record by record, in the batch's order: parsing at the front of the
/// stream yields the first record, and leaves exactly the remaining
/// records' encodings.
#[verifier::rlimit(50)]
pub proof fn lemma_stream_round_trip(b: Seq<SpanModel>, tail: Seq<u8>)
    requires
        b.len() > 0,
        b.first().encodable(),
    ensures
        parse_span(batch_enc(b) + tail, 0) == Some(
            (b.first(), span_enc(b.first()).len() as int),
        ),
        (batch_enc(b) + tail).skip(span_enc(b.first()).len() as int) == batch_enc(b.drop_first())
            + tail,
{
    lemma_batch_enc_first(b);
    let e0 = span_enc(b.first());
    assert(batch_enc(b) + tail =~= e0 + (batch_enc(b.drop_first()) + tail));
    lemma_round_trip(b.first(), batch_enc(b.drop_first()) + tail);
    assert((batch_enc(b) + tail).skip(e0.len() as int) =~= batch_enc(b.drop_first()) + tail);
}

} // verus!
