//! The binary wire codec for the request and response records.
//!
//! Every message is a sequence of numbered fields. A field is either a
//! base-128 variable-length integer (wire type 0) or a length-delimited byte
//! string (wire type 2, used for text, opaque bytes and nested records); its
//! header is the variable-length integer `field_number * 8 + wire_type`.
//! Requests are encoded; responses are decoded by parsers whose behaviour is
//! stated as spec-level functions, with round-trip lemmas connecting the two
//! directions.

use vstd::prelude::*;
use crate::types::{KeyValue, KeyValueV, GetObjectRequest, GetObjectRequestV, GetObjectResponse,
    GetObjectResponseV, PutObjectRequest, PutObjectRequestV, PutObjectResponse,
    DeleteObjectRequest, DeleteObjectRequestV, DeleteObjectResponse, ListKeyVersionsRequest,
    ListKeyVersionsRequestV, ListKeyVersionsResponse, ListKeyVersionsResponseV, kv_seq_view};
use crate::util::bytes_to_string;
use vstd::utf8::{valid_utf8, decode_utf8, encode_utf8};
use vstd::string::StrSliceExecFns;

verus! {

/// The base-128 little-endian-by-group encoding of `n`: each byte carries
/// seven payload bits, the high bit marks a continuation.
pub open spec fn varint(n: nat) -> Seq<u8>
    decreases n,
{
    if n < 128 {
        seq![n as u8]
    } else {
        seq![(n % 128 + 128) as u8] + varint(n / 128)
    }
}

/// Parses one variable-length integer from the front of `b`, yielding the
/// value and the number of bytes consumed. Rejects values that do not fit in
/// 64 bits and truncated input.
pub open spec fn parse_varint(b: Seq<u8>) -> Option<(nat, int)>
    decreases b.len(),
{
    if b.len() == 0 {
        None
    } else if b[0] < 128 {
        Some((b[0] as nat, 1))
    } else {
        match parse_varint(b.drop_first()) {
            None => None,
            Some((v, c)) => {
                let val = (b[0] - 128) as nat + 128 * v;
                if val < 0x10000000000000000 {
                    Some((val, c + 1))
                } else {
                    None
                }
            },
        }
    }
}

/// A successful varint parse consumes at least one byte and no more than the
/// input.
pub proof fn lemma_parse_varint_consumed(b: Seq<u8>)
    ensures
        parse_varint(b) matches Some((v, c)) ==> 1 <= c <= b.len() && v
            < 0x10000000000000000,
    decreases b.len(),
{
    if b.len() > 0 && b[0] >= 128 {
        lemma_parse_varint_consumed(b.drop_first());
    }
}

/// Parsing reads back exactly what the encoder wrote, whatever follows it.
pub proof fn lemma_varint_round_trip(n: u64, rest: Seq<u8>)
    ensures
        parse_varint(varint(n as nat) + rest) == Some(
            (n as nat, varint(n as nat).len() as int),
        ),
    decreases n,
{
    let s = varint(n as nat) + rest;
    if n < 128 {
        assert(s[0] == n as u8);
    } else {
        assert(s[0] == (n as nat % 128 + 128) as u8);
        assert(s[0] as nat == n as nat % 128 + 128);
        lemma_varint_round_trip(n / 128, rest);
        assert(s.drop_first() =~= varint((n / 128) as nat) + rest);
        assert((s[0] - 128) as nat + 128 * ((n / 128) as nat) == n as nat);
    }
}

/// Appends all of `data` to `out`.
pub fn append_bytes(out: &mut Vec<u8>, data: &Vec<u8>)
    ensures
        final(out)@ == old(out)@ + data@,
{
    let mut i: usize = 0;
    while i < data.len()
        invariant
            i <= data.len(),
            out@ == old(out)@ + data@.subrange(0, i as int),
        decreases data.len() - i,
    {
        out.push(data[i]);
        i = i + 1;
        proof {
            assert(out@ =~= old(out)@ + data@.subrange(0, i as int));
        }
    }
    proof {
        assert(data@.subrange(0, data@.len() as int) =~= data@);
    }
}

/// Copies `b[start..end]` into a fresh vector.
pub fn subvec(b: &Vec<u8>, start: usize, end: usize) -> (r: Vec<u8>)
    requires
        start <= end <= b.len(),
    ensures
        r@ == b@.subrange(start as int, end as int),
{
    let mut r: Vec<u8> = Vec::new();
    let mut i: usize = start;
    while i < end
        invariant
            start <= i <= end <= b.len(),
            r@ == b@.subrange(start as int, i as int),
        decreases end - i,
    {
        r.push(b[i]);
        i = i + 1;
        proof {
            assert(r@ =~= b@.subrange(start as int, i as int));
        }
    }
    proof {
        assert(r@ =~= b@.subrange(start as int, end as int));
    }
    r
}

/// Appends the variable-length encoding of `n` to `out`.
pub fn encode_varint(out: &mut Vec<u8>, n: u64)
    ensures
        final(out)@ == old(out)@ + varint(n as nat),
    decreases n,
{
    if n < 128 {
        out.push(n as u8);
        proof {
            assert(out@ =~= old(out)@ + varint(n as nat));
        }
    } else {
        out.push((n % 128 + 128) as u8);
        encode_varint(out, n / 128);
        proof {
            assert((n % 128 + 128) as u8 == (n as nat % 128 + 128) as u8);
            assert(out@ =~= old(out)@ + varint(n as nat));
        }
    }
}

/// Parses one variable-length integer starting at index `i` of `b`,
/// mirroring [`parse_varint`] on the remaining bytes.
pub fn decode_varint(b: &Vec<u8>, i: usize) -> (r: Option<(u64, usize)>)
    requires
        i <= b.len(),
    ensures
        match r {
            Some((v, c)) => parse_varint(b@.skip(i as int)) == Some((v as nat, c as int))
                && 1 <= c && i + c <= b.len(),
            None => parse_varint(b@.skip(i as int)) is None,
        },
    decreases b.len() - i,
{
    let ghost s = b@.skip(i as int);
    if i == b.len() {
        proof {
            assert(s.len() == 0);
        }
        return None;
    }
    let byte = b[i];
    proof {
        assert(s[0] == byte);
    }
    if byte < 128 {
        Some((byte as u64, 1))
    } else {
        proof {
            assert(s.drop_first() =~= b@.skip(i as int + 1));
        }
        match decode_varint(b, i + 1) {
            None => None,
            Some((v, c)) => {
                let val: u128 = (byte - 128) as u128 + 128u128 * (v as u128);
                if val <= 0xFFFFFFFFFFFFFFFFu128 {
                    Some((val as u64, c + 1))
                } else {
                    None
                }
            },
        }
    }
}

/// A length-delimited field: its header, the payload length, the payload.
pub open spec fn enc_bytes_field(t: nat, payload: Seq<u8>) -> Seq<u8> {
    varint(t) + varint(payload.len()) + payload
}

/// An integer field: its header, then the value.
pub open spec fn enc_varint_field(t: nat, n: nat) -> Seq<u8> {
    varint(t) + varint(n)
}

/// Parses a length-delimited field with header `t` from the front of `b`,
/// yielding the payload and the bytes consumed.
pub open spec fn parse_bytes_field(t: nat, b: Seq<u8>) -> Option<(Seq<u8>, int)> {
    match parse_varint(b) {
        None => None,
        Some((tg, c1)) => if tg != t {
            None
        } else {
            match parse_varint(b.skip(c1)) {
                None => None,
                Some((l, c2)) => if c1 + c2 + l <= b.len() {
                    Some((b.subrange(c1 + c2, c1 + c2 + l), c1 + c2 + l))
                } else {
                    None
                },
            }
        },
    }
}

/// Parses an integer field with header `t` from the front of `b`.
pub open spec fn parse_varint_field(t: nat, b: Seq<u8>) -> Option<(nat, int)> {
    match parse_varint(b) {
        None => None,
        Some((tg, c1)) => if tg != t {
            None
        } else {
            match parse_varint(b.skip(c1)) {
                None => None,
                Some((n, c2)) => Some((n, c1 + c2)),
            }
        },
    }
}

/// A parsed length-delimited field consumes at least one byte and no more
/// than the input.
pub proof fn lemma_parse_bytes_field_consumed(t: nat, b: Seq<u8>)
    ensures
        parse_bytes_field(t, b) matches Some((p, c)) ==> 1 <= c <= b.len(),
{
    lemma_parse_varint_consumed(b);
    match parse_varint(b) {
        Some((tg, c1)) => lemma_parse_varint_consumed(b.skip(c1)),
        None => (),
    }
}

/// Parsing a length-delimited field reads back exactly what the encoder
/// wrote, whatever follows it.
pub proof fn lemma_bytes_field_round_trip(t: u64, payload: Seq<u8>, rest: Seq<u8>)
    requires
        payload.len() < 0x10000000000000000,
    ensures
        parse_bytes_field(t as nat, enc_bytes_field(t as nat, payload) + rest) == Some(
            (payload, enc_bytes_field(t as nat, payload).len() as int),
        ),
{
    let s = enc_bytes_field(t as nat, payload) + rest;
    let lv = varint(payload.len());
    assert(s =~= varint(t as nat) + (lv + (payload + rest)));
    lemma_varint_round_trip(t, lv + (payload + rest));
    let c1 = varint(t as nat).len() as int;
    assert(s.skip(c1) =~= lv + (payload + rest));
    lemma_varint_round_trip(payload.len() as u64, payload + rest);
    assert((payload.len() as u64) as nat == payload.len());
    let c2 = lv.len() as int;
    assert(s.subrange(c1 + c2, c1 + c2 + payload.len() as int) =~= payload);
}

/// Parsing an integer field reads back exactly what the encoder wrote,
/// whatever follows it.
pub proof fn lemma_varint_field_round_trip(t: u64, n: u64, rest: Seq<u8>)
    ensures
        parse_varint_field(t as nat, enc_varint_field(t as nat, n as nat) + rest) == Some(
            (n as nat, enc_varint_field(t as nat, n as nat).len() as int),
        ),
{
    let s = enc_varint_field(t as nat, n as nat) + rest;
    assert(s =~= varint(t as nat) + (varint(n as nat) + rest));
    lemma_varint_round_trip(t, varint(n as nat) + rest);
    let c1 = varint(t as nat).len() as int;
    assert(s.skip(c1) =~= varint(n as nat) + rest);
    lemma_varint_round_trip(n, rest);
}

/// Appends a length-delimited field holding `payload`.
pub fn encode_bytes_field(out: &mut Vec<u8>, t: u64, payload: &Vec<u8>)
    ensures
        final(out)@ == old(out)@ + enc_bytes_field(t as nat, payload@),
{
    encode_varint(out, t);
    encode_varint(out, payload.len() as u64);
    append_bytes(out, payload);
    proof {
        assert(out@ =~= old(out)@ + enc_bytes_field(t as nat, payload@));
    }
}

/// Appends a length-delimited field holding the UTF-8 bytes of `s`.
pub fn encode_string_field(out: &mut Vec<u8>, t: u64, s: &String)
    ensures
        final(out)@ == old(out)@ + enc_bytes_field(t as nat, encode_utf8(s@)),
{
    let bytes = s.as_str().as_bytes_vec();
    encode_bytes_field(out, t, &bytes);
}

/// Appends an integer field holding `n`.
pub fn encode_varint_field(out: &mut Vec<u8>, t: u64, n: u64)
    ensures
        final(out)@ == old(out)@ + enc_varint_field(t as nat, n as nat),
{
    encode_varint(out, t);
    encode_varint(out, n);
    proof {
        assert(out@ =~= old(out)@ + enc_varint_field(t as nat, n as nat));
    }
}

/// Parses a length-delimited field with header `t` starting at index `i`,
/// returning the payload bounds within `b`, mirroring [`parse_bytes_field`].
pub fn decode_bytes_field(b: &Vec<u8>, i: usize, t: u64) -> (r: Option<(usize, usize)>)
    requires
        i <= b.len(),
    ensures
        match r {
            Some((start, end)) => i <= start <= end <= b.len() && parse_bytes_field(
                t as nat,
                b@.skip(i as int),
            ) == Some((b@.subrange(start as int, end as int), end - i)),
            None => parse_bytes_field(t as nat, b@.skip(i as int)) is None,
        },
{
    let ghost s = b@.skip(i as int);
    match decode_varint(b, i) {
        None => None,
        Some((tg, c1)) => {
            if tg != t {
                None
            } else {
                proof {
                    assert(s.skip(c1 as int) =~= b@.skip(i as int + c1 as int));
                }
                match decode_varint(b, i + c1) {
                    None => None,
                    Some((l, c2)) => {
                        let start = i + c1 + c2;
                        if l <= (b.len() - start) as u64 {
                            let end = start + (l as usize);
                            proof {
                                assert(s.subrange(
                                    (c1 + c2) as int,
                                    c1 + c2 + l as int,
                                ) =~= b@.subrange(start as int, end as int));
                            }
                            Some((start, end))
                        } else {
                            None
                        }
                    },
                }
            }
        },
    }
}

/// The encoding of one stored record: key (field 1), version (field 2),
/// value (field 3).
pub open spec fn enc_key_value(kv: KeyValueV) -> Seq<u8> {
    enc_bytes_field(10, encode_utf8(kv.key)) + enc_varint_field(16, kv.version as nat)
        + enc_bytes_field(26, kv.value)
}

/// The encoding of a run of record fields, all under header `t`, in order.
pub open spec fn enc_kv_fields(t: nat, items: Seq<KeyValueV>) -> Seq<u8>
    decreases items.len(),
{
    if items.len() == 0 {
        Seq::empty()
    } else {
        enc_bytes_field(t, enc_key_value(items[0])) + enc_kv_fields(t, items.drop_first())
    }
}

/// The encoding of a get request: store scope (field 1), key (field 2).
pub open spec fn enc_get_object_request(m: GetObjectRequestV) -> Seq<u8> {
    enc_bytes_field(10, encode_utf8(m.store_id)) + enc_bytes_field(18, encode_utf8(m.key))
}

/// The encoding of a put request: store scope (field 1), items to write
/// (field 2, repeated), items to delete (field 3, repeated).
pub open spec fn enc_put_object_request(m: PutObjectRequestV) -> Seq<u8> {
    enc_bytes_field(10, encode_utf8(m.store_id)) + enc_kv_fields(18, m.transaction_items)
        + enc_kv_fields(26, m.delete_items)
}

/// The encoding of a delete request: store scope (field 1), the record to
/// delete (field 2, present when given).
pub open spec fn enc_delete_object_request(m: DeleteObjectRequestV) -> Seq<u8> {
    enc_bytes_field(10, encode_utf8(m.store_id)) + (match m.key_value {
        None => Seq::<u8>::empty(),
        Some(kv) => enc_bytes_field(18, enc_key_value(kv)),
    })
}

/// The encoding of a list request: store scope (field 1), then the optional
/// key prefix (field 2), page size (field 3) and continuation token
/// (field 4), each present exactly when given.
pub open spec fn enc_list_key_versions_request(m: ListKeyVersionsRequestV) -> Seq<u8> {
    enc_bytes_field(10, encode_utf8(m.store_id)) + (match m.key_prefix {
        None => Seq::<u8>::empty(),
        Some(p) => enc_bytes_field(18, encode_utf8(p)),
    }) + (match m.page_size {
        None => Seq::<u8>::empty(),
        Some(n) => enc_varint_field(24, n as nat),
    }) + (match m.page_token {
        None => Seq::<u8>::empty(),
        Some(tk) => enc_bytes_field(34, encode_utf8(tk)),
    })
}

/// The encoding of a get response: the record (field 1), present exactly
/// when the service returned one.
pub open spec fn enc_get_object_response(m: GetObjectResponseV) -> Seq<u8> {
    match m.value {
        None => Seq::<u8>::empty(),
        Some(kv) => enc_bytes_field(10, enc_key_value(kv)),
    }
}

/// The encoding of a list response: the records (field 1, repeated), then
/// the next-page token (field 2), present exactly when the listing is not
/// exhausted.
pub open spec fn enc_list_key_versions_response(m: ListKeyVersionsResponseV) -> Seq<u8> {
    enc_kv_fields(10, m.key_versions) + (match m.next_page_token {
        None => Seq::<u8>::empty(),
        Some(tk) => enc_bytes_field(18, encode_utf8(tk)),
    })
}

/// Encodes one stored record.
pub fn encode_key_value(kv: &KeyValue) -> (r: Vec<u8>)
    ensures
        r@ == enc_key_value(kv@),
{
    let mut out: Vec<u8> = Vec::new();
    encode_string_field(&mut out, 10, &kv.key);
    encode_varint_field(&mut out, 16, kv.version);
    encode_bytes_field(&mut out, 26, &kv.value);
    proof {
        assert(out@ =~= enc_key_value(kv@));
    }
    out
}

/// Appends a run of record fields under header `t`, in order.
fn encode_kv_fields(out: &mut Vec<u8>, t: u64, items: &Vec<KeyValue>)
    ensures
        final(out)@ == old(out)@ + enc_kv_fields(t as nat, kv_seq_view(items@)),
{
    let ghost full = kv_seq_view(items@);
    proof {
        assert(full.skip(0) =~= full);
    }
    let mut i: usize = 0;
    while i < items.len()
        invariant
            i <= items.len(),
            full == kv_seq_view(items@),
            full.len() == items@.len(),
            out@ + enc_kv_fields(t as nat, full.skip(i as int)) == old(out)@ + enc_kv_fields(
                t as nat,
                full,
            ),
        decreases items.len() - i,
    {
        let encoded = encode_key_value(&items[i]);
        encode_bytes_field(out, t, &encoded);
        proof {
            let suffix = full.skip(i as int);
            assert(suffix[0] == items@[i as int]@);
            assert(suffix.drop_first() =~= full.skip(i as int + 1));
            assert(out@ + enc_kv_fields(t as nat, full.skip(i as int + 1)) =~= old(out)@
                + enc_kv_fields(t as nat, full));
        }
        i = i + 1;
    }
    proof {
        assert(full.skip(full.len() as int) =~= Seq::<KeyValueV>::empty());
        assert(out@ =~= old(out)@ + enc_kv_fields(t as nat, full));
    }
}

/// Serializes a get request to its canonical binary form.
pub fn encode_get_object_request(m: &GetObjectRequest) -> (r: Vec<u8>)
    ensures
        r@ == enc_get_object_request(m@),
{
    let mut out: Vec<u8> = Vec::new();
    encode_string_field(&mut out, 10, &m.store_id);
    encode_string_field(&mut out, 18, &m.key);
    proof {
        assert(out@ =~= enc_get_object_request(m@));
    }
    out
}

/// Serializes a put request to its canonical binary form.
pub fn encode_put_object_request(m: &PutObjectRequest) -> (r: Vec<u8>)
    ensures
        r@ == enc_put_object_request(m@),
{
    let mut out: Vec<u8> = Vec::new();
    encode_string_field(&mut out, 10, &m.store_id);
    encode_kv_fields(&mut out, 18, &m.transaction_items);
    encode_kv_fields(&mut out, 26, &m.delete_items);
    proof {
        assert(out@ =~= enc_put_object_request(m@));
    }
    out
}

/// Serializes a delete request to its canonical binary form.
pub fn encode_delete_object_request(m: &DeleteObjectRequest) -> (r: Vec<u8>)
    ensures
        r@ == enc_delete_object_request(m@),
{
    let mut out: Vec<u8> = Vec::new();
    encode_string_field(&mut out, 10, &m.store_id);
    match &m.key_value {
        Some(kv) => {
            let encoded = encode_key_value(kv);
            encode_bytes_field(&mut out, 18, &encoded);
        },
        None => {},
    }
    proof {
        assert(out@ =~= enc_delete_object_request(m@));
    }
    out
}

/// Serializes a list request to its canonical binary form.
pub fn encode_list_key_versions_request(m: &ListKeyVersionsRequest) -> (r: Vec<u8>)
    ensures
        r@ == enc_list_key_versions_request(m@),
{
    let mut out: Vec<u8> = Vec::new();
    encode_string_field(&mut out, 10, &m.store_id);
    match &m.key_prefix {
        Some(p) => encode_string_field(&mut out, 18, p),
        None => {},
    }
    match &m.page_size {
        Some(n) => encode_varint_field(&mut out, 24, *n as u64),
        None => {},
    }
    match &m.page_token {
        Some(tk) => encode_string_field(&mut out, 34, tk),
        None => {},
    }
    proof {
        assert(out@ =~= enc_list_key_versions_request(m@));
    }
    out
}

/// Serializes a get response to its canonical binary form.
pub fn encode_get_object_response(m: &GetObjectResponse) -> (r: Vec<u8>)
    ensures
        r@ == enc_get_object_response(m@),
{
    let mut out: Vec<u8> = Vec::new();
    match &m.value {
        Some(kv) => {
            let encoded = encode_key_value(kv);
            encode_bytes_field(&mut out, 10, &encoded);
        },
        None => {},
    }
    proof {
        assert(out@ =~= enc_get_object_response(m@));
    }
    out
}

/// Serializes a list response to its canonical binary form.
pub fn encode_list_key_versions_response(m: &ListKeyVersionsResponse) -> (r: Vec<u8>)
    ensures
        r@ == enc_list_key_versions_response(m@),
{
    let mut out: Vec<u8> = Vec::new();
    encode_kv_fields(&mut out, 10, &m.key_versions);
    match &m.next_page_token {
        Some(tk) => encode_string_field(&mut out, 18, tk),
        None => {},
    }
    proof {
        assert(out@ =~= enc_list_key_versions_response(m@));
    }
    out
}

/// Parses an integer field with header `t` starting at index `i`, returning
/// the value and the bytes consumed, mirroring [`parse_varint_field`].
pub fn decode_varint_field(b: &Vec<u8>, i: usize, t: u64) -> (r: Option<(u64, usize)>)
    requires
        i <= b.len(),
    ensures
        match r {
            Some((n, c)) => 1 <= c && i + c <= b.len() && parse_varint_field(
                t as nat,
                b@.skip(i as int),
            ) == Some((n as nat, c as int)),
            None => parse_varint_field(t as nat, b@.skip(i as int)) is None,
        },
{
    let ghost s = b@.skip(i as int);
    match decode_varint(b, i) {
        None => None,
        Some((tg, c1)) => {
            if tg != t {
                None
            } else {
                proof {
                    assert(s.skip(c1 as int) =~= b@.skip(i as int + c1 as int));
                }
                match decode_varint(b, i + c1) {
                    None => None,
                    Some((n, c2)) => Some((n, c1 + c2)),
                }
            }
        },
    }
}

/// The bytes that one field of any number occupies at the front of `b`:
/// its header, then a varint value, a length-delimited payload, or a fixed
/// eight- or four-byte value, by the header's wire type.
pub open spec fn skip_field(b: Seq<u8>) -> Option<int> {
    match parse_varint(b) {
        None => None,
        Some((tag, c1)) => {
            let wire = tag % 8;
            if wire == 0 {
                match parse_varint(b.skip(c1)) {
                    None => None,
                    Some((v, c2)) => Some(c1 + c2),
                }
            } else if wire == 2 {
                match parse_varint(b.skip(c1)) {
                    None => None,
                    Some((l, c2)) => if c1 + c2 + l <= b.len() {
                        Some(c1 + c2 + l)
                    } else {
                        None
                    },
                }
            } else if wire == 1 {
                if c1 + 8 <= b.len() {
                    Some(c1 + 8)
                } else {
                    None
                }
            } else if wire == 5 {
                if c1 + 4 <= b.len() {
                    Some(c1 + 4)
                } else {
                    None
                }
            } else {
                None
            }
        },
    }
}

/// The bytes taken by the run of well-formed fields at the front of `b`
/// whose headers are none of `t1`, `t2`, `t3`: the unknown fields a parser
/// skips, as a peer with a newer schema may send them. A malformed field
/// ends the run; the parser then fails on the leftover.
pub open spec fn leading_unknown(t1: nat, t2: nat, t3: nat, b: Seq<u8>) -> int
    decreases b.len(),
{
    match parse_varint(b) {
        None => 0,
        Some((tag, hc)) => if tag == t1 || tag == t2 || tag == t3 {
            0
        } else {
            match skip_field(b) {
                None => 0,
                Some(c) => if 1 <= c <= b.len() {
                    c + leading_unknown(t1, t2, t3, b.skip(c))
                } else {
                    0
                },
            }
        },
    }
}

/// Skips one field starting at index `i`, mirroring [`skip_field`] on the
/// remaining bytes; the result is where the field ends.
fn decode_skip_field(b: &Vec<u8>, i: usize) -> (r: Option<usize>)
    requires
        i <= b.len(),
    ensures
        match r {
            Some(end) => i < end <= b.len() && skip_field(b@.skip(i as int)) == Some(
                end - i,
            ),
            None => skip_field(b@.skip(i as int)) is None,
        },
{
    let ghost s = b@.skip(i as int);
    match decode_varint(b, i) {
        None => None,
        Some((tag, c1)) => {
            let wire = tag % 8;
            proof {
                assert(s.skip(c1 as int) =~= b@.skip(i as int + c1 as int));
            }
            if wire == 0 {
                match decode_varint(b, i + c1) {
                    None => None,
                    Some((_v, c2)) => Some(i + c1 + c2),
                }
            } else if wire == 2 {
                match decode_varint(b, i + c1) {
                    None => None,
                    Some((l, c2)) => {
                        let start = i + c1 + c2;
                        if l <= (b.len() - start) as u64 {
                            Some(start + (l as usize))
                        } else {
                            None
                        }
                    },
                }
            } else if wire == 1 {
                if b.len() - i - c1 >= 8 {
                    Some(i + c1 + 8)
                } else {
                    None
                }
            } else if wire == 5 {
                if b.len() - i - c1 >= 4 {
                    Some(i + c1 + 4)
                } else {
                    None
                }
            } else {
                None
            }
        },
    }
}

/// Skips the run of unknown fields starting at index `i`, mirroring
/// [`leading_unknown`]; the result is where the run ends.
fn decode_leading_unknown(b: &Vec<u8>, i: usize, t1: u64, t2: u64, t3: u64) -> (r: usize)
    requires
        i <= b.len(),
    ensures
        i <= r <= b.len(),
        r - i == leading_unknown(t1 as nat, t2 as nat, t3 as nat, b@.skip(i as int)),
{
    let mut j: usize = i;
    loop
        invariant
            i <= j <= b.len(),
            leading_unknown(t1 as nat, t2 as nat, t3 as nat, b@.skip(i as int)) == (j - i)
                + leading_unknown(t1 as nat, t2 as nat, t3 as nat, b@.skip(j as int)),
        ensures
            i <= j <= b.len(),
            leading_unknown(t1 as nat, t2 as nat, t3 as nat, b@.skip(i as int)) == j - i,
        decreases b.len() - j,
    {
        let ghost rem = b@.skip(j as int);
        match decode_varint(b, j) {
            None => {
                break ;
            },
            Some((tag, _hc)) => {
                if tag == t1 || tag == t2 || tag == t3 {
                    break ;
                }
                match decode_skip_field(b, j) {
                    None => {
                        break ;
                    },
                    Some(end) => {
                        proof {
                            assert(rem.skip((end - j) as int) =~= b@.skip(end as int));
                        }
                        j = end;
                    },
                }
            },
        }
    }
    j
}

/// Parses a whole buffer as one stored record: key, version, value, in
/// field-number order, with nothing left over. A field may be absent, as
/// peers that elide default-valued fields encode a record; it then carries
/// its default (empty key, version zero, empty value). Well-formed fields
/// of other numbers are skipped wherever they stand, as a peer with a
/// newer schema may send them.
#[verifier::opaque]
pub open spec fn parse_key_value(b: Seq<u8>) -> Option<KeyValueV> {
    let u0 = leading_unknown(10, 16, 26, b);
    let b0 = b.skip(u0);
    let (kb, c1) = match parse_bytes_field(10, b0) {
        Some((p, c)) => (p, c),
        None => (Seq::<u8>::empty(), 0),
    };
    let u1 = leading_unknown(10, 16, 26, b0.skip(c1));
    let b1 = b0.skip(c1).skip(u1);
    let (ver, c2) = match parse_varint_field(16, b1) {
        Some((v, c)) => (v, c),
        None => (0, 0),
    };
    let u2 = leading_unknown(10, 16, 26, b1.skip(c2));
    let b2 = b1.skip(c2).skip(u2);
    let (vb, c3) = match parse_bytes_field(26, b2) {
        Some((p, c)) => (p, c),
        None => (Seq::<u8>::empty(), 0),
    };
    let u3 = leading_unknown(10, 16, 26, b2.skip(c3));
    if u0 + c1 + u1 + c2 + u2 + c3 + u3 == b.len() && valid_utf8(kb) {
        Some(KeyValueV { key: decode_utf8(kb), version: ver as u64, value: vb })
    } else {
        None
    }
}

/// Parses the longest run of record fields under header `t` from the front
/// of `b`, skipping well-formed fields whose headers are neither `t` nor
/// `t2` (the message's other known header), yielding the records and the
/// bytes consumed. A field that is present but malformed ends the run; the
/// caller then rejects the leftover.
#[verifier::opaque]
pub open spec fn parse_kv_fields(t: nat, t2: nat, b: Seq<u8>) -> (Seq<KeyValueV>, int)
    decreases b.len(),
{
    let u = leading_unknown(t, t2, t2, b);
    let b0 = b.skip(u);
    match parse_bytes_field(t, b0) {
        None => (Seq::empty(), u),
        Some((sub, c)) => match parse_key_value(sub) {
            None => (Seq::empty(), u),
            Some(kv) => if 1 <= u + c <= b.len() {
                let (rest_items, rc) = parse_kv_fields(t, t2, b.skip(u + c));
                (seq![kv] + rest_items, u + c + rc)
            } else {
                (Seq::empty(), u)
            },
        },
    }
}

/// Parses a whole buffer as a get response: at most one record field,
/// absent when the service returned no record. Well-formed fields of other
/// numbers are skipped.
pub open spec fn parse_get_object_response(b: Seq<u8>) -> Option<GetObjectResponseV> {
    let u0 = leading_unknown(10, 10, 10, b);
    let b0 = b.skip(u0);
    if b0.len() == 0 {
        Some(GetObjectResponseV { value: None })
    } else {
        match parse_bytes_field(10, b0) {
            None => None,
            Some((sub, c)) => {
                let u1 = leading_unknown(10, 10, 10, b0.skip(c));
                if u0 + c + u1 == b.len() {
                    match parse_key_value(sub) {
                        None => None,
                        Some(kv) => Some(GetObjectResponseV { value: Some(kv) }),
                    }
                } else {
                    None
                }
            },
        }
    }
}

/// Parses a whole buffer as a list response: a run of record fields, then
/// the next-page token exactly when known fields continue. Well-formed
/// fields of other numbers are skipped.
pub open spec fn parse_list_key_versions_response(b: Seq<u8>) -> Option<
    ListKeyVersionsResponseV,
> {
    let (items, c) = parse_kv_fields(10, 18, b);
    let rest = b.skip(c);
    if rest.len() == 0 {
        Some(ListKeyVersionsResponseV { key_versions: items, next_page_token: None })
    } else {
        match parse_bytes_field(18, rest) {
            None => None,
            Some((tb, c2)) => {
                let u2 = leading_unknown(10, 18, 18, rest.skip(c2));
                if c2 + u2 == rest.len() && valid_utf8(tb) {
                    Some(
                        ListKeyVersionsResponseV {
                            key_versions: items,
                            next_page_token: Some(decode_utf8(tb)),
                        },
                    )
                } else {
                    None
                }
            },
        }
    }
}

/// Decodes one stored record, mirroring [`parse_key_value`].
#[verifier::rlimit(100)]
pub fn decode_key_value(b: &Vec<u8>) -> (r: Option<KeyValue>)
    ensures
        match r {
            Some(kv) => parse_key_value(b@) == Some(kv@),
            None => parse_key_value(b@) is None,
        },
{
    proof {
        reveal(parse_key_value);
        assert(b@.skip(0) =~= b@);
    }
    let p0 = decode_leading_unknown(b, 0, 10, 16, 26);
    let (key_bytes, e1): (Vec<u8>, usize) = match decode_bytes_field(b, p0, 10) {
        Some((s1, end)) => (subvec(b, s1, end), end),
        None => (Vec::new(), p0),
    };
    proof {
        assert(b@.skip(p0 as int).skip((e1 - p0) as int) =~= b@.skip(e1 as int));
    }
    let p1 = decode_leading_unknown(b, e1, 10, 16, 26);
    proof {
        assert(b@.skip(e1 as int).skip((p1 - e1) as int) =~= b@.skip(p1 as int));
    }
    let (ver, e2): (u64, usize) = match decode_varint_field(b, p1, 16) {
        Some((v, c2)) => (v, p1 + c2),
        None => (0, p1),
    };
    proof {
        assert(b@.skip(p1 as int).skip((e2 - p1) as int) =~= b@.skip(e2 as int));
    }
    let p2 = decode_leading_unknown(b, e2, 10, 16, 26);
    proof {
        assert(b@.skip(e2 as int).skip((p2 - e2) as int) =~= b@.skip(p2 as int));
    }
    let (value, e3): (Vec<u8>, usize) = match decode_bytes_field(b, p2, 26) {
        Some((s3, end)) => (subvec(b, s3, end), end),
        None => (Vec::new(), p2),
    };
    proof {
        assert(b@.skip(p2 as int).skip((e3 - p2) as int) =~= b@.skip(e3 as int));
    }
    let p3 = decode_leading_unknown(b, e3, 10, 16, 26);
    if p3 != b.len() {
        return None;
    }
    match bytes_to_string(key_bytes) {
        None => None,
        Some(key) => Some(KeyValue { key, version: ver, value }),
    }
}

/// Decodes a get response, mirroring [`parse_get_object_response`].
pub fn decode_get_object_response(b: &Vec<u8>) -> (r: Option<GetObjectResponse>)
    ensures
        match r {
            Some(m) => parse_get_object_response(b@) == Some(m@),
            None => parse_get_object_response(b@) is None,
        },
{
    proof {
        assert(b@.skip(0) =~= b@);
    }
    let p0 = decode_leading_unknown(b, 0, 10, 10, 10);
    if p0 == b.len() {
        proof {
            assert(b@.skip(p0 as int).len() == 0);
        }
        return Some(GetObjectResponse { value: None });
    }
    match decode_bytes_field(b, p0, 10) {
        None => None,
        Some((s1, e1)) => {
            proof {
                assert(b@.skip(p0 as int).skip((e1 - p0) as int) =~= b@.skip(e1 as int));
            }
            let p1 = decode_leading_unknown(b, e1, 10, 10, 10);
            if p1 != b.len() {
                return None;
            }
            let sub = subvec(b, s1, e1);
            match decode_key_value(&sub) {
                None => None,
                Some(kv) => Some(GetObjectResponse { value: Some(kv) }),
            }
        },
    }
}

/// Decodes a put response: success carries no payload, so only the empty
/// buffer is accepted.
pub fn decode_put_object_response(b: &Vec<u8>) -> (r: Option<PutObjectResponse>)
    ensures
        r is Some <==> b@.len() == 0,
{
    if b.len() == 0 {
        Some(PutObjectResponse {})
    } else {
        None
    }
}

/// Decodes a delete response: success carries no payload, so only the empty
/// buffer is accepted.
pub fn decode_delete_object_response(b: &Vec<u8>) -> (r: Option<DeleteObjectResponse>)
    ensures
        r is Some <==> b@.len() == 0,
{
    if b.len() == 0 {
        Some(DeleteObjectResponse {})
    } else {
        None
    }
}

/// One step of the record run at index `i`: the next record and the index
/// past its field, or, when the run stops, the index past the unknown
/// fields skipped there.
#[verifier::rlimit(100)]
fn decode_kv_run_step(b: &Vec<u8>, i: usize) -> (r: Result<(KeyValue, usize), usize>)
    requires
        i <= b.len(),
    ensures
        match r {
            Ok((kv, e)) => i < e <= b.len() && parse_kv_fields(10, 18, b@.skip(i as int)).0
                == seq![kv@] + parse_kv_fields(10, 18, b@.skip(e as int)).0
                && parse_kv_fields(10, 18, b@.skip(i as int)).1 == (e - i)
                + parse_kv_fields(10, 18, b@.skip(e as int)).1,
            Err(j) => i <= j <= b.len() && parse_kv_fields(10, 18, b@.skip(i as int)).0
                == Seq::<KeyValueV>::empty() && parse_kv_fields(
                10,
                18,
                b@.skip(i as int),
            ).1 == j - i,
        },
{
    proof {
        reveal(parse_kv_fields);
    }
    let ghost rem = b@.skip(i as int);
    let j = decode_leading_unknown(b, i, 10, 18, 18);
    proof {
        assert(rem.skip((j - i) as int) =~= b@.skip(j as int));
    }
    match decode_bytes_field(b, j, 10) {
        None => Err(j),
        Some((s, e)) => {
            let sub = subvec(b, s, e);
            match decode_key_value(&sub) {
                None => Err(j),
                Some(kv) => {
                    proof {
                        lemma_parse_bytes_field_consumed(10, b@.skip(j as int));
                        assert(rem.skip((e - i) as int) =~= b@.skip(e as int));
                    }
                    Ok((kv, e))
                },
            }
        },
    }
}

/// Decodes a list response, mirroring [`parse_list_key_versions_response`].
#[verifier::rlimit(100)]
pub fn decode_list_key_versions_response(b: &Vec<u8>) -> (r: Option<ListKeyVersionsResponse>)
    ensures
        match r {
            Some(m) => parse_list_key_versions_response(b@) == Some(m@),
            None => parse_list_key_versions_response(b@) is None,
        },
{
    let mut items: Vec<KeyValue> = Vec::new();
    let mut i: usize = 0;
    proof {
        assert(b@.skip(0) =~= b@);
        assert(kv_seq_view(items@) =~= Seq::<KeyValueV>::empty());
    }
    loop
        invariant_except_break
            i <= b.len(),
            parse_kv_fields(10, 18, b@).0 =~= kv_seq_view(items@) + parse_kv_fields(
                10,
                18,
                b@.skip(i as int),
            ).0,
            parse_kv_fields(10, 18, b@).1 == i + parse_kv_fields(
                10,
                18,
                b@.skip(i as int),
            ).1,
        ensures
            i <= b.len(),
            parse_kv_fields(10, 18, b@).0 == kv_seq_view(items@),
            parse_kv_fields(10, 18, b@).1 == i,
        decreases b.len() - i,
    {
        match decode_kv_run_step(b, i) {
            Err(j) => {
                i = j;
                break ;
            },
            Ok((kv, e)) => {
                proof {
                    assert(kv_seq_view(items@.push(kv)) =~= kv_seq_view(items@)
                        + seq![kv@]);
                    assert(kv_seq_view(items@) + (seq![kv@] + parse_kv_fields(
                        10,
                        18,
                        b@.skip(e as int),
                    ).0) =~= (kv_seq_view(items@) + seq![kv@]) + parse_kv_fields(
                        10,
                        18,
                        b@.skip(e as int),
                    ).0);
                }
                items.push(kv);
                i = e;
            },
        }
    }
    let ghost items_v = kv_seq_view(items@);
    if i == b.len() {
        proof {
            assert(b@.skip(i as int).len() == 0);
        }
        return Some(ListKeyVersionsResponse { key_versions: items, next_page_token: None });
    }
    match decode_bytes_field(b, i, 18) {
        None => None,
        Some((s2, e2)) => {
            proof {
                assert(b@.skip(i as int).skip((e2 - i) as int) =~= b@.skip(e2 as int));
            }
            let p2 = decode_leading_unknown(b, e2, 10, 18, 18);
            if p2 != b.len() {
                return None;
            }
            let tb = subvec(b, s2, e2);
            match bytes_to_string(tb) {
                None => None,
                Some(tok) => Some(
                    ListKeyVersionsResponse {
                        key_versions: items,
                        next_page_token: Some(tok),
                    },
                ),
            }
        },
    }
}

/// 128 raised to `k`: the number of values a `k`-byte varint can carry.
pub open spec fn pow128(k: nat) -> nat
    decreases k,
{
    if k == 0 {
        1
    } else {
        128 * pow128((k - 1) as nat)
    }
}

/// A value below `pow128(k)` encodes in at most `k` bytes.
pub proof fn lemma_varint_len(n: nat, k: nat)
    requires
        k >= 1,
        n < pow128(k),
    ensures
        varint(n).len() <= k,
    decreases n,
{
    if n >= 128 {
        assert(pow128(0) == 1);
        assert(k >= 2);
        assert(n / 128 < pow128((k - 1) as nat)) by {
            vstd::arithmetic::div_mod::lemma_multiply_divide_lt(
                n as int,
                128,
                pow128((k - 1) as nat) as int,
            );
        };
        lemma_varint_len(n / 128, (k - 1) as nat);
    }
}

/// A record small enough that every length arising in its encoding fits in
/// 64 bits; every record held in memory satisfies this.
pub open spec fn kv_v_wf(kv: KeyValueV) -> bool {
    encode_utf8(kv.key).len() < 0x4000000000000000 && kv.value.len() < 0x4000000000000000
}

/// The encoding of a well-formed record is itself short enough to stand as
/// the payload of a length-delimited field.
pub proof fn lemma_enc_key_value_len(kv: KeyValueV)
    requires
        kv_v_wf(kv),
    ensures
        enc_key_value(kv).len() < 0x10000000000000000,
{
    assert(pow128(10) == 0x400000000000000000) by {
        reveal_with_fuel(pow128, 11);
    };
    lemma_varint_len(encode_utf8(kv.key).len(), 10);
    lemma_varint_len(kv.version as nat, 10);
    lemma_varint_len(kv.value.len(), 10);
}

/// What each parsing step reads at its position in a record's canonical
/// encoding: the three fields in order, no unknown fields anywhere, and
/// skip positions that compose.
#[verifier::rlimit(100)]
pub proof fn lemma_key_value_fields(kv: KeyValueV)
    requires
        kv_v_wf(kv),
    ensures
        ({
            let kb = encode_utf8(kv.key);
            let f1 = enc_bytes_field(10, kb);
            let f2 = enc_varint_field(16, kv.version as nat);
            let f3 = enc_bytes_field(26, kv.value);
            let s = enc_key_value(kv);
            &&& parse_bytes_field(10, s) == Some((kb, f1.len() as int))
            &&& parse_varint_field(16, s.skip(f1.len() as int)) == Some(
                (kv.version as nat, f2.len() as int),
            )
            &&& parse_bytes_field(26, s.skip(f1.len() as int + f2.len() as int)) == Some(
                (kv.value, f3.len() as int),
            )
            &&& leading_unknown(10, 16, 26, s) == 0
            &&& leading_unknown(10, 16, 26, s.skip(f1.len() as int)) == 0
            &&& leading_unknown(10, 16, 26, s.skip(f1.len() as int + f2.len() as int))
                == 0
            &&& leading_unknown(10, 16, 26, s.skip(s.len() as int)) == 0
            &&& valid_utf8(kb)
            &&& decode_utf8(kb) == kv.key
            &&& f1.len() + f2.len() + f3.len() == s.len()
            &&& s.skip(0) == s
            &&& s.skip(f1.len() as int).skip(0) == s.skip(f1.len() as int)
            &&& s.skip(f1.len() as int).skip(f2.len() as int) == s.skip(
                f1.len() as int + f2.len() as int,
            )
            &&& s.skip(f1.len() as int + f2.len() as int).skip(0) == s.skip(
                f1.len() as int + f2.len() as int,
            )
            &&& s.skip(f1.len() as int + f2.len() as int).skip(f3.len() as int) == s.skip(
                s.len() as int,
            )
        }),
{
    broadcast use vstd::utf8::encode_utf8_valid_utf8, vstd::utf8::encode_utf8_decode_utf8;

    let kb = encode_utf8(kv.key);
    let f1 = enc_bytes_field(10, kb);
    let f2 = enc_varint_field(16, kv.version as nat);
    let f3 = enc_bytes_field(26, kv.value);
    let s = enc_key_value(kv);
    assert(s =~= f1 + (f2 + f3));
    lemma_bytes_field_round_trip(10, kb, f2 + f3);
    assert(s.skip(f1.len() as int) =~= f2 + f3);
    lemma_varint_field_round_trip(16, kv.version, f3);
    assert(s.skip(f1.len() as int + f2.len() as int) =~= f3 + Seq::<u8>::empty());
    assert(f3 + Seq::<u8>::empty() =~= f3);
    lemma_bytes_field_round_trip(26, kv.value, Seq::<u8>::empty());
    // a canonical encoding begins each position with a known field header,
    // so no unknown fields are skipped anywhere
    assert(s =~= varint(10) + (varint(kb.len()) + (kb + (f2 + f3))));
    lemma_varint_round_trip(10, varint(kb.len()) + (kb + (f2 + f3)));
    assert(leading_unknown(10, 16, 26, s) == 0);
    assert(s.skip(f1.len() as int) =~= varint(16) + (varint(kv.version as nat) + f3));
    lemma_varint_round_trip(16, varint(kv.version as nat) + f3);
    assert(leading_unknown(10, 16, 26, s.skip(f1.len() as int)) == 0);
    assert(s.skip(f1.len() as int + f2.len() as int) =~= varint(26) + (varint(
        kv.value.len(),
    ) + kv.value));
    lemma_varint_round_trip(26, varint(kv.value.len()) + kv.value);
    assert(leading_unknown(10, 16, 26, s.skip(f1.len() as int + f2.len() as int)) == 0);
    assert(s.skip(s.len() as int) =~= Seq::<u8>::empty());
    // the parser's skip positions compose
    assert(s.skip(0) =~= s);
    assert(s.skip(f1.len() as int).skip(0) =~= s.skip(f1.len() as int));
    assert(s.skip(f1.len() as int).skip(f2.len() as int) =~= s.skip(
        f1.len() as int + f2.len() as int,
    ));
    assert(s.skip(f1.len() as int + f2.len() as int).skip(0) =~= s.skip(
        f1.len() as int + f2.len() as int,
    ));
    assert(s.skip(f1.len() as int + f2.len() as int).skip(f3.len() as int) =~= s.skip(
        s.len() as int,
    ));
}

/// Decoding a record reads back exactly what the encoder wrote.
pub proof fn lemma_key_value_round_trip(kv: KeyValueV)
    requires
        kv_v_wf(kv),
    ensures
        parse_key_value(enc_key_value(kv)) == Some(kv),
{
    lemma_key_value_fields(kv);
    reveal(parse_key_value);
    assert(parse_key_value(enc_key_value(kv)) matches Some(p) && p =~= kv);
}

/// Decoding a get response reads back exactly what the encoder wrote.
pub proof fn lemma_get_object_response_round_trip(m: GetObjectResponseV)
    requires
        m.value matches Some(kv) ==> kv_v_wf(kv),
    ensures
        parse_get_object_response(enc_get_object_response(m)) == Some(m),
{
    match m.value {
        None => {
            let s = enc_get_object_response(m);
            assert(s.skip(0) =~= s);
            assert(parse_get_object_response(s) matches Some(p) && p =~= m);
        },
        Some(kv) => {
            let s = enc_get_object_response(m);
            lemma_enc_key_value_len(kv);
            assert(s =~= enc_bytes_field(10, enc_key_value(kv)) + Seq::<u8>::empty());
            lemma_bytes_field_round_trip(10, enc_key_value(kv), Seq::<u8>::empty());
            lemma_key_value_round_trip(kv);
            lemma_parse_bytes_field_consumed(10, s);
            assert(s.len() > 0);
            // the canonical encoding opens with the record field's header
            // and ends cleanly, so no unknown fields are skipped
            let payload = enc_key_value(kv);
            assert(s =~= varint(10) + (varint(payload.len()) + (payload
                + Seq::<u8>::empty())));
            lemma_varint_round_trip(10, varint(payload.len()) + (payload
                + Seq::<u8>::empty()));
            assert(leading_unknown(10, 10, 10, s) == 0);
            assert(s.skip(0) =~= s);
            assert(s.skip(s.len() as int) =~= Seq::<u8>::empty());
            assert(parse_get_object_response(s) matches Some(p) && p =~= m);
        },
    }
}

/// Parsing a run of record fields reads back exactly the records the
/// encoder wrote, provided what follows neither begins with another field
/// of the same header nor with fields the parser would skip.
#[verifier::rlimit(100)]
pub proof fn lemma_kv_fields_round_trip(t: u64, t2: u64, items: Seq<KeyValueV>, rest: Seq<u8>)
    requires
        forall|j: int| 0 <= j < items.len() ==> kv_v_wf(#[trigger] items[j]),
        parse_bytes_field(t as nat, rest) is None,
        leading_unknown(t as nat, t2 as nat, t2 as nat, rest) == 0,
    ensures
        parse_kv_fields(t as nat, t2 as nat, enc_kv_fields(t as nat, items) + rest).0
            == items,
        parse_kv_fields(t as nat, t2 as nat, enc_kv_fields(t as nat, items) + rest).1
            == enc_kv_fields(t as nat, items).len(),
    decreases items.len(),
{
    reveal(parse_kv_fields);
    if items.len() == 0 {
        assert(enc_kv_fields(t as nat, items) + rest =~= rest);
        assert(rest.skip(0) =~= rest);
        assert(parse_kv_fields(t as nat, t2 as nat, rest).0 =~= items);
    } else {
        let kv = items[0];
        lemma_enc_key_value_len(kv);
        let payload = enc_key_value(kv);
        let f = enc_bytes_field(t as nat, payload);
        let tail_enc = enc_kv_fields(t as nat, items.drop_first());
        let s = enc_kv_fields(t as nat, items) + rest;
        assert(s =~= f + (tail_enc + rest));
        lemma_bytes_field_round_trip(t, payload, tail_enc + rest);
        lemma_key_value_round_trip(kv);
        lemma_parse_bytes_field_consumed(t as nat, s);
        // the run opens with its own header, so nothing is skipped first
        assert(s =~= varint(t as nat) + (varint(payload.len()) + (payload + (tail_enc
            + rest))));
        lemma_varint_round_trip(t, varint(payload.len()) + (payload + (tail_enc + rest)));
        assert(leading_unknown(t as nat, t2 as nat, t2 as nat, s) == 0);
        assert(s.skip(0) =~= s);
        assert(s.skip(f.len() as int) =~= tail_enc + rest);
        assert(forall|j: int|
            0 <= j < items.drop_first().len() ==> kv_v_wf(
                #[trigger] items.drop_first()[j],
            ));
        lemma_kv_fields_round_trip(t, t2, items.drop_first(), rest);
        assert(seq![kv] + items.drop_first() =~= items);
    }
}

/// Decoding a list response reads back exactly what the encoder wrote.
pub proof fn lemma_list_key_versions_response_round_trip(m: ListKeyVersionsResponseV)
    requires
        forall|j: int|
            0 <= j < m.key_versions.len() ==> kv_v_wf(#[trigger] m.key_versions[j]),
        m.next_page_token matches Some(tk) ==> encode_utf8(tk).len()
            < 0x10000000000000000,
    ensures
        parse_list_key_versions_response(enc_list_key_versions_response(m)) == Some(m),
{
    broadcast use vstd::utf8::encode_utf8_valid_utf8, vstd::utf8::encode_utf8_decode_utf8;

    let run = enc_kv_fields(10, m.key_versions);
    let rest = match m.next_page_token {
        None => Seq::<u8>::empty(),
        Some(tk) => enc_bytes_field(18, encode_utf8(tk)),
    };
    let s = enc_list_key_versions_response(m);
    assert(s =~= run + rest);
    match m.next_page_token {
        None => {
            assert(parse_varint(rest) is None);
        },
        Some(tk) => {
            assert(rest[0] == varint(18)[0]);
            assert(rest[0] == 18);
            assert(parse_varint(rest) matches Some((v, c)) && v == 18nat && c == 1);
        },
    }
    assert(leading_unknown(10, 18, 18, rest) == 0);
    lemma_kv_fields_round_trip(10, 18, m.key_versions, rest);
    let c = parse_kv_fields(10, 18, s).1;
    assert(c == run.len());
    assert(s.skip(c) =~= rest);
    match m.next_page_token {
        None => {
            assert(parse_list_key_versions_response(s) matches Some(p) && p =~= m);
        },
        Some(tk) => {
            assert(rest =~= enc_bytes_field(18, encode_utf8(tk)) + Seq::<u8>::empty());
            lemma_bytes_field_round_trip(18, encode_utf8(tk), Seq::<u8>::empty());
            assert(rest.skip(rest.len() as int) =~= Seq::<u8>::empty());
            assert(parse_list_key_versions_response(s) matches Some(p) && p =~= m);
        },
    }
}

} // verus!
