//! The canonical binary layout of record payloads: little-endian fixed-width integers,
//! byte strings prefixed by their length as a `u64`, a one-byte tag before an optional
//! value, a `u32` variant index for an enum, and the 32 raw bytes of a compressed point.

use vstd::prelude::*;

use crate::hash::append_bytes;
use crate::keys::{KeySize, LambdaKey};
use crate::records::{RData, RDataRef, RDataRefView, RDataView, REncData};

verus! {

/// The 8 little-endian bytes of `x`.
pub open spec fn u64_le(x: u64) -> Seq<u8> {
    Seq::new(8, |i: int| ((x >> (8 * i) as u64) & 0xff) as u8)
}

/// The `u64` whose little-endian bytes start `b` at `pos`.
pub open spec fn u64_at(b: Seq<u8>, pos: int) -> u64 {
    (b[pos] as u64) | ((b[pos + 1] as u64) << 8u64) | ((b[pos + 2] as u64) << 16u64) | ((b[pos + 3]
        as u64) << 24u64) | ((b[pos + 4] as u64) << 32u64) | ((b[pos + 5] as u64) << 40u64) | ((b[pos
        + 6] as u64) << 48u64) | ((b[pos + 7] as u64) << 56u64)
}

/// The variant index of a key size.
pub open spec fn keysize_tag(k: KeySize) -> u8 {
    match k {
        KeySize::S128 => 0,
        KeySize::S192 => 1,
        KeySize::S256 => 2,
        KeySize::S512 => 3,
    }
}

/// The key size of a variant index.
pub open spec fn keysize_of_tag(t: u8) -> Option<KeySize> {
    if t == 0 {
        Some(KeySize::S128)
    } else if t == 1 {
        Some(KeySize::S192)
    } else if t == 2 {
        Some(KeySize::S256)
    } else if t == 3 {
        Some(KeySize::S512)
    } else {
        None
    }
}

/// A key size as a `u32` variant index.
pub open spec fn keysize_bytes(k: KeySize) -> Seq<u8> {
    seq![keysize_tag(k), 0u8, 0u8, 0u8]
}

/// A byte string prefixed by its length.
pub open spec fn field_bytes(b: Seq<u8>) -> Seq<u8> {
    u64_le(b.len() as u64) + b
}

pub open spec fn dref_bytes(d: RDataRefView) -> Seq<u8> {
    keysize_bytes(d.ksize) + field_bytes(d.dn) + field_bytes(d.hfile)
}

/// The encoding of a record's plaintext.
pub open spec fn rdata_bytes(r: RDataView) -> Seq<u8> {
    (match r.lprev {
        None => seq![0u8],
        Some(l) => seq![1u8] + field_bytes(l),
    }) + dref_bytes(r.dref)
}

/// The encoding of an encrypted payload: the compressed point, then the ciphertext.
pub open spec fn renc_bytes(kn: Seq<u8>, ciphertext: Seq<u8>) -> Seq<u8> {
    kn + field_bytes(ciphertext)
}

/// A length-prefixed byte string at `pos`, and the position after it.
pub open spec fn parse_field(b: Seq<u8>, pos: int) -> Option<(Seq<u8>, int)> {
    if 0 <= pos && pos + 8 <= b.len() {
        let n = u64_at(b, pos) as int;
        if pos + 8 + n <= b.len() {
            Some((b.subrange(pos + 8, pos + 8 + n), pos + 8 + n))
        } else {
            None
        }
    } else {
        None
    }
}

/// A key size at `pos`, and the position after it.
pub open spec fn parse_keysize(b: Seq<u8>, pos: int) -> Option<(KeySize, int)> {
    if 0 <= pos && pos + 4 <= b.len() && b[pos + 1] == 0 && b[pos + 2] == 0 && b[pos + 3] == 0 {
        match keysize_of_tag(b[pos]) {
            Some(k) => Some((k, pos + 4)),
            None => None,
        }
    } else {
        None
    }
}

/// A data reference at `pos`, and the position after it.
pub open spec fn parse_dref(b: Seq<u8>, pos: int) -> Option<(RDataRefView, int)> {
    match parse_keysize(b, pos) {
        None => None,
        Some((k, at_dn)) => match parse_field(b, at_dn) {
            None => None,
            Some((dn, at_hfile)) => match parse_field(b, at_hfile) {
                None => None,
                Some((hfile, end)) => Some((RDataRefView { ksize: k, dn, hfile }, end)),
            },
        },
    }
}

/// The plaintext that `b` encodes, with nothing left over; a previous lambda is 64 bytes.
pub open spec fn parse_rdata(b: Seq<u8>) -> Option<RDataView> {
    if b.len() == 0 {
        None
    } else if b[0] == 0 {
        match parse_dref(b, 1) {
            Some((d, end)) => if end == b.len() {
                Some(RDataView { lprev: None, dref: d })
            } else {
                None
            },
            None => None,
        }
    } else if b[0] == 1 {
        match parse_field(b, 1) {
            Some((l, p)) => if l.len() == 64 {
                match parse_dref(b, p) {
                    Some((d, end)) => if end == b.len() {
                        Some(RDataView { lprev: Some(l), dref: d })
                    } else {
                        None
                    },
                    None => None,
                }
            } else {
                None
            },
            None => None,
        }
    } else {
        None
    }
}

pub proof fn lemma_u64_round_trip(x: u64)
    ensures
        u64_at(u64_le(x), 0) == x,
{
    let b = u64_le(x);
    assert(b[0] == ((x >> 0u64) & 0xff) as u8);
    assert(b[1] == ((x >> 8u64) & 0xff) as u8);
    assert(b[2] == ((x >> 16u64) & 0xff) as u8);
    assert(b[3] == ((x >> 24u64) & 0xff) as u8);
    assert(b[4] == ((x >> 32u64) & 0xff) as u8);
    assert(b[5] == ((x >> 40u64) & 0xff) as u8);
    assert(b[6] == ((x >> 48u64) & 0xff) as u8);
    assert(b[7] == ((x >> 56u64) & 0xff) as u8);
    assert(((((x >> 0u64) & 0xff) as u8) as u64) | (((((x >> 8u64) & 0xff) as u8) as u64)
        << 8u64) | (((((x >> 16u64) & 0xff) as u8) as u64) << 16u64) | (((((x >> 24u64) & 0xff)
        as u8) as u64) << 24u64) | (((((x >> 32u64) & 0xff) as u8) as u64) << 32u64) | (((((x
        >> 40u64) & 0xff) as u8) as u64) << 40u64) | (((((x >> 48u64) & 0xff) as u8) as u64)
        << 48u64) | (((((x >> 56u64) & 0xff) as u8) as u64) << 56u64) == x) by (bit_vector);
}

/// A length-prefixed field reads back from any position it was written at.
pub proof fn lemma_field_round_trip(pre: Seq<u8>, f: Seq<u8>, post: Seq<u8>)
    requires
        f.len() <= u64::MAX,
    ensures
        parse_field(pre + field_bytes(f) + post, pre.len() as int) == Some(
            (f, (pre.len() + 8 + f.len()) as int),
        ),
{
    let b = pre + field_bytes(f) + post;
    let p = pre.len() as int;
    let x = f.len() as u64;
    lemma_u64_round_trip(x);
    assert(b.subrange(p, p + 8) == u64_le(x));
    assert forall|i: int| 0 <= i < 8 implies b[p + i] == u64_le(x)[i] by {}
    assert(u64_at(b, p) == u64_at(u64_le(x), 0));
    assert(b.subrange(p + 8, p + 8 + f.len()) == f);
}

pub proof fn lemma_dref_round_trip(pre: Seq<u8>, d: RDataRefView)
    requires
        d.dn.len() <= u64::MAX,
        d.hfile.len() <= u64::MAX,
    ensures
        parse_dref(pre + dref_bytes(d), pre.len() as int) == Some((d, (pre + dref_bytes(d)).len() as int)),
{
    let b = pre + dref_bytes(d);
    let p = pre.len() as int;
    let k = keysize_bytes(d.ksize);
    assert(b[p] == keysize_tag(d.ksize) && b[p + 1] == 0 && b[p + 2] == 0 && b[p + 3] == 0);
    assert(parse_keysize(b, p) == Some((d.ksize, p + 4)));
    lemma_field_round_trip(pre + k, d.dn, field_bytes(d.hfile));
    assert(b == (pre + k) + field_bytes(d.dn) + field_bytes(d.hfile));
    lemma_field_round_trip(pre + k + field_bytes(d.dn), d.hfile, seq![]);
    assert(b == (pre + k + field_bytes(d.dn)) + field_bytes(d.hfile) + seq![]);
}

/// Decoding an encoded plaintext gives it back.
pub proof fn lemma_rdata_round_trip(r: RDataView)
    requires
        r.dref.dn.len() <= u64::MAX,
        r.dref.hfile.len() <= u64::MAX,
        r.lprev matches Some(l) ==> l.len() == 64,
    ensures
        parse_rdata(rdata_bytes(r)) == Some(r),
{
    let b = rdata_bytes(r);
    match r.lprev {
        None => {
            lemma_dref_round_trip(seq![0u8], r.dref);
            assert(b == seq![0u8] + dref_bytes(r.dref));
        },
        Some(l) => {
            let head = seq![1u8] + field_bytes(l);
            lemma_field_round_trip(seq![1u8], l, dref_bytes(r.dref));
            assert(b == seq![1u8] + field_bytes(l) + dref_bytes(r.dref));
            lemma_dref_round_trip(head, r.dref);
            assert(b == head + dref_bytes(r.dref));
        },
    }
}

// ---------------------------------------------------------------------------------------------
// Executable encoders and decoders
// ---------------------------------------------------------------------------------------------

fn push_u64(v: &mut Vec<u8>, x: u64)
    ensures
        final(v)@ == old(v)@ + u64_le(x),
{
    let mut i: u64 = 0;
    while i < 8
        invariant
            i <= 8,
            v@ == old(v)@ + u64_le(x).subrange(0, i as int),
        decreases 8 - i,
    {
        v.push(((x >> (8 * i)) & 0xff) as u8);
        i += 1;
        assert(u64_le(x).subrange(0, i as int) == u64_le(x).subrange(0, i - 1) + seq![
            u64_le(x)[i - 1],
        ]);
    }
    assert(u64_le(x).subrange(0, 8) == u64_le(x));
}

fn push_field(v: &mut Vec<u8>, b: &[u8])
    ensures
        final(v)@ == old(v)@ + field_bytes(b@),
{
    push_u64(v, b.len() as u64);
    append_bytes(v, b);
}

fn push_keysize(v: &mut Vec<u8>, k: KeySize)
    ensures
        final(v)@ == old(v)@ + keysize_bytes(k),
{
    let t: u8 = match k {
        KeySize::S128 => 0,
        KeySize::S192 => 1,
        KeySize::S256 => 2,
        KeySize::S512 => 3,
    };
    v.push(t);
    v.push(0);
    v.push(0);
    v.push(0);
}

/// The encoding of a record's plaintext.
pub fn serialize_rdata(rd: &RData) -> (r: Vec<u8>)
    ensures
        r@ == rdata_bytes(rd@),
{
    let mut v: Vec<u8> = Vec::new();
    match &rd.lprev {
        None => v.push(0),
        Some(l) => {
            v.push(1);
            push_field(&mut v, l.as_slice());
        },
    }
    push_keysize(&mut v, rd.dref.ksize);
    push_field(&mut v, rd.dref.dn.as_slice());
    push_field(&mut v, rd.dref.hfile.as_slice());
    v
}

/// The encoding of an encrypted payload.
pub fn serialize_renc(d: &REncData) -> (r: Vec<u8>)
    ensures
        r@ == renc_bytes(d.kn.encoding(), d.ciphertext@),
{
    let kn = d.kn.to_bytes();
    let mut v: Vec<u8> = Vec::new();
    append_bytes(&mut v, kn.as_slice());
    push_field(&mut v, d.ciphertext.as_slice());
    v
}

fn read_u64(b: &[u8], pos: usize) -> (r: u64)
    requires
        pos + 8 <= b@.len(),
    ensures
        r == u64_at(b@, pos as int),
{
    (b[pos] as u64) | ((b[pos + 1] as u64) << 8u64) | ((b[pos + 2] as u64) << 16u64) | ((b[pos
        + 3] as u64) << 24u64) | ((b[pos + 4] as u64) << 32u64) | ((b[pos + 5] as u64) << 40u64)
        | ((b[pos + 6] as u64) << 48u64) | ((b[pos + 7] as u64) << 56u64)
}

fn read_field(b: &[u8], pos: usize) -> (r: Option<(Vec<u8>, usize)>)
    ensures
        match parse_field(b@, pos as int) {
            Some((f, p)) => r is Some && r->Some_0.0@ == f && r->Some_0.1 == p,
            None => r is None,
        },
{
    if pos > b.len() || b.len() - pos < 8 {
        return None;
    }
    let n = read_u64(b, pos);
    if (n as u128) > ((b.len() - pos - 8) as u128) {
        return None;
    }
    let start = pos + 8;
    let end = start + n as usize;
    let f = vstd::slice::slice_to_vec(vstd::slice::slice_subrange(b, start, end));
    Some((f, end))
}

fn read_dref(b: &[u8], pos: usize) -> (r: Option<(RDataRef, usize)>)
    ensures
        match parse_dref(b@, pos as int) {
            Some((d, p)) => r is Some && r->Some_0.0@ == d && r->Some_0.1 == p,
            None => r is None,
        },
{
    if pos > b.len() || b.len() - pos < 4 || b[pos + 1] != 0 || b[pos + 2] != 0 || b[pos + 3] != 0 {
        return None;
    }
    let ksize = if b[pos] == 0 {
        KeySize::S128
    } else if b[pos] == 1 {
        KeySize::S192
    } else if b[pos] == 2 {
        KeySize::S256
    } else if b[pos] == 3 {
        KeySize::S512
    } else {
        return None;
    };
    let (dn, at_hfile) = match read_field(b, pos + 4) {
        Some(x) => x,
        None => return None,
    };
    let (hfile, end) = match read_field(b, at_hfile) {
        Some(x) => x,
        None => return None,
    };
    Some((RDataRef { ksize, dn, hfile }, end))
}

/// Decodes a record's plaintext; `None` where `b` is not exactly one encoded plaintext.
pub fn deserialize_rdata(b: &[u8]) -> (r: Option<RData>)
    ensures
        match parse_rdata(b@) {
            Some(v) => r is Some && r->Some_0@ == v,
            None => r is None,
        },
{
    if b.len() == 0 {
        return None;
    }
    if b[0] == 0 {
        match read_dref(b, 1) {
            Some((dref, end)) => if end == b.len() {
                Some(RData { lprev: None, dref })
            } else {
                None
            },
            None => None,
        }
    } else if b[0] == 1 {
        match read_field(b, 1) {
            Some((l, p)) => match LambdaKey::from_bytes(l) {
                Some(lk) => match read_dref(b, p) {
                    Some((dref, end)) => if end == b.len() {
                        Some(RData { lprev: Some(lk), dref })
                    } else {
                        None
                    },
                    None => None,
                },
                None => None,
            },
            None => None,
        }
    } else {
        None
    }
}

} // verus!
