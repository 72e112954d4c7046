//! Wire codec: every message travels as a 4-byte big-endian length
//! followed by a payload of exactly that many bytes. The payload is a
//! tag byte naming the variant, then the fields in order: integers in
//! big-endian fixed width, strings and lists prefixed with a 4-byte
//! count, options prefixed with a presence byte.
//!
//! Encoding and decoding are verified against spec-level functions, and
//! decoding an encoded message is proved to give back the original.

use vstd::prelude::*;
use crate::protocol::{
    AudioResults, AudioResultsV, BandwidthResults, BandwidthResultsV, LatencyResults,
    LatencyResultsV, Message, MessageV, TestResults, TestResultsV, VideoResults, VideoResultsV,
};
use crate::types::DiagError;
use vstd::utf8::{decode_utf8, encode_utf8, valid_utf8};

verus! {

/// Upper bound accepted for a frame's payload length; a peer-supplied
/// length above this is rejected rather than allocated.
pub const MAX_FRAME_BYTES: u32 = 1048576;

// ---------------------------------------------------------------------
// Spec-level encoders
// ---------------------------------------------------------------------

pub open spec fn enc_u8(v: u8) -> Seq<u8> {
    seq![v]
}

pub open spec fn enc_u32(v: u32) -> Seq<u8> {
    seq![(v >> 24) as u8, (v >> 16) as u8, (v >> 8) as u8, v as u8]
}

pub open spec fn enc_u64(v: u64) -> Seq<u8> {
    seq![
        (v >> 56) as u8,
        (v >> 48) as u8,
        (v >> 40) as u8,
        (v >> 32) as u8,
        (v >> 24) as u8,
        (v >> 16) as u8,
        (v >> 8) as u8,
        v as u8,
    ]
}

// ---------------------------------------------------------------------
// Spec-level decoders: total functions over a byte sequence and a
// starting position, returning the value and the position after it.
// ---------------------------------------------------------------------

pub open spec fn dec_u8(b: Seq<u8>, p: int) -> Option<(u8, int)> {
    if 0 <= p && p + 1 <= b.len() {
        Some((b[p], p + 1))
    } else {
        None
    }
}

pub open spec fn u32_of_bytes(b0: u8, b1: u8, b2: u8, b3: u8) -> u32 {
    ((b0 as u32) << 24) | ((b1 as u32) << 16) | ((b2 as u32) << 8) | (b3 as u32)
}

pub open spec fn dec_u32(b: Seq<u8>, p: int) -> Option<(u32, int)> {
    if 0 <= p && p + 4 <= b.len() {
        Some((u32_of_bytes(b[p], b[p + 1], b[p + 2], b[p + 3]), p + 4))
    } else {
        None
    }
}

pub open spec fn u64_of_bytes(
    b0: u8,
    b1: u8,
    b2: u8,
    b3: u8,
    b4: u8,
    b5: u8,
    b6: u8,
    b7: u8,
) -> u64 {
    ((b0 as u64) << 56) | ((b1 as u64) << 48) | ((b2 as u64) << 40) | ((b3 as u64) << 32)
        | ((b4 as u64) << 24) | ((b5 as u64) << 16) | ((b6 as u64) << 8) | (b7 as u64)
}

pub open spec fn dec_u64(b: Seq<u8>, p: int) -> Option<(u64, int)> {
    if 0 <= p && p + 8 <= b.len() {
        Some(
            (
                u64_of_bytes(
                    b[p],
                    b[p + 1],
                    b[p + 2],
                    b[p + 3],
                    b[p + 4],
                    b[p + 5],
                    b[p + 6],
                    b[p + 7],
                ),
                p + 8,
            ),
        )
    } else {
        None
    }
}

// ---------------------------------------------------------------------
// Round-trip lemmas for the integer layer
// ---------------------------------------------------------------------

proof fn lemma_u32_recompose(v: u32)
    ensures
        u32_of_bytes((v >> 24) as u8, (v >> 16) as u8, (v >> 8) as u8, v as u8) == v,
{
    assert(((((v >> 24) as u8) as u32) << 24) | ((((v >> 16) as u8) as u32) << 16) | ((((v >> 8)
        as u8) as u32) << 8) | ((v as u8) as u32) == v) by (bit_vector);
}

proof fn lemma_u64_recompose(v: u64)
    ensures
        u64_of_bytes(
            (v >> 56) as u8,
            (v >> 48) as u8,
            (v >> 40) as u8,
            (v >> 32) as u8,
            (v >> 24) as u8,
            (v >> 16) as u8,
            (v >> 8) as u8,
            v as u8,
        ) == v,
{
    assert(((((v >> 56) as u8) as u64) << 56) | ((((v >> 48) as u8) as u64) << 48) | ((((v >> 40)
        as u8) as u64) << 40) | ((((v >> 32) as u8) as u64) << 32) | ((((v >> 24) as u8) as u64)
        << 24) | ((((v >> 16) as u8) as u64) << 16) | ((((v >> 8) as u8) as u64) << 8) | ((v
        as u8) as u64) == v) by (bit_vector);
}

/// Reading one byte where `enc_u8(v)` was written gives back `v`.
proof fn lemma_rt_u8(b: Seq<u8>, p: int, v: u8)
    requires
        0 <= p,
        p + 1 <= b.len(),
        b.subrange(p, p + 1) =~= enc_u8(v),
    ensures
        dec_u8(b, p) == Some((v, p + 1)),
{
    assert(b[p] == b.subrange(p, p + 1)[0]);
}

/// Reading four bytes where `enc_u32(v)` was written gives back `v`.
proof fn lemma_rt_u32(b: Seq<u8>, p: int, v: u32)
    requires
        0 <= p,
        p + 4 <= b.len(),
        b.subrange(p, p + 4) =~= enc_u32(v),
    ensures
        dec_u32(b, p) == Some((v, p + 4)),
{
    assert forall|i: int| 0 <= i < 4 implies b[p + i] == enc_u32(v)[i] by {
        assert(b.subrange(p, p + 4)[i] == b[p + i]);
    }
    lemma_u32_recompose(v);
}

/// Reading eight bytes where `enc_u64(v)` was written gives back `v`.
proof fn lemma_rt_u64(b: Seq<u8>, p: int, v: u64)
    requires
        0 <= p,
        p + 8 <= b.len(),
        b.subrange(p, p + 8) =~= enc_u64(v),
    ensures
        dec_u64(b, p) == Some((v, p + 8)),
{
    assert forall|i: int| 0 <= i < 8 implies b[p + i] == enc_u64(v)[i] by {
        assert(b.subrange(p, p + 8)[i] == b[p + i]);
    }
    lemma_u64_recompose(v);
}

/// Splits a written concatenation: if `s1 + s2` sits at `p`, then `s1`
/// sits at `p` and `s2` right after it.
proof fn lemma_split_at(b: Seq<u8>, p: int, s1: Seq<u8>, s2: Seq<u8>)
    requires
        0 <= p,
        p + s1.len() + s2.len() <= b.len(),
        b.subrange(p, p + s1.len() + s2.len()) =~= s1 + s2,
    ensures
        b.subrange(p, p + s1.len() as int) =~= s1,
        b.subrange(p + s1.len() as int, p + s1.len() + s2.len()) =~= s2,
{
    let whole = b.subrange(p, p + s1.len() + s2.len());
    assert forall|i: int| 0 <= i < s1.len() implies b.subrange(p, p + s1.len() as int)[i]
        == s1[i] by {
        assert(whole[i] == b[p + i]);
    }
    assert forall|i: int| 0 <= i < s2.len() implies b.subrange(
        p + s1.len() as int,
        p + s1.len() + s2.len(),
    )[i] == s2[i] by {
        assert(whole[s1.len() + i] == b[p + s1.len() + i]);
    }
}

// ---------------------------------------------------------------------
// Executable integer layer
// ---------------------------------------------------------------------

fn put_u8(out: &mut Vec<u8>, v: u8)
    ensures
        final(out)@ =~= old(out)@ + enc_u8(v),
{
    out.push(v);
}

fn put_u32(out: &mut Vec<u8>, v: u32)
    ensures
        final(out)@ =~= old(out)@ + enc_u32(v),
{
    out.push((v >> 24) as u8);
    out.push(#[verifier::truncate] ((v >> 16) as u8));
    out.push(#[verifier::truncate] ((v >> 8) as u8));
    out.push(#[verifier::truncate] (v as u8));
}

fn put_u64(out: &mut Vec<u8>, v: u64)
    ensures
        final(out)@ =~= old(out)@ + enc_u64(v),
{
    out.push((v >> 56) as u8);
    out.push(#[verifier::truncate] ((v >> 48) as u8));
    out.push(#[verifier::truncate] ((v >> 40) as u8));
    out.push(#[verifier::truncate] ((v >> 32) as u8));
    out.push(#[verifier::truncate] ((v >> 24) as u8));
    out.push(#[verifier::truncate] ((v >> 16) as u8));
    out.push(#[verifier::truncate] ((v >> 8) as u8));
    out.push(#[verifier::truncate] (v as u8));
}

fn get_u8(buf: &Vec<u8>, p: usize) -> (r: Option<(u8, usize)>)
    ensures
        match r {
            Some((v, q)) => dec_u8(buf@, p as int) == Some((v, q as int)),
            None => dec_u8(buf@, p as int) is None,
        },
{
    if p < buf.len() {
        Some((buf[p], p + 1))
    } else {
        None
    }
}

fn get_u32(buf: &Vec<u8>, p: usize) -> (r: Option<(u32, usize)>)
    ensures
        match r {
            Some((v, q)) => dec_u32(buf@, p as int) == Some((v, q as int)),
            None => dec_u32(buf@, p as int) is None,
        },
{
    if buf.len() >= 4 && p <= buf.len() - 4 {
        let v = ((buf[p] as u32) << 24) | ((buf[p + 1] as u32) << 16) | ((buf[p + 2] as u32) << 8)
            | (buf[p + 3] as u32);
        Some((v, p + 4))
    } else {
        None
    }
}

fn get_u64(buf: &Vec<u8>, p: usize) -> (r: Option<(u64, usize)>)
    ensures
        match r {
            Some((v, q)) => dec_u64(buf@, p as int) == Some((v, q as int)),
            None => dec_u64(buf@, p as int) is None,
        },
{
    if buf.len() >= 8 && p <= buf.len() - 8 {
        let v = ((buf[p] as u64) << 56) | ((buf[p + 1] as u64) << 48) | ((buf[p + 2] as u64) << 40)
            | ((buf[p + 3] as u64) << 32) | ((buf[p + 4] as u64) << 24) | ((buf[p + 5] as u64)
            << 16) | ((buf[p + 6] as u64) << 8) | (buf[p + 7] as u64);
        Some((v, p + 8))
    } else {
        None
    }
}

// ---------------------------------------------------------------------
// Strings: a 4-byte byte count, then that many bytes of UTF-8
// ---------------------------------------------------------------------

/// A string whose UTF-8 form fits the 4-byte length prefix.
pub open spec fn str_bounded(s: Seq<char>) -> bool {
    encode_utf8(s).len() <= 0xffff_ffff
}

pub open spec fn enc_str(s: Seq<char>) -> Seq<u8> {
    enc_u32(encode_utf8(s).len() as u32) + encode_utf8(s)
}

pub open spec fn dec_str(b: Seq<u8>, p: int) -> Option<(Seq<char>, int)> {
    match dec_u32(b, p) {
        None => None,
        Some((n, q)) => if q + n <= b.len() && valid_utf8(b.subrange(q, q + n)) {
            Some((decode_utf8(b.subrange(q, q + n)), q + n))
        } else {
            None
        },
    }
}

/// Relies on std's `String::from_utf8`: it builds a string exactly when
/// the bytes are valid UTF-8, decoding them by the UTF-8 rules that
/// vstd's `decode_utf8` models.
#[verifier::external_body]
fn string_from_utf8(bytes: Vec<u8>) -> (r: Option<String>)
    ensures
        r is Some <==> valid_utf8(bytes@),
        r matches Some(s) ==> s@ == decode_utf8(bytes@),
{
    match String::from_utf8(bytes) {
        Ok(s) => Some(s),
        Err(_) => None,
    }
}

fn put_str(out: &mut Vec<u8>, s: &str)
    requires
        str_bounded(s@),
    ensures
        final(out)@ =~= old(out)@ + enc_str(s@),
{
    let bytes = s.as_bytes();
    put_u32(out, bytes.len() as u32);
    out.extend_from_slice(bytes);
}

fn get_str(buf: &Vec<u8>, p: usize) -> (r: Option<(String, usize)>)
    ensures
        match r {
            Some((s, q)) => dec_str(buf@, p as int) == Some((s@, q as int)),
            None => dec_str(buf@, p as int) is None,
        },
{
    match get_u32(buf, p) {
        None => None,
        Some((n, q)) => {
            let n = n as usize;
            if n <= buf.len() - q {
                let mut sub: Vec<u8> = Vec::new();
                let mut i: usize = 0;
                while i < n
                    invariant
                        q + n <= buf.len(),
                        i <= n,
                        sub@ =~= buf@.subrange(q as int, q + i),
                    decreases n - i,
                {
                    sub.push(buf[q + i]);
                    i = i + 1;
                }
                match string_from_utf8(sub) {
                    Some(s) => Some((s, q + n)),
                    None => None,
                }
            } else {
                None
            }
        },
    }
}

/// Reading where `enc_str(s)` was written gives back `s`.
proof fn lemma_rt_str(b: Seq<u8>, p: int, s: Seq<char>)
    requires
        0 <= p,
        str_bounded(s),
        p + enc_str(s).len() <= b.len(),
        b.subrange(p, p + enc_str(s).len()) =~= enc_str(s),
    ensures
        dec_str(b, p) == Some((s, p + enc_str(s).len())),
{
    let utf8 = encode_utf8(s);
    let n = utf8.len() as u32;
    lemma_split_at(b, p, enc_u32(n), utf8);
    lemma_rt_u32(b, p, n);
    vstd::utf8::encode_utf8_valid_utf8(s);
    vstd::utf8::encode_utf8_decode_utf8(s);
}

// ---------------------------------------------------------------------
// Options: a presence byte, then the payload when present
// ---------------------------------------------------------------------

pub open spec fn enc_opt_u32(o: Option<u32>) -> Seq<u8> {
    match o {
        None => seq![0u8],
        Some(v) => seq![1u8] + enc_u32(v),
    }
}

pub open spec fn dec_opt_u32(b: Seq<u8>, p: int) -> Option<(Option<u32>, int)> {
    match dec_u8(b, p) {
        None => None,
        Some((t, q)) => if t == 0 {
            Some((None, q))
        } else if t == 1 {
            match dec_u32(b, q) {
                None => None,
                Some((v, r)) => Some((Some(v), r)),
            }
        } else {
            None
        },
    }
}

pub open spec fn enc_opt_u64(o: Option<u64>) -> Seq<u8> {
    match o {
        None => seq![0u8],
        Some(v) => seq![1u8] + enc_u64(v),
    }
}

pub open spec fn dec_opt_u64(b: Seq<u8>, p: int) -> Option<(Option<u64>, int)> {
    match dec_u8(b, p) {
        None => None,
        Some((t, q)) => if t == 0 {
            Some((None, q))
        } else if t == 1 {
            match dec_u64(b, q) {
                None => None,
                Some((v, r)) => Some((Some(v), r)),
            }
        } else {
            None
        },
    }
}

fn put_opt_u32(out: &mut Vec<u8>, o: &Option<u32>)
    ensures
        final(out)@ =~= old(out)@ + enc_opt_u32(*o),
{
    match o {
        None => put_u8(out, 0),
        Some(v) => {
            put_u8(out, 1);
            put_u32(out, *v);
        },
    }
}

fn put_opt_u64(out: &mut Vec<u8>, o: &Option<u64>)
    ensures
        final(out)@ =~= old(out)@ + enc_opt_u64(*o),
{
    match o {
        None => put_u8(out, 0),
        Some(v) => {
            put_u8(out, 1);
            put_u64(out, *v);
        },
    }
}

fn get_opt_u32(buf: &Vec<u8>, p: usize) -> (r: Option<(Option<u32>, usize)>)
    ensures
        match r {
            Some((v, q)) => dec_opt_u32(buf@, p as int) == Some((v, q as int)),
            None => dec_opt_u32(buf@, p as int) is None,
        },
{
    match get_u8(buf, p) {
        None => None,
        Some((t, q)) => if t == 0 {
            Some((None, q))
        } else if t == 1 {
            match get_u32(buf, q) {
                None => None,
                Some((v, r)) => Some((Some(v), r)),
            }
        } else {
            None
        },
    }
}

fn get_opt_u64(buf: &Vec<u8>, p: usize) -> (r: Option<(Option<u64>, usize)>)
    ensures
        match r {
            Some((v, q)) => dec_opt_u64(buf@, p as int) == Some((v, q as int)),
            None => dec_opt_u64(buf@, p as int) is None,
        },
{
    match get_u8(buf, p) {
        None => None,
        Some((t, q)) => if t == 0 {
            Some((None, q))
        } else if t == 1 {
            match get_u64(buf, q) {
                None => None,
                Some((v, r)) => Some((Some(v), r)),
            }
        } else {
            None
        },
    }
}

proof fn lemma_rt_opt_u32(b: Seq<u8>, p: int, o: Option<u32>)
    requires
        0 <= p,
        p + enc_opt_u32(o).len() <= b.len(),
        b.subrange(p, p + enc_opt_u32(o).len()) =~= enc_opt_u32(o),
    ensures
        dec_opt_u32(b, p) == Some((o, p + enc_opt_u32(o).len())),
{
    match o {
        None => {
            lemma_rt_u8(b, p, 0);
        },
        Some(v) => {
            lemma_split_at(b, p, enc_u8(1), enc_u32(v));
            lemma_rt_u8(b, p, 1);
            lemma_rt_u32(b, p + 1, v);
        },
    }
}

proof fn lemma_rt_opt_u64(b: Seq<u8>, p: int, o: Option<u64>)
    requires
        0 <= p,
        p + enc_opt_u64(o).len() <= b.len(),
        b.subrange(p, p + enc_opt_u64(o).len()) =~= enc_opt_u64(o),
    ensures
        dec_opt_u64(b, p) == Some((o, p + enc_opt_u64(o).len())),
{
    match o {
        None => {
            lemma_rt_u8(b, p, 0);
        },
        Some(v) => {
            lemma_split_at(b, p, enc_u8(1), enc_u64(v));
            lemma_rt_u8(b, p, 1);
            lemma_rt_u64(b, p + 1, v);
        },
    }
}

// ---------------------------------------------------------------------
// Lists: a 4-byte item count, then the items in order
// ---------------------------------------------------------------------

pub open spec fn enc_u64_items(items: Seq<u64>) -> Seq<u8>
    decreases items.len(),
{
    if items.len() == 0 {
        Seq::empty()
    } else {
        enc_u64(items[0]) + enc_u64_items(items.drop_first())
    }
}

pub open spec fn enc_u64_list(items: Seq<u64>) -> Seq<u8> {
    enc_u32(items.len() as u32) + enc_u64_items(items)
}

pub open spec fn dec_u64_items(b: Seq<u8>, p: int, n: nat) -> Option<(Seq<u64>, int)>
    decreases n,
{
    if n == 0 {
        if 0 <= p <= b.len() {
            Some((Seq::empty(), p))
        } else {
            None
        }
    } else {
        match dec_u64(b, p) {
            None => None,
            Some((v, q)) => match dec_u64_items(b, q, (n - 1) as nat) {
                None => None,
                Some((rest, r)) => Some((seq![v] + rest, r)),
            },
        }
    }
}

pub open spec fn dec_u64_list(b: Seq<u8>, p: int) -> Option<(Seq<u64>, int)> {
    match dec_u32(b, p) {
        None => None,
        Some((n, q)) => dec_u64_items(b, q, n as nat),
    }
}

proof fn lemma_enc_u64_items_push(items: Seq<u64>, v: u64)
    ensures
        enc_u64_items(items.push(v)) =~= enc_u64_items(items) + enc_u64(v),
    decreases items.len(),
{
    let s = items.push(v);
    assert(s.len() == items.len() + 1);
    assert(s[0] == if items.len() == 0 { v } else { items[0] });
    assert(enc_u64_items(s) == enc_u64(s[0]) + enc_u64_items(s.drop_first()));
    if items.len() == 0 {
        assert(s.drop_first() =~= Seq::<u64>::empty());
        assert(enc_u64_items(s.drop_first()) == Seq::<u8>::empty());
        assert(enc_u64_items(items) == Seq::<u8>::empty());
    } else {
        assert(s.drop_first() =~= items.drop_first().push(v));
        lemma_enc_u64_items_push(items.drop_first(), v);
        assert(enc_u64_items(items) == enc_u64(items[0]) + enc_u64_items(items.drop_first()));
    }
}

fn put_u64_list(out: &mut Vec<u8>, items: &Vec<u64>)
    requires
        items@.len() <= 0xffff_ffff,
    ensures
        final(out)@ =~= old(out)@ + enc_u64_list(items@),
{
    put_u32(out, items.len() as u32);
    let ghost base = out@;
    let mut i: usize = 0;
    while i < items.len()
        invariant
            i <= items@.len(),
            out@ =~= base + enc_u64_items(items@.take(i as int)),
        decreases items@.len() - i,
    {
        put_u64(out, items[i]);
        proof {
            assert(items@.take(i + 1) =~= items@.take(i as int).push(items@[i as int]));
            lemma_enc_u64_items_push(items@.take(i as int), items@[i as int]);
        }
        i = i + 1;
    }
    proof {
        assert(items@.take(items@.len() as int) =~= items@);
    }
}

fn get_u64_items(buf: &Vec<u8>, p: usize, n: u32) -> (r: Option<(Vec<u64>, usize)>)
    ensures
        match r {
            Some((v, q)) => dec_u64_items(buf@, p as int, n as nat) == Some((v@, q as int)),
            None => dec_u64_items(buf@, p as int, n as nat) is None,
        },
{
    if p > buf.len() {
        return None;
    }
    let mut acc: Vec<u64> = Vec::new();
    let mut cur: usize = p;
    let mut i: u32 = 0;
    while i < n
        invariant
            i <= n,
            cur <= buf@.len(),
            acc@.len() == i,
            forall|rest: Seq<u64>, r: int|
                dec_u64_items(buf@, cur as int, (n - i) as nat) == Some::<(Seq<u64>, int)>(
                    (rest, r),
                ) ==> dec_u64_items(buf@, p as int, n as nat) == Some::<(Seq<u64>, int)>(
                    (acc@ + rest, r),
                ),
            dec_u64_items(buf@, cur as int, (n - i) as nat) is None ==> dec_u64_items(
                buf@,
                p as int,
                n as nat,
            ) is None,
        decreases n - i,
    {
        match get_u64(buf, cur) {
            None => {
                return None;
            },
            Some((v, q)) => {
                let ghost old_acc = acc@;
                let ghost old_cur = cur as int;
                acc.push(v);
                cur = q;
                proof {
                    assert forall|rest: Seq<u64>, r: int|
                        dec_u64_items(buf@, cur as int, (n - i - 1) as nat) == Some::<(
                            Seq<u64>,
                            int,
                        )>((rest, r)) implies dec_u64_items(buf@, p as int, n as nat) == Some::<(
                        Seq<u64>,
                        int,
                    )>((acc@ + rest, r)) by {
                        assert(dec_u64_items(buf@, old_cur, (n - i) as nat) == Some::<(
                            Seq<u64>,
                            int,
                        )>((seq![v] + rest, r)));
                        assert(old_acc + (seq![v] + rest) =~= acc@ + rest);
                    }
                }
                i = i + 1;
            },
        }
    }
    proof {
        assert(dec_u64_items(buf@, cur as int, 0) == Some::<(Seq<u64>, int)>((
            Seq::empty(),
            cur as int,
        )));
        assert(acc@ + Seq::<u64>::empty() =~= acc@);
    }
    Some((acc, cur))
}

fn put_str_list(out: &mut Vec<u8>, items: &Vec<String>)
    requires
        items@.len() <= 0xffff_ffff,
        forall|i: int| 0 <= i < items@.len() ==> str_bounded(#[trigger] items@[i]@),
    ensures
        final(out)@ =~= old(out)@ + enc_str_list(items.deep_view()),
{
    put_u32(out, items.len() as u32);
    let ghost base = out@;
    let mut i: usize = 0;
    while i < items.len()
        invariant
            i <= items@.len(),
            forall|j: int| 0 <= j < items@.len() ==> str_bounded(#[trigger] items@[j]@),
            out@ =~= base + enc_str_items(items.deep_view().take(i as int)),
        decreases items@.len() - i,
    {
        put_str(out, items[i].as_str());
        proof {
            assert(items.deep_view().take(i + 1) =~= items.deep_view().take(i as int).push(
                items@[i as int]@,
            ));
            lemma_enc_str_items_push(items.deep_view().take(i as int), items@[i as int]@);
        }
        i = i + 1;
    }
    proof {
        assert(items.deep_view().take(items@.len() as int) =~= items.deep_view());
    }
}

pub open spec fn enc_str_items(items: Seq<Seq<char>>) -> Seq<u8>
    decreases items.len(),
{
    if items.len() == 0 {
        Seq::empty()
    } else {
        enc_str(items[0]) + enc_str_items(items.drop_first())
    }
}

pub open spec fn enc_str_list(items: Seq<Seq<char>>) -> Seq<u8> {
    enc_u32(items.len() as u32) + enc_str_items(items)
}

pub open spec fn dec_str_items(b: Seq<u8>, p: int, n: nat) -> Option<(Seq<Seq<char>>, int)>
    decreases n,
{
    if n == 0 {
        if 0 <= p <= b.len() {
            Some((Seq::empty(), p))
        } else {
            None
        }
    } else {
        match dec_str(b, p) {
            None => None,
            Some((v, q)) => match dec_str_items(b, q, (n - 1) as nat) {
                None => None,
                Some((rest, r)) => Some((seq![v] + rest, r)),
            },
        }
    }
}

pub open spec fn dec_str_list(b: Seq<u8>, p: int) -> Option<(Seq<Seq<char>>, int)> {
    match dec_u32(b, p) {
        None => None,
        Some((n, q)) => dec_str_items(b, q, n as nat),
    }
}

proof fn lemma_enc_str_items_push(items: Seq<Seq<char>>, v: Seq<char>)
    ensures
        enc_str_items(items.push(v)) =~= enc_str_items(items) + enc_str(v),
    decreases items.len(),
{
    let s = items.push(v);
    assert(s.len() == items.len() + 1);
    assert(s[0] == if items.len() == 0 { v } else { items[0] });
    assert(enc_str_items(s) == enc_str(s[0]) + enc_str_items(s.drop_first()));
    if items.len() == 0 {
        assert(s.drop_first() =~= Seq::<Seq<char>>::empty());
        assert(enc_str_items(s.drop_first()) == Seq::<u8>::empty());
        assert(enc_str_items(items) == Seq::<u8>::empty());
    } else {
        assert(s.drop_first() =~= items.drop_first().push(v));
        lemma_enc_str_items_push(items.drop_first(), v);
        assert(enc_str_items(items) == enc_str(items[0]) + enc_str_items(items.drop_first()));
    }
}

fn get_str_items(buf: &Vec<u8>, p: usize, n: u32) -> (r: Option<(Vec<String>, usize)>)
    ensures
        match r {
            Some((v, q)) => dec_str_items(buf@, p as int, n as nat) == Some((
                v.deep_view(),
                q as int,
            )),
            None => dec_str_items(buf@, p as int, n as nat) is None,
        },
{
    if p > buf.len() {
        return None;
    }
    let mut acc: Vec<String> = Vec::new();
    let mut cur: usize = p;
    let mut i: u32 = 0;
    while i < n
        invariant
            i <= n,
            cur <= buf@.len(),
            acc@.len() == i,
            forall|rest: Seq<Seq<char>>, r: int|
                dec_str_items(buf@, cur as int, (n - i) as nat) == Some::<(Seq<Seq<char>>, int)>(
                    (rest, r),
                ) ==> dec_str_items(buf@, p as int, n as nat) == Some::<(Seq<Seq<char>>, int)>(
                    (acc.deep_view() + rest, r),
                ),
            dec_str_items(buf@, cur as int, (n - i) as nat) is None ==> dec_str_items(
                buf@,
                p as int,
                n as nat,
            ) is None,
        decreases n - i,
    {
        match get_str(buf, cur) {
            None => {
                return None;
            },
            Some((v, q)) => {
                let ghost old_acc = acc.deep_view();
                let ghost old_cur = cur as int;
                let ghost vv = v@;
                acc.push(v);
                cur = q;
                proof {
                    assert(acc.deep_view() =~= old_acc.push(vv));
                    assert forall|rest: Seq<Seq<char>>, r: int|
                        dec_str_items(buf@, cur as int, (n - i - 1) as nat) == Some::<(
                            Seq<Seq<char>>,
                            int,
                        )>((rest, r)) implies dec_str_items(buf@, p as int, n as nat) == Some::<(
                        Seq<Seq<char>>,
                        int,
                    )>((acc.deep_view() + rest, r)) by {
                        assert(dec_str_items(buf@, old_cur, (n - i) as nat) == Some::<(
                            Seq<Seq<char>>,
                            int,
                        )>((seq![vv] + rest, r)));
                        assert(old_acc + (seq![vv] + rest) =~= acc.deep_view() + rest);
                    }
                }
                i = i + 1;
            },
        }
    }
    proof {
        assert(dec_str_items(buf@, cur as int, 0) == Some::<(Seq<Seq<char>>, int)>((
            Seq::empty(),
            cur as int,
        )));
        assert(acc.deep_view() + Seq::<Seq<char>>::empty() =~= acc.deep_view());
    }
    Some((acc, cur))
}

/// Reading where an encoded u64 list was written gives back the list.
proof fn lemma_rt_u64_items(b: Seq<u8>, p: int, items: Seq<u64>)
    requires
        0 <= p,
        p + enc_u64_items(items).len() <= b.len(),
        b.subrange(p, p + enc_u64_items(items).len()) =~= enc_u64_items(items),
    ensures
        dec_u64_items(b, p, items.len()) == Some((items, p + enc_u64_items(items).len())),
    decreases items.len(),
{
    if items.len() == 0 {
        assert(dec_u64_items(b, p, 0) == Some::<(Seq<u64>, int)>((Seq::empty(), p)));
        assert(items =~= Seq::<u64>::empty());
    } else {
        let rest = items.drop_first();
        lemma_split_at(b, p, enc_u64(items[0]), enc_u64_items(rest));
        lemma_rt_u64(b, p, items[0]);
        lemma_rt_u64_items(b, p + 8, rest);
        assert(seq![items[0]] + rest =~= items);
    }
}

proof fn lemma_rt_u64_list(b: Seq<u8>, p: int, items: Seq<u64>)
    requires
        0 <= p,
        items.len() <= 0xffff_ffff,
        p + enc_u64_list(items).len() <= b.len(),
        b.subrange(p, p + enc_u64_list(items).len()) =~= enc_u64_list(items),
    ensures
        dec_u64_list(b, p) == Some((items, p + enc_u64_list(items).len())),
{
    lemma_split_at(b, p, enc_u32(items.len() as u32), enc_u64_items(items));
    lemma_rt_u32(b, p, items.len() as u32);
    lemma_rt_u64_items(b, p + 4, items);
}

/// Reading where an encoded string list was written gives back the list.
proof fn lemma_rt_str_items(b: Seq<u8>, p: int, items: Seq<Seq<char>>)
    requires
        0 <= p,
        forall|i: int| 0 <= i < items.len() ==> str_bounded(#[trigger] items[i]),
        p + enc_str_items(items).len() <= b.len(),
        b.subrange(p, p + enc_str_items(items).len()) =~= enc_str_items(items),
    ensures
        dec_str_items(b, p, items.len()) == Some((items, p + enc_str_items(items).len())),
    decreases items.len(),
{
    if items.len() == 0 {
        assert(dec_str_items(b, p, 0) == Some::<(Seq<Seq<char>>, int)>((Seq::empty(), p)));
        assert(items =~= Seq::<Seq<char>>::empty());
    } else {
        let rest = items.drop_first();
        lemma_split_at(b, p, enc_str(items[0]), enc_str_items(rest));
        lemma_rt_str(b, p, items[0]);
        lemma_rt_str_items(b, p + enc_str(items[0]).len(), rest);
        assert(seq![items[0]] + rest =~= items);
    }
}

proof fn lemma_rt_str_list(b: Seq<u8>, p: int, items: Seq<Seq<char>>)
    requires
        0 <= p,
        items.len() <= 0xffff_ffff,
        forall|i: int| 0 <= i < items.len() ==> str_bounded(#[trigger] items[i]),
        p + enc_str_list(items).len() <= b.len(),
        b.subrange(p, p + enc_str_list(items).len()) =~= enc_str_list(items),
    ensures
        dec_str_list(b, p) == Some((items, p + enc_str_list(items).len())),
{
    lemma_split_at(b, p, enc_u32(items.len() as u32), enc_str_items(items));
    lemma_rt_u32(b, p, items.len() as u32);
    lemma_rt_str_items(b, p + 4, items);
}

// ---------------------------------------------------------------------
// Result structures
// ---------------------------------------------------------------------

pub open spec fn lat_bounded(l: LatencyResultsV) -> bool {
    l.samples.len() <= 0xffff_ffff
}

pub open spec fn str_list_bounded(items: Seq<Seq<char>>) -> bool {
    items.len() <= 0xffff_ffff && forall|i: int| 0 <= i < items.len() ==> str_bounded(
        #[trigger] items[i],
    )
}

pub open spec fn video_bounded(v: VideoResultsV) -> bool {
    str_list_bounded(v.supported_codecs)
}

pub open spec fn audio_bounded(a: AudioResultsV) -> bool {
    str_list_bounded(a.output_devices)
}

pub open spec fn results_bounded(r: TestResultsV) -> bool {
    &&& (r.latency matches Some(l) ==> lat_bounded(l))
    &&& (r.video matches Some(v) ==> video_bounded(v))
    &&& (r.audio matches Some(a) ==> audio_bounded(a))
}

/// A message whose variable-length parts fit their 4-byte prefixes.
pub open spec fn msg_bounded(m: MessageV) -> bool {
    match m {
        MessageV::Ping { .. } => true,
        MessageV::Pong { .. } => true,
        MessageV::TestResults { results } => results_bounded(results),
        MessageV::Error { message } => str_bounded(message),
    }
}

pub open spec fn enc_latency(l: LatencyResultsV) -> Seq<u8> {
    enc_u64(l.min_us) + enc_u64(l.max_us) + enc_u64(l.avg_us) + enc_u64(l.jitter_us) + enc_u64(
        l.packet_loss_percent,
    ) + enc_u64_list(l.samples)
}

pub open spec fn dec_latency(b: Seq<u8>, p: int) -> Option<(LatencyResultsV, int)> {
    match dec_u64(b, p) {
        None => None,
        Some((min_us, p1)) => match dec_u64(b, p1) {
            None => None,
            Some((max_us, p2)) => match dec_u64(b, p2) {
                None => None,
                Some((avg_us, p3)) => match dec_u64(b, p3) {
                    None => None,
                    Some((jitter_us, p4)) => match dec_u64(b, p4) {
                        None => None,
                        Some((loss, p5)) => match dec_u64_list(b, p5) {
                            None => None,
                            Some((samples, p6)) => Some(
                                (
                                    LatencyResultsV {
                                        min_us,
                                        max_us,
                                        avg_us,
                                        jitter_us,
                                        packet_loss_percent: loss,
                                        samples,
                                    },
                                    p6,
                                ),
                            ),
                        },
                    },
                },
            },
        },
    }
}

pub open spec fn enc_bandwidth(w: BandwidthResultsV) -> Seq<u8> {
    enc_u64(w.download_kbps) + enc_u64(w.upload_kbps)
}

pub open spec fn dec_bandwidth(b: Seq<u8>, p: int) -> Option<(BandwidthResultsV, int)> {
    match dec_u64(b, p) {
        None => None,
        Some((download_kbps, p1)) => match dec_u64(b, p1) {
            None => None,
            Some((upload_kbps, p2)) => Some(
                (BandwidthResultsV { download_kbps, upload_kbps }, p2),
            ),
        },
    }
}

pub open spec fn enc_video(v: VideoResultsV) -> Seq<u8> {
    enc_str_list(v.supported_codecs) + enc_opt_u64(v.decode_fps)
}

pub open spec fn dec_video(b: Seq<u8>, p: int) -> Option<(VideoResultsV, int)> {
    match dec_str_list(b, p) {
        None => None,
        Some((supported_codecs, p1)) => match dec_opt_u64(b, p1) {
            None => None,
            Some((decode_fps, p2)) => Some((VideoResultsV { supported_codecs, decode_fps }, p2)),
        },
    }
}

pub open spec fn enc_audio(a: AudioResultsV) -> Seq<u8> {
    enc_str_list(a.output_devices) + enc_opt_u32(a.sample_rate)
}

pub open spec fn dec_audio(b: Seq<u8>, p: int) -> Option<(AudioResultsV, int)> {
    match dec_str_list(b, p) {
        None => None,
        Some((output_devices, p1)) => match dec_opt_u32(b, p1) {
            None => None,
            Some((sample_rate, p2)) => Some((AudioResultsV { output_devices, sample_rate }, p2)),
        },
    }
}

pub open spec fn enc_opt_latency(o: Option<LatencyResultsV>) -> Seq<u8> {
    match o {
        None => seq![0u8],
        Some(l) => seq![1u8] + enc_latency(l),
    }
}

pub open spec fn dec_opt_latency(b: Seq<u8>, p: int) -> Option<(Option<LatencyResultsV>, int)> {
    match dec_u8(b, p) {
        None => None,
        Some((t, q)) => if t == 0 {
            Some((None, q))
        } else if t == 1 {
            match dec_latency(b, q) {
                None => None,
                Some((l, r)) => Some((Some(l), r)),
            }
        } else {
            None
        },
    }
}

pub open spec fn enc_opt_bandwidth(o: Option<BandwidthResultsV>) -> Seq<u8> {
    match o {
        None => seq![0u8],
        Some(w) => seq![1u8] + enc_bandwidth(w),
    }
}

pub open spec fn dec_opt_bandwidth(b: Seq<u8>, p: int) -> Option<
    (Option<BandwidthResultsV>, int),
> {
    match dec_u8(b, p) {
        None => None,
        Some((t, q)) => if t == 0 {
            Some((None, q))
        } else if t == 1 {
            match dec_bandwidth(b, q) {
                None => None,
                Some((w, r)) => Some((Some(w), r)),
            }
        } else {
            None
        },
    }
}

pub open spec fn enc_opt_video(o: Option<VideoResultsV>) -> Seq<u8> {
    match o {
        None => seq![0u8],
        Some(v) => seq![1u8] + enc_video(v),
    }
}

pub open spec fn dec_opt_video(b: Seq<u8>, p: int) -> Option<(Option<VideoResultsV>, int)> {
    match dec_u8(b, p) {
        None => None,
        Some((t, q)) => if t == 0 {
            Some((None, q))
        } else if t == 1 {
            match dec_video(b, q) {
                None => None,
                Some((v, r)) => Some((Some(v), r)),
            }
        } else {
            None
        },
    }
}

pub open spec fn enc_opt_audio(o: Option<AudioResultsV>) -> Seq<u8> {
    match o {
        None => seq![0u8],
        Some(a) => seq![1u8] + enc_audio(a),
    }
}

pub open spec fn dec_opt_audio(b: Seq<u8>, p: int) -> Option<(Option<AudioResultsV>, int)> {
    match dec_u8(b, p) {
        None => None,
        Some((t, q)) => if t == 0 {
            Some((None, q))
        } else if t == 1 {
            match dec_audio(b, q) {
                None => None,
                Some((a, r)) => Some((Some(a), r)),
            }
        } else {
            None
        },
    }
}

pub open spec fn enc_results(r: TestResultsV) -> Seq<u8> {
    enc_opt_latency(r.latency) + enc_opt_bandwidth(r.bandwidth) + enc_opt_video(r.video)
        + enc_opt_audio(r.audio)
}

pub open spec fn dec_results(b: Seq<u8>, p: int) -> Option<(TestResultsV, int)> {
    match dec_opt_latency(b, p) {
        None => None,
        Some((latency, p1)) => match dec_opt_bandwidth(b, p1) {
            None => None,
            Some((bandwidth, p2)) => match dec_opt_video(b, p2) {
                None => None,
                Some((video, p3)) => match dec_opt_audio(b, p3) {
                    None => None,
                    Some((audio, p4)) => Some(
                        (TestResultsV { latency, bandwidth, video, audio }, p4),
                    ),
                },
            },
        },
    }
}

/// The payload of a message: a tag byte naming the variant, then the
/// fields in order.
pub open spec fn enc_msg(m: MessageV) -> Seq<u8> {
    match m {
        MessageV::Ping { timestamp } => enc_u8(1) + enc_u64(timestamp),
        MessageV::Pong { timestamp } => enc_u8(2) + enc_u64(timestamp),
        MessageV::TestResults { results } => enc_u8(3) + enc_results(results),
        MessageV::Error { message } => enc_u8(4) + enc_str(message),
    }
}

pub open spec fn dec_msg(b: Seq<u8>, p: int) -> Option<(MessageV, int)> {
    match dec_u8(b, p) {
        None => None,
        Some((t, q)) => if t == 1 {
            match dec_u64(b, q) {
                None => None,
                Some((timestamp, r)) => Some((MessageV::Ping { timestamp }, r)),
            }
        } else if t == 2 {
            match dec_u64(b, q) {
                None => None,
                Some((timestamp, r)) => Some((MessageV::Pong { timestamp }, r)),
            }
        } else if t == 3 {
            match dec_results(b, q) {
                None => None,
                Some((results, r)) => Some((MessageV::TestResults { results }, r)),
            }
        } else if t == 4 {
            match dec_str(b, q) {
                None => None,
                Some((message, r)) => Some((MessageV::Error { message }, r)),
            }
        } else {
            None
        },
    }
}

// ---------------------------------------------------------------------
// Executable encoders and decoders for the structures
// ---------------------------------------------------------------------

fn put_latency(out: &mut Vec<u8>, l: &LatencyResults)
    requires
        lat_bounded(l@),
    ensures
        final(out)@ =~= old(out)@ + enc_latency(l@),
{
    put_u64(out, l.min_us);
    put_u64(out, l.max_us);
    put_u64(out, l.avg_us);
    put_u64(out, l.jitter_us);
    put_u64(out, l.packet_loss_percent);
    put_u64_list(out, &l.samples);
}

fn get_latency(buf: &Vec<u8>, p: usize) -> (r: Option<(LatencyResults, usize)>)
    ensures
        match r {
            Some((l, q)) => dec_latency(buf@, p as int) == Some((l@, q as int)),
            None => dec_latency(buf@, p as int) is None,
        },
{
    match get_u64(buf, p) {
        None => None,
        Some((min_us, p1)) => match get_u64(buf, p1) {
            None => None,
            Some((max_us, p2)) => match get_u64(buf, p2) {
                None => None,
                Some((avg_us, p3)) => match get_u64(buf, p3) {
                    None => None,
                    Some((jitter_us, p4)) => match get_u64(buf, p4) {
                        None => None,
                        Some((loss, p5)) => match get_u32(buf, p5) {
                            None => None,
                            Some((n, p6)) => match get_u64_items(buf, p6, n) {
                                None => None,
                                Some((samples, p7)) => Some(
                                    (
                                        LatencyResults {
                                            min_us,
                                            max_us,
                                            avg_us,
                                            jitter_us,
                                            packet_loss_percent: loss,
                                            samples,
                                        },
                                        p7,
                                    ),
                                ),
                            },
                        },
                    },
                },
            },
        },
    }
}

fn put_bandwidth(out: &mut Vec<u8>, w: &BandwidthResults)
    ensures
        final(out)@ =~= old(out)@ + enc_bandwidth(w@),
{
    put_u64(out, w.download_kbps);
    put_u64(out, w.upload_kbps);
}

fn get_bandwidth(buf: &Vec<u8>, p: usize) -> (r: Option<(BandwidthResults, usize)>)
    ensures
        match r {
            Some((w, q)) => dec_bandwidth(buf@, p as int) == Some((w@, q as int)),
            None => dec_bandwidth(buf@, p as int) is None,
        },
{
    match get_u64(buf, p) {
        None => None,
        Some((download_kbps, p1)) => match get_u64(buf, p1) {
            None => None,
            Some((upload_kbps, p2)) => Some((BandwidthResults { download_kbps, upload_kbps }, p2)),
        },
    }
}

fn put_video(out: &mut Vec<u8>, v: &VideoResults)
    requires
        video_bounded(v@),
    ensures
        final(out)@ =~= old(out)@ + enc_video(v@),
{
    proof {
        assert forall|i: int| 0 <= i < v.supported_codecs@.len() implies str_bounded(
            #[trigger] v.supported_codecs@[i]@,
        ) by {
            assert(v.supported_codecs.deep_view()[i] == v.supported_codecs@[i]@);
        }
    }
    put_str_list(out, &v.supported_codecs);
    put_opt_u64(out, &v.decode_fps);
}

fn get_video(buf: &Vec<u8>, p: usize) -> (r: Option<(VideoResults, usize)>)
    ensures
        match r {
            Some((v, q)) => dec_video(buf@, p as int) == Some((v@, q as int)),
            None => dec_video(buf@, p as int) is None,
        },
{
    match get_u32(buf, p) {
        None => None,
        Some((n, p1)) => match get_str_items(buf, p1, n) {
            None => None,
            Some((supported_codecs, p2)) => match get_opt_u64(buf, p2) {
                None => None,
                Some((decode_fps, p3)) => Some((VideoResults { supported_codecs, decode_fps }, p3)),
            },
        },
    }
}

fn put_audio(out: &mut Vec<u8>, a: &AudioResults)
    requires
        audio_bounded(a@),
    ensures
        final(out)@ =~= old(out)@ + enc_audio(a@),
{
    proof {
        assert forall|i: int| 0 <= i < a.output_devices@.len() implies str_bounded(
            #[trigger] a.output_devices@[i]@,
        ) by {
            assert(a.output_devices.deep_view()[i] == a.output_devices@[i]@);
        }
    }
    put_str_list(out, &a.output_devices);
    put_opt_u32(out, &a.sample_rate);
}

fn get_audio(buf: &Vec<u8>, p: usize) -> (r: Option<(AudioResults, usize)>)
    ensures
        match r {
            Some((a, q)) => dec_audio(buf@, p as int) == Some((a@, q as int)),
            None => dec_audio(buf@, p as int) is None,
        },
{
    match get_u32(buf, p) {
        None => None,
        Some((n, p1)) => match get_str_items(buf, p1, n) {
            None => None,
            Some((output_devices, p2)) => match get_opt_u32(buf, p2) {
                None => None,
                Some((sample_rate, p3)) => Some((AudioResults { output_devices, sample_rate }, p3)),
            },
        },
    }
}

#[verifier::rlimit(60)]
fn put_results(out: &mut Vec<u8>, r: &TestResults)
    requires
        results_bounded(r@),
    ensures
        final(out)@ =~= old(out)@ + enc_results(r@),
{
    match &r.latency {
        None => put_u8(out, 0),
        Some(l) => {
            put_u8(out, 1);
            put_latency(out, l);
        },
    }
    match &r.bandwidth {
        None => put_u8(out, 0),
        Some(w) => {
            put_u8(out, 1);
            put_bandwidth(out, w);
        },
    }
    match &r.video {
        None => put_u8(out, 0),
        Some(v) => {
            put_u8(out, 1);
            put_video(out, v);
        },
    }
    match &r.audio {
        None => put_u8(out, 0),
        Some(a) => {
            put_u8(out, 1);
            put_audio(out, a);
        },
    }
}

fn get_opt_latency(buf: &Vec<u8>, p: usize) -> (r: Option<(Option<LatencyResults>, usize)>)
    ensures
        match r {
            Some((o, q)) => dec_opt_latency(buf@, p as int) == Some(
                (
                    match o {
                        Some(l) => Some(l@),
                        None => None,
                    },
                    q as int,
                ),
            ),
            None => dec_opt_latency(buf@, p as int) is None,
        },
{
    match get_u8(buf, p) {
        None => None,
        Some((t, q)) => if t == 0 {
            Some((None, q))
        } else if t == 1 {
            match get_latency(buf, q) {
                None => None,
                Some((l, r)) => Some((Some(l), r)),
            }
        } else {
            None
        },
    }
}

fn get_opt_bandwidth(buf: &Vec<u8>, p: usize) -> (r: Option<(Option<BandwidthResults>, usize)>)
    ensures
        match r {
            Some((o, q)) => dec_opt_bandwidth(buf@, p as int) == Some(
                (
                    match o {
                        Some(w) => Some(w@),
                        None => None,
                    },
                    q as int,
                ),
            ),
            None => dec_opt_bandwidth(buf@, p as int) is None,
        },
{
    match get_u8(buf, p) {
        None => None,
        Some((t, q)) => if t == 0 {
            Some((None, q))
        } else if t == 1 {
            match get_bandwidth(buf, q) {
                None => None,
                Some((w, r)) => Some((Some(w), r)),
            }
        } else {
            None
        },
    }
}

fn get_opt_video(buf: &Vec<u8>, p: usize) -> (r: Option<(Option<VideoResults>, usize)>)
    ensures
        match r {
            Some((o, q)) => dec_opt_video(buf@, p as int) == Some(
                (
                    match o {
                        Some(v) => Some(v@),
                        None => None,
                    },
                    q as int,
                ),
            ),
            None => dec_opt_video(buf@, p as int) is None,
        },
{
    match get_u8(buf, p) {
        None => None,
        Some((t, q)) => if t == 0 {
            Some((None, q))
        } else if t == 1 {
            match get_video(buf, q) {
                None => None,
                Some((v, r)) => Some((Some(v), r)),
            }
        } else {
            None
        },
    }
}

fn get_opt_audio(buf: &Vec<u8>, p: usize) -> (r: Option<(Option<AudioResults>, usize)>)
    ensures
        match r {
            Some((o, q)) => dec_opt_audio(buf@, p as int) == Some(
                (
                    match o {
                        Some(a) => Some(a@),
                        None => None,
                    },
                    q as int,
                ),
            ),
            None => dec_opt_audio(buf@, p as int) is None,
        },
{
    match get_u8(buf, p) {
        None => None,
        Some((t, q)) => if t == 0 {
            Some((None, q))
        } else if t == 1 {
            match get_audio(buf, q) {
                None => None,
                Some((a, r)) => Some((Some(a), r)),
            }
        } else {
            None
        },
    }
}

fn get_results(buf: &Vec<u8>, p: usize) -> (r: Option<(TestResults, usize)>)
    ensures
        match r {
            Some((t, q)) => dec_results(buf@, p as int) == Some((t@, q as int)),
            None => dec_results(buf@, p as int) is None,
        },
{
    match get_opt_latency(buf, p) {
        None => None,
        Some((latency, p1)) => match get_opt_bandwidth(buf, p1) {
            None => None,
            Some((bandwidth, p2)) => match get_opt_video(buf, p2) {
                None => None,
                Some((video, p3)) => match get_opt_audio(buf, p3) {
                    None => None,
                    Some((audio, p4)) => Some(
                        (TestResults { latency, bandwidth, video, audio }, p4),
                    ),
                },
            },
        },
    }
}

/// Encodes a message payload exactly as `enc_msg` describes it.
pub fn encode_message(m: &Message) -> (r: Vec<u8>)
    requires
        msg_bounded(m@),
    ensures
        r@ =~= enc_msg(m@),
{
    let mut out: Vec<u8> = Vec::new();
    match m {
        Message::Ping { timestamp } => {
            put_u8(&mut out, 1);
            put_u64(&mut out, *timestamp);
        },
        Message::Pong { timestamp } => {
            put_u8(&mut out, 2);
            put_u64(&mut out, *timestamp);
        },
        Message::TestResults { results } => {
            put_u8(&mut out, 3);
            put_results(&mut out, results);
        },
        Message::Error { message } => {
            put_u8(&mut out, 4);
            put_str(&mut out, message.as_str());
        },
    }
    out
}

/// Whether a whole buffer decodes as exactly one message.
pub open spec fn payload_decodes(b: Seq<u8>) -> bool {
    match dec_msg(b, 0) {
        Some((m, end)) => end == b.len(),
        None => false,
    }
}

/// Decodes a message payload: succeeds exactly when the whole buffer is
/// one well-formed message, and then returns that message.
pub fn decode_message(buf: &Vec<u8>) -> (r: Result<Message, DiagError>)
    ensures
        r matches Ok(m) ==> dec_msg(buf@, 0) == Some((m@, buf@.len() as int)),
        r is Err ==> r == Err::<Message, DiagError>(DiagError::Protocol) && !payload_decodes(buf@),
{
    let step = match get_u8(buf, 0) {
        None => None,
        Some((t, q)) => if t == 1 {
            match get_u64(buf, q) {
                None => None,
                Some((timestamp, r)) => Some((Message::Ping { timestamp }, r)),
            }
        } else if t == 2 {
            match get_u64(buf, q) {
                None => None,
                Some((timestamp, r)) => Some((Message::Pong { timestamp }, r)),
            }
        } else if t == 3 {
            match get_results(buf, q) {
                None => None,
                Some((results, r)) => Some((Message::TestResults { results }, r)),
            }
        } else if t == 4 {
            match get_str(buf, q) {
                None => None,
                Some((message, r)) => Some((Message::Error { message }, r)),
            }
        } else {
            None
        },
    };
    match step {
        Some((m, end)) => if end == buf.len() {
            Ok(m)
        } else {
            Err(DiagError::Protocol)
        },
        None => Err(DiagError::Protocol),
    }
}

// ---------------------------------------------------------------------
// Round trip: decoding an encoded value gives it back
// ---------------------------------------------------------------------

proof fn lemma_rt_latency(b: Seq<u8>, p: int, l: LatencyResultsV)
    requires
        0 <= p,
        lat_bounded(l),
        p + enc_latency(l).len() <= b.len(),
        b.subrange(p, p + enc_latency(l).len()) =~= enc_latency(l),
    ensures
        dec_latency(b, p) == Some((l, p + enc_latency(l).len())),
{
    let e1 = enc_u64(l.min_us);
    let e2 = enc_u64(l.max_us);
    let e3 = enc_u64(l.avg_us);
    let e4 = enc_u64(l.jitter_us);
    let e5 = enc_u64(l.packet_loss_percent);
    let el = enc_u64_list(l.samples);
    lemma_split_at(b, p, e1 + e2 + e3 + e4 + e5, el);
    lemma_split_at(b, p, e1 + e2 + e3 + e4, e5);
    lemma_split_at(b, p, e1 + e2 + e3, e4);
    lemma_split_at(b, p, e1 + e2, e3);
    lemma_split_at(b, p, e1, e2);
    lemma_rt_u64(b, p, l.min_us);
    lemma_rt_u64(b, p + 8, l.max_us);
    lemma_rt_u64(b, p + 16, l.avg_us);
    lemma_rt_u64(b, p + 24, l.jitter_us);
    lemma_rt_u64(b, p + 32, l.packet_loss_percent);
    lemma_rt_u64_list(b, p + 40, l.samples);
}

proof fn lemma_rt_bandwidth(b: Seq<u8>, p: int, w: BandwidthResultsV)
    requires
        0 <= p,
        p + enc_bandwidth(w).len() <= b.len(),
        b.subrange(p, p + enc_bandwidth(w).len()) =~= enc_bandwidth(w),
    ensures
        dec_bandwidth(b, p) == Some((w, p + enc_bandwidth(w).len())),
{
    lemma_split_at(b, p, enc_u64(w.download_kbps), enc_u64(w.upload_kbps));
    lemma_rt_u64(b, p, w.download_kbps);
    lemma_rt_u64(b, p + 8, w.upload_kbps);
}

proof fn lemma_rt_video(b: Seq<u8>, p: int, v: VideoResultsV)
    requires
        0 <= p,
        video_bounded(v),
        p + enc_video(v).len() <= b.len(),
        b.subrange(p, p + enc_video(v).len()) =~= enc_video(v),
    ensures
        dec_video(b, p) == Some((v, p + enc_video(v).len())),
{
    let e1 = enc_str_list(v.supported_codecs);
    let e2 = enc_opt_u64(v.decode_fps);
    lemma_split_at(b, p, e1, e2);
    lemma_rt_str_list(b, p, v.supported_codecs);
    lemma_rt_opt_u64(b, p + e1.len(), v.decode_fps);
}

proof fn lemma_rt_audio(b: Seq<u8>, p: int, a: AudioResultsV)
    requires
        0 <= p,
        audio_bounded(a),
        p + enc_audio(a).len() <= b.len(),
        b.subrange(p, p + enc_audio(a).len()) =~= enc_audio(a),
    ensures
        dec_audio(b, p) == Some((a, p + enc_audio(a).len())),
{
    let e1 = enc_str_list(a.output_devices);
    let e2 = enc_opt_u32(a.sample_rate);
    lemma_split_at(b, p, e1, e2);
    lemma_rt_str_list(b, p, a.output_devices);
    lemma_rt_opt_u32(b, p + e1.len(), a.sample_rate);
}

proof fn lemma_rt_opt_latency(b: Seq<u8>, p: int, o: Option<LatencyResultsV>)
    requires
        0 <= p,
        o matches Some(l) ==> lat_bounded(l),
        p + enc_opt_latency(o).len() <= b.len(),
        b.subrange(p, p + enc_opt_latency(o).len()) =~= enc_opt_latency(o),
    ensures
        dec_opt_latency(b, p) == Some((o, p + enc_opt_latency(o).len())),
{
    match o {
        None => {
            lemma_rt_u8(b, p, 0);
        },
        Some(l) => {
            lemma_split_at(b, p, enc_u8(1), enc_latency(l));
            lemma_rt_u8(b, p, 1);
            lemma_rt_latency(b, p + 1, l);
        },
    }
}

proof fn lemma_rt_opt_bandwidth(b: Seq<u8>, p: int, o: Option<BandwidthResultsV>)
    requires
        0 <= p,
        p + enc_opt_bandwidth(o).len() <= b.len(),
        b.subrange(p, p + enc_opt_bandwidth(o).len()) =~= enc_opt_bandwidth(o),
    ensures
        dec_opt_bandwidth(b, p) == Some((o, p + enc_opt_bandwidth(o).len())),
{
    match o {
        None => {
            lemma_rt_u8(b, p, 0);
        },
        Some(w) => {
            lemma_split_at(b, p, enc_u8(1), enc_bandwidth(w));
            lemma_rt_u8(b, p, 1);
            lemma_rt_bandwidth(b, p + 1, w);
        },
    }
}

proof fn lemma_rt_opt_video(b: Seq<u8>, p: int, o: Option<VideoResultsV>)
    requires
        0 <= p,
        o matches Some(v) ==> video_bounded(v),
        p + enc_opt_video(o).len() <= b.len(),
        b.subrange(p, p + enc_opt_video(o).len()) =~= enc_opt_video(o),
    ensures
        dec_opt_video(b, p) == Some((o, p + enc_opt_video(o).len())),
{
    match o {
        None => {
            lemma_rt_u8(b, p, 0);
        },
        Some(v) => {
            lemma_split_at(b, p, enc_u8(1), enc_video(v));
            lemma_rt_u8(b, p, 1);
            lemma_rt_video(b, p + 1, v);
        },
    }
}

proof fn lemma_rt_opt_audio(b: Seq<u8>, p: int, o: Option<AudioResultsV>)
    requires
        0 <= p,
        o matches Some(a) ==> audio_bounded(a),
        p + enc_opt_audio(o).len() <= b.len(),
        b.subrange(p, p + enc_opt_audio(o).len()) =~= enc_opt_audio(o),
    ensures
        dec_opt_audio(b, p) == Some((o, p + enc_opt_audio(o).len())),
{
    match o {
        None => {
            lemma_rt_u8(b, p, 0);
        },
        Some(a) => {
            lemma_split_at(b, p, enc_u8(1), enc_audio(a));
            lemma_rt_u8(b, p, 1);
            lemma_rt_audio(b, p + 1, a);
        },
    }
}

proof fn lemma_rt_results(b: Seq<u8>, p: int, r: TestResultsV)
    requires
        0 <= p,
        results_bounded(r),
        p + enc_results(r).len() <= b.len(),
        b.subrange(p, p + enc_results(r).len()) =~= enc_results(r),
    ensures
        dec_results(b, p) == Some((r, p + enc_results(r).len())),
{
    let e1 = enc_opt_latency(r.latency);
    let e2 = enc_opt_bandwidth(r.bandwidth);
    let e3 = enc_opt_video(r.video);
    let e4 = enc_opt_audio(r.audio);
    lemma_split_at(b, p, e1 + e2 + e3, e4);
    lemma_split_at(b, p, e1 + e2, e3);
    lemma_split_at(b, p, e1, e2);
    lemma_rt_opt_latency(b, p, r.latency);
    lemma_rt_opt_bandwidth(b, p + e1.len(), r.bandwidth);
    lemma_rt_opt_video(b, p + e1.len() + e2.len(), r.video);
    lemma_rt_opt_audio(b, p + e1.len() + e2.len() + e3.len(), r.audio);
}

/// Codec round-trip law: a message encoded by `enc_msg` and decoded by
/// `dec_msg` gives back the original message, consuming the whole
/// encoding. Together with the contracts of `encode_message` and
/// `decode_message` this says that decoding an encoded message returns
/// a message with the same view.
pub proof fn lemma_codec_round_trip(m: MessageV)
    requires
        msg_bounded(m),
    ensures
        dec_msg(enc_msg(m), 0) == Some((m, enc_msg(m).len() as int)),
        payload_decodes(enc_msg(m)),
{
    let b = enc_msg(m);
    assert(b.subrange(0, b.len() as int) =~= b);
    match m {
        MessageV::Ping { timestamp } => {
            lemma_split_at(b, 0, enc_u8(1), enc_u64(timestamp));
            lemma_rt_u8(b, 0, 1);
            lemma_rt_u64(b, 1, timestamp);
        },
        MessageV::Pong { timestamp } => {
            lemma_split_at(b, 0, enc_u8(2), enc_u64(timestamp));
            lemma_rt_u8(b, 0, 2);
            lemma_rt_u64(b, 1, timestamp);
        },
        MessageV::TestResults { results } => {
            lemma_split_at(b, 0, enc_u8(3), enc_results(results));
            lemma_rt_u8(b, 0, 3);
            lemma_rt_results(b, 1, results);
        },
        MessageV::Error { message } => {
            lemma_split_at(b, 0, enc_u8(4), enc_str(message));
            lemma_rt_u8(b, 0, 4);
            lemma_rt_str(b, 1, message);
        },
    }
}

// ---------------------------------------------------------------------
// Framing: 4-byte big-endian payload length, then the payload
// ---------------------------------------------------------------------

/// A payload framed for the wire.
pub open spec fn frame_of(payload: Seq<u8>) -> Seq<u8> {
    enc_u32(payload.len() as u32) + payload
}

/// Prefixes a payload with its 4-byte big-endian length.
pub fn encode_frame(payload: &Vec<u8>) -> (r: Vec<u8>)
    requires
        payload@.len() <= MAX_FRAME_BYTES,
    ensures
        r@ =~= frame_of(payload@),
{
    let mut out: Vec<u8> = Vec::new();
    put_u32(&mut out, payload.len() as u32);
    out.extend_from_slice(payload.as_slice());
    out
}

/// Reads a frame header: accepts the announced payload length only up
/// to `MAX_FRAME_BYTES`, so a hostile peer cannot demand an unbounded
/// allocation.
pub fn parse_frame_len(header: &Vec<u8>) -> (r: Result<usize, DiagError>)
    requires
        header@.len() == 4,
    ensures
        ({
            let v = u32_of_bytes(header@[0], header@[1], header@[2], header@[3]);
            if v <= MAX_FRAME_BYTES {
                r == Ok::<usize, DiagError>(v as usize)
            } else {
                r == Err::<usize, DiagError>(DiagError::Protocol)
            }
        }),
{
    match get_u32(header, 0) {
        None => Err(DiagError::Protocol),
        Some((n, _)) => if n <= MAX_FRAME_BYTES {
            Ok(n as usize)
        } else {
            Err(DiagError::Protocol)
        },
    }
}

} // verus!
