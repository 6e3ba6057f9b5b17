//! Canonical binary encoding of the replicated data model.
//!
//! Every value has exactly one encoding: integers are fixed-width
//! little-endian, sequences are length-prefixed, characters are their Unicode
//! scalar values as 32-bit words. The digest function and the durable record
//! formats are built on this module; the decode functions recover the encoded
//! value exactly, which the recovery path and the digest-equality reasoning
//! rely on.

use vstd::bytes::*;
use vstd::prelude::*;

verus! {

// ---------------------------------------------------------------------------
// Specification-level encoders
// ---------------------------------------------------------------------------
/// Encoding of a 64-bit integer: 8 bytes, little-endian.
pub open spec fn enc_u64(x: u64) -> Seq<u8> {
    spec_u64_to_le_bytes(x)
}

/// Encoding of a 32-bit integer: 4 bytes, little-endian.
pub open spec fn enc_u32(x: u32) -> Seq<u8> {
    spec_u32_to_le_bytes(x)
}

/// Encoding of an optional 64-bit integer: a presence byte, then the value.
pub open spec fn enc_opt_u64(o: Option<u64>) -> Seq<u8> {
    match o {
        None => seq![0u8],
        Some(x) => seq![1u8] + enc_u64(x),
    }
}

/// Encoding of a character sequence: each scalar value as 4 bytes.
pub open spec fn enc_chars(s: Seq<char>) -> Seq<u8>
    decreases s.len(),
{
    if s.len() == 0 {
        Seq::empty()
    } else {
        enc_u32(s[0] as u32) + enc_chars(s.drop_first())
    }
}

/// Encoding of a string: character count, then the characters.
pub open spec fn enc_str(s: Seq<char>) -> Seq<u8> {
    enc_u64(s.len() as u64) + enc_chars(s)
}

/// Encoding of a byte string: length, then the bytes themselves.
pub open spec fn enc_bytes(b: Seq<u8>) -> Seq<u8> {
    enc_u64(b.len() as u64) + b
}

pub open spec fn enc_u64_items(s: Seq<u64>) -> Seq<u8>
    decreases s.len(),
{
    if s.len() == 0 {
        Seq::empty()
    } else {
        enc_u64(s[0]) + enc_u64_items(s.drop_first())
    }
}

/// Encoding of a sequence of 64-bit integers: count, then the items.
pub open spec fn enc_u64_seq(s: Seq<u64>) -> Seq<u8> {
    enc_u64(s.len() as u64) + enc_u64_items(s)
}

pub open spec fn enc_pair_items(s: Seq<(Seq<char>, Seq<u8>)>) -> Seq<u8>
    decreases s.len(),
{
    if s.len() == 0 {
        Seq::empty()
    } else {
        enc_str(s[0].0) + enc_bytes(s[0].1) + enc_pair_items(s.drop_first())
    }
}

/// Encoding of key-value pairs: count, then each key and value.
pub open spec fn enc_pairs(s: Seq<(Seq<char>, Seq<u8>)>) -> Seq<u8> {
    enc_u64(s.len() as u64) + enc_pair_items(s)
}

// ---------------------------------------------------------------------------
// Specification-level decoders. Each returns the decoded value and the
// number of bytes consumed, or `None` if the input does not start with a
// valid encoding.
// ---------------------------------------------------------------------------
pub open spec fn dec_u64(s: Seq<u8>) -> Option<(u64, int)> {
    if s.len() >= 8 {
        Some((spec_u64_from_le_bytes(s.subrange(0, 8)), 8))
    } else {
        None
    }
}

pub open spec fn dec_u32(s: Seq<u8>) -> Option<(u32, int)> {
    if s.len() >= 4 {
        Some((spec_u32_from_le_bytes(s.subrange(0, 4)), 4))
    } else {
        None
    }
}

pub open spec fn dec_opt_u64(s: Seq<u8>) -> Option<(Option<u64>, int)> {
    if s.len() < 1 {
        None
    } else if s[0] == 0u8 {
        Some((None, 1))
    } else if s[0] == 1u8 {
        match dec_u64(s.skip(1)) {
            None => None,
            Some((x, n)) => Some((Some(x), 1 + n)),
        }
    } else {
        None
    }
}

pub open spec fn dec_char(s: Seq<u8>) -> Option<(char, int)> {
    match dec_u32(s) {
        None => None,
        Some((u, n)) => if vstd::utf8::is_scalar(u) {
            Some(((u as char), n))
        } else {
            None
        },
    }
}

pub open spec fn dec_chars(s: Seq<u8>, count: int) -> Option<(Seq<char>, int)>
    decreases count,
{
    if count <= 0 {
        Some((Seq::empty(), 0))
    } else {
        match dec_char(s) {
            None => None,
            Some((c, n)) => match dec_chars(s.skip(n), count - 1) {
                None => None,
                Some((cs, m)) => Some((seq![c] + cs, n + m)),
            },
        }
    }
}

pub open spec fn dec_str(s: Seq<u8>) -> Option<(Seq<char>, int)> {
    match dec_u64(s) {
        None => None,
        Some((count, n)) => match dec_chars(s.skip(n), count as int) {
            None => None,
            Some((cs, m)) => Some((cs, n + m)),
        },
    }
}

pub open spec fn dec_bytes(s: Seq<u8>) -> Option<(Seq<u8>, int)> {
    match dec_u64(s) {
        None => None,
        Some((count, n)) => if s.len() >= n + count {
            Some((s.subrange(n, n + count), n + count as int))
        } else {
            None
        },
    }
}

pub open spec fn dec_u64_items(s: Seq<u8>, count: int) -> Option<(Seq<u64>, int)>
    decreases count,
{
    if count <= 0 {
        Some((Seq::empty(), 0))
    } else {
        match dec_u64(s) {
            None => None,
            Some((x, n)) => match dec_u64_items(s.skip(n), count - 1) {
                None => None,
                Some((xs, m)) => Some((seq![x] + xs, n + m)),
            },
        }
    }
}

pub open spec fn dec_u64_seq(s: Seq<u8>) -> Option<(Seq<u64>, int)> {
    match dec_u64(s) {
        None => None,
        Some((count, n)) => match dec_u64_items(s.skip(n), count as int) {
            None => None,
            Some((xs, m)) => Some((xs, n + m)),
        },
    }
}

pub open spec fn dec_pair_items(s: Seq<u8>, count: int) -> Option<
    (Seq<(Seq<char>, Seq<u8>)>, int),
>
    decreases count,
{
    if count <= 0 {
        Some((Seq::empty(), 0))
    } else {
        match dec_str(s) {
            None => None,
            Some((k, n)) => match dec_bytes(s.skip(n)) {
                None => None,
                Some((v, m)) => match dec_pair_items(s.skip(n + m), count - 1) {
                    None => None,
                    Some((ps, r)) => Some((seq![(k, v)] + ps, n + m + r)),
                },
            },
        }
    }
}

pub open spec fn dec_pairs(s: Seq<u8>) -> Option<(Seq<(Seq<char>, Seq<u8>)>, int)> {
    match dec_u64(s) {
        None => None,
        Some((count, n)) => match dec_pair_items(s.skip(n), count as int) {
            None => None,
            Some((ps, m)) => Some((ps, n + m)),
        },
    }
}

// ---------------------------------------------------------------------------
// Round-trip lemmas: decoding an encoding, followed by anything, yields the
// encoded value and consumes exactly the encoding.
// ---------------------------------------------------------------------------
pub proof fn lemma_dec_enc_u64(x: u64, rest: Seq<u8>)
    ensures
        enc_u64(x).len() == 8,
        dec_u64(enc_u64(x) + rest) == Some((x, 8int)),
{
    lemma_auto_spec_u64_to_from_le_bytes();
    assert((enc_u64(x) + rest).subrange(0, 8) =~= enc_u64(x));
}

pub proof fn lemma_dec_enc_u32(x: u32, rest: Seq<u8>)
    ensures
        enc_u32(x).len() == 4,
        dec_u32(enc_u32(x) + rest) == Some((x, 4int)),
{
    lemma_auto_spec_u32_to_from_le_bytes();
    assert((enc_u32(x) + rest).subrange(0, 4) =~= enc_u32(x));
}

pub proof fn lemma_dec_enc_opt_u64(o: Option<u64>, rest: Seq<u8>)
    ensures
        dec_opt_u64(enc_opt_u64(o) + rest) == Some((o, enc_opt_u64(o).len() as int)),
        enc_opt_u64(o).len() == if o is Some {
            9int
        } else {
            1int
        },
{
    let s = enc_opt_u64(o) + rest;
    match o {
        None => {
            assert(s[0] == 0u8);
        },
        Some(x) => {
            lemma_dec_enc_u64(x, rest);
            assert(s[0] == 1u8);
            assert(s.skip(1) =~= enc_u64(x) + rest);
        },
    }
}

pub proof fn lemma_dec_enc_char(c: char, rest: Seq<u8>)
    ensures
        enc_u32(c as u32).len() == 4,
        dec_char(enc_u32(c as u32) + rest) == Some((c, 4int)),
{
    lemma_dec_enc_u32(c as u32, rest);
    vstd::utf8::char_is_scalar(c);
    vstd::utf8::char_u32_cast(c, c as u32);
}

pub proof fn lemma_enc_chars_len(s: Seq<char>)
    ensures
        enc_chars(s).len() == 4 * s.len(),
    decreases s.len(),
{
    lemma_auto_spec_u32_to_from_le_bytes();
    if s.len() > 0 {
        lemma_enc_chars_len(s.drop_first());
    }
}

pub proof fn lemma_dec_enc_chars(s: Seq<char>, rest: Seq<u8>)
    ensures
        dec_chars(enc_chars(s) + rest, s.len() as int) == Some((s, 4 * s.len() as int)),
    decreases s.len(),
{
    lemma_enc_chars_len(s);
    if s.len() == 0 {
        assert(dec_chars(enc_chars(s) + rest, 0) == Some((Seq::<char>::empty(), 0int)));
        assert(s =~= Seq::<char>::empty());
    } else {
        let c = s[0];
        let tail = s.drop_first();
        assert(enc_chars(s) + rest =~= enc_u32(c as u32) + (enc_chars(tail) + rest));
        lemma_dec_enc_char(c, enc_chars(tail) + rest);
        assert((enc_chars(s) + rest).skip(4) =~= enc_chars(tail) + rest);
        lemma_dec_enc_chars(tail, rest);
        assert(seq![c] + tail =~= s);
    }
}

pub proof fn lemma_dec_enc_str(s: Seq<char>, rest: Seq<u8>)
    requires
        s.len() <= u64::MAX,
    ensures
        enc_str(s).len() == 8 + 4 * s.len(),
        dec_str(enc_str(s) + rest) == Some((s, (8 + 4 * s.len()) as int)),
{
    lemma_enc_chars_len(s);
    let n = s.len() as u64;
    assert(enc_str(s) + rest =~= enc_u64(n) + (enc_chars(s) + rest));
    lemma_dec_enc_u64(n, enc_chars(s) + rest);
    assert((enc_str(s) + rest).skip(8) =~= enc_chars(s) + rest);
    lemma_dec_enc_chars(s, rest);
}

pub proof fn lemma_dec_enc_bytes(b: Seq<u8>, rest: Seq<u8>)
    requires
        b.len() <= u64::MAX,
    ensures
        enc_bytes(b).len() == 8 + b.len(),
        dec_bytes(enc_bytes(b) + rest) == Some((b, (8 + b.len()) as int)),
{
    let n = b.len() as u64;
    assert(enc_bytes(b) + rest =~= enc_u64(n) + (b + rest));
    lemma_dec_enc_u64(n, b + rest);
    let s = enc_bytes(b) + rest;
    assert(s.subrange(8, 8 + b.len() as int) =~= b);
}

pub proof fn lemma_enc_u64_items_len(s: Seq<u64>)
    ensures
        enc_u64_items(s).len() == 8 * s.len(),
    decreases s.len(),
{
    lemma_auto_spec_u64_to_from_le_bytes();
    if s.len() > 0 {
        lemma_enc_u64_items_len(s.drop_first());
    }
}

pub proof fn lemma_dec_enc_u64_items(s: Seq<u64>, rest: Seq<u8>)
    ensures
        dec_u64_items(enc_u64_items(s) + rest, s.len() as int) == Some((s, 8 * s.len() as int)),
    decreases s.len(),
{
    lemma_enc_u64_items_len(s);
    if s.len() == 0 {
        assert(s =~= Seq::<u64>::empty());
    } else {
        let x = s[0];
        let tail = s.drop_first();
        assert(enc_u64_items(s) + rest =~= enc_u64(x) + (enc_u64_items(tail) + rest));
        lemma_dec_enc_u64(x, enc_u64_items(tail) + rest);
        assert((enc_u64_items(s) + rest).skip(8) =~= enc_u64_items(tail) + rest);
        lemma_dec_enc_u64_items(tail, rest);
        assert(seq![x] + tail =~= s);
    }
}

pub proof fn lemma_dec_enc_u64_seq(s: Seq<u64>, rest: Seq<u8>)
    requires
        s.len() <= u64::MAX,
    ensures
        enc_u64_seq(s).len() == 8 + 8 * s.len(),
        dec_u64_seq(enc_u64_seq(s) + rest) == Some((s, (8 + 8 * s.len()) as int)),
{
    lemma_enc_u64_items_len(s);
    let n = s.len() as u64;
    assert(enc_u64_seq(s) + rest =~= enc_u64(n) + (enc_u64_items(s) + rest));
    lemma_dec_enc_u64(n, enc_u64_items(s) + rest);
    assert((enc_u64_seq(s) + rest).skip(8) =~= enc_u64_items(s) + rest);
    lemma_dec_enc_u64_items(s, rest);
}

/// Length bounds under which a pair sequence encodes without overflowing
/// the length prefixes.
pub open spec fn pairs_wf(s: Seq<(Seq<char>, Seq<u8>)>) -> bool {
    &&& s.len() <= u64::MAX
    &&& forall|i: int|
        0 <= i < s.len() ==> (#[trigger] s[i].0).len() <= u64::MAX && s[i].1.len() <= u64::MAX
}

pub proof fn lemma_dec_enc_pair_items(s: Seq<(Seq<char>, Seq<u8>)>, rest: Seq<u8>)
    requires
        pairs_wf(s),
    ensures
        dec_pair_items(enc_pair_items(s) + rest, s.len() as int) == Some(
            (s, enc_pair_items(s).len() as int),
        ),
    decreases s.len(),
{
    if s.len() == 0 {
        assert(s =~= Seq::<(Seq<char>, Seq<u8>)>::empty());
    } else {
        let (k, v) = s[0];
        let tail = s.drop_first();
        assert(pairs_wf(tail)) by {
            assert(forall|i: int| 0 <= i < tail.len() ==> tail[i] == s[i + 1]);
        }
        let tail_bytes = enc_pair_items(tail) + rest;
        assert(enc_pair_items(s) + rest =~= enc_str(k) + (enc_bytes(v) + tail_bytes));
        lemma_dec_enc_str(k, enc_bytes(v) + tail_bytes);
        let n = 8 + 4 * k.len() as int;
        assert((enc_pair_items(s) + rest).skip(n) =~= enc_bytes(v) + tail_bytes);
        lemma_dec_enc_bytes(v, tail_bytes);
        let m = 8 + v.len() as int;
        assert((enc_pair_items(s) + rest).skip(n + m) =~= tail_bytes) by {
            assert(enc_str(k).len() == n);
            assert(enc_bytes(v).len() == m);
        }
        lemma_dec_enc_pair_items(tail, rest);
        assert(seq![(k, v)] + tail =~= s);
        assert(enc_pair_items(s).len() == n + m + enc_pair_items(tail).len());
    }
}

pub proof fn lemma_dec_enc_pairs(s: Seq<(Seq<char>, Seq<u8>)>, rest: Seq<u8>)
    requires
        pairs_wf(s),
    ensures
        enc_pairs(s).len() == 8 + enc_pair_items(s).len(),
        dec_pairs(enc_pairs(s) + rest) == Some((s, enc_pairs(s).len() as int)),
{
    let n = s.len() as u64;
    assert(enc_pairs(s) + rest =~= enc_u64(n) + (enc_pair_items(s) + rest));
    lemma_dec_enc_u64(n, enc_pair_items(s) + rest);
    assert((enc_pairs(s) + rest).skip(8) =~= enc_pair_items(s) + rest);
    lemma_dec_enc_pair_items(s, rest);
}

// ---------------------------------------------------------------------------
// Executable encoders. Each appends the canonical encoding to `out`.
// ---------------------------------------------------------------------------
/// Appends the contents of `v` to `out`.
pub fn push_all(out: &mut Vec<u8>, v: &Vec<u8>)
    ensures
        final(out)@ == old(out)@ + v@,
{
    let n = v.len();
    let mut i: usize = 0;
    while i < n
        invariant
            0 <= i <= n,
            n == v@.len(),
            out@ =~= old(out)@ + v@.subrange(0, i as int),
        decreases n - i,
    {
        out.push(v[i]);
        proof {
            assert(out@ =~= old(out)@ + v@.subrange(0, i + 1 as int));
        }
        i = i + 1;
    }
    proof {
        assert(v@.subrange(0, n as int) =~= v@);
    }
}

pub fn enc_u64_exec(out: &mut Vec<u8>, x: u64)
    ensures
        final(out)@ == old(out)@ + enc_u64(x),
{
    let bs = u64_to_le_bytes(x);
    push_all(out, &bs);
}

pub fn enc_u32_exec(out: &mut Vec<u8>, x: u32)
    ensures
        final(out)@ == old(out)@ + enc_u32(x),
{
    let bs = u32_to_le_bytes(x);
    push_all(out, &bs);
}

pub fn enc_opt_u64_exec(out: &mut Vec<u8>, o: Option<u64>)
    ensures
        final(out)@ == old(out)@ + enc_opt_u64(o),
{
    match o {
        None => {
            out.push(0u8);
            proof {
                assert(out@ =~= old(out)@ + enc_opt_u64(o));
            }
        },
        Some(x) => {
            out.push(1u8);
            enc_u64_exec(out, x);
            proof {
                assert(out@ =~= old(out)@ + enc_opt_u64(o));
            }
        },
    }
}

/// Splitting an encoded character sequence after its first character.
proof fn lemma_enc_chars_take(s: Seq<char>, i: int)
    requires
        0 <= i < s.len(),
    ensures
        enc_chars(s.subrange(0, i + 1)) == enc_chars(s.subrange(0, i)) + enc_u32(s[i] as u32),
    decreases i,
{
    if i == 0 {
        assert(s.subrange(0, 1).drop_first() =~= Seq::<char>::empty());
        assert(s.subrange(0, 1)[0] == s[0]);
        assert(enc_chars(s.subrange(0, 1)) =~= enc_u32(s[0] as u32) + enc_chars(
            Seq::<char>::empty(),
        ));
        assert(enc_chars(s.subrange(0, 1)) =~= enc_u32(s[0] as u32));
        assert(enc_chars(s.subrange(0, 0)) =~= Seq::<u8>::empty());
        assert(enc_chars(s.subrange(0, 1)) =~= enc_chars(s.subrange(0, 0)) + enc_u32(
            s[0] as u32,
        ));
    } else {
        let t = s.drop_first();
        lemma_enc_chars_take(t, i - 1);
        assert(s.subrange(0, i + 1).drop_first() =~= t.subrange(0, i));
        assert(s.subrange(0, i).drop_first() =~= t.subrange(0, i - 1));
        assert(s.subrange(0, i + 1)[0] == s[0]);
        assert(s.subrange(0, i)[0] == s[0]);
        assert(enc_chars(s.subrange(0, i + 1)) == enc_u32(s[0] as u32) + enc_chars(
            t.subrange(0, i),
        ));
        assert(enc_chars(s.subrange(0, i)) == enc_u32(s[0] as u32) + enc_chars(
            t.subrange(0, i - 1),
        ));
        assert(t[i - 1] == s[i]);
        assert(enc_u32(s[0] as u32) + (enc_chars(t.subrange(0, i - 1)) + enc_u32(s[i] as u32))
            =~= (enc_u32(s[0] as u32) + enc_chars(t.subrange(0, i - 1))) + enc_u32(s[i] as u32));
    }
}

pub fn enc_str_exec(out: &mut Vec<u8>, s: &str)
    ensures
        final(out)@ == old(out)@ + enc_str(s@),
        s@.len() <= u64::MAX,
{
    let n = s.unicode_len();
    enc_u64_exec(out, n as u64);
    let mut i: usize = 0;
    while i < n
        invariant
            0 <= i <= n,
            n == s@.len(),
            out@ =~= old(out)@ + enc_u64(n as u64) + enc_chars(s@.subrange(0, i as int)),
        decreases n - i,
    {
        let c = s.get_char(i);
        enc_u32_exec(out, c as u32);
        proof {
            lemma_enc_chars_take(s@, i as int);
        }
        i = i + 1;
    }
    proof {
        assert(s@.subrange(0, n as int) =~= s@);
    }
}

pub fn enc_bytes_exec(out: &mut Vec<u8>, b: &Vec<u8>)
    ensures
        final(out)@ == old(out)@ + enc_bytes(b@),
        b@.len() <= u64::MAX,
{
    let _n = b.len();
    enc_u64_exec(out, b.len() as u64);
    push_all(out, b);
    proof {
        assert(out@ =~= old(out)@ + enc_bytes(b@));
    }
}

/// Splitting an encoded integer sequence after its first item.
proof fn lemma_enc_u64_items_take(s: Seq<u64>, i: int)
    requires
        0 <= i < s.len(),
    ensures
        enc_u64_items(s.subrange(0, i + 1)) == enc_u64_items(s.subrange(0, i)) + enc_u64(s[i]),
    decreases i,
{
    if i == 0 {
        assert(s.subrange(0, 1).drop_first() =~= Seq::<u64>::empty());
        assert(s.subrange(0, 1)[0] == s[0]);
        assert(enc_u64_items(s.subrange(0, 1)) =~= enc_u64(s[0]) + enc_u64_items(
            Seq::<u64>::empty(),
        ));
        assert(enc_u64_items(s.subrange(0, 1)) =~= enc_u64(s[0]));
        assert(enc_u64_items(s.subrange(0, 0)) =~= Seq::<u8>::empty());
        assert(enc_u64_items(s.subrange(0, 1)) =~= enc_u64_items(s.subrange(0, 0)) + enc_u64(
            s[0],
        ));
    } else {
        let t = s.drop_first();
        lemma_enc_u64_items_take(t, i - 1);
        assert(s.subrange(0, i + 1).drop_first() =~= t.subrange(0, i));
        assert(s.subrange(0, i).drop_first() =~= t.subrange(0, i - 1));
        assert(s.subrange(0, i + 1)[0] == s[0]);
        assert(s.subrange(0, i)[0] == s[0]);
        assert(t[i - 1] == s[i]);
        assert(enc_u64(s[0]) + (enc_u64_items(t.subrange(0, i - 1)) + enc_u64(s[i])) =~= (enc_u64(
            s[0],
        ) + enc_u64_items(t.subrange(0, i - 1))) + enc_u64(s[i]));
    }
}

pub fn enc_u64_seq_exec(out: &mut Vec<u8>, v: &Vec<u64>)
    ensures
        final(out)@ == old(out)@ + enc_u64_seq(v@),
        v@.len() <= u64::MAX,
{
    let n = v.len();
    enc_u64_exec(out, n as u64);
    let mut i: usize = 0;
    while i < n
        invariant
            0 <= i <= n,
            n == v@.len(),
            out@ =~= old(out)@ + enc_u64(n as u64) + enc_u64_items(v@.subrange(0, i as int)),
        decreases n - i,
    {
        enc_u64_exec(out, v[i]);
        proof {
            lemma_enc_u64_items_take(v@, i as int);
        }
        i = i + 1;
    }
    proof {
        assert(v@.subrange(0, n as int) =~= v@);
    }
}

// ---------------------------------------------------------------------------
// Executable decoders. Each reads one value at `pos`, returning the value
// and the number of bytes consumed; the result matches the spec decoder
// applied to the bytes from `pos` on.
// ---------------------------------------------------------------------------
pub fn dec_u64_exec(buf: &Vec<u8>, pos: usize) -> (r: Option<(u64, usize)>)
    requires
        pos <= buf@.len(),
    ensures
        match r {
            Some((v, c)) => pos + c <= buf@.len() && dec_u64(buf@.skip(pos as int)) == Some(
                (v, c as int),
            ),
            None => dec_u64(buf@.skip(pos as int)) is None,
        },
{
    if buf.len() - pos >= 8 {
        let sl = vstd::slice::slice_subrange(buf.as_slice(), pos, pos + 8);
        let x = u64_from_le_bytes(sl);
        proof {
            assert(buf@.skip(pos as int).subrange(0, 8) =~= buf@.subrange(
                pos as int,
                pos + 8 as int,
            ));
        }
        Some((x, 8))
    } else {
        None
    }
}

pub fn dec_u32_exec(buf: &Vec<u8>, pos: usize) -> (r: Option<(u32, usize)>)
    requires
        pos <= buf@.len(),
    ensures
        match r {
            Some((v, c)) => pos + c <= buf@.len() && dec_u32(buf@.skip(pos as int)) == Some(
                (v, c as int),
            ),
            None => dec_u32(buf@.skip(pos as int)) is None,
        },
{
    if buf.len() - pos >= 4 {
        let sl = vstd::slice::slice_subrange(buf.as_slice(), pos, pos + 4);
        let x = u32_from_le_bytes(sl);
        proof {
            assert(buf@.skip(pos as int).subrange(0, 4) =~= buf@.subrange(
                pos as int,
                pos + 4 as int,
            ));
        }
        Some((x, 4))
    } else {
        None
    }
}

pub fn dec_opt_u64_exec(buf: &Vec<u8>, pos: usize) -> (r: Option<(Option<u64>, usize)>)
    requires
        pos <= buf@.len(),
    ensures
        match r {
            Some((v, c)) => pos + c <= buf@.len() && dec_opt_u64(buf@.skip(pos as int)) == Some(
                (v, c as int),
            ),
            None => dec_opt_u64(buf@.skip(pos as int)) is None,
        },
{
    if pos >= buf.len() {
        return None;
    }
    let tag = buf[pos];
    proof {
        assert(buf@.skip(pos as int)[0] == buf@[pos as int]);
    }
    if tag == 0 {
        Some((None, 1))
    } else if tag == 1 {
        proof {
            assert(buf@.skip(pos as int).skip(1) =~= buf@.skip(pos + 1 as int));
        }
        match dec_u64_exec(buf, pos + 1) {
            None => None,
            Some((x, n)) => Some((Some(x), 1 + n)),
        }
    } else {
        None
    }
}

/// Relies on char::from_u32: returns the character with the given scalar
/// value, and `None` exactly when the value is a surrogate or out of range.
#[verifier::external_body]
fn char_from_u32(u: u32) -> (r: Option<char>)
    ensures
        r is Some <==> vstd::utf8::is_scalar(u),
        match r {
            Some(c) => c as u32 == u && c == (u as char),
            None => true,
        },
{
    char::from_u32(u)
}

pub fn dec_char_exec(buf: &Vec<u8>, pos: usize) -> (r: Option<(char, usize)>)
    requires
        pos <= buf@.len(),
    ensures
        match r {
            Some((v, c)) => pos + c <= buf@.len() && dec_char(buf@.skip(pos as int)) == Some(
                (v, c as int),
            ),
            None => dec_char(buf@.skip(pos as int)) is None,
        },
{
    match dec_u32_exec(buf, pos) {
        None => None,
        Some((u, n)) => match char_from_u32(u) {
            None => None,
            Some(c) => Some((c, n)),
        },
    }
}

// ---------------------------------------------------------------------------
// Mathematical models of the data-model types
// ---------------------------------------------------------------------------
/// Mathematical value of a state transition.
pub ghost enum TransitionModel {
    Write { key: Seq<char>, value: Seq<u8> },
    Delete { key: Seq<char> },
    AddMember { node_id: u64 },
    RemoveMember { node_id: u64 },
    ElectLeader { node_id: u64, term: u64 },
}

/// Canonical concrete form of a state: the data map as its sorted pair
/// sequence, the members in their stable order.
pub ghost struct StateRepr {
    pub clock: u64,
    pub term: u64,
    pub leader: Option<u64>,
    pub members: Seq<u64>,
    pub data: Seq<(Seq<char>, Seq<u8>)>,
}

/// Abstract value of a state: the data as a map.
pub ghost struct StateModel {
    pub clock: u64,
    pub term: u64,
    pub leader: Option<u64>,
    pub members: Seq<u64>,
    pub data: Map<Seq<char>, Seq<u8>>,
}

impl StateRepr {
    /// The abstract state a concrete form stands for.
    pub open spec fn model(self) -> StateModel {
        StateModel {
            clock: self.clock,
            term: self.term,
            leader: self.leader,
            members: self.members,
            data: crate::kv::kv_as_map(self.data),
        }
    }

    /// Length bounds under which the form encodes without overflow.
    pub open spec fn wf(self) -> bool {
        &&& self.members.len() <= u64::MAX
        &&& pairs_wf(self.data)
    }
}

impl TransitionModel {
    /// Length bounds under which the transition encodes without overflow.
    pub open spec fn wf(self) -> bool {
        match self {
            TransitionModel::Write { key, value } => key.len() <= u64::MAX && value.len()
                <= u64::MAX,
            TransitionModel::Delete { key } => key.len() <= u64::MAX,
            _ => true,
        }
    }
}

// ---------------------------------------------------------------------------
// Transition encoding: a tag byte, then the variant's fields.
// ---------------------------------------------------------------------------
pub open spec fn enc_transition(t: TransitionModel) -> Seq<u8> {
    match t {
        TransitionModel::Write { key, value } => seq![0u8] + enc_str(key) + enc_bytes(value),
        TransitionModel::Delete { key } => seq![1u8] + enc_str(key),
        TransitionModel::AddMember { node_id } => seq![2u8] + enc_u64(node_id),
        TransitionModel::RemoveMember { node_id } => seq![3u8] + enc_u64(node_id),
        TransitionModel::ElectLeader { node_id, term } => seq![4u8] + enc_u64(node_id) + enc_u64(
            term,
        ),
    }
}

pub open spec fn dec_transition(s: Seq<u8>) -> Option<(TransitionModel, int)> {
    if s.len() < 1 {
        None
    } else if s[0] == 0u8 {
        match dec_str(s.skip(1)) {
            None => None,
            Some((key, n)) => match dec_bytes(s.skip(1 + n)) {
                None => None,
                Some((value, m)) => Some((TransitionModel::Write { key, value }, 1 + n + m)),
            },
        }
    } else if s[0] == 1u8 {
        match dec_str(s.skip(1)) {
            None => None,
            Some((key, n)) => Some((TransitionModel::Delete { key }, 1 + n)),
        }
    } else if s[0] == 2u8 {
        match dec_u64(s.skip(1)) {
            None => None,
            Some((node_id, n)) => Some((TransitionModel::AddMember { node_id }, 1 + n)),
        }
    } else if s[0] == 3u8 {
        match dec_u64(s.skip(1)) {
            None => None,
            Some((node_id, n)) => Some((TransitionModel::RemoveMember { node_id }, 1 + n)),
        }
    } else if s[0] == 4u8 {
        match dec_u64(s.skip(1)) {
            None => None,
            Some((node_id, n)) => match dec_u64(s.skip(1 + n)) {
                None => None,
                Some((term, m)) => Some((TransitionModel::ElectLeader { node_id, term }, 1 + n + m)),
            },
        }
    } else {
        None
    }
}

pub proof fn lemma_dec_enc_transition(t: TransitionModel, rest: Seq<u8>)
    requires
        t.wf(),
    ensures
        dec_transition(enc_transition(t) + rest) == Some((t, enc_transition(t).len() as int)),
{
    let s = enc_transition(t) + rest;
    match t {
        TransitionModel::Write { key, value } => {
            assert(s[0] == 0u8);
            assert(s.skip(1) =~= enc_str(key) + (enc_bytes(value) + rest));
            lemma_dec_enc_str(key, enc_bytes(value) + rest);
            let n = 8 + 4 * key.len() as int;
            assert(s.skip(1 + n) =~= enc_bytes(value) + rest);
            lemma_dec_enc_bytes(value, rest);
        },
        TransitionModel::Delete { key } => {
            assert(s[0] == 1u8);
            assert(s.skip(1) =~= enc_str(key) + rest);
            lemma_dec_enc_str(key, rest);
        },
        TransitionModel::AddMember { node_id } => {
            assert(s[0] == 2u8);
            assert(s.skip(1) =~= enc_u64(node_id) + rest);
            lemma_dec_enc_u64(node_id, rest);
        },
        TransitionModel::RemoveMember { node_id } => {
            assert(s[0] == 3u8);
            assert(s.skip(1) =~= enc_u64(node_id) + rest);
            lemma_dec_enc_u64(node_id, rest);
        },
        TransitionModel::ElectLeader { node_id, term } => {
            assert(s[0] == 4u8);
            assert(s.skip(1) =~= enc_u64(node_id) + (enc_u64(term) + rest));
            lemma_dec_enc_u64(node_id, enc_u64(term) + rest);
            assert(s.skip(9) =~= enc_u64(term) + rest);
            lemma_dec_enc_u64(term, rest);
        },
    }
}

// ---------------------------------------------------------------------------
// State encoding: the fields in a fixed order.
// ---------------------------------------------------------------------------
pub open spec fn enc_state(r: StateRepr) -> Seq<u8> {
    enc_u64(r.clock) + enc_u64(r.term) + enc_opt_u64(r.leader) + enc_u64_seq(r.members)
        + enc_pairs(r.data)
}

pub open spec fn dec_state(s: Seq<u8>) -> Option<(StateRepr, int)> {
    match dec_u64(s) {
        None => None,
        Some((clock, n1)) => match dec_u64(s.skip(n1)) {
            None => None,
            Some((term, n2)) => match dec_opt_u64(s.skip(n1 + n2)) {
                None => None,
                Some((leader, n3)) => match dec_u64_seq(s.skip(n1 + n2 + n3)) {
                    None => None,
                    Some((members, n4)) => match dec_pairs(s.skip(n1 + n2 + n3 + n4)) {
                        None => None,
                        Some((data, n5)) => Some(
                            (StateRepr { clock, term, leader, members, data }, n1 + n2 + n3 + n4
                                + n5),
                        ),
                    },
                },
            },
        },
    }
}

pub proof fn lemma_dec_enc_state(r: StateRepr, rest: Seq<u8>)
    requires
        r.wf(),
    ensures
        dec_state(enc_state(r) + rest) == Some((r, enc_state(r).len() as int)),
{
    let s = enc_state(r) + rest;
    let after_clock = enc_u64(r.term) + enc_opt_u64(r.leader) + enc_u64_seq(r.members) + enc_pairs(
        r.data,
    ) + rest;
    assert(s =~= enc_u64(r.clock) + after_clock);
    lemma_dec_enc_u64(r.clock, after_clock);
    assert(s.skip(8) =~= after_clock);
    let after_term = enc_opt_u64(r.leader) + enc_u64_seq(r.members) + enc_pairs(r.data) + rest;
    assert(after_clock =~= enc_u64(r.term) + after_term);
    lemma_dec_enc_u64(r.term, after_term);
    assert(s.skip(16) =~= after_term);
    let after_leader = enc_u64_seq(r.members) + enc_pairs(r.data) + rest;
    assert(after_term =~= enc_opt_u64(r.leader) + after_leader);
    lemma_dec_enc_opt_u64(r.leader, after_leader);
    let n3 = enc_opt_u64(r.leader).len() as int;
    assert(s.skip(16 + n3) =~= after_leader);
    let after_members = enc_pairs(r.data) + rest;
    assert(after_leader =~= enc_u64_seq(r.members) + after_members);
    lemma_dec_enc_u64_seq(r.members, after_members);
    let n4 = enc_u64_seq(r.members).len() as int;
    assert(s.skip(16 + n3 + n4) =~= after_members);
    lemma_dec_enc_pairs(r.data, rest);
    let n5 = enc_pairs(r.data).len() as int;
    assert(enc_state(r).len() == 16 + n3 + n4 + n5);
}

/// Equal encodings decode equally, so the canonical state encoding is
/// injective on well-formed concrete forms.
pub proof fn lemma_enc_state_injective(r1: StateRepr, r2: StateRepr)
    requires
        r1.wf(),
        r2.wf(),
        enc_state(r1) == enc_state(r2),
    ensures
        r1 == r2,
{
    lemma_dec_enc_state(r1, Seq::empty());
    lemma_dec_enc_state(r2, Seq::empty());
    assert(enc_state(r1) + Seq::<u8>::empty() =~= enc_state(r1));
    assert(enc_state(r2) + Seq::<u8>::empty() =~= enc_state(r2));
}

// ---------------------------------------------------------------------------
// Sorting node identifiers, for the digest's canonical member order.
// ---------------------------------------------------------------------------
pub open spec fn insert_sorted_u64(x: u64, s: Seq<u64>) -> Seq<u64>
    decreases s.len(),
{
    if s.len() == 0 {
        seq![x]
    } else if x <= s[0] {
        seq![x] + s
    } else {
        seq![s[0]] + insert_sorted_u64(x, s.drop_first())
    }
}

/// Ascending order of a node identifier sequence, duplicates kept.
pub open spec fn sort_u64(s: Seq<u64>) -> Seq<u64>
    decreases s.len(),
{
    if s.len() == 0 {
        Seq::empty()
    } else {
        insert_sorted_u64(s.last(), sort_u64(s.drop_last()))
    }
}

proof fn lemma_insert_sorted_split(x: u64, s: Seq<u64>, p: int)
    requires
        0 <= p <= s.len(),
        forall|j: int| 0 <= j < p ==> (#[trigger] s[j]) < x,
        p < s.len() ==> x <= s[p],
    ensures
        insert_sorted_u64(x, s) == s.subrange(0, p) + seq![x] + s.skip(p),
    decreases p,
{
    if p == 0 {
        if s.len() == 0 {
            assert(insert_sorted_u64(x, s) =~= s.subrange(0, 0) + seq![x] + s.skip(0));
        } else {
            assert(insert_sorted_u64(x, s) == seq![x] + s);
            assert(seq![x] + s =~= s.subrange(0, 0) + seq![x] + s.skip(0));
        }
    } else {
        assert(s[0] < x);
        let t = s.drop_first();
        assert(forall|j: int| 0 <= j < p - 1 ==> (#[trigger] t[j]) == s[j + 1]);
        lemma_insert_sorted_split(x, t, p - 1);
        assert(seq![s[0]] + (t.subrange(0, p - 1) + seq![x] + t.skip(p - 1)) =~= s.subrange(0, p)
            + seq![x] + s.skip(p));
    }
}

/// Inserts a value into a vector at its sorted position.
fn insert_sorted_exec(x: u64, v: &mut Vec<u64>)
    ensures
        final(v)@ == insert_sorted_u64(x, old(v)@),
{
    let n = v.len();
    let mut p: usize = 0;
    while p < n && v[p] < x
        invariant
            0 <= p <= n,
            n == v@.len(),
            v@ == old(v)@,
            forall|j: int| 0 <= j < p ==> (#[trigger] v@[j]) < x,
        decreases n - p,
    {
        p = p + 1;
    }
    proof {
        lemma_insert_sorted_split(x, v@, p as int);
    }
    v.insert(p, x);
    proof {
        assert(final(v)@ =~= old(v)@.subrange(0, p as int) + seq![x] + old(v)@.skip(p as int));
    }
}

/// A copy of the vector in ascending order; the digest serializes members
/// through this.
pub fn sorted_copy_u64(v: &Vec<u64>) -> (r: Vec<u64>)
    ensures
        r@ == sort_u64(v@),
{
    let n = v.len();
    let mut r: Vec<u64> = Vec::new();
    let mut i: usize = 0;
    while i < n
        invariant
            0 <= i <= n,
            n == v@.len(),
            r@ == sort_u64(v@.subrange(0, i as int)),
        decreases n - i,
    {
        insert_sorted_exec(v[i], &mut r);
        proof {
            assert(v@.subrange(0, i + 1 as int).drop_last() =~= v@.subrange(0, i as int));
            assert(v@.subrange(0, i + 1 as int).last() == v@[i as int]);
        }
        i = i + 1;
    }
    proof {
        assert(v@.subrange(0, n as int) =~= v@);
    }
    r
}

/// Sorting keeps the number of values.
pub proof fn lemma_sort_u64_len(s: Seq<u64>)
    ensures
        sort_u64(s).len() == s.len(),
    decreases s.len(),
{
    if s.len() > 0 {
        lemma_sort_u64_len(s.drop_last());
        lemma_insert_sorted_len(s.last(), sort_u64(s.drop_last()));
    }
}

proof fn lemma_insert_sorted_len(x: u64, s: Seq<u64>)
    ensures
        insert_sorted_u64(x, s).len() == s.len() + 1,
    decreases s.len(),
{
    if s.len() > 0 && !(x <= s[0]) {
        lemma_insert_sorted_len(x, s.drop_first());
    }
}

/// Sorting keeps exactly the values of the input.
pub proof fn lemma_insert_sorted_contains(x: u64, s: Seq<u64>, y: u64)
    ensures
        insert_sorted_u64(x, s).contains(y) <==> (x == y || s.contains(y)),
    decreases s.len(),
{
    if s.len() == 0 {
        if x == y {
            assert(insert_sorted_u64(x, s)[0] == y);
        }
        if insert_sorted_u64(x, s).contains(y) {
            let i = choose|i: int| 0 <= i < insert_sorted_u64(x, s).len() && insert_sorted_u64(
                x,
                s,
            )[i] == y;
            assert(i == 0);
        }
        if s.contains(y) {
            let i = choose|i: int| 0 <= i < s.len() && s[i] == y;
        }
    } else if x <= s[0] {
        if insert_sorted_u64(x, s).contains(y) {
            let i = choose|i: int| 0 <= i < (seq![x] + s).len() && (seq![x] + s)[i] == y;
            if i > 0 {
                assert(s[i - 1] == y);
            }
        }
        if x == y {
            assert((seq![x] + s)[0] == y);
        }
        if s.contains(y) {
            let i = choose|i: int| 0 <= i < s.len() && s[i] == y;
            assert((seq![x] + s)[i + 1] == y);
        }
    } else {
        let t = s.drop_first();
        lemma_insert_sorted_contains(x, t, y);
        let u = seq![s[0]] + insert_sorted_u64(x, t);
        if u.contains(y) {
            let i = choose|i: int| 0 <= i < u.len() && u[i] == y;
            if i == 0 {
                assert(s[0] == y);
            } else {
                assert(insert_sorted_u64(x, t).contains(y)) by {
                    assert(u[i] == insert_sorted_u64(x, t)[i - 1]);
                }
                if x != y {
                    assert(t.contains(y));
                    let j = choose|j: int| 0 <= j < t.len() && t[j] == y;
                    assert(s[j + 1] == y);
                }
            }
        }
        if x == y {
            assert(insert_sorted_u64(x, t).contains(y));
            let i = choose|i: int| 0 <= i < insert_sorted_u64(x, t).len() && insert_sorted_u64(
                x,
                t,
            )[i] == y;
            assert(u[i + 1] == y);
        }
        if s.contains(y) && x != y {
            let i = choose|i: int| 0 <= i < s.len() && s[i] == y;
            if i == 0 {
                assert(u[0] == y);
            } else {
                assert(t[i - 1] == y);
                assert(insert_sorted_u64(x, t).contains(y));
                let j = choose|j: int| 0 <= j < insert_sorted_u64(x, t).len()
                    && insert_sorted_u64(x, t)[j] == y;
                assert(u[j + 1] == y);
            }
        }
    }
}

/// The sorted copy holds exactly the values of the input.
pub proof fn lemma_sort_u64_contains(s: Seq<u64>, y: u64)
    ensures
        sort_u64(s).contains(y) <==> s.contains(y),
    decreases s.len(),
{
    if s.len() > 0 {
        lemma_sort_u64_contains(s.drop_last(), y);
        lemma_insert_sorted_contains(s.last(), sort_u64(s.drop_last()), y);
        if s.contains(y) {
            let i = choose|i: int| 0 <= i < s.len() && s[i] == y;
            if i < s.len() - 1 {
                assert(s.drop_last()[i] == y);
            }
        }
        if s.last() == y {
            assert(s[s.len() - 1] == y);
        }
        if s.drop_last().contains(y) {
            let i = choose|i: int| 0 <= i < s.drop_last().len() && s.drop_last()[i] == y;
            assert(s[i] == y);
        }
    }
}


// ---------------------------------------------------------------------------
// The transition algebra: how a transition moves the abstract state.
// ---------------------------------------------------------------------------
/// The sequence with every occurrence of a value removed, order kept.
pub open spec fn seq_remove_all(s: Seq<u64>, x: u64) -> Seq<u64>
    decreases s.len(),
{
    if s.len() == 0 {
        Seq::empty()
    } else if s.last() == x {
        seq_remove_all(s.drop_last(), x)
    } else {
        seq_remove_all(s.drop_last(), x).push(s.last())
    }
}

/// Applying a transition to the abstract state. Total and deterministic; the
/// logical clock advances by one (within its range).
pub open spec fn spec_apply(t: TransitionModel, m: StateModel) -> StateModel {
    let clock = (m.clock + 1) as u64;
    match t {
        TransitionModel::Write { key, value } => StateModel {
            clock,
            term: m.term,
            leader: m.leader,
            members: m.members,
            data: m.data.insert(key, value),
        },
        TransitionModel::Delete { key } => StateModel {
            clock,
            term: m.term,
            leader: m.leader,
            members: m.members,
            data: m.data.remove(key),
        },
        TransitionModel::AddMember { node_id } => StateModel {
            clock,
            term: m.term,
            leader: m.leader,
            members: if m.members.contains(node_id) {
                m.members
            } else {
                m.members.push(node_id)
            },
            data: m.data,
        },
        TransitionModel::RemoveMember { node_id } => StateModel {
            clock,
            term: m.term,
            leader: m.leader,
            members: seq_remove_all(m.members, node_id),
            data: m.data,
        },
        TransitionModel::ElectLeader { node_id, term } => if term > m.term {
            StateModel {
                clock,
                term,
                leader: Some(node_id),
                members: m.members,
                data: m.data,
            }
        } else {
            StateModel {
                clock,
                term: m.term,
                leader: m.leader,
                members: m.members,
                data: m.data,
            }
        },
    }
}

/// No duplicates in a member list.
pub open spec fn members_unique(members: Seq<u64>) -> bool {
    forall|i: int, j: int| 0 <= i < j < members.len() ==> members[i] != members[j]
}

/// The state invariants checked after every applied transition: members are
/// pairwise distinct, and the leader, when set, is a member.
pub open spec fn state_inv(m: StateModel) -> bool {
    &&& members_unique(m.members)
    &&& (m.leader matches Some(l) ==> m.members.contains(l))
}

impl StateModel {
    /// The empty initial state.
    pub open spec fn init() -> StateModel {
        StateModel {
            clock: 0,
            term: 0,
            leader: None,
            members: Seq::empty(),
            data: Map::empty(),
        }
    }
}

/// The digest serializes members in ascending order, so that the digest is a
/// function of the member set's stable content rather than insertion history.
pub open spec fn digest_repr(r: StateRepr) -> StateRepr {
    StateRepr {
        clock: r.clock,
        term: r.term,
        leader: r.leader,
        members: sort_u64(r.members),
        data: r.data,
    }
}

/// A state's canonical concrete form is determined by its abstract value:
/// two states equal as mathematical values have identical canonical forms.
pub proof fn lemma_repr_determined(r1: StateRepr, r2: StateRepr)
    requires
        crate::kv::kv_sorted(r1.data),
        crate::kv::kv_sorted(r2.data),
        r1.model() == r2.model(),
    ensures
        r1 == r2,
        digest_repr(r1) == digest_repr(r2),
{
    crate::kv::lemma_kv_canonical(r1.data, r2.data);
}

// ---------------------------------------------------------------------------
// Executable encoders for the data-model types.
// ---------------------------------------------------------------------------
/// Splitting an encoded pair sequence after one more pair.
proof fn lemma_enc_pair_items_take(s: Seq<(Seq<char>, Seq<u8>)>, i: int)
    requires
        0 <= i < s.len(),
    ensures
        enc_pair_items(s.subrange(0, i + 1)) == enc_pair_items(s.subrange(0, i)) + enc_str(s[i].0)
            + enc_bytes(s[i].1),
    decreases i,
{
    if i == 0 {
        assert(s.subrange(0, 1).drop_first() =~= Seq::<(Seq<char>, Seq<u8>)>::empty());
        assert(s.subrange(0, 1)[0] == s[0]);
        assert(enc_pair_items(s.subrange(0, 1)) =~= enc_str(s[0].0) + enc_bytes(s[0].1)
            + enc_pair_items(Seq::<(Seq<char>, Seq<u8>)>::empty()));
        assert(enc_pair_items(s.subrange(0, 0)) =~= Seq::<u8>::empty());
        assert(enc_pair_items(s.subrange(0, 1)) =~= enc_pair_items(s.subrange(0, 0)) + enc_str(
            s[0].0,
        ) + enc_bytes(s[0].1));
    } else {
        let t = s.drop_first();
        lemma_enc_pair_items_take(t, i - 1);
        assert(s.subrange(0, i + 1).drop_first() =~= t.subrange(0, i));
        assert(s.subrange(0, i).drop_first() =~= t.subrange(0, i - 1));
        assert(s.subrange(0, i + 1)[0] == s[0]);
        assert(s.subrange(0, i)[0] == s[0]);
        assert(t[i - 1] == s[i]);
        let head = enc_str(s[0].0) + enc_bytes(s[0].1);
        assert(enc_pair_items(s.subrange(0, i + 1)) == head + enc_pair_items(t.subrange(0, i)));
        assert(enc_pair_items(s.subrange(0, i)) == head + enc_pair_items(t.subrange(0, i - 1)));
        assert(head + (enc_pair_items(t.subrange(0, i - 1)) + enc_str(s[i].0) + enc_bytes(s[i].1))
            =~= (head + enc_pair_items(t.subrange(0, i - 1))) + enc_str(s[i].0) + enc_bytes(
            s[i].1,
        ));
    }
}

/// Appends the encoding of a key-value map, in its canonical order.
pub fn enc_pairs_exec(out: &mut Vec<u8>, m: &crate::kv::KvMap)
    ensures
        final(out)@ == old(out)@ + enc_pairs(m.kv_seq()),
        pairs_wf(m.kv_seq()),
{
    let n = m.len();
    enc_u64_exec(out, n as u64);
    let mut i: usize = 0;
    while i < n
        invariant
            0 <= i <= n,
            n == m.kv_seq().len(),
            out@ =~= old(out)@ + enc_u64(n as u64) + enc_pair_items(m.kv_seq().subrange(
                0,
                i as int,
            )),
            forall|j: int|
                0 <= j < i ==> (#[trigger] m.kv_seq()[j]).0.len() <= u64::MAX
                    && m.kv_seq()[j].1.len() <= u64::MAX,
        decreases n - i,
    {
        enc_str_exec(out, m.key_at(i).as_str());
        enc_bytes_exec(out, m.value_at(i));
        proof {
            lemma_enc_pair_items_take(m.kv_seq(), i as int);
        }
        i = i + 1;
    }
    proof {
        assert(m.kv_seq().subrange(0, n as int) =~= m.kv_seq());
    }
}

/// Appends the canonical encoding of a transition.
pub fn enc_transition_exec(out: &mut Vec<u8>, t: &crate::Transition)
    ensures
        final(out)@ == old(out)@ + enc_transition(t@),
        t@.wf(),
{
    match t {
        crate::Transition::Write { key, value } => {
            out.push(0u8);
            enc_str_exec(out, key.as_str());
            enc_bytes_exec(out, value);
            proof {
                assert(out@ =~= old(out)@ + enc_transition(t@));
            }
        },
        crate::Transition::Delete { key } => {
            out.push(1u8);
            enc_str_exec(out, key.as_str());
            proof {
                assert(out@ =~= old(out)@ + enc_transition(t@));
            }
        },
        crate::Transition::AddMember { node_id } => {
            out.push(2u8);
            enc_u64_exec(out, *node_id);
            proof {
                assert(out@ =~= old(out)@ + enc_transition(t@));
            }
        },
        crate::Transition::RemoveMember { node_id } => {
            out.push(3u8);
            enc_u64_exec(out, *node_id);
            proof {
                assert(out@ =~= old(out)@ + enc_transition(t@));
            }
        },
        crate::Transition::ElectLeader { node_id, term } => {
            out.push(4u8);
            enc_u64_exec(out, *node_id);
            enc_u64_exec(out, *term);
            proof {
                assert(out@ =~= old(out)@ + enc_transition(t@));
            }
        },
    }
}

/// Appends the canonical encoding of a state, members in their stable order.
pub fn enc_state_exec(out: &mut Vec<u8>, s: &crate::State)
    ensures
        final(out)@ == old(out)@ + enc_state(s.repr()),
        s.repr().wf(),
{
    enc_u64_exec(out, s.clock);
    enc_u64_exec(out, s.term);
    enc_opt_u64_exec(out, s.leader);
    enc_u64_seq_exec(out, &s.members);
    enc_pairs_exec(out, &s.data);
    proof {
        assert(out@ =~= old(out)@ + enc_state(s.repr()));
    }
}

/// The bytes whose digest is the state's hash: the canonical encoding with
/// members sorted ascending.
pub fn state_digest_bytes(s: &crate::State) -> (r: Vec<u8>)
    ensures
        r@ == enc_state(digest_repr(s.repr())),
{
    let mut out: Vec<u8> = Vec::new();
    enc_u64_exec(&mut out, s.clock);
    enc_u64_exec(&mut out, s.term);
    enc_opt_u64_exec(&mut out, s.leader);
    let sorted = sorted_copy_u64(&s.members);
    enc_u64_seq_exec(&mut out, &sorted);
    enc_pairs_exec(&mut out, &s.data);
    proof {
        assert(out@ =~= enc_state(digest_repr(s.repr())));
    }
    out
}

// ---------------------------------------------------------------------------
// Executable decoders for the data-model types.
// ---------------------------------------------------------------------------
/// Relies on String::push: appends one character to the string.
#[verifier::external_body]
fn string_push_char(s: &mut String, c: char)
    ensures
        final(s)@ == old(s)@.push(c),
{
    s.push(c);
}

pub fn dec_str_exec(buf: &Vec<u8>, pos: usize) -> (r: Option<(String, usize)>)
    requires
        pos <= buf@.len(),
    ensures
        match r {
            Some((v, c)) => pos + c <= buf@.len() && dec_str(buf@.skip(pos as int)) == Some(
                (v@, c as int),
            ),
            None => dec_str(buf@.skip(pos as int)) is None,
        },
{
    let blen = buf.len();
    let ghost s0 = buf@.skip(pos as int);
    match dec_u64_exec(buf, pos) {
        None => None,
        Some((count, _n)) => {
            proof {
                assert(s0.skip(8) =~= buf@.skip(pos + 8 as int));
            }
            let mut acc = String::new();
            let mut consumed: usize = 8;
            let mut i: u64 = 0;
            while i < count
                invariant
                    buf@.len() <= usize::MAX,
                    pos + consumed <= buf@.len(),
                    8 <= consumed,
                    0 <= i <= count,
                    s0 == buf@.skip(pos as int),
                    pos <= buf@.len(),
                    dec_u64(s0) == Some((count, 8int)),
                    ({
                        let full = dec_chars(s0.skip(8), count as int);
                        match dec_chars(buf@.skip((pos + consumed) as int), count - i) {
                            None => full is None,
                            Some((cs, m)) => full == Some((acc@ + cs, (consumed - 8) + m)),
                        }
                    }),
                decreases count - i,
            {
                let ghost cur = buf@.skip((pos + consumed) as int);
                match dec_char_exec(buf, pos + consumed) {
                    None => {
                        proof {
                            assert(dec_chars(cur, count - i) is None);
                        }
                        return None;
                    },
                    Some((c, _c4)) => {
                        proof {
                            assert(dec_char(cur) == Some((c, 4int)));
                            assert(cur.skip(4) =~= buf@.skip((pos + consumed + 4) as int));
                            let k = count - i;
                            assert(k > 0);
                            match dec_chars(cur.skip(4), k - 1) {
                                None => {
                                    assert(dec_chars(cur, k as int) is None);
                                },
                                Some((cs, m)) => {
                                    assert(dec_chars(cur, k as int) == Some(
                                        (seq![c] + cs, 4 + m),
                                    ));
                                    assert(acc@ + (seq![c] + cs) =~= acc@.push(c) + cs);
                                },
                            }
                        }
                        string_push_char(&mut acc, c);
                        consumed = consumed + 4;
                        i = i + 1;
                    },
                }
            }
            proof {
                assert(dec_chars(buf@.skip((pos + consumed) as int), count - i) == Some((
                    Seq::<char>::empty(),
                    0int,
                )));
                assert(acc@ + Seq::<char>::empty() =~= acc@);
                assert(dec_chars(s0.skip(8), count as int) == Some((acc@, (consumed - 8) as int)));
            }
            Some((acc, consumed))
        },
    }
}

pub fn dec_bytes_exec(buf: &Vec<u8>, pos: usize) -> (r: Option<(Vec<u8>, usize)>)
    requires
        pos <= buf@.len(),
    ensures
        match r {
            Some((v, c)) => pos + c <= buf@.len() && dec_bytes(buf@.skip(pos as int)) == Some(
                (v@, c as int),
            ),
            None => dec_bytes(buf@.skip(pos as int)) is None,
        },
{
    let blen = buf.len();
    let ghost s0 = buf@.skip(pos as int);
    match dec_u64_exec(buf, pos) {
        None => None,
        Some((count, _n)) => {
            let remaining = buf.len() - (pos + 8);
            if count > remaining as u64 {
                proof {
                    assert(s0.len() < 8 + count);
                }
                None
            } else {
                let cc = count as usize;
                let sl = vstd::slice::slice_subrange(buf.as_slice(), pos + 8, pos + 8 + cc);
                let v = vstd::slice::slice_to_vec(sl);
                proof {
                    assert(s0.subrange(8, 8 + count as int) =~= buf@.subrange(
                        (pos + 8) as int,
                        (pos + 8 + cc) as int,
                    ));
                }
                Some((v, 8 + cc))
            }
        },
    }
}

pub fn dec_u64_seq_exec(buf: &Vec<u8>, pos: usize) -> (r: Option<(Vec<u64>, usize)>)
    requires
        pos <= buf@.len(),
    ensures
        match r {
            Some((v, c)) => pos + c <= buf@.len() && dec_u64_seq(buf@.skip(pos as int)) == Some(
                (v@, c as int),
            ),
            None => dec_u64_seq(buf@.skip(pos as int)) is None,
        },
{
    let blen = buf.len();
    let ghost s0 = buf@.skip(pos as int);
    match dec_u64_exec(buf, pos) {
        None => None,
        Some((count, _n)) => {
            proof {
                assert(s0.skip(8) =~= buf@.skip(pos + 8 as int));
            }
            let mut acc: Vec<u64> = Vec::new();
            let mut consumed: usize = 8;
            let mut i: u64 = 0;
            while i < count
                invariant
                    buf@.len() <= usize::MAX,
                    pos + consumed <= buf@.len(),
                    8 <= consumed,
                    0 <= i <= count,
                    s0 == buf@.skip(pos as int),
                    pos <= buf@.len(),
                    dec_u64(s0) == Some((count, 8int)),
                    ({
                        let full = dec_u64_items(s0.skip(8), count as int);
                        match dec_u64_items(buf@.skip((pos + consumed) as int), count - i) {
                            None => full is None,
                            Some((xs, m)) => full == Some((acc@ + xs, (consumed - 8) + m)),
                        }
                    }),
                decreases count - i,
            {
                let ghost cur = buf@.skip((pos + consumed) as int);
                match dec_u64_exec(buf, pos + consumed) {
                    None => {
                        proof {
                            assert(dec_u64_items(cur, count - i) is None);
                        }
                        return None;
                    },
                    Some((x, _c8)) => {
                        proof {
                            assert(dec_u64(cur) == Some((x, 8int)));
                            assert(cur.skip(8) =~= buf@.skip((pos + consumed + 8) as int));
                            let k = count - i;
                            match dec_u64_items(cur.skip(8), k - 1) {
                                None => {
                                    assert(dec_u64_items(cur, k as int) is None);
                                },
                                Some((xs, m)) => {
                                    assert(dec_u64_items(cur, k as int) == Some(
                                        (seq![x] + xs, 8 + m),
                                    ));
                                    assert(acc@ + (seq![x] + xs) =~= acc@.push(x) + xs);
                                },
                            }
                        }
                        acc.push(x);
                        consumed = consumed + 8;
                        i = i + 1;
                    },
                }
            }
            proof {
                assert(dec_u64_items(buf@.skip((pos + consumed) as int), count - i) == Some((
                    Seq::<u64>::empty(),
                    0int,
                )));
                assert(acc@ + Seq::<u64>::empty() =~= acc@);
                assert(dec_u64_items(s0.skip(8), count as int) == Some(
                    (acc@, (consumed - 8) as int),
                ));
            }
            Some((acc, consumed))
        },
    }
}

/// Decodes a pair sequence into a map; the resulting map realizes exactly
/// the decoded pairs.
pub fn dec_pairs_exec(buf: &Vec<u8>, pos: usize) -> (r: Option<(crate::kv::KvMap, usize)>)
    requires
        pos <= buf@.len(),
    ensures
        match r {
            Some((v, c)) => pos + c <= buf@.len() && (dec_pairs(buf@.skip(pos as int)) matches Some(
                (ps, cc),
            ) && cc == c as int && v@ == crate::kv::kv_as_map(ps)),
            None => dec_pairs(buf@.skip(pos as int)) is None,
        },
{
    let blen = buf.len();
    let ghost s0 = buf@.skip(pos as int);
    match dec_u64_exec(buf, pos) {
        None => None,
        Some((count, _n)) => {
            proof {
                assert(s0.skip(8) =~= buf@.skip(pos + 8 as int));
            }
            let mut acc = crate::kv::KvMap::new();
            let ghost mut accp: Seq<(Seq<char>, Seq<u8>)> = Seq::empty();
            let mut consumed: usize = 8;
            let mut i: u64 = 0;
            proof {
                assert(crate::kv::kv_as_map(accp) =~= Map::<Seq<char>, Seq<u8>>::empty());
            }
            while i < count
                invariant
                    buf@.len() <= usize::MAX,
                    pos + consumed <= buf@.len(),
                    8 <= consumed,
                    0 <= i <= count,
                    s0 == buf@.skip(pos as int),
                    pos <= buf@.len(),
                    dec_u64(s0) == Some((count, 8int)),
                    acc@ == crate::kv::kv_as_map(accp),
                    ({
                        let full = dec_pair_items(s0.skip(8), count as int);
                        match dec_pair_items(buf@.skip((pos + consumed) as int), count - i) {
                            None => full is None,
                            Some((ps, m)) => full == Some((accp + ps, (consumed - 8) + m)),
                        }
                    }),
                decreases count - i,
            {
                let ghost cur = buf@.skip((pos + consumed) as int);
                let k_res = dec_str_exec(buf, pos + consumed);
                match k_res {
                    None => {
                        proof {
                            assert(dec_pair_items(cur, count - i) is None);
                        }
                        return None;
                    },
                    Some((key, ck)) => {
                        proof {
                            assert(cur.skip(ck as int) =~= buf@.skip((pos + consumed + ck) as int));
                        }
                        match dec_bytes_exec(buf, pos + consumed + ck) {
                            None => {
                                proof {
                                    assert(dec_pair_items(cur, count - i) is None);
                                }
                                return None;
                            },
                            Some((value, cv)) => {
                                proof {
                                    let k = count - i;
                                    assert(cur.skip((ck + cv) as int) =~= buf@.skip(
                                        (pos + consumed + ck + cv) as int,
                                    )) by {
                                        assert(cur.skip(ck as int).skip(cv as int) =~= cur.skip(
                                            (ck + cv) as int,
                                        ));
                                        assert(buf@.skip((pos + consumed + ck) as int).skip(
                                            cv as int,
                                        ) =~= buf@.skip((pos + consumed + ck + cv) as int));
                                    }
                                    match dec_pair_items(cur.skip((ck + cv) as int), k - 1) {
                                        None => {
                                            assert(dec_pair_items(cur, k as int) is None);
                                        },
                                        Some((ps, m)) => {
                                            assert(dec_pair_items(cur, k as int) == Some(
                                                (seq![(key@, value@)] + ps, ck + cv + m),
                                            ));
                                            assert(accp + (seq![(key@, value@)] + ps) =~= accp.push(
                                                (key@, value@),
                                            ) + ps);
                                        },
                                    }
                                    assert(crate::kv::kv_as_map(accp.push((key@, value@)))
                                        == crate::kv::kv_as_map(accp).insert(key@, value@)) by {
                                        assert(accp.push((key@, value@)).drop_last() =~= accp);
                                    }
                                }
                                acc.insert(key, value);
                                proof {
                                    accp = accp.push((key@, value@));
                                }
                                consumed = consumed + ck + cv;
                                i = i + 1;
                            },
                        }
                    },
                }
            }
            proof {
                assert(dec_pair_items(buf@.skip((pos + consumed) as int), count - i) == Some((
                    Seq::<(Seq<char>, Seq<u8>)>::empty(),
                    0int,
                )));
                assert(accp + Seq::<(Seq<char>, Seq<u8>)>::empty() =~= accp);
                assert(dec_pair_items(s0.skip(8), count as int) == Some(
                    (accp, (consumed - 8) as int),
                ));
            }
            Some((acc, consumed))
        },
    }
}

pub fn dec_transition_exec(buf: &Vec<u8>, pos: usize) -> (r: Option<(crate::Transition, usize)>)
    requires
        pos <= buf@.len(),
    ensures
        match r {
            Some((v, c)) => pos + c <= buf@.len() && dec_transition(buf@.skip(pos as int)) == Some(
                (v@, c as int),
            ),
            None => dec_transition(buf@.skip(pos as int)) is None,
        },
{
    let ghost s0 = buf@.skip(pos as int);
    if pos >= buf.len() {
        return None;
    }
    let tag = buf[pos];
    proof {
        assert(s0[0] == buf@[pos as int]);
        assert(s0.skip(1) =~= buf@.skip((pos + 1) as int));
    }
    if tag == 0 {
        match dec_str_exec(buf, pos + 1) {
            None => None,
            Some((key, n)) => {
                proof {
                    assert(s0.skip(1 + n as int) =~= buf@.skip((pos + 1 + n) as int));
                }
                match dec_bytes_exec(buf, pos + 1 + n) {
                    None => None,
                    Some((value, m)) => Some((crate::Transition::Write { key, value }, 1 + n + m)),
                }
            },
        }
    } else if tag == 1 {
        match dec_str_exec(buf, pos + 1) {
            None => None,
            Some((key, n)) => Some((crate::Transition::Delete { key }, 1 + n)),
        }
    } else if tag == 2 {
        match dec_u64_exec(buf, pos + 1) {
            None => None,
            Some((node_id, n)) => Some((crate::Transition::AddMember { node_id }, 1 + n)),
        }
    } else if tag == 3 {
        match dec_u64_exec(buf, pos + 1) {
            None => None,
            Some((node_id, n)) => Some((crate::Transition::RemoveMember { node_id }, 1 + n)),
        }
    } else if tag == 4 {
        match dec_u64_exec(buf, pos + 1) {
            None => None,
            Some((node_id, n)) => {
                proof {
                    assert(s0.skip(1 + n as int) =~= buf@.skip((pos + 1 + n) as int));
                }
                match dec_u64_exec(buf, pos + 1 + n) {
                    None => None,
                    Some((term, m)) => Some(
                        (crate::Transition::ElectLeader { node_id, term }, 1 + n + m),
                    ),
                }
            },
        }
    } else {
        None
    }
}

/// Decodes a state. The decoded state's abstract value is the model of the
/// decoded concrete form (the data map realizes the decoded pairs).
pub fn dec_state_exec(buf: &Vec<u8>, pos: usize) -> (r: Option<(crate::State, usize)>)
    requires
        pos <= buf@.len(),
    ensures
        match r {
            Some((v, c)) => pos + c <= buf@.len() && (dec_state(buf@.skip(pos as int)) matches Some(
                (rr, cc),
            ) && cc == c as int && v@ == rr.model()),
            None => dec_state(buf@.skip(pos as int)) is None,
        },
{
    let blen = buf.len();
    let ghost s0 = buf@.skip(pos as int);
    match dec_u64_exec(buf, pos) {
        None => None,
        Some((clock, n1)) => {
            proof {
                assert(s0.skip(n1 as int) =~= buf@.skip((pos + n1) as int));
            }
            match dec_u64_exec(buf, pos + n1) {
                None => None,
                Some((term, n2)) => {
                    proof {
                        assert(s0.skip((n1 + n2) as int) =~= buf@.skip((pos + n1 + n2) as int));
                    }
                    match dec_opt_u64_exec(buf, pos + n1 + n2) {
                        None => None,
                        Some((leader, n3)) => {
                            proof {
                                assert(s0.skip((n1 + n2 + n3) as int) =~= buf@.skip(
                                    (pos + n1 + n2 + n3) as int,
                                ));
                            }
                            match dec_u64_seq_exec(buf, pos + n1 + n2 + n3) {
                                None => None,
                                Some((members, n4)) => {
                                    proof {
                                        assert(s0.skip((n1 + n2 + n3 + n4) as int) =~= buf@.skip(
                                            (pos + n1 + n2 + n3 + n4) as int,
                                        ));
                                    }
                                    match dec_pairs_exec(buf, pos + n1 + n2 + n3 + n4) {
                                        None => None,
                                        Some((data, n5)) => {
                                            let st = crate::State {
                                                clock,
                                                data,
                                                members,
                                                term,
                                                leader,
                                            };
                                            Some((st, n1 + n2 + n3 + n4 + n5))
                                        },
                                    }
                                },
                            }
                        },
                    }
                },
            }
        },
    }
}


// ---------------------------------------------------------------------------
// Durable record payloads: the tagged union stored in the write-ahead log.
// ---------------------------------------------------------------------------
/// Mathematical value of one durable record.
pub ghost enum WalRecordModel {
    LogEntry { index: usize, term: u64, transition: TransitionModel },
    Snapshot { index: usize, term: u64, state: StateRepr },
    Metadata { current_term: u64, voted_for: Option<u64> },
    Commit { index: usize },
}

/// A record with the snapshot state taken up to its abstract value; what a
/// record means, independently of the entry order inside the state's map.
pub ghost enum WalRecordAbs {
    LogEntry { index: usize, term: u64, transition: TransitionModel },
    Snapshot { index: usize, term: u64, state: StateModel },
    Metadata { current_term: u64, voted_for: Option<u64> },
    Commit { index: usize },
}

pub open spec fn record_abs(m: WalRecordModel) -> WalRecordAbs {
    match m {
        WalRecordModel::LogEntry { index, term, transition } => WalRecordAbs::LogEntry {
            index,
            term,
            transition,
        },
        WalRecordModel::Snapshot { index, term, state } => WalRecordAbs::Snapshot {
            index,
            term,
            state: state.model(),
        },
        WalRecordModel::Metadata { current_term, voted_for } => WalRecordAbs::Metadata {
            current_term,
            voted_for,
        },
        WalRecordModel::Commit { index } => WalRecordAbs::Commit { index },
    }
}

/// Length bounds under which a record encodes without overflow.
pub open spec fn record_wf(m: WalRecordModel) -> bool {
    match m {
        WalRecordModel::LogEntry { transition, .. } => transition.wf(),
        WalRecordModel::Snapshot { state, .. } => state.wf(),
        _ => true,
    }
}

pub open spec fn enc_record_payload(m: WalRecordModel) -> Seq<u8> {
    match m {
        WalRecordModel::LogEntry { index, term, transition } => seq![0u8] + enc_u64(index as u64)
            + enc_u64(term) + enc_transition(transition),
        WalRecordModel::Snapshot { index, term, state } => seq![1u8] + enc_u64(index as u64)
            + enc_u64(term) + enc_state(state),
        WalRecordModel::Metadata { current_term, voted_for } => seq![2u8] + enc_u64(current_term)
            + enc_opt_u64(voted_for),
        WalRecordModel::Commit { index } => seq![3u8] + enc_u64(index as u64),
    }
}

pub open spec fn dec_record_payload(s: Seq<u8>) -> Option<(WalRecordModel, int)> {
    if s.len() < 1 {
        None
    } else if s[0] == 0u8 {
        match dec_u64(s.skip(1)) {
            None => None,
            Some((index, n1)) => if index <= usize::MAX {
                match dec_u64(s.skip(1 + n1)) {
                    None => None,
                    Some((term, n2)) => match dec_transition(s.skip(1 + n1 + n2)) {
                        None => None,
                        Some((transition, n3)) => Some(
                            (
                                WalRecordModel::LogEntry {
                                    index: index as usize,
                                    term,
                                    transition,
                                },
                                1 + n1 + n2 + n3,
                            ),
                        ),
                    },
                }
            } else {
                None
            },
        }
    } else if s[0] == 1u8 {
        match dec_u64(s.skip(1)) {
            None => None,
            Some((index, n1)) => if index <= usize::MAX {
                match dec_u64(s.skip(1 + n1)) {
                    None => None,
                    Some((term, n2)) => match dec_state(s.skip(1 + n1 + n2)) {
                        None => None,
                        Some((state, n3)) => Some(
                            (
                                WalRecordModel::Snapshot { index: index as usize, term, state },
                                1 + n1 + n2 + n3,
                            ),
                        ),
                    },
                }
            } else {
                None
            },
        }
    } else if s[0] == 2u8 {
        match dec_u64(s.skip(1)) {
            None => None,
            Some((current_term, n1)) => match dec_opt_u64(s.skip(1 + n1)) {
                None => None,
                Some((voted_for, n2)) => Some(
                    (WalRecordModel::Metadata { current_term, voted_for }, 1 + n1 + n2),
                ),
            },
        }
    } else if s[0] == 3u8 {
        match dec_u64(s.skip(1)) {
            None => None,
            Some((index, n1)) => if index <= usize::MAX {
                Some((WalRecordModel::Commit { index: index as usize }, 1 + n1))
            } else {
                None
            },
        }
    } else {
        None
    }
}

/// Round trip of one record payload: decoding consumes it exactly.
pub proof fn lemma_dec_enc_record_payload(m: WalRecordModel)
    requires
        record_wf(m),
    ensures
        dec_record_payload(enc_record_payload(m)) == Some(
            (m, enc_record_payload(m).len() as int),
        ),
{
    let s = enc_record_payload(m);
    match m {
        WalRecordModel::LogEntry { index, term, transition } => {
            assert(s[0] == 0u8);
            let rest1 = enc_u64(term) + enc_transition(transition);
            assert(s.skip(1) =~= enc_u64(index as u64) + rest1);
            lemma_dec_enc_u64(index as u64, rest1);
            assert(s.skip(9) =~= enc_u64(term) + enc_transition(transition));
            lemma_dec_enc_u64(term, enc_transition(transition));
            assert(s.skip(17) =~= enc_transition(transition) + Seq::<u8>::empty());
            lemma_dec_enc_transition(transition, Seq::empty());
            assert(enc_transition(transition) + Seq::<u8>::empty() =~= enc_transition(transition));
        },
        WalRecordModel::Snapshot { index, term, state } => {
            assert(s[0] == 1u8);
            let rest1 = enc_u64(term) + enc_state(state);
            assert(s.skip(1) =~= enc_u64(index as u64) + rest1);
            lemma_dec_enc_u64(index as u64, rest1);
            assert(s.skip(9) =~= enc_u64(term) + enc_state(state));
            lemma_dec_enc_u64(term, enc_state(state));
            assert(s.skip(17) =~= enc_state(state) + Seq::<u8>::empty());
            lemma_dec_enc_state(state, Seq::empty());
            assert(enc_state(state) + Seq::<u8>::empty() =~= enc_state(state));
        },
        WalRecordModel::Metadata { current_term, voted_for } => {
            assert(s[0] == 2u8);
            assert(s.skip(1) =~= enc_u64(current_term) + enc_opt_u64(voted_for));
            lemma_dec_enc_u64(current_term, enc_opt_u64(voted_for));
            assert(s.skip(9) =~= enc_opt_u64(voted_for) + Seq::<u8>::empty());
            lemma_dec_enc_opt_u64(voted_for, Seq::empty());
            assert(enc_opt_u64(voted_for) + Seq::<u8>::empty() =~= enc_opt_u64(voted_for));
        },
        WalRecordModel::Commit { index } => {
            assert(s[0] == 3u8);
            assert(s.skip(1) =~= enc_u64(index as u64) + Seq::<u8>::empty());
            assert(enc_u64(index as u64) + Seq::<u8>::empty() =~= enc_u64(index as u64));
            lemma_dec_enc_u64(index as u64, Seq::empty());
        },
    }
}

/// Appends the canonical encoding of a durable record.
pub fn enc_record_payload_exec(out: &mut Vec<u8>, e: &crate::storage::WALEntry)
    ensures
        final(out)@ == old(out)@ + enc_record_payload(e@),
        record_wf(e@),
{
    match e {
        crate::storage::WALEntry::LogEntry { index, term, transition } => {
            out.push(0u8);
            enc_u64_exec(out, *index as u64);
            enc_u64_exec(out, *term);
            enc_transition_exec(out, transition);
            proof {
                assert(out@ =~= old(out)@ + enc_record_payload(e@));
            }
        },
        crate::storage::WALEntry::Snapshot { index, term, state } => {
            out.push(1u8);
            enc_u64_exec(out, *index as u64);
            enc_u64_exec(out, *term);
            enc_state_exec(out, state);
            proof {
                assert(out@ =~= old(out)@ + enc_record_payload(e@));
            }
        },
        crate::storage::WALEntry::Metadata { current_term, voted_for } => {
            out.push(2u8);
            enc_u64_exec(out, *current_term);
            enc_opt_u64_exec(out, *voted_for);
            proof {
                assert(out@ =~= old(out)@ + enc_record_payload(e@));
            }
        },
        crate::storage::WALEntry::Commit { index } => {
            out.push(3u8);
            enc_u64_exec(out, *index as u64);
            proof {
                assert(out@ =~= old(out)@ + enc_record_payload(e@));
            }
        },
    }
}

/// Decodes one durable record; the result means the same as the decoded
/// model (the snapshot state is recovered up to its abstract value).
pub fn dec_record_payload_exec(buf: &Vec<u8>, pos: usize) -> (r: Option<
    (crate::storage::WALEntry, usize),
>)
    requires
        pos <= buf@.len(),
    ensures
        match r {
            Some((e, c)) => pos + c <= buf@.len() && (dec_record_payload(
                buf@.skip(pos as int),
            ) matches Some((m, cc)) && cc == c as int && record_abs(e@) == record_abs(m)),
            None => dec_record_payload(buf@.skip(pos as int)) is None,
        },
{
    let ghost s0 = buf@.skip(pos as int);
    if pos >= buf.len() {
        return None;
    }
    let tag = buf[pos];
    proof {
        assert(s0[0] == buf@[pos as int]);
        assert(s0.skip(1) =~= buf@.skip((pos + 1) as int));
    }
    if tag == 0 {
        match dec_u64_exec(buf, pos + 1) {
            None => None,
            Some((index, n1)) => {
                if index > usize::MAX as u64 {
                    return None;
                }
                proof {
                    assert(s0.skip(1 + n1 as int) =~= buf@.skip((pos + 1 + n1) as int));
                }
                match dec_u64_exec(buf, pos + 1 + n1) {
                    None => None,
                    Some((term, n2)) => {
                        proof {
                            assert(s0.skip(1 + (n1 + n2) as int) =~= buf@.skip(
                                (pos + 1 + n1 + n2) as int,
                            ));
                        }
                        match dec_transition_exec(buf, pos + 1 + n1 + n2) {
                            None => None,
                            Some((transition, n3)) => Some(
                                (
                                    crate::storage::WALEntry::LogEntry {
                                        index: index as usize,
                                        term,
                                        transition,
                                    },
                                    1 + n1 + n2 + n3,
                                ),
                            ),
                        }
                    },
                }
            },
        }
    } else if tag == 1 {
        match dec_u64_exec(buf, pos + 1) {
            None => None,
            Some((index, n1)) => {
                if index > usize::MAX as u64 {
                    return None;
                }
                proof {
                    assert(s0.skip(1 + n1 as int) =~= buf@.skip((pos + 1 + n1) as int));
                }
                match dec_u64_exec(buf, pos + 1 + n1) {
                    None => None,
                    Some((term, n2)) => {
                        proof {
                            assert(s0.skip(1 + (n1 + n2) as int) =~= buf@.skip(
                                (pos + 1 + n1 + n2) as int,
                            ));
                        }
                        match dec_state_exec(buf, pos + 1 + n1 + n2) {
                            None => None,
                            Some((state, n3)) => Some(
                                (
                                    crate::storage::WALEntry::Snapshot {
                                        index: index as usize,
                                        term,
                                        state,
                                    },
                                    1 + n1 + n2 + n3,
                                ),
                            ),
                        }
                    },
                }
            },
        }
    } else if tag == 2 {
        match dec_u64_exec(buf, pos + 1) {
            None => None,
            Some((current_term, n1)) => {
                proof {
                    assert(s0.skip(1 + n1 as int) =~= buf@.skip((pos + 1 + n1) as int));
                }
                match dec_opt_u64_exec(buf, pos + 1 + n1) {
                    None => None,
                    Some((voted_for, n2)) => Some(
                        (
                            crate::storage::WALEntry::Metadata { current_term, voted_for },
                            1 + n1 + n2,
                        ),
                    ),
                }
            },
        }
    } else if tag == 3 {
        match dec_u64_exec(buf, pos + 1) {
            None => None,
            Some((index, n1)) => {
                if index > usize::MAX as u64 {
                    return None;
                }
                Some((crate::storage::WALEntry::Commit { index: index as usize }, 1 + n1))
            },
        }
    } else {
        None
    }
}


// ---------------------------------------------------------------------------
// Snapshot files: a full state capture with its log position.
// ---------------------------------------------------------------------------
/// Mathematical value of a snapshot.
pub ghost struct SnapshotModel {
    pub last_index: usize,
    pub last_term: u64,
    pub state: StateRepr,
    pub timestamp: u64,
}

pub open spec fn enc_snapshot(m: SnapshotModel) -> Seq<u8> {
    enc_u64(m.last_index as u64) + enc_u64(m.last_term) + enc_u64(m.timestamp) + enc_state(m.state)
}

pub open spec fn dec_snapshot(s: Seq<u8>) -> Option<(SnapshotModel, int)> {
    match dec_u64(s) {
        None => None,
        Some((last_index, n1)) => if last_index <= usize::MAX {
            match dec_u64(s.skip(n1)) {
                None => None,
                Some((last_term, n2)) => match dec_u64(s.skip(n1 + n2)) {
                    None => None,
                    Some((timestamp, n3)) => match dec_state(s.skip(n1 + n2 + n3)) {
                        None => None,
                        Some((state, n4)) => Some(
                            (
                                SnapshotModel {
                                    last_index: last_index as usize,
                                    last_term,
                                    state,
                                    timestamp,
                                },
                                n1 + n2 + n3 + n4,
                            ),
                        ),
                    },
                },
            }
        } else {
            None
        },
    }
}

pub proof fn lemma_dec_enc_snapshot(m: SnapshotModel)
    requires
        m.state.wf(),
    ensures
        dec_snapshot(enc_snapshot(m)) == Some((m, enc_snapshot(m).len() as int)),
{
    let s = enc_snapshot(m);
    let rest1 = enc_u64(m.last_term) + enc_u64(m.timestamp) + enc_state(m.state);
    assert(s =~= enc_u64(m.last_index as u64) + rest1);
    lemma_dec_enc_u64(m.last_index as u64, rest1);
    assert(s.skip(8) =~= rest1);
    let rest2 = enc_u64(m.timestamp) + enc_state(m.state);
    assert(rest1 =~= enc_u64(m.last_term) + rest2);
    lemma_dec_enc_u64(m.last_term, rest2);
    assert(s.skip(16) =~= rest2);
    assert(rest2 =~= enc_u64(m.timestamp) + enc_state(m.state));
    lemma_dec_enc_u64(m.timestamp, enc_state(m.state));
    assert(s.skip(24) =~= enc_state(m.state) + Seq::<u8>::empty());
    assert(enc_state(m.state) + Seq::<u8>::empty() =~= enc_state(m.state));
    lemma_dec_enc_state(m.state, Seq::empty());
}

/// Encodes a snapshot into its file bytes.
pub fn enc_snapshot_exec(out: &mut Vec<u8>, s: &crate::storage::Snapshot)
    ensures
        final(out)@ == old(out)@ + enc_snapshot(s@),
        s@.state.wf(),
{
    enc_u64_exec(out, s.last_index as u64);
    enc_u64_exec(out, s.last_term);
    enc_u64_exec(out, s.timestamp);
    enc_state_exec(out, &s.state);
    proof {
        assert(out@ =~= old(out)@ + enc_snapshot(s@));
    }
}

/// Decodes a snapshot from its file bytes; the recovered state means the
/// same as the decoded model.
pub fn dec_snapshot_exec(buf: &Vec<u8>, pos: usize) -> (r: Option<(crate::storage::Snapshot, usize)>)
    requires
        pos <= buf@.len(),
    ensures
        match r {
            Some((v, c)) => pos + c <= buf@.len() && (dec_snapshot(buf@.skip(pos as int)) matches
                Some((m, cc)) && cc == c as int && v.last_index == m.last_index && v.last_term
                == m.last_term && v.timestamp == m.timestamp && v.state@ == m.state.model()),
            None => dec_snapshot(buf@.skip(pos as int)) is None,
        },
{
    let blen = buf.len();
    let ghost s0 = buf@.skip(pos as int);
    match dec_u64_exec(buf, pos) {
        None => None,
        Some((last_index, n1)) => {
            if last_index > usize::MAX as u64 {
                return None;
            }
            proof {
                assert(s0.skip(n1 as int) =~= buf@.skip((pos + n1) as int));
            }
            match dec_u64_exec(buf, pos + n1) {
                None => None,
                Some((last_term, n2)) => {
                    proof {
                        assert(s0.skip((n1 + n2) as int) =~= buf@.skip((pos + n1 + n2) as int));
                    }
                    match dec_u64_exec(buf, pos + n1 + n2) {
                        None => None,
                        Some((timestamp, n3)) => {
                            proof {
                                assert(s0.skip((n1 + n2 + n3) as int) =~= buf@.skip(
                                    (pos + n1 + n2 + n3) as int,
                                ));
                            }
                            match dec_state_exec(buf, pos + n1 + n2 + n3) {
                                None => None,
                                Some((state, n4)) => Some(
                                    (
                                        crate::storage::Snapshot {
                                            last_index: last_index as usize,
                                            last_term,
                                            state,
                                            timestamp,
                                        },
                                        n1 + n2 + n3 + n4,
                                    ),
                                ),
                            }
                        },
                    }
                },
            }
        },
    }
}


/// The little-endian bytes of a 64-bit integer, as a vector.
pub fn u64_bytes(x: u64) -> (r: Vec<u8>)
    ensures
        r@ == enc_u64(x),
        r@.len() == 8,
{
    proof {
        vstd::bytes::lemma_auto_spec_u64_to_from_le_bytes();
    }
    u64_to_le_bytes(x)
}

} // verus!
