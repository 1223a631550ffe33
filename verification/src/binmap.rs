//! The compact binary map format the token-exchange bodies travel in: a
//! length-prefixed map of byte-string keys to byte-string values. The
//! encoder emits the canonical form; the decoder accepts exactly that form
//! and reports anything else as malformed, never by crashing.
//!
//! Layout: a four-byte big-endian entry count, then per entry a four-byte
//! big-endian key length, the key bytes, a four-byte big-endian value
//! length, and the value bytes, with nothing trailing.

use vstd::prelude::*;

use crate::errors::AuthError;

verus! {

/// The largest count or field length the four-byte prefixes can carry.
pub const FIELD_LIMIT: u64 = 0x100000000;

/// The four big-endian bytes of `n`.
pub open spec fn be32(n: u32) -> Seq<u8> {
    seq![
        (n / 0x1000000) as u8,
        ((n / 0x10000) % 0x100) as u8,
        ((n / 0x100) % 0x100) as u8,
        (n % 0x100) as u8,
    ]
}

/// The number read back from four big-endian bytes at `pos`.
pub open spec fn rd32(b: Seq<u8>, pos: int) -> u32 {
    (((b[pos] as int) * 0x1000000 + (b[pos + 1] as int) * 0x10000 + (b[pos + 2] as int) * 0x100 + (
    b[pos + 3] as int)) as u32)
}

/// One length-prefixed field.
pub open spec fn enc_field(f: Seq<u8>) -> Seq<u8> {
    be32(f.len() as u32) + f
}

/// The entry list, each key and value a length-prefixed field.
pub open spec fn enc_entries(es: Seq<(Seq<u8>, Seq<u8>)>) -> Seq<u8>
    decreases es.len(),
{
    if es.len() == 0 {
        Seq::empty()
    } else {
        enc_field(es[0].0) + enc_field(es[0].1) + enc_entries(es.drop_first())
    }
}

/// The whole map: the entry count, then the entries.
pub open spec fn enc_map(es: Seq<(Seq<u8>, Seq<u8>)>) -> Seq<u8> {
    be32(es.len() as u32) + enc_entries(es)
}

/// Reads one length-prefixed field at `pos`: the field and the position
/// after it, or nothing where the bytes run out.
pub open spec fn dec_field(b: Seq<u8>, pos: int) -> Option<(Seq<u8>, int)> {
    if pos + 4 > b.len() {
        None
    } else {
        let l = rd32(b, pos) as int;
        if pos + 4 + l > b.len() {
            None
        } else {
            Some((b.subrange(pos + 4, pos + 4 + l), pos + 4 + l))
        }
    }
}

/// Reads `n` entries starting at `pos`: the entries and the position after
/// them, or nothing where a field is malformed.
pub open spec fn dec_entries(b: Seq<u8>, pos: int, n: nat) -> Option<(Seq<(Seq<u8>, Seq<u8>)>, int)>
    decreases n,
{
    if n == 0 {
        Some((Seq::empty(), pos))
    } else {
        match dec_field(b, pos) {
            None => None,
            Some((k, p1)) => match dec_field(b, p1) {
                None => None,
                Some((v, p2)) => match dec_entries(b, p2, (n - 1) as nat) {
                    None => None,
                    Some((rest, end)) => Some((seq![(k, v)] + rest, end)),
                },
            },
        }
    }
}

/// The entries a byte text denotes, when it is exactly one encoded map.
pub open spec fn dec_map(b: Seq<u8>) -> Option<Seq<(Seq<u8>, Seq<u8>)>> {
    if b.len() < 4 {
        None
    } else {
        match dec_entries(b, 4, rd32(b, 0) as nat) {
            None => None,
            Some((es, end)) => if end == b.len() {
                Some(es)
            } else {
                None
            },
        }
    }
}

/// The models of a vector of byte-pair entries, elementwise.
pub open spec fn pairs_view(es: Seq<(Vec<u8>, Vec<u8>)>) -> Seq<(Seq<u8>, Seq<u8>)> {
    Seq::new(es.len(), |i: int| (es[i].0@, es[i].1@))
}

/// Reads the four big-endian bytes at `pos` back into a number.
fn read_u32(b: &Vec<u8>, pos: usize) -> (r: u32)
    requires
        pos + 4 <= b@.len(),
        b@.len() <= usize::MAX,
    ensures
        r == rd32(b@, pos as int),
{
    let b0 = b[pos] as u32;
    let b1 = b[pos + 1] as u32;
    let b2 = b[pos + 2] as u32;
    let b3 = b[pos + 3] as u32;
    proof {
        assert(b0 * 0x1000000 <= 0xFF000000) by (nonlinear_arith)
            requires b0 <= 0xFF;
        assert(b1 * 0x10000 <= 0xFF0000) by (nonlinear_arith)
            requires b1 <= 0xFF;
        assert(b2 * 0x100 <= 0xFF00) by (nonlinear_arith)
            requires b2 <= 0xFF;
    }
    b0 * 0x1000000 + b1 * 0x10000 + b2 * 0x100 + b3
}

/// Appends the four big-endian bytes of `n`.
fn push_u32(out: &mut Vec<u8>, n: u32)
    ensures
        final(out)@ == old(out)@ + be32(n),
{
    out.push((n / 0x1000000) as u8);
    out.push(((n / 0x10000) % 0x100) as u8);
    out.push(((n / 0x100) % 0x100) as u8);
    out.push((n % 0x100) as u8);
    proof {
        assert(out@ =~= old(out)@ + be32(n));
    }
}

/// Appends a length-prefixed field.
fn push_field(out: &mut Vec<u8>, f: &Vec<u8>)
    requires
        f@.len() < FIELD_LIMIT,
    ensures
        final(out)@ == old(out)@ + enc_field(f@),
{
    push_u32(out, f.len() as u32);
    let ghost mid = out@;
    let mut j: usize = 0;
    while j < f.len()
        invariant
            0 <= j <= f@.len(),
            out@ == mid + f@.subrange(0, j as int),
        decreases f@.len() - j,
    {
        out.push(f[j]);
        proof {
            assert(out@ =~= mid + f@.subrange(0, j as int + 1));
        }
        j = j + 1;
    }
    proof {
        assert(f@.subrange(0, f@.len() as int) =~= f@);
        assert(out@ =~= old(out)@ + enc_field(f@));
    }
}

/// Encodes a token-exchange body as the canonical byte text of its map.
pub fn encode_token_map(entries: &Vec<(Vec<u8>, Vec<u8>)>) -> (r: Vec<u8>)
    requires
        entries@.len() < FIELD_LIMIT,
        forall|i: int|
            0 <= i < entries@.len() ==> (#[trigger] entries@[i]).0@.len() < FIELD_LIMIT
                && entries@[i].1@.len() < FIELD_LIMIT,
    ensures
        r@ == enc_map(pairs_view(entries@)),
{
    let ghost model = pairs_view(entries@);
    let mut out: Vec<u8> = Vec::new();
    push_u32(&mut out, entries.len() as u32);
    proof {
        assert(out@ =~= be32(model.len() as u32));
        assert(model.subrange(0, model.len() as int) =~= model);
    }
    let mut i: usize = 0;
    while i < entries.len()
        invariant
            0 <= i <= entries@.len(),
            model == pairs_view(entries@),
            model.len() == entries@.len(),
            forall|k: int|
                0 <= k < entries@.len() ==> (#[trigger] entries@[k]).0@.len() < FIELD_LIMIT
                    && entries@[k].1@.len() < FIELD_LIMIT,
            out@ + enc_entries(model.subrange(i as int, model.len() as int)) == enc_map(model),
        decreases entries@.len() - i,
    {
        let ghost pre = out@;
        let ghost suf = model.subrange(i as int, model.len() as int);
        proof {
            assert(suf[0] == model[i as int]);
            assert(model[i as int] == (entries@[i as int].0@, entries@[i as int].1@));
            assert(suf.drop_first() =~= model.subrange(i as int + 1, model.len() as int));
        }
        push_field(&mut out, &entries[i].0);
        push_field(&mut out, &entries[i].1);
        proof {
            assert(out@ =~= pre + enc_field(suf[0].0) + enc_field(suf[0].1));
            assert(enc_entries(suf) == enc_field(suf[0].0) + enc_field(suf[0].1) + enc_entries(
                suf.drop_first(),
            ));
            assert(out@ + enc_entries(suf.drop_first()) =~= pre + enc_entries(suf));
        }
        i = i + 1;
    }
    proof {
        assert(model.subrange(model.len() as int, model.len() as int) =~= Seq::<
            (Seq<u8>, Seq<u8>),
        >::empty());
        assert(out@ + enc_entries(Seq::<(Seq<u8>, Seq<u8>)>::empty()) =~= out@);
    }
    out
}

/// Reads one length-prefixed field, as `dec_field` says.
fn read_field(b: &Vec<u8>, pos: usize) -> (r: Option<(Vec<u8>, usize)>)
    requires
        pos <= b@.len(),
    ensures
        match r {
            Some(p) => dec_field(b@, pos as int) == Some((p.0@, p.1 as int)) && pos <= p.1
                <= b@.len(),
            None => dec_field(b@, pos as int) is None,
        },
{
    let blen = b.len();
    if blen - pos < 4 {
        return None;
    }
    let l32 = read_u32(b, pos);
    let l = l32 as usize;
    if blen - (pos + 4) < l {
        return None;
    }
    let mut f: Vec<u8> = Vec::new();
    let mut j: usize = 0;
    while j < l
        invariant
            0 <= j <= l,
            pos + 4 + l <= b@.len(),
            b@.len() <= usize::MAX,
            f@ == b@.subrange(pos as int + 4, pos as int + 4 + j as int),
        decreases l - j,
    {
        f.push(b[pos + 4 + j]);
        proof {
            assert(f@ =~= b@.subrange(pos as int + 4, pos as int + 4 + j as int + 1));
        }
        j = j + 1;
    }
    Some((f, pos + 4 + l))
}

/// Reads `n` entries beginning at `pos`, as `dec_entries` says.
fn read_entries(b: &Vec<u8>, pos: usize, n: u32) -> (r: Option<(Vec<(Vec<u8>, Vec<u8>)>, usize)>)
    requires
        pos <= b@.len(),
    ensures
        match r {
            Some(p) => dec_entries(b@, pos as int, n as nat) == Some((pairs_view(p.0@), p.1 as int))
                && p.1 <= b@.len(),
            None => dec_entries(b@, pos as int, n as nat) is None,
        },
    decreases n,
{
    if n == 0 {
        let es: Vec<(Vec<u8>, Vec<u8>)> = Vec::new();
        proof {
            assert(pairs_view(es@) =~= Seq::<(Seq<u8>, Seq<u8>)>::empty());
        }
        return Some((es, pos));
    }
    let (k, p1) = match read_field(b, pos) {
        None => {
            return None;
        },
        Some(p) => p,
    };
    let (v, p2) = match read_field(b, p1) {
        None => {
            return None;
        },
        Some(p) => p,
    };
    match read_entries(b, p2, n - 1) {
        None => None,
        Some((rest, end)) => {
            let mut es: Vec<(Vec<u8>, Vec<u8>)> = Vec::new();
            es.push((k, v));
            let mut tail = rest;
            es.append(&mut tail);
            proof {
                assert forall|t: int|
                    0 <= t < es@.len() implies pairs_view(es@)[t] == (seq![
                    (k@, v@),
                ] + pairs_view(rest@))[t] by {
                    if t > 0 {
                        assert(es@[t] == rest@[t - 1]);
                    }
                }
                assert(pairs_view(es@) =~= seq![(k@, v@)] + pairs_view(rest@));
            }
            Some((es, end))
        },
    }
}

/// Decodes a token-exchange body. Any byte text that is not exactly one
/// encoded map — a short prefix, a field past the end, trailing bytes — is
/// malformed; a provider handing such a body back is an error, not a
/// crash.
pub fn decode_token_map(b: &Vec<u8>) -> (r: Result<Vec<(Vec<u8>, Vec<u8>)>, AuthError>)
    ensures
        match r {
            Ok(es) => dec_map(b@) == Some(pairs_view(es@)),
            Err(e) => e == AuthError::InvalidFormat && dec_map(b@) is None,
        },
{
    if b.len() < 4 {
        return Err(AuthError::InvalidFormat);
    }
    let n = read_u32(b, 0);
    match read_entries(b, 4, n) {
        None => Err(AuthError::InvalidFormat),
        Some((es, end)) => {
            if end == b.len() {
                Ok(es)
            } else {
                Err(AuthError::InvalidFormat)
            }
        },
    }
}

/// Reading back the four big-endian bytes of `n` yields `n`.
proof fn lemma_rd32_be32(b: Seq<u8>, pos: int, n: u32)
    requires
        0 <= pos,
        pos + 4 <= b.len(),
        b.subrange(pos, pos + 4) == be32(n),
    ensures
        rd32(b, pos) == n,
{
    assert(b[pos] == be32(n)[0] && b[pos + 1] == be32(n)[1] && b[pos + 2] == be32(n)[2] && b[pos
        + 3] == be32(n)[3]) by {
        assert(b.subrange(pos, pos + 4)[0] == b[pos]);
        assert(b.subrange(pos, pos + 4)[1] == b[pos + 1]);
        assert(b.subrange(pos, pos + 4)[2] == b[pos + 2]);
        assert(b.subrange(pos, pos + 4)[3] == b[pos + 3]);
    }
    assert(n == ((n / 0x1000000) % 0x100) * 0x1000000 + ((n / 0x10000) % 0x100) * 0x10000 + ((n
        / 0x100) % 0x100) * 0x100 + n % 0x100) by (bit_vector);
    assert(n / 0x1000000 < 0x100) by (bit_vector);
}

/// Reading a field where one was written finds exactly that field.
proof fn lemma_dec_field_of_enc(b: Seq<u8>, pos: int, f: Seq<u8>)
    requires
        0 <= pos,
        f.len() < FIELD_LIMIT,
        pos + 4 + f.len() <= b.len(),
        b.subrange(pos, pos + 4 + f.len()) == enc_field(f),
    ensures
        dec_field(b, pos) == Some((f, pos + 4 + f.len() as int)),
{
    let w = b.subrange(pos, pos + 4 + f.len());
    assert(b.subrange(pos, pos + 4) =~= w.subrange(0, 4));
    assert(w.subrange(0, 4) =~= be32(f.len() as u32));
    lemma_rd32_be32(b, pos, f.len() as u32);
    assert(rd32(b, pos) as int == f.len() as int);
    assert(b.subrange(pos + 4, pos + 4 + f.len()) =~= f) by {
        assert forall|t: int| 0 <= t < f.len() implies b[pos + 4 + t] == f[t] by {
            assert(w[4 + t] == b[pos + 4 + t]);
            assert(enc_field(f)[4 + t] == f[t]);
        }
    }
}

/// Reading entries where a list of them was written finds exactly that
/// list, ending right after it.
proof fn lemma_dec_entries_of_enc(b: Seq<u8>, pos: int, es: Seq<(Seq<u8>, Seq<u8>)>)
    requires
        0 <= pos,
        forall|i: int|
            0 <= i < es.len() ==> (#[trigger] es[i]).0.len() < FIELD_LIMIT && es[i].1.len()
                < FIELD_LIMIT,
        pos + enc_entries(es).len() <= b.len(),
        b.subrange(pos, pos + enc_entries(es).len()) == enc_entries(es),
    ensures
        dec_entries(b, pos, es.len()) == Some((es, pos + enc_entries(es).len() as int)),
    decreases es.len(),
{
    if es.len() == 0 {
        assert(dec_entries(b, pos, 0) == Some((Seq::<(Seq<u8>, Seq<u8>)>::empty(), pos)));
        assert(es =~= Seq::<(Seq<u8>, Seq<u8>)>::empty());
    } else {
        let k = es[0].0;
        let v = es[0].1;
        let rest = es.drop_first();
        let whole = enc_entries(es);
        let lk = 4 + k.len() as int;
        let lv = 4 + v.len() as int;
        let lr = enc_entries(rest).len() as int;
        assert(whole == enc_field(k) + enc_field(v) + enc_entries(rest));
        assert(whole.len() == lk + lv + lr);
        assert(b.subrange(pos, pos + lk) =~= enc_field(k)) by {
            assert forall|t: int| 0 <= t < lk implies b[pos + t] == enc_field(k)[t] by {
                assert(b.subrange(pos, pos + whole.len())[t] == b[pos + t]);
                assert(whole[t] == enc_field(k)[t]);
            }
        }
        lemma_dec_field_of_enc(b, pos, k);
        let p1 = pos + lk;
        assert(b.subrange(p1, p1 + lv) =~= enc_field(v)) by {
            assert forall|t: int| 0 <= t < lv implies b[p1 + t] == enc_field(v)[t] by {
                assert(b.subrange(pos, pos + whole.len())[lk + t] == b[p1 + t]);
                assert(whole[lk + t] == enc_field(v)[t]);
            }
        }
        lemma_dec_field_of_enc(b, p1, v);
        let p2 = p1 + lv;
        assert(b.subrange(p2, p2 + lr) =~= enc_entries(rest)) by {
            assert forall|t: int| 0 <= t < lr implies b[p2 + t] == enc_entries(rest)[t] by {
                assert(b.subrange(pos, pos + whole.len())[lk + lv + t] == b[p2 + t]);
                assert(whole[lk + lv + t] == enc_entries(rest)[t]);
            }
        }
        assert forall|i: int|
            0 <= i < rest.len() implies (#[trigger] rest[i]).0.len() < FIELD_LIMIT
                && rest[i].1.len() < FIELD_LIMIT by {
            assert(rest[i] == es[i + 1]);
        }
        lemma_dec_entries_of_enc(b, p2, rest);
        assert(seq![(k, v)] + rest =~= es);
    }
}

/// The codec round trip: decoding the canonical encoding of any map within
/// the format's limits yields exactly that map.
pub proof fn lemma_token_map_round_trip(es: Seq<(Seq<u8>, Seq<u8>)>)
    requires
        es.len() < FIELD_LIMIT,
        forall|i: int|
            0 <= i < es.len() ==> (#[trigger] es[i]).0.len() < FIELD_LIMIT && es[i].1.len()
                < FIELD_LIMIT,
    ensures
        dec_map(enc_map(es)) == Some(es),
{
    let b = enc_map(es);
    assert(b.len() == 4 + enc_entries(es).len());
    assert(b.subrange(0, 4) =~= be32(es.len() as u32));
    lemma_rd32_be32(b, 0, es.len() as u32);
    assert(rd32(b, 0) as nat == es.len());
    assert(b.subrange(4, 4 + enc_entries(es).len() as int) =~= enc_entries(es));
    lemma_dec_entries_of_enc(b, 4, es);
}

} // verus!
