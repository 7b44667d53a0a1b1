use vstd::prelude::*;

use crate::types::DecodeError;

verus! {

/// The largest value that the four-byte remaining-length field can carry.
pub const MAX_REMAINING_LENGTH: u32 = 268435455;

/// The value of a sequence of length-field bytes: each byte gives its low
/// seven bits, the first byte the lowest group.
pub open spec fn vlq_value(s: Seq<u8>) -> nat
    decreases s.len(),
{
    if s.len() == 0 {
        0
    } else {
        (s[0] % 128) as nat + 128 * vlq_value(s.drop_first())
    }
}

/// The encoding of `v`: seven bits per byte, lowest group first, the
/// continuation bit set on every byte but the last.
pub open spec fn vlq_encoding(v: nat) -> Seq<u8>
    decreases v,
{
    if v < 128 {
        seq![v as u8]
    } else {
        seq![(v % 128 + 128) as u8] + vlq_encoding(v / 128)
    }
}

/// The number of bytes that the encoding of `v` takes.
pub open spec fn vlq_size(v: nat) -> nat {
    if v < 128 {
        1
    } else if v < 16384 {
        2
    } else if v < 2097152 {
        3
    } else {
        4
    }
}

/// How many bytes the length field at the start of `s` takes: the position of
/// its first byte without the continuation bit, plus one, if that byte is
/// among the first three of `s`; otherwise four, if `s` holds four bytes. The
/// field is read no further than its fourth byte.
pub open spec fn vlq_field_len(s: Seq<u8>) -> Option<nat> {
    if s.len() >= 1 && s[0] < 128 {
        Some(1)
    } else if s.len() >= 2 && s[1] < 128 {
        Some(2)
    } else if s.len() >= 3 && s[2] < 128 {
        Some(3)
    } else if s.len() >= 4 {
        Some(4)
    } else {
        None
    }
}

/// The first four bytes of `s` all have the continuation bit set: the length
/// field that starts there is not validly terminated.
pub open spec fn vlq_overlong(s: Seq<u8>) -> bool {
    s.len() >= 4 && s[0] >= 128 && s[1] >= 128 && s[2] >= 128 && s[3] >= 128
}

/// Decodes the length field at the start of `bytes` into its value and the
/// number of bytes it takes, reading at most four bytes: a fourth byte that
/// still carries the continuation bit ends the field all the same, and it is
/// for the caller to reject that field (see `vlq_overlong`). The field is
/// incomplete when `bytes` ends before it does.
pub fn decode_vlq(bytes: &[u8]) -> (r: Result<(u32, usize), DecodeError>)
    ensures
        match vlq_field_len(bytes@) {
            Some(k) => r is Ok && r->Ok_0.0 as nat == vlq_value(bytes@.take(k as int))
                && r->Ok_0.1 == k,
            None => r == Err::<(u32, usize), DecodeError>(DecodeError::IncompleteHeader),
        },
{
    let n = bytes.len();
    if n >= 1 && bytes[0] < 128 {
        proof {
            reveal_with_fuel(vlq_value, 5);
            let s = bytes@.take(1);
            assert(s.drop_first() =~= Seq::<u8>::empty());
        }
        return Ok((bytes[0] as u32, 1));
    }
    if n >= 2 && bytes[1] < 128 {
        proof {
            reveal_with_fuel(vlq_value, 5);
            let s = bytes@.take(2);
            assert(s.drop_first().drop_first() =~= Seq::<u8>::empty());
        }
        let v: u32 = (bytes[0] % 128) as u32 + 128 * (bytes[1] as u32);
        return Ok((v, 2));
    }
    if n >= 3 && bytes[2] < 128 {
        proof {
            reveal_with_fuel(vlq_value, 5);
            let s = bytes@.take(3);
            assert(s.drop_first().drop_first().drop_first() =~= Seq::<u8>::empty());
        }
        let v: u32 = (bytes[0] % 128) as u32 + 128 * ((bytes[1] % 128) as u32) + 16384 * (
        bytes[2] as u32);
        return Ok((v, 3));
    }
    if n >= 4 {
        proof {
            reveal_with_fuel(vlq_value, 5);
            let s = bytes@.take(4);
            assert(s.drop_first().drop_first().drop_first().drop_first() =~= Seq::<u8>::empty());
        }
        let v: u32 = (bytes[0] % 128) as u32 + 128 * ((bytes[1] % 128) as u32) + 16384 * ((
        bytes[2] % 128) as u32) + 2097152 * ((bytes[3] % 128) as u32);
        return Ok((v, 4));
    }
    Err(DecodeError::IncompleteHeader)
}

/// Encodes `value` as a remaining-length field.
pub fn encode_vlq(value: u32) -> (r: Vec<u8>)
    requires
        value <= MAX_REMAINING_LENGTH,
    ensures
        r@ == vlq_encoding(value as nat),
{
    let mut out: Vec<u8> = Vec::new();
    let mut v: u32 = value;
    loop
        invariant
            out@ + vlq_encoding(v as nat) == vlq_encoding(value as nat),
        decreases v,
    {
        if v < 128 {
            out.push(v as u8);
            assert(vlq_encoding(v as nat) == seq![v as u8]);
            return out;
        }
        let byte: u8 = (v % 128 + 128) as u8;
        out.push(byte);
        proof {
            let rest = vlq_encoding((v / 128) as nat);
            assert(vlq_encoding(v as nat) == seq![byte] + rest);
        }
        v = v / 128;
    }
}

/// A length field of at most four bytes states at most the largest remaining
/// length.
pub(crate) proof fn lemma_vlq_value_bound(s: Seq<u8>)
    requires
        s.len() <= 4,
    ensures
        vlq_value(s) <= MAX_REMAINING_LENGTH,
    decreases s.len(),
{
    if s.len() > 0 {
        let t = s.drop_first();
        lemma_vlq_value_bound(t);
        if t.len() > 0 {
            let u = t.drop_first();
            lemma_vlq_value_bound(u);
            if u.len() > 0 {
                let w = u.drop_first();
                lemma_vlq_value_bound(w);
                if w.len() > 0 {
                    assert(w.drop_first().len() == 0);
                    assert(vlq_value(w.drop_first()) == 0);
                }
            } else {
                assert(vlq_value(u) == 0);
            }
        } else {
            assert(vlq_value(t) == 0);
        }
    }
}

proof fn lemma_vlq_encoding(v: nat)
    requires
        v <= MAX_REMAINING_LENGTH,
    ensures
        vlq_encoding(v).len() == vlq_size(v),
        vlq_value(vlq_encoding(v)) == v,
        forall|i: int| 0 <= i < vlq_encoding(v).len() - 1 ==> vlq_encoding(v)[i] >= 128,
        vlq_encoding(v)[vlq_encoding(v).len() - 1] < 128,
    decreases v,
{
    let e = vlq_encoding(v);
    if v < 128 {
        assert(e.drop_first() =~= Seq::<u8>::empty());
        assert(vlq_value(Seq::<u8>::empty()) == 0);
    } else {
        let w = v / 128;
        lemma_vlq_encoding(w);
        let t = vlq_encoding(w);
        assert(e == seq![(v % 128 + 128) as u8] + t);
        assert(e.drop_first() =~= t);
        assert(e[0] as nat == v % 128 + 128);
        assert(e[0] % 128 == v % 128);
        assert(v == v % 128 + 128 * (v / 128)) by (nonlinear_arith);
        assert(vlq_value(e) == (e[0] % 128) as nat + 128 * vlq_value(t));
        assert(vlq_size(v) == 1 + vlq_size(w));
        assert forall|i: int| 0 <= i < e.len() - 1 implies e[i] >= 128 by {
            if i > 0 {
                assert(e[i] == t[i - 1]);
            }
        }
        assert(e[e.len() - 1] == t[t.len() - 1]);
    }
}

/// The length field that starts `vlq_encoding(v) + rest` is found to be the
/// encoding of `v`, whatever follows it.
pub(crate) proof fn lemma_vlq_prefix(v: nat, rest: Seq<u8>)
    requires
        v <= MAX_REMAINING_LENGTH,
    ensures
        vlq_field_len(vlq_encoding(v) + rest) == Some(vlq_size(v)),
        !vlq_overlong(vlq_encoding(v) + rest),
        (vlq_encoding(v) + rest).take(vlq_size(v) as int) == vlq_encoding(v),
        vlq_value(vlq_encoding(v)) == v,
{
    lemma_vlq_encoding(v);
    let e = vlq_encoding(v);
    let s = e + rest;
    assert(s.take(e.len() as int) =~= e);
    assert(forall|i: int| 0 <= i < e.len() ==> s[i] == e[i]);
}

/// Decoding the encoding of a value up to the largest remaining length gives
/// the value back, and the encoding takes one byte below 128, two below
/// 16384, three below 2097152 and four above.
pub proof fn lemma_vlq_round_trip(v: nat)
    requires
        v <= MAX_REMAINING_LENGTH,
    ensures
        vlq_field_len(vlq_encoding(v)) == Some(vlq_size(v)),
        vlq_encoding(v).len() == vlq_size(v),
        vlq_value(vlq_encoding(v).take(vlq_size(v) as int)) == v,
        vlq_size(v) == (if v < 128 {
            1nat
        } else if v < 16384 {
            2nat
        } else if v < 2097152 {
            3nat
        } else {
            4nat
        }),
{
    lemma_vlq_prefix(v, Seq::empty());
    lemma_vlq_encoding(v);
    assert(vlq_encoding(v) + Seq::<u8>::empty() =~= vlq_encoding(v));
}

} // verus!
