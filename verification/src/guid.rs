//! Deterministic note identity: the GUID derived from the ordered field
//! values, and the duplicate-detection checksum of the first field value.
//! Both are pure functions of note content — no clock, no randomness, no
//! platform dependence. The GUID is a 64-bit hash of the joined field
//! values, written in the base-91 alphabet the importing application's
//! schema expects; the checksum is the first eight hex digits of a SHA-1
//! digest, read as an integer.

use vstd::prelude::*;
use vstd::slice::slice_to_vec;
use vstd::string::StrSliceExecFns;
use vstd::string::StringExecFns;
use vstd::utf8::encode_utf8;

use crate::digest::{sha1_digest, sha1_of, sha256_digest, sha256_of};

verus! {

/// The bytes the GUID hash runs over: the UTF-8 encodings of the field
/// values, joined by the unit separator byte 31, which cannot occur inside
/// a field value's text in the schema.
pub open spec fn joined_field_bytes(fields: Seq<Seq<char>>) -> Seq<u8>
    decreases fields.len(),
{
    if fields.len() == 0 {
        Seq::empty()
    } else if fields.len() == 1 {
        encode_utf8(fields[0])
    } else {
        joined_field_bytes(fields.drop_last()) + seq![31u8] + encode_utf8(fields.last())
    }
}

/// The number a byte sequence denotes in big-endian order.
pub open spec fn be_bytes_val(s: Seq<u8>) -> nat
    decreases s.len(),
{
    if s.len() == 0 {
        0
    } else {
        be_bytes_val(s.drop_last()) * 256 + (s.last() as nat)
    }
}

/// 256 to the power `k`.
pub open spec fn pow256(k: nat) -> nat
    decreases k,
{
    if k == 0 {
        1
    } else {
        256 * pow256((k - 1) as nat)
    }
}

/// The base-91 alphabet of the importing application's GUID column.
pub open spec fn base91_alphabet() -> Seq<char> {
    "abcdefghijklmnopqrstuvwxyzABCDEFGHIJKLMNOPQRSTUVWXYZ0123456789!#$%&()*+,-./:;<=>?@[]^_`{|}~"@
}

/// `n` written in base 91 over `base91_alphabet`, most significant digit
/// first; zero is written as the empty sequence.
pub open spec fn base91_digits(n: nat) -> Seq<char>
    decreases n,
{
    if n == 0 {
        Seq::empty()
    } else {
        base91_digits(n / 91) + seq![base91_alphabet()[(n % 91) as int]]
    }
}

/// The GUID of a note with the given field values: the big-endian value of
/// the first eight bytes of the SHA-256 of the joined field values, written
/// in base 91.
pub open spec fn guid_spec(fields: Seq<Seq<char>>) -> Seq<char> {
    base91_digits(be_bytes_val(sha256_of(joined_field_bytes(fields)).subrange(0, 8)))
}

/// The duplicate-detection checksum of a note: the big-endian value of the
/// first four bytes (the first eight hex digits) of the SHA-1 of the first
/// field value's UTF-8 text.
pub open spec fn checksum_spec(first_field: Seq<char>) -> nat {
    be_bytes_val(sha1_of(encode_utf8(first_field)).subrange(0, 4))
}

/// GUID determinism: the GUID is a pure function of the ordered field
/// values, so identical field-value sequences always derive identical GUIDs.
pub proof fn lemma_guid_deterministic(a: Seq<Seq<char>>, b: Seq<Seq<char>>)
    requires
        a == b,
    ensures
        guid_spec(a) == guid_spec(b),
{
}

/// A big-endian value is below 256 to the power of its length.
proof fn lemma_be_bytes_val_bound(s: Seq<u8>)
    ensures
        be_bytes_val(s) < pow256(s.len()),
    decreases s.len(),
{
    if s.len() > 0 {
        lemma_be_bytes_val_bound(s.drop_last());
    }
}

proof fn lemma_pow256_pos(k: nat)
    ensures
        pow256(k) >= 1,
    decreases k,
{
    if k > 0 {
        lemma_pow256_pos((k - 1) as nat);
    }
}

proof fn lemma_pow256_mono(a: nat, b: nat)
    requires
        a <= b,
    ensures
        pow256(a) <= pow256(b),
    decreases b,
{
    if a < b {
        lemma_pow256_mono(a, (b - 1) as nat);
        lemma_pow256_pos((b - 1) as nat);
    }
}

/// The UTF-8 encodings of the field values, joined by the separator byte.
fn joined_bytes_exec(fields: &Vec<String>) -> (r: Vec<u8>)
    ensures
        r@ == joined_field_bytes(fields.deep_view()),
{
    let ghost dv = fields.deep_view();
    let mut r: Vec<u8> = Vec::new();
    let mut f: usize = 0;
    proof {
        assert(dv.subrange(0, 0) =~= Seq::<Seq<char>>::empty());
    }
    while f < fields.len()
        invariant
            f <= fields@.len(),
            dv == fields.deep_view(),
            dv.len() == fields@.len(),
            r@ == joined_field_bytes(dv.subrange(0, f as int)),
        decreases fields@.len() - f,
    {
        let ghost pre = r@;
        if f > 0 {
            r.push(31u8);
        }
        let bs = fields[f].as_str().as_bytes();
        proof {
            assert(bs@ == encode_utf8(dv[f as int]));
        }
        let mut b: usize = 0;
        let ghost mid = r@;
        while b < bs.len()
            invariant
                b <= bs@.len(),
                r@ == mid + bs@.subrange(0, b as int),
            decreases bs@.len() - b,
        {
            r.push(bs[b]);
            b = b + 1;
            proof {
                assert(r@ =~= mid + bs@.subrange(0, b as int));
            }
        }
        f = f + 1;
        proof {
            let now = dv.subrange(0, f as int);
            assert(now.drop_last() =~= dv.subrange(0, f - 1));
            assert(now.last() == dv[f - 1]);
            assert(bs@.subrange(0, bs@.len() as int) =~= bs@);
            if f == 1 {
                assert(pre.len() == 0);
                assert(r@ =~= encode_utf8(dv[0]));
                assert(joined_field_bytes(now) == encode_utf8(now[0]));
            } else {
                assert(now.len() >= 2);
                assert(joined_field_bytes(now) == joined_field_bytes(now.drop_last()) + seq![31u8]
                    + encode_utf8(now.last()));
                assert(r@ =~= pre + seq![31u8] + encode_utf8(dv[f - 1]));
            }
        }
    }
    proof {
        assert(dv.subrange(0, dv.len() as int) =~= dv);
    }
    r
}

/// The big-endian value of the first `count` bytes of `bytes`.
fn be_prefix_val(bytes: &Vec<u8>, count: usize) -> (r: u64)
    requires
        count <= 8,
        count <= bytes@.len(),
    ensures
        r as nat == be_bytes_val(bytes@.subrange(0, count as int)),
{
    let mut val: u64 = 0;
    let mut a: usize = 0;
    proof {
        assert(bytes@.subrange(0, 0) =~= Seq::<u8>::empty());
    }
    while a < count
        invariant
            a <= count,
            count <= 8,
            count <= bytes@.len(),
            val as nat == be_bytes_val(bytes@.subrange(0, a as int)),
            (val as nat) < pow256(a as nat),
        decreases count - a,
    {
        proof {
            lemma_pow256_mono(a as nat, 7);
            assert(pow256(7) == 0x100_0000_0000_0000) by {
                reveal_with_fuel(pow256, 8);
            }
            assert(pow256(8) == 0x1_0000_0000_0000_0000) by {
                reveal_with_fuel(pow256, 9);
            }
            assert(pow256((a + 1) as nat) == 256 * pow256(a as nat));
            let sub_old = bytes@.subrange(0, a as int);
            let sub_new = bytes@.subrange(0, a as int + 1);
            assert(sub_new.drop_last() =~= sub_old);
            assert(sub_new.last() == bytes@[a as int]);
            lemma_pow256_mono((a + 1) as nat, 8);
        }
        val = val * 256 + (bytes[a] as u64);
        a = a + 1;
    }
    val
}

/// `n` written in base 91, most significant digit first; empty for zero.
fn base91_encode(n: u64) -> (r: String)
    ensures
        r@ == base91_digits(n as nat),
    decreases n,
{
    if n == 0 {
        String::new()
    } else {
        let rest = n / 91;
        let idx = (n % 91) as usize;
        proof {
            assert(rest < n) by (nonlinear_arith)
                requires
                    n >= 1,
                    rest == n / 91,
            ;
        }
        let mut s = base91_encode(rest);
        let alphabet =
            "abcdefghijklmnopqrstuvwxyzABCDEFGHIJKLMNOPQRSTUVWXYZ0123456789!#$%&()*+,-./:;<=>?@[]^_`{|}~";
        proof {
            reveal_strlit(
                "abcdefghijklmnopqrstuvwxyzABCDEFGHIJKLMNOPQRSTUVWXYZ0123456789!#$%&()*+,-./:;<=>?@[]^_`{|}~",
            );
            assert(alphabet@.len() == 91);
        }
        let digit = alphabet.substring_char(idx, idx + 1);
        s.append(digit);
        proof {
            assert(digit@ =~= seq![base91_alphabet()[idx as int]]);
            assert(s@ == base91_digits(n as nat));
        }
        s
    }
}

/// The GUID derived from the ordered field values: deterministic across
/// runs and platforms, so the importing application can detect the same
/// note across re-imports.
pub fn guid_for(field_values: &Vec<String>) -> (g: String)
    ensures
        g@ == guid_spec(field_values.deep_view()),
{
    let bytes = joined_bytes_exec(field_values);
    let digest = sha256_digest(&bytes);
    let hash_int = be_prefix_val(&digest, 8);
    base91_encode(hash_int)
}

/// The duplicate-detection checksum of the first field value, as stored in
/// the `notes` row.
pub fn field_checksum(text: &str) -> (c: u64)
    ensures
        c as nat == checksum_spec(text@),
        c < 0x1_0000_0000,
{
    let bytes = slice_to_vec(text.as_bytes());
    let digest = sha1_digest(&bytes);
    let c = be_prefix_val(&digest, 4);
    proof {
        let pre = digest@.subrange(0, 4);
        lemma_be_bytes_val_bound(pre);
        assert(pow256(4) == 0x1_0000_0000) by {
            reveal_with_fuel(pow256, 5);
        }
    }
    c
}

} // verus!
