//! Big-endian byte strings read as natural numbers.

use vstd::arithmetic::power::*;
use vstd::prelude::*;

verus! {

/// The natural number that the big-endian bytes `s` encode.
pub open spec fn be_value(s: Seq<u8>) -> nat
    decreases s.len(),
{
    if s.len() == 0 {
        0
    } else {
        be_value(s.drop_last()) * 256 + s.last() as nat
    }
}

/// `s` is the shortest big-endian encoding of its value: one byte for zero,
/// otherwise no leading zero byte.
pub open spec fn is_minimal_be(s: Seq<u8>) -> bool {
    s.len() >= 1 && (s.len() == 1 || s[0] != 0)
}

/// Reading `a + b` gives `a` shifted over the bytes of `b`, plus `b`.
pub proof fn lemma_be_value_concat(a: Seq<u8>, b: Seq<u8>)
    ensures
        be_value(a + b) == be_value(a) * pow(256, b.len()) + be_value(b),
    decreases b.len(),
{
    if b.len() == 0 {
        assert(a + b =~= a);
        lemma_pow0(256);
    } else {
        lemma_be_value_concat(a, b.drop_last());
        assert((a + b).drop_last() =~= a + b.drop_last());
        assert((a + b).last() == b.last());
        reveal(pow);
        assert(pow(256, b.len()) == 256 * pow(256, (b.len() - 1) as nat));
        let p = pow(256, (b.len() - 1) as nat);
        let x = be_value(a) as int;
        assert((x * p + be_value(b.drop_last())) * 256 + b.last() == x * (256 * p) + (
        be_value(b.drop_last()) * 256 + b.last())) by (nonlinear_arith);
    }
}

/// A string of zero bytes encodes zero.
pub proof fn lemma_be_value_zeros(n: nat)
    ensures
        be_value(Seq::new(n, |i: int| 0u8)) == 0,
    decreases n,
{
    if n > 0 {
        lemma_be_value_zeros((n - 1) as nat);
        assert(Seq::new(n, |i: int| 0u8).drop_last() =~= Seq::new((n - 1) as nat, |i: int| 0u8));
    }
}

/// `s` encodes a number below `256 ^ s.len()`.
pub proof fn lemma_be_value_bound(s: Seq<u8>)
    ensures
        be_value(s) < pow(256, s.len()),
    decreases s.len(),
{
    reveal(pow);
    if s.len() > 0 {
        lemma_be_value_bound(s.drop_last());
        let p = pow(256, (s.len() - 1) as nat);
        let v = be_value(s.drop_last()) as int;
        assert(v * 256 + s.last() < 256 * p) by (nonlinear_arith)
            requires
                v < p,
                s.last() < 256,
        ;
    }
}

/// A minimal encoding of `k > 1` bytes encodes at least `256 ^ (k - 1)`.
pub proof fn lemma_minimal_be_lower_bound(s: Seq<u8>)
    requires
        is_minimal_be(s),
        s.len() > 1,
    ensures
        be_value(s) >= pow(256, (s.len() - 1) as nat),
{
    let head = s.subrange(0, 1);
    let tail = s.subrange(1, s.len() as int);
    assert(s =~= head + tail);
    lemma_be_value_concat(head, tail);
    assert(head.drop_last() =~= Seq::<u8>::empty());
    assert(be_value(head.drop_last()) == 0);
    assert(be_value(head) == s[0] as nat);
    lemma_pow_positive(256, tail.len());
    let p = pow(256, tail.len());
    assert(s[0] as int * p >= p) by (nonlinear_arith)
        requires
            s[0] >= 1,
            p > 0,
    ;
}

/// The `len`-byte big-endian encoding of `v` (higher bytes dropped).
pub open spec fn be_encode(v: nat, len: nat) -> Seq<u8>
    decreases len,
{
    if len == 0 {
        Seq::empty()
    } else {
        be_encode(v / 256, (len - 1) as nat).push((v % 256) as u8)
    }
}

/// A byte string is the encoding of its own value at its own length.
pub proof fn lemma_be_encode_of_value(s: Seq<u8>)
    ensures
        be_encode(be_value(s), s.len()) == s,
    decreases s.len(),
{
    if s.len() > 0 {
        let init = s.drop_last();
        lemma_be_encode_of_value(init);
        let v = be_value(s) as int;
        vstd::arithmetic::div_mod::lemma_fundamental_div_mod_converse(
            v,
            256,
            be_value(init) as int,
            s.last() as int,
        );
        assert(s =~= init.push(s.last()));
    }
}

/// The `len`-byte encoding of a number below `256 ^ len` has `len` bytes and
/// reads back as that number.
pub proof fn lemma_be_encode_value(v: nat, len: nat)
    requires
        v < pow(256, len),
    ensures
        be_encode(v, len).len() == len,
        be_value(be_encode(v, len)) == v,
    decreases len,
{
    reveal(pow);
    if len == 0 {
    } else {
        let m = (len - 1) as nat;
        let p = pow(256, m);
        let q = v / 256;
        let r = v % 256;
        vstd::arithmetic::div_mod::lemma_fundamental_div_mod(v as int, 256);
        assert(q < p) by (nonlinear_arith)
            requires
                v < 256 * p,
                v == 256 * q + r,
                0 <= r < 256,
        ;
        lemma_be_encode_value(q, m);
        let s = be_encode(v, len);
        assert(s.drop_last() =~= be_encode(q, m));
        assert(s.last() == r);
    }
}

/// A byte string encodes zero exactly when all its bytes are zero.
pub proof fn lemma_be_value_zero_iff(s: Seq<u8>)
    ensures
        (be_value(s) == 0) == (forall|k: int| 0 <= k < s.len() ==> s[k] == 0),
    decreases s.len(),
{
    if s.len() > 0 {
        let init = s.drop_last();
        lemma_be_value_zero_iff(init);
        if be_value(s) == 0 {
            assert forall|k: int| 0 <= k < s.len() implies s[k] == 0 by {
                if k < s.len() - 1 {
                    assert(init[k] == s[k]);
                }
            }
        } else {
            if forall|k: int| 0 <= k < s.len() ==> s[k] == 0 {
                assert(forall|k: int| 0 <= k < init.len() ==> init[k] == s[k]);
                assert(s.last() == 0);
            }
        }
    }
}

/// Whether the big-endian number `s` is above zero.
pub fn is_nonzero(s: &[u8]) -> (r: bool)
    ensures
        r == (be_value(s@) > 0),
{
    let mut k: usize = 0;
    while k < s.len()
        invariant
            k <= s@.len(),
            forall|m: int| 0 <= m < k ==> s@[m] == 0,
        decreases s@.len() - k,
    {
        if s[k] != 0 {
            proof {
                lemma_be_value_zero_iff(s@);
            }
            assert(s@[k as int] != 0);
            return true;
        }
        k += 1;
    }
    proof {
        lemma_be_value_zero_iff(s@);
    }
    false
}

} // verus!
