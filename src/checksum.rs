//! The additive checksum: the sum of the byte values, modulo 2^32.
use vstd::prelude::*;

verus! {

/// The sum of the unsigned values of the bytes of `s`.
pub open spec fn byte_sum(s: Seq<u8>) -> nat
    decreases s.len(),
{
    if s.len() == 0 {
        0
    } else {
        byte_sum(s.drop_last()) + s.last() as nat
    }
}

/// The checksum of a payload: its byte sum, wrapped to 32 bits.
pub open spec fn checksum_of(s: Seq<u8>) -> u32 {
    (byte_sum(s) % 0x1_0000_0000) as u32
}

/// Taking one byte out of a sequence takes its value out of the sum.
pub proof fn lemma_byte_sum_remove(s: Seq<u8>, i: int)
    requires
        0 <= i < s.len(),
    ensures
        byte_sum(s.remove(i)) + s[i] as nat == byte_sum(s),
    decreases s.len(),
{
    if i == s.len() - 1 {
        assert(s.remove(i) =~= s.drop_last());
    } else {
        let t = s.remove(i);
        assert(t.drop_last() =~= s.drop_last().remove(i));
        assert(t.last() == s.last());
        lemma_byte_sum_remove(s.drop_last(), i);
    }
}

/// Two sequences holding the same bytes, in any order, have the same sum.
pub proof fn lemma_byte_sum_multiset(s1: Seq<u8>, s2: Seq<u8>)
    requires
        s1.to_multiset() == s2.to_multiset(),
    ensures
        byte_sum(s1) == byte_sum(s2),
    decreases s1.len(),
{
    broadcast use vstd::seq_lib::group_to_multiset_ensures;
    broadcast use vstd::multiset::group_multiset_axioms;

    if s1.len() == 0 {
        assert(s2.to_multiset().len() == 0);
    } else {
        let x = s1.last();
        let rest = s1.drop_last();
        assert(s1 =~= rest.push(x));
        assert(s1.to_multiset() == rest.to_multiset().insert(x));
        assert(s2.to_multiset().count(x) > 0);
        assert(s2.contains(x));
        let j = choose|j: int| 0 <= j < s2.len() && s2[j] == x;
        assert(s2.remove(j).to_multiset() =~= rest.to_multiset());
        lemma_byte_sum_multiset(rest, s2.remove(j));
        lemma_byte_sum_remove(s2, j);
    }
}

/// The checksum of no bytes is zero, and the checksum depends only on which
/// byte values occur and how often, not on their order.
pub proof fn lemma_checksum_order_independent(s1: Seq<u8>, s2: Seq<u8>)
    requires
        s1.to_multiset() == s2.to_multiset(),
    ensures
        checksum_of(Seq::<u8>::empty()) == 0,
        checksum_of(s1) == checksum_of(s2),
{
    lemma_byte_sum_multiset(s1, s2);
}

} // verus!
