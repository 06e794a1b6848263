use crate::store::memory::iptrie::{bit_at, covers, prefix_v4, prefix_v6};
use crate::util::cidr::{host_mask_v4, host_mask_v6, is_prefix_v4, is_prefix_v6, octets_v4, octets_v6};
use vstd::prelude::*;

verus! {

/// An IPv4 prefix, given by its address and its length, contains another: it
/// is not longer, and the other's address begins with its bits.
pub open spec fn contains_v4(outer: (u32, u8), inner: (u32, u8)) -> bool {
    outer.1 <= inner.1 && inner.0 & !host_mask_v4(outer.1) == outer.0
}

/// An IPv6 prefix, given by its address and its length, contains another: it
/// is not longer, and the other's address begins with its bits.
pub open spec fn contains_v6(outer: (u128, u8), inner: (u128, u8)) -> bool {
    outer.1 <= inner.1 && inner.0 & !host_mask_v6(outer.1) == outer.0
}

/// Bit `i` of an IPv4 address, counted from the most significant.
pub open spec fn address_bit_v4(address: u32, i: int) -> bool {
    (address >> ((31 - i) as u32)) & 1 == 1
}

/// Bit `i` of an IPv6 address, counted from the most significant.
pub open spec fn address_bit_v6(address: u128, i: int) -> bool {
    (address >> ((127 - i) as u128)) & 1 == 1
}

/// The bits of the octets of an address are the bits of the address.
pub proof fn lemma_octet_bits_v4(address: u32, i: int)
    requires
        0 <= i < 32,
    ensures
        bit_at(octets_v4(address), i) == address_bit_v4(address, i),
{
    let k: u32 = (i / 8) as u32;
    let r: u32 = (i % 8) as u32;
    let octet: u8 = ((address >> ((24 - 8 * k) as u32)) & 0xff) as u8;
    assert(octets_v4(address)[i / 8] == octet);
    let s: u32 = (24 - 8 * k) as u32;
    let t: u8 = (7 - r) as u8;
    let u: u32 = (31 - i) as u32;
    assert(((((address >> s) & 0xff) as u8) >> t) & 1 == 1 <==> (address >> u) & 1 == 1)
        by (bit_vector)
        requires
            s == 24 - 8 * k,
            t as u32 == 7 - r,
            u == 31 - (8 * k + r),
            k < 4,
            r < 8,
    ;
}

/// The bits of the octets of an address are the bits of the address.
pub proof fn lemma_octet_bits_v6(address: u128, i: int)
    requires
        0 <= i < 128,
    ensures
        bit_at(octets_v6(address), i) == address_bit_v6(address, i),
{
    let k: u128 = (i / 8) as u128;
    let r: u128 = (i % 8) as u128;
    let octet: u8 = ((address >> ((120 - 8 * k) as u128)) & 0xff) as u8;
    assert(octets_v6(address)[i / 8] == octet);
    let s: u128 = (120 - 8 * k) as u128;
    let t: u8 = (7 - r) as u8;
    let u: u128 = (127 - i) as u128;
    assert(((((address >> s) & 0xff) as u8) >> t) & 1 == 1 <==> (address >> u) & 1 == 1)
        by (bit_vector)
        requires
            s == 120 - 8 * k,
            t as u128 == 7 - r,
            u == 127 - (8 * k + r),
            k < 16,
            r < 8,
    ;
}

/// Two IPv4 addresses agree in their first `len` bits exactly if they are the
/// same under the mask of a network of that length.
pub proof fn lemma_first_bits_v4(x: u32, y: u32, len: u8)
    requires
        len <= 32,
    ensures
        (x & !host_mask_v4(len) == y & !host_mask_v4(len)) <==> (forall|i: int|
            0 <= i < len ==> address_bit_v4(x, i) == address_bit_v4(y, i)),
    decreases len,
{
    let mask = !host_mask_v4(len);
    if x & mask == y & mask {
        assert forall|i: int| 0 <= i < len implies address_bit_v4(x, i) == address_bit_v4(
            y,
            i,
        ) by {
            let u: u32 = (31 - i) as u32;
            let l: u32 = len as u32;
            if len == 32 {
                assert(!0u32 == 0xffff_ffffu32) by (bit_vector);
                assert(x & 0xffff_ffffu32 == x) by (bit_vector);
                assert(y & 0xffff_ffffu32 == y) by (bit_vector);
            } else {
                assert((x >> u) & 1 == (y >> u) & 1) by (bit_vector)
                    requires
                        x & !(0xffff_ffffu32 >> l) == y & !(0xffff_ffffu32 >> l),
                        l < 32,
                        u >= 32 - l,
                        u <= 31,
                ;
            }
        }
    }
    if len == 0 {
        assert(x & !0xffff_ffffu32 == y & !0xffff_ffffu32) by (bit_vector);
        assert(0xffff_ffffu32 >> 0u32 == 0xffff_ffffu32) by (bit_vector);
    } else {
        let shorter: u8 = (len - 1) as u8;
        lemma_first_bits_v4(x, y, shorter);
        if forall|i: int| 0 <= i < len ==> address_bit_v4(x, i) == address_bit_v4(y, i) {
            assert(address_bit_v4(x, len - 1) == address_bit_v4(y, len - 1));
            let u: u32 = (32 - len) as u32;
            let l: u32 = shorter as u32;
            assert(x & !host_mask_v4(shorter) == y & !host_mask_v4(shorter));
            if len == 32 {
                assert(x == y) by (bit_vector)
                    requires
                        x & !(0xffff_ffffu32 >> 31u32) == y & !(0xffff_ffffu32 >> 31u32),
                        ((x >> 0u32) & 1 == 1) == ((y >> 0u32) & 1 == 1),
                ;
            } else {
                assert(x & !(0xffff_ffffu32 >> (l + 1) as u32) == y & !(0xffff_ffffu32 >> (l
                    + 1) as u32)) by (bit_vector)
                    requires
                        x & !(0xffff_ffffu32 >> l) == y & !(0xffff_ffffu32 >> l),
                        ((x >> u) & 1 == 1) == ((y >> u) & 1 == 1),
                        u == 31 - l,
                        l < 31,
                ;
            }
        }
    }
}

/// Two IPv6 addresses agree in their first `len` bits exactly if they are the
/// same under the mask of a network of that length.
pub proof fn lemma_first_bits_v6(x: u128, y: u128, len: u8)
    requires
        len <= 128,
    ensures
        (x & !host_mask_v6(len) == y & !host_mask_v6(len)) <==> (forall|i: int|
            0 <= i < len ==> address_bit_v6(x, i) == address_bit_v6(y, i)),
    decreases len,
{
    let mask = !host_mask_v6(len);
    if x & mask == y & mask {
        assert forall|i: int| 0 <= i < len implies address_bit_v6(x, i) == address_bit_v6(
            y,
            i,
        ) by {
            let u: u128 = (127 - i) as u128;
            let l: u128 = len as u128;
            if len == 128 {
                assert(!0u128 == 0xffff_ffff_ffff_ffff_ffff_ffff_ffff_ffffu128) by (bit_vector);
                assert(x & 0xffff_ffff_ffff_ffff_ffff_ffff_ffff_ffffu128 == x) by (bit_vector);
                assert(y & 0xffff_ffff_ffff_ffff_ffff_ffff_ffff_ffffu128 == y) by (bit_vector);
            } else {
                assert((x >> u) & 1 == (y >> u) & 1) by (bit_vector)
                    requires
                        x & !(0xffff_ffff_ffff_ffff_ffff_ffff_ffff_ffffu128 >> l) == y & !(
                        0xffff_ffff_ffff_ffff_ffff_ffff_ffff_ffffu128 >> l),
                        l < 128,
                        u >= 128 - l,
                        u <= 127,
                ;
            }
        }
    }
    if len == 0 {
        assert(x & !0xffff_ffff_ffff_ffff_ffff_ffff_ffff_ffffu128 == y
            & !0xffff_ffff_ffff_ffff_ffff_ffff_ffff_ffffu128) by (bit_vector);
        assert(0xffff_ffff_ffff_ffff_ffff_ffff_ffff_ffffu128 >> 0u128
            == 0xffff_ffff_ffff_ffff_ffff_ffff_ffff_ffffu128) by (bit_vector);
    } else {
        let shorter: u8 = (len - 1) as u8;
        lemma_first_bits_v6(x, y, shorter);
        if forall|i: int| 0 <= i < len ==> address_bit_v6(x, i) == address_bit_v6(y, i) {
            assert(address_bit_v6(x, len - 1) == address_bit_v6(y, len - 1));
            let u: u128 = (128 - len) as u128;
            let l: u128 = shorter as u128;
            assert(x & !host_mask_v6(shorter) == y & !host_mask_v6(shorter));
            if len == 128 {
                assert(x == y) by (bit_vector)
                    requires
                        x & !(0xffff_ffff_ffff_ffff_ffff_ffff_ffff_ffffu128 >> 127u128) == y & !(
                        0xffff_ffff_ffff_ffff_ffff_ffff_ffff_ffffu128 >> 127u128),
                        ((x >> 0u128) & 1 == 1) == ((y >> 0u128) & 1 == 1),
                ;
            } else {
                assert(x & !(0xffff_ffff_ffff_ffff_ffff_ffff_ffff_ffffu128 >> (l + 1) as u128)
                    == y & !(0xffff_ffff_ffff_ffff_ffff_ffff_ffff_ffffu128 >> (l + 1) as u128))
                    by (bit_vector)
                    requires
                        x & !(0xffff_ffff_ffff_ffff_ffff_ffff_ffff_ffffu128 >> l) == y & !(
                        0xffff_ffff_ffff_ffff_ffff_ffff_ffff_ffffu128 >> l),
                        ((x >> u) & 1 == 1) == ((y >> u) & 1 == 1),
                        u == 127 - l,
                        l < 127,
                ;
            }
        }
    }
}

/// The path of an IPv4 prefix covers the path of another exactly if the
/// prefix contains the other. So a trie keeps two prefixes apart unless they
/// are the same, and what it finds along the path of a prefix are the objects
/// at the prefixes that contain it.
pub proof fn lemma_covers_is_contains_v4(outer: (u32, u8), inner: (u32, u8))
    requires
        is_prefix_v4(outer.0, outer.1),
        is_prefix_v4(inner.0, inner.1),
    ensures
        covers(prefix_v4(outer), prefix_v4(inner)) <==> contains_v4(outer, inner),
        prefix_v4(outer) == prefix_v4(inner) <==> outer == inner,
{
    let a = prefix_v4(outer);
    let b = prefix_v4(inner);
    let len = outer.1;
    let x: u32 = outer.0;
    let y: u32 = inner.0;
    let outer_mask: u32 = host_mask_v4(len);
    let inner_mask: u32 = host_mask_v4(inner.1);
    assert(x & !outer_mask == x) by (bit_vector)
        requires
            x & outer_mask == 0,
    ;
    assert(y & !inner_mask == y) by (bit_vector)
        requires
            y & inner_mask == 0,
    ;
    if len <= inner.1 {
        lemma_first_bits_v4(inner.0, outer.0, len);
        assert forall|i: int| 0 <= i < len implies (b.take(len as int)[i] == a[i]) == (
        address_bit_v4(inner.0, i) == address_bit_v4(outer.0, i)) by {
            lemma_octet_bits_v4(inner.0, i);
            lemma_octet_bits_v4(outer.0, i);
        }
        if contains_v4(outer, inner) {
            assert(b.take(len as int) =~= a);
        }
        if b.take(len as int) == a {
            assert forall|i: int| 0 <= i < len implies address_bit_v4(inner.0, i)
                == address_bit_v4(outer.0, i) by {
                assert(b.take(len as int)[i] == a[i]);
            }
        }
    }
    if a == b {
        assert(b.take(len as int) =~= a);
        assert(a.len() == b.len());
    }
}

/// The path of an IPv6 prefix covers the path of another exactly if the
/// prefix contains the other. So a trie keeps two prefixes apart unless they
/// are the same, and what it finds along the path of a prefix are the objects
/// at the prefixes that contain it.
pub proof fn lemma_covers_is_contains_v6(outer: (u128, u8), inner: (u128, u8))
    requires
        is_prefix_v6(outer.0, outer.1),
        is_prefix_v6(inner.0, inner.1),
    ensures
        covers(prefix_v6(outer), prefix_v6(inner)) <==> contains_v6(outer, inner),
        prefix_v6(outer) == prefix_v6(inner) <==> outer == inner,
{
    let a = prefix_v6(outer);
    let b = prefix_v6(inner);
    let len = outer.1;
    let x: u128 = outer.0;
    let y: u128 = inner.0;
    let outer_mask: u128 = host_mask_v6(len);
    let inner_mask: u128 = host_mask_v6(inner.1);
    assert(x & !outer_mask == x) by (bit_vector)
        requires
            x & outer_mask == 0,
    ;
    assert(y & !inner_mask == y) by (bit_vector)
        requires
            y & inner_mask == 0,
    ;
    if len <= inner.1 {
        lemma_first_bits_v6(inner.0, outer.0, len);
        assert forall|i: int| 0 <= i < len implies (b.take(len as int)[i] == a[i]) == (
        address_bit_v6(inner.0, i) == address_bit_v6(outer.0, i)) by {
            lemma_octet_bits_v6(inner.0, i);
            lemma_octet_bits_v6(outer.0, i);
        }
        if contains_v6(outer, inner) {
            assert(b.take(len as int) =~= a);
        }
        if b.take(len as int) == a {
            assert forall|i: int| 0 <= i < len implies address_bit_v6(inner.0, i)
                == address_bit_v6(outer.0, i) by {
                assert(b.take(len as int)[i] == a[i]);
            }
        }
    }
    if a == b {
        assert(b.take(len as int) =~= a);
        assert(a.len() == b.len());
    }
}

} // verus!
