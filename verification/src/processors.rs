//! Built-in routines for `process` keys, operating on byte slices.

use vstd::prelude::*;

use crate::bytesops::rotl_byte;
use crate::bytesops::rotl_spec;
use crate::bytesops::xor_many_spec;
use crate::bytesops::xor_one_spec;

verus! {

/// XOR every byte of the input with a single key byte.
pub fn process_xor_one(value: &[u8], key: u8) -> (r: Vec<u8>)
    ensures
        r@ == xor_one_spec(value@, key),
{
    let mut r: Vec<u8> = Vec::new();
    let mut i: usize = 0;
    while i < value.len()
        invariant
            i <= value@.len(),
            r@.len() == i,
            forall|j: int| 0 <= j < i ==> r@[j] == value@[j] ^ key,
        decreases value@.len() - i,
    {
        r.push(value[i] ^ key);
        i = i + 1;
    }
    proof {
        assert(r@ =~= xor_one_spec(value@, key));
    }
    r
}

/// XOR every byte of the input with the key byte at its index, repeating the
/// key when the input is longer than the key.
pub fn process_xor_many(value: &[u8], key: &[u8]) -> (r: Vec<u8>)
    requires
        key@.len() > 0,
    ensures
        r@ == xor_many_spec(value@, key@),
{
    let mut r: Vec<u8> = Vec::new();
    let mut ki: usize = 0;
    let mut i: usize = 0;
    while i < value.len()
        invariant
            i <= value@.len(),
            key@.len() > 0,
            ki < key@.len(),
            ki == i as int % (key@.len() as int),
            r@.len() == i,
            forall|j: int| 0 <= j < i ==> r@[j] == value@[j] ^ key@[j % (key@.len() as int)],
        decreases value@.len() - i,
    {
        r.push(value[i] ^ key[ki]);
        proof {
            let len = key@.len() as int;
            vstd::arithmetic::div_mod::lemma_fundamental_div_mod(i as int, len);
            let q = i as int / len;
            assert(len * q == q * len && (q + 1) * len == q * len + len) by (nonlinear_arith);
            if ki + 1 < len {
                vstd::arithmetic::div_mod::lemma_fundamental_div_mod_converse(
                    i + 1,
                    len,
                    q,
                    ki + 1,
                );
            } else {
                vstd::arithmetic::div_mod::lemma_fundamental_div_mod_converse(
                    i + 1,
                    len,
                    q + 1,
                    0,
                );
            }
        }
        ki = ki + 1;
        if ki >= key.len() {
            ki = 0;
        }
        i = i + 1;
    }
    proof {
        assert(r@ =~= xor_many_spec(value@, key@));
    }
    r
}

/// Rotate each byte's bits left by the given amount; a negative amount means
/// a right rotation by its magnitude. Only a group size of one byte is
/// supported.
pub fn process_rotate_left(data: &[u8], amount: i32, group_size: i32) -> (r: Vec<u8>)
    requires
        -7 <= amount <= 7,
        group_size == 1,
    ensures
        r@ == rotl_spec(data@, (if amount < 0 { amount + 8 } else { amount as int }) as u8),
{
    let rot_amount: u8 = if amount < 0 {
        (amount + 8) as u8
    } else {
        amount as u8
    };
    let mut r: Vec<u8> = Vec::new();
    let mut i: usize = 0;
    while i < data.len()
        invariant
            i <= data@.len(),
            rot_amount < 8,
            rot_amount == (if amount < 0 { amount + 8 } else { amount as int }),
            r@.len() == i,
            forall|j: int| 0 <= j < i ==> r@[j] == rotl_byte(data@[j], rot_amount),
        decreases data@.len() - i,
    {
        let b = data[i];
        let rotated: u8 = if rot_amount == 0 {
            b
        } else {
            (b << rot_amount) | (b >> (8 - rot_amount))
        };
        r.push(rotated);
        i = i + 1;
    }
    proof {
        assert(r@ =~= rotl_spec(data@, rot_amount));
    }
    r
}

} // verus!
