//! Finding a function by an address whose lowest bit may not be its own.
//!
//! Where an instruction set has two ways of decoding instructions, the
//! lowest bit of a function's address says which of them the function is
//! written in, and is no part of where the function lies. A symbol or a
//! stack-size record may carry the bit or not, whatever the function's own
//! entry does. So a function is looked for under the address with the bit
//! set, and then under the address with the bit clear.

use vstd::prelude::*;
use std::collections::BTreeMap;
use crate::catalog::Function;

verus! {

/// `address` with its lowest bit set.
pub open spec fn low_bit_set(address: u64) -> u64 {
    address | 1
}

/// `address` with its lowest bit clear.
pub open spec fn low_bit_clear(address: u64) -> u64 {
    address & !1u64
}

/// The address among `known` that `address` stands for: `address` with its
/// lowest bit set where that is known, else with the bit clear where that
/// is known, else none.
pub open spec fn resolve(known: Set<u64>, address: u64) -> Option<u64> {
    if known.contains(low_bit_set(address)) {
        Some(low_bit_set(address))
    } else if known.contains(low_bit_clear(address)) {
        Some(low_bit_clear(address))
    } else {
        None
    }
}

/// The two variants of an address differ in the lowest bit alone, and
/// setting or clearing that bit of either gives the same two again.
pub proof fn lemma_low_bit(address: u64)
    ensures
        address == low_bit_set(address) || address == low_bit_clear(address),
        low_bit_clear(address) + 1 == low_bit_set(address),
        low_bit_clear(address) % 2 == 0,
        low_bit_set(low_bit_set(address)) == low_bit_set(address),
        low_bit_set(low_bit_clear(address)) == low_bit_set(address),
        low_bit_clear(low_bit_set(address)) == low_bit_clear(address),
        low_bit_clear(low_bit_clear(address)) == low_bit_clear(address),
{
    assert(address == address | 1 || address == address & !1u64) by (bit_vector);
    assert((address & !1u64) + 1 == address | 1) by (bit_vector);
    assert((address & !1u64) % 2 == 0) by (bit_vector);
    assert((address | 1) | 1 == address | 1) by (bit_vector);
    assert((address & !1u64) | 1 == address | 1) by (bit_vector);
    assert((address | 1) & !1u64 == address & !1u64) by (bit_vector);
    assert((address & !1u64) & !1u64 == address & !1u64) by (bit_vector);
}

/// An address stands for a known address that stands for itself, and the
/// same one as either of its variants.
pub proof fn lemma_resolve(known: Set<u64>, address: u64)
    ensures
        resolve(known, low_bit_set(address)) == resolve(known, address),
        resolve(known, low_bit_clear(address)) == resolve(known, address),
        resolve(known, address) matches Some(found) ==> {
            &&& known.contains(found)
            &&& (found == low_bit_set(address) || found == low_bit_clear(address))
            &&& resolve(known, found) == Some(found)
        },
{
    lemma_low_bit(address);
}

/// Looks `address` up among the functions, with the lowest bit set and then
/// clear, and returns the address under which a function was found.
pub fn find_function<'a>(defined: &BTreeMap<u64, Function<'a>>, address: u64) -> (found: Option<u64>)
    ensures
        found == resolve(defined@.dom(), address),
{
    let odd = address | 1;
    let even = address & !1u64;
    if defined.contains_key(&odd) {
        Some(odd)
    } else if defined.contains_key(&even) {
        Some(even)
    } else {
        None
    }
}

} // verus!
