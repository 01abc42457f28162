//! Bringing stack-size records and functions together.
//!
//! A record belongs to the function that its address stands for, with the
//! lowest bit set or clear. A record that stands for no function is passed
//! over. A function keeps the first stack size that a record gives it.

use vstd::prelude::*;
use std::collections::BTreeMap;
use crate::catalog::{catalog_view, Function, FunctionView};
use crate::lookup::{find_function, resolve};

verus! {

/// The stack size of the first record whose address stands for `address`
/// among the `known` addresses.
pub open spec fn first_match(known: Set<u64>, records: Seq<(u64, u64)>, address: u64) -> Option<
    u64,
>
    decreases records.len(),
{
    if records.len() == 0 {
        None
    } else {
        match first_match(known, records.drop_last(), address) {
            Some(stack) => Some(stack),
            None => if resolve(known, records.last().0) == Some(address) {
                Some(records.last().1)
            } else {
                None
            },
        }
    }
}

/// The function at `address` once the records were read: with the stack
/// size that it had, or else that of the first record that stands for it.
pub open spec fn with_stack(
    function: FunctionView,
    known: Set<u64>,
    records: Seq<(u64, u64)>,
    address: u64,
) -> FunctionView {
    FunctionView {
        stack: match function.stack {
            Some(stack) => Some(stack),
            None => first_match(known, records, address),
        },
        ..function
    }
}

/// The functions once the records were read.
pub open spec fn correlated(defined: Map<u64, FunctionView>, records: Seq<(u64, u64)>) -> Map<
    u64,
    FunctionView,
> {
    Map::new(
        |address: u64| defined.contains_key(address),
        |address: u64| with_stack(defined[address], defined.dom(), records, address),
    )
}

/// Gives each record's stack size to the function that the record's
/// address stands for, unless the function has one.
pub fn correlate<'a>(defined: &mut BTreeMap<u64, Function<'a>>, records: &[(u64, u64)])
    ensures
        catalog_view(final(defined)@) == correlated(catalog_view(old(defined)@), records@),
{
    let ghost before = defined@;
    let ghost known = defined@.dom();
    let mut i: usize = 0;
    proof {
        assert(records@.take(0) =~= Seq::<(u64, u64)>::empty());
    }
    while i < records.len()
        invariant
            i <= records.len(),
            before == old(defined)@,
            known == before.dom(),
            defined@.dom() == known,
            forall|address: u64| #[trigger]
                defined@.contains_key(address) ==> defined@[address]@ == with_stack(
                    before[address]@,
                    known,
                    records@.take(i as int),
                    address,
                ),
        decreases records.len() - i,
    {
        let (address, stack) = records[i];
        let ghost current = defined@;
        proof {
            assert(records@.take(i + 1).drop_last() =~= records@.take(i as int));
        }
        if let Some(target) = find_function(defined, address) {
            let unset = match defined.get(&target) {
                Some(function) => function.stack().is_none(),
                None => false,
            };
            if unset {
                let taken = defined.remove(&target);
                let mut function = taken.unwrap();
                function.set_stack(stack);
                defined.insert(target, function);
                proof {
                    assert(defined@.dom() =~= known);
                    assert forall|other: u64| #[trigger]
                        defined@.contains_key(other) implies defined@[other]@ == with_stack(
                        before[other]@,
                        known,
                        records@.take(i + 1),
                        other,
                    ) by {
                        if other != target {
                            assert(defined@[other] == current[other]);
                        }
                    }
                }
            }
        }
        i += 1;
    }
    proof {
        assert(records@.take(records.len() as int) =~= records@);
        assert(catalog_view(before).dom() =~= known);
        assert forall|address: u64| #[trigger]
            catalog_view(defined@).contains_key(address) implies catalog_view(defined@)[address]
            == correlated(catalog_view(before), records@)[address] by {
            assert(defined@.contains_key(address));
        }
        assert(catalog_view(defined@) =~= correlated(catalog_view(before), records@));
    }
}

} // verus!
