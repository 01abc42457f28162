//! The stack-size section: one record after the other, each the address of
//! a function and the bytes of stack that the function needs.
//!
//! A record is an address of four or eight bytes, least significant byte
//! first, and a stack size in unsigned LEB128. Nothing stands before,
//! between or after the records.

use vstd::prelude::*;
use vstd::slice::slice_subrange;
use crate::error::{AnalysisError, Section};
use crate::wire::{
    lemma_uleb128_len_bounds, little_endian, read_u32_le, read_u64_le, read_uleb128, uleb128,
};

verus! {

/// The number of bytes that an address takes in the section.
pub open spec fn address_width(narrow: bool) -> nat {
    if narrow {
        4
    } else {
        8
    }
}

/// The record at the start of `bytes`, as address and stack size, and the
/// count of bytes that it takes. `None` where the bytes end before the
/// record does, or its stack size is no number of 64 bits.
pub open spec fn first_record(bytes: Seq<u8>, narrow: bool) -> Option<((u64, u64), nat)> {
    let width = address_width(narrow);
    if bytes.len() < width {
        None
    } else {
        match uleb128(bytes.skip(width as int)) {
            Some((stack, used)) => Some(
                ((little_endian(bytes.take(width as int)) as u64, stack), width + used),
            ),
            None => None,
        }
    }
}

/// A record takes at least five bytes, and no more than are there.
pub proof fn lemma_first_record_bounds(bytes: Seq<u8>, narrow: bool)
    ensures
        first_record(bytes, narrow) matches Some((_, used)) ==> address_width(narrow) < used
            <= bytes.len(),
{
    let width = address_width(narrow);
    if bytes.len() >= width {
        lemma_uleb128_len_bounds(bytes.skip(width as int));
    }
}

/// The records that `bytes` hold, in their order, or the position of the
/// first record that is cut short or too large.
pub open spec fn records(bytes: Seq<u8>, narrow: bool) -> Result<Seq<(u64, u64)>, nat>
    decreases bytes.len(),
    via records_decreases
{
    if bytes.len() == 0 {
        Ok(Seq::empty())
    } else {
        match first_record(bytes, narrow) {
            None => Err(0),
            Some((record, used)) => match records(bytes.skip(used as int), narrow) {
                Ok(rest) => Ok(seq![record] + rest),
                Err(at) => Err(used + at),
            },
        }
    }
}

#[via_fn]
proof fn records_decreases(bytes: Seq<u8>, narrow: bool) {
    lemma_first_record_bounds(bytes, narrow);
}

/// What the section comes to when the records in front of `rest` are
/// `done` and took `start` bytes.
pub open spec fn records_after(
    done: Seq<(u64, u64)>,
    start: nat,
    rest: Seq<u8>,
    narrow: bool,
) -> Result<Seq<(u64, u64)>, nat> {
    match records(rest, narrow) {
        Ok(more) => Ok(done + more),
        Err(at) => Err(start + at),
    }
}

/// Decodes the stack-size section into its records, in the order in which
/// the section holds them. Addresses take four bytes if
/// `have_32_bit_addresses`, and eight if not.
///
/// The section must end where a record ends: one that is cut short, or
/// whose stack size does not fit in 64 bits, is an error, which names the
/// position at which that record starts.
pub fn decode_stack_sizes(data: &[u8], have_32_bit_addresses: bool) -> (result: Result<
    Vec<(u64, u64)>,
    AnalysisError,
>)
    ensures
        match result {
            Ok(decoded) => records(data@, have_32_bit_addresses) == Ok::<_, nat>(decoded@),
            Err(error) => {
                &&& records(data@, have_32_bit_addresses) matches Err(at)
                &&& error == (AnalysisError::MalformedInput {
                    section: Section::StackSizes,
                    offset: at as usize,
                })
            },
        },
{
    let narrow = have_32_bit_addresses;
    let mut decoded: Vec<(u64, u64)> = Vec::new();
    let mut position: usize = 0;
    proof {
        assert(data@.skip(0) =~= data@);
        assert(Seq::<(u64, u64)>::empty() + records(data@, narrow)->Ok_0 =~= records(
            data@,
            narrow,
        )->Ok_0);
    }
    while position < data.len()
        invariant
            position <= data.len(),
            narrow == have_32_bit_addresses,
            records(data@, narrow) == records_after(
                decoded@,
                position as nat,
                data@.skip(position as int),
                narrow,
            ),
        decreases data.len() - position,
    {
        let rest = slice_subrange(data, position, data.len());
        let ghost bytes = data@.skip(position as int);
        let ghost width = address_width(narrow);
        assert(rest@ =~= bytes);
        proof {
            lemma_first_record_bounds(bytes, narrow);
        }
        let address = if narrow {
            match read_u32_le(rest) {
                Ok(value) => value as u64,
                Err(_) => {
                    return Err(
                        AnalysisError::MalformedInput {
                            section: Section::StackSizes,
                            offset: position,
                        },
                    );
                },
            }
        } else {
            match read_u64_le(rest) {
                Ok(value) => value,
                Err(_) => {
                    return Err(
                        AnalysisError::MalformedInput {
                            section: Section::StackSizes,
                            offset: position,
                        },
                    );
                },
            }
        };
        let width: usize = if narrow {
            4
        } else {
            8
        };
        let value_bytes = slice_subrange(rest, width, rest.len());
        assert(value_bytes@ =~= bytes.skip(width as int));
        match read_uleb128(value_bytes) {
            Ok((stack, used)) => {
                proof {
                    let record = (address, stack);
                    let step = (width + used) as int;
                    assert(first_record(bytes, narrow) == Some((record, step as nat)));
                    assert(bytes.skip(step) =~= data@.skip(position + step));
                    let tail = records(data@.skip(position + step), narrow);
                    if tail is Ok {
                        assert(decoded@ + (seq![record] + tail->Ok_0) =~= decoded@.push(record)
                            + tail->Ok_0);
                    }
                }
                decoded.push((address, stack));
                position = position + width + used;
            },
            Err(_) => {
                return Err(
                    AnalysisError::MalformedInput {
                        section: Section::StackSizes,
                        offset: position,
                    },
                );
            },
        }
    }
    proof {
        assert(data@.skip(position as int) =~= Seq::<u8>::empty());
        assert(decoded@ + Seq::<(u64, u64)>::empty() =~= decoded@);
    }
    Ok(decoded)
}

} // verus!
