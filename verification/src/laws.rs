//! What holds of every analysis.
//!
//! Each proof in this file states one property of the catalog over the
//! definitions that the contracts of the library use, for every symbol
//! table and every stack-size section.

use vstd::prelude::*;
use crate::analyze::{analysis, symbol_analysis};
use crate::catalog::{FunctionView, FunctionsView};
use crate::error::{AnalysisError, Section};
use crate::correlate::{correlated, first_match};
use crate::sequences::lemma_filter_prefix;
use crate::lookup::{lemma_low_bit, low_bit_clear, low_bit_set, resolve};
use crate::stack_sizes::{address_width, first_record, lemma_first_record_bounds, records};
use crate::symbol::{
    is_alias_candidate, is_defined_function, is_undefined_function, is_unresolved_function,
    name_of, Executable, Symbol, SymbolKind,
};
use crate::symtab::{
    aliases_at, entries_at, first_unresolved, symbol_names,
    symtab_defined, symtab_function, undefined_entries, undefined_names,
};
use crate::tags::is_mapping_tag;
use crate::wire::{continues, lemma_uleb128_len_bounds, uleb128, uleb128_len};

verus! {

/// The first function entry whose name cannot be read is such an entry,
/// and no entry before it is one; where there is none, no entry is one.
pub proof fn law_first_unresolved(symbols: Seq<Symbol>)
    ensures
        match first_unresolved(symbols) {
            Some(index) => {
                &&& 0 <= index < symbols.len()
                &&& is_unresolved_function(symbols[index])
                &&& forall|k: int| 0 <= k < index ==> !is_unresolved_function(symbols[k])
            },
            None => forall|k: int| 0 <= k < symbols.len() ==> !is_unresolved_function(symbols[k]),
        },
    decreases symbols.len(),
{
    if symbols.len() > 0 {
        law_first_unresolved(symbols.drop_last());
        assert forall|k: int| 0 <= k < symbols.len() - 1 implies symbols.drop_last()[k]
            == symbols[k] by {}
    }
}

/// The names of all function entries with one address that is not 0 stand
/// in the names of one function, the function at that address, in the
/// order of the entries: of two such entries, the name of the earlier
/// stands before the name of the later.
pub proof fn law_names_in_table_order(symbols: Seq<Symbol>, address: u64, i: int, j: int)
    requires
        address != 0,
        0 <= i < j < symbols.len(),
        symbols[i].kind == SymbolKind::Function,
        symbols[j].kind == SymbolKind::Function,
        symbols[i].address == address,
        symbols[j].address == address,
    ensures
        symtab_defined(symbols).contains_key(address),
        exists|p: int, q: int|
            {
                &&& 0 <= p < q < symtab_defined(symbols)[address].names.len()
                &&& symtab_defined(symbols)[address].names[p] == name_of(symbols[i])
                &&& symtab_defined(symbols)[address].names[q] == name_of(symbols[j])
            },
{
    let keep = |symbol: Symbol| is_defined_function(symbol) && symbol.address == address;
    let own = entries_at(symbols, address);
    lemma_filter_prefix(symbols, keep, i);
    lemma_filter_prefix(symbols, keep, j);
    lemma_filter_prefix(symbols.take(j), keep, i);
    assert(symbols.take(j).take(i) =~= symbols.take(i));
    assert(symbols.take(j).take(i + 1) =~= symbols.take(i + 1));
    let p = symbols.take(i).filter(keep).len() as int;
    let q = symbols.take(j).filter(keep).len() as int;
    assert(p < q < own.len());
    let names = symtab_defined(symbols)[address].names;
    assert(names == symtab_function(symbols, address).names);
    assert(names[p] == symbol_names(own)[p]);
    assert(names[q] == symbol_names(own)[q]);
    assert(0 <= p < q < names.len() && names[p] == name_of(symbols[i]) && names[q] == name_of(
        symbols[j],
    ));
}

/// The names that the entries defining a function give it stand at the
/// front of its names, all of them and in the order of the entries.
pub proof fn law_own_names_first(symbols: Seq<Symbol>, address: u64)
    requires
        symtab_defined(symbols).contains_key(address),
    ensures
        entries_at(symbols, address).len() > 0,
        symtab_defined(symbols)[address].names.len() >= entries_at(symbols, address).len(),
        symtab_defined(symbols)[address].names.take(entries_at(symbols, address).len() as int)
            == symbol_names(entries_at(symbols, address)),
{
    let own = symbol_names(entries_at(symbols, address));
    let names = symtab_defined(symbols)[address].names;
    assert(names.take(own.len() as int) =~= own);
}

/// A function entry with the address 0 and the size 0 lands among the
/// undefined functions, and never among the defined ones: its name is in
/// the set of undefined names, it is none of the entries that define a
/// function, and the table defines a function at the address 0 only if
/// another function entry there has a size.
pub proof fn law_undefined_function(symbols: Seq<Symbol>, index: int)
    requires
        0 <= index < symbols.len(),
        symbols[index].kind == SymbolKind::Function,
        symbols[index].address == 0,
        symbols[index].size == 0,
    ensures
        undefined_names(symbols).contains(name_of(symbols[index])),
        forall|address: u64| !entries_at(symbols, address).contains(symbols[index]),
        symtab_defined(symbols).contains_key(0) <==> exists|other: int|
            0 <= other < symbols.len() && #[trigger] symbols[other].kind == SymbolKind::Function
                && symbols[other].address == 0 && symbols[other].size != 0,
{
    let undefined = |symbol: Symbol| is_undefined_function(symbol);
    symbols.lemma_filter_contains(undefined, index);
    let found = undefined_entries(symbols);
    let at = choose|at: int| 0 <= at < found.len() && found[at] == symbols[index];
    assert(symbol_names(found)[at] == name_of(symbols[index]));
    assert forall|address: u64| !entries_at(symbols, address).contains(symbols[index]) by {
        let keep = |symbol: Symbol| is_defined_function(symbol) && symbol.address == address;
        if entries_at(symbols, address).contains(symbols[index]) {
            let k = choose|k: int|
                0 <= k < entries_at(symbols, address).len() && entries_at(symbols, address)[k]
                    == symbols[index];
            symbols.lemma_filter_pred(keep, k);
        }
    }
    let at_zero = |symbol: Symbol| is_defined_function(symbol) && symbol.address == 0;
    if symtab_defined(symbols).contains_key(0) {
        let own = entries_at(symbols, 0);
        symbols.lemma_filter_pred(at_zero, 0);
        symbols.lemma_filter_contains_rev(at_zero, own[0]);
        let other = choose|other: int| 0 <= other < symbols.len() && symbols[other] == own[0];
        assert(symbols[other].kind == SymbolKind::Function && symbols[other].address == 0
            && symbols[other].size != 0);
    }
    if exists|other: int|
        0 <= other < symbols.len() && #[trigger] symbols[other].kind == SymbolKind::Function
            && symbols[other].address == 0 && symbols[other].size != 0 {
        let other = choose|other: int|
            0 <= other < symbols.len() && #[trigger] symbols[other].kind == SymbolKind::Function
                && symbols[other].address == 0 && symbols[other].size != 0;
        symbols.lemma_filter_contains(at_zero, other);
    }
}

/// An untyped entry whose name is a mapping tag is never an alias: no
/// function has it among its alias candidates, and no name that a
/// function has beyond those of its own entries is a mapping tag.
pub proof fn law_tags_are_no_aliases(symbols: Seq<Symbol>, address: u64)
    ensures
        forall|index: int|
            0 <= index < symbols.len() && (#[trigger] symbols[index]).kind == SymbolKind::Untyped
                && symbols[index].name is Some && is_mapping_tag(name_of(symbols[index]))
                ==> !aliases_at(symbols, address).contains(symbols[index]),
        symtab_defined(symbols).contains_key(address) ==> forall|at: int|
            entries_at(symbols, address).len() <= at < symtab_defined(symbols)[address].names.len()
                ==> !is_mapping_tag(#[trigger] symtab_defined(symbols)[address].names[at]),
{
    assert forall|index: int|
        0 <= index < symbols.len() && (#[trigger] symbols[index]).kind == SymbolKind::Untyped
            && symbols[index].name is Some && is_mapping_tag(
            name_of(symbols[index]),
        ) implies !aliases_at(symbols, address).contains(symbols[index]) by {
        lemma_aliases_are_candidates(symbols, address);
    }
    if symtab_defined(symbols).contains_key(address) {
        let own = symbol_names(entries_at(symbols, address));
        let names = symtab_defined(symbols)[address].names;
        let even = symbol_names(aliases_at(symbols, low_bit_clear(address)));
        let odd = symbol_names(aliases_at(symbols, low_bit_set(address)));
        lemma_aliases_are_candidates(symbols, low_bit_clear(address));
        lemma_aliases_are_candidates(symbols, low_bit_set(address));
        assert forall|at: int| own.len() <= at < names.len() implies !is_mapping_tag(
            #[trigger] names[at],
        ) by {
            let k = at - own.len();
            if k < even.len() {
                assert(names[at] == even[k]);
                assert(is_alias_candidate(aliases_at(symbols, low_bit_clear(address))[k]));
            } else {
                assert(names[at] == odd[k - even.len()]);
                assert(is_alias_candidate(
                    aliases_at(symbols, low_bit_set(address))[k - even.len()],
                ));
            }
        }
    }
}

/// Every entry among the alias candidates at an address is an untyped
/// entry with a name that is no mapping tag.
proof fn lemma_aliases_are_candidates(symbols: Seq<Symbol>, address: u64)
    ensures
        forall|k: int|
            0 <= k < aliases_at(symbols, address).len() ==> is_alias_candidate(
                #[trigger] aliases_at(symbols, address)[k],
            ),
{
    let keep = |symbol: Symbol| is_alias_candidate(symbol) && symbol.address == address;
    assert forall|k: int| 0 <= k < aliases_at(symbols, address).len() implies is_alias_candidate(
        #[trigger] aliases_at(symbols, address)[k],
    ) by {
        symbols.lemma_filter_pred(keep, k);
    }
}

/// What one record more changes: nothing for a function that a record
/// before it stood for, or that it does not stand for.
proof fn lemma_first_match_push(
    known: Set<u64>,
    found: Seq<(u64, u64)>,
    record: (u64, u64),
    address: u64,
)
    ensures
        first_match(known, found.push(record), address) == match first_match(
            known,
            found,
            address,
        ) {
            Some(stack) => Some(stack),
            None => if resolve(known, record.0) == Some(address) {
                Some(record.1)
            } else {
                None
            },
        },
{
    assert(found.push(record).drop_last() =~= found);
}

/// The stack size that a function gets is that of the first record that
/// stands for it: the record at `index`, where no record before it stands
/// for the function.
pub proof fn law_first_record_wins(
    known: Set<u64>,
    found: Seq<(u64, u64)>,
    address: u64,
    index: int,
)
    requires
        0 <= index < found.len(),
        resolve(known, found[index].0) == Some(address),
        forall|k: int| 0 <= k < index ==> resolve(known, (#[trigger] found[k]).0) != Some(address),
    ensures
        first_match(known, found, address) == Some(found[index].1),
    decreases found.len(),
{
    let shorter = found.drop_last();
    if index < found.len() - 1 {
        assert(shorter[index] == found[index]);
        assert forall|k: int| 0 <= k < index implies resolve(known, (#[trigger] shorter[k]).0)
            != Some(address) by {
            assert(shorter[k] == found[k]);
        }
        law_first_record_wins(known, shorter, address, index);
    } else {
        lemma_no_match(known, shorter, address);
    }
}

/// Records of which none stands for a function give it no stack size.
proof fn lemma_no_match(known: Set<u64>, found: Seq<(u64, u64)>, address: u64)
    requires
        forall|k: int| 0 <= k < found.len() ==> resolve(known, (#[trigger] found[k]).0) != Some(
            address,
        ),
    ensures
        first_match(known, found, address) is None,
    decreases found.len(),
{
    if found.len() > 0 {
        let shorter = found.drop_last();
        assert forall|k: int| 0 <= k < shorter.len() implies resolve(
            known,
            (#[trigger] shorter[k]).0,
        ) != Some(address) by {
            assert(shorter[k] == found[k]);
        }
        lemma_no_match(known, shorter, address);
        assert(found.last() == found[found.len() - 1]);
    }
}

/// A record whose address is one below the odd address of a function
/// gives that function its stack size, if the function has none and no
/// record before it stands for the function.
pub proof fn law_record_below_odd_address(
    defined: Map<u64, FunctionView>,
    found: Seq<(u64, u64)>,
    address: u64,
    index: int,
)
    requires
        defined.contains_key(address),
        defined[address].stack is None,
        address % 2 == 1,
        0 <= index < found.len(),
        found[index].0 == address - 1,
        forall|k: int|
            0 <= k < index ==> resolve(defined.dom(), (#[trigger] found[k]).0) != Some(address),
    ensures
        correlated(defined, found).contains_key(address),
        correlated(defined, found)[address].stack == Some(found[index].1),
{
    let below = found[index].0;
    lemma_low_bit(below);
    lemma_low_bit(address);
    assert(low_bit_set(below) == address) by {
        assert(below % 2 == 0);
        if below == low_bit_set(below) {
            assert(low_bit_clear(below) + 1 == below);
        }
    }
    law_first_record_wins(defined.dom(), found, address, index);
}

/// A record whose address is one above the even address of a function
/// gives that function its stack size, if there is no function at the
/// record's own address, the function has no stack size, and no record
/// before it stands for the function.
pub proof fn law_record_above_even_address(
    defined: Map<u64, FunctionView>,
    found: Seq<(u64, u64)>,
    address: u64,
    index: int,
)
    requires
        defined.contains_key(address),
        defined[address].stack is None,
        address % 2 == 0,
        0 <= index < found.len(),
        found[index].0 == address + 1,
        !defined.contains_key(found[index].0),
        forall|k: int|
            0 <= k < index ==> resolve(defined.dom(), (#[trigger] found[k]).0) != Some(address),
    ensures
        correlated(defined, found).contains_key(address),
        correlated(defined, found)[address].stack == Some(found[index].1),
{
    let above = found[index].0;
    lemma_low_bit(above);
    lemma_low_bit(address);
    assert(low_bit_set(above) == above && low_bit_clear(above) == address) by {
        assert(above % 2 == 1);
        if above == low_bit_clear(above) {
            assert(above % 2 == 0);
        }
    }
    law_first_record_wins(defined.dom(), found, address, index);
}

/// A record whose address stands for no function, with the lowest bit set
/// or clear, is passed over: the functions are what they would be were
/// the record not there.
pub proof fn law_unmatched_record_is_dropped(
    defined: Map<u64, FunctionView>,
    before: Seq<(u64, u64)>,
    record: (u64, u64),
    after: Seq<(u64, u64)>,
)
    requires
        resolve(defined.dom(), record.0) is None,
    ensures
        correlated(defined, before.push(record) + after) == correlated(defined, before + after),
{
    assert forall|address: u64| defined.contains_key(address) implies first_match(
        defined.dom(),
        before.push(record) + after,
        address,
    ) == first_match(defined.dom(), before + after, address) by {
        lemma_first_match_skips(defined.dom(), before, record, after, address);
    }
    assert(correlated(defined, before.push(record) + after) =~= correlated(
        defined,
        before + after,
    ));
}

/// A record that stands for no function changes the stack size of none.
proof fn lemma_first_match_skips(
    known: Set<u64>,
    before: Seq<(u64, u64)>,
    record: (u64, u64),
    after: Seq<(u64, u64)>,
    address: u64,
)
    requires
        resolve(known, record.0) is None,
    ensures
        first_match(known, before.push(record) + after, address) == first_match(
            known,
            before + after,
            address,
        ),
    decreases after.len(),
{
    if after.len() == 0 {
        assert(before.push(record) + after =~= before.push(record));
        assert(before + after =~= before);
        lemma_first_match_push(known, before, record, address);
    } else {
        let shorter = after.drop_last();
        lemma_first_match_skips(known, before, record, shorter, address);
        assert(before.push(record) + after =~= (before.push(record) + shorter).push(after.last()));
        assert(before + after =~= (before + shorter).push(after.last()));
        lemma_first_match_push(known, before.push(record) + shorter, after.last(), address);
        lemma_first_match_push(known, before + shorter, after.last(), address);
    }
}

/// A stack-size section without a byte leaves every function without a
/// stack size: the analysis comes to what it comes to without the section.
pub proof fn law_empty_section(executable: Executable)
    requires
        executable.stack_sizes matches Some(data) && data@.len() == 0,
    ensures
        analysis(executable) == analysis(Executable { stack_sizes: None, ..executable }),
        analysis(executable) matches Ok(functions) ==> forall|address: u64| #[trigger]
            functions.defined.contains_key(address) ==> functions.defined[address].stack is None,
{
    let bare = Executable { stack_sizes: None, ..executable };
    match symbol_analysis(executable.symbols) {
        Ok((undefined, defined)) => {
            assert(correlated(defined, Seq::<(u64, u64)>::empty()) =~= defined);
            assert(analysis(executable) == analysis(bare));
        },
        Err(_) => {},
    }
}

/// A number in LEB128 of which every byte says that another follows has
/// no end, and is no number.
pub proof fn lemma_uleb128_unfinished(bytes: Seq<u8>)
    requires
        forall|k: int| 0 <= k < bytes.len() ==> continues(#[trigger] bytes[k]),
    ensures
        uleb128_len(bytes) is None,
        uleb128(bytes) is None,
    decreases bytes.len(),
{
    if bytes.len() > 0 {
        let rest = bytes.drop_first();
        assert forall|k: int| 0 <= k < rest.len() implies continues(#[trigger] rest[k]) by {
            assert(rest[k] == bytes[k + 1]);
        }
        lemma_uleb128_unfinished(rest);
    }
}

/// The records of a section are those of its first bytes, where these end
/// with a record, and then those of its other bytes.
pub proof fn lemma_records_split(bytes: Seq<u8>, narrow: bool, start: int)
    requires
        0 <= start <= bytes.len(),
        records(bytes.take(start), narrow) is Ok,
    ensures
        records(bytes, narrow) == match records(bytes.skip(start), narrow) {
            Ok(more) => Ok::<_, nat>(records(bytes.take(start), narrow)->Ok_0 + more),
            Err(at) => Err((start + at) as nat),
        },
    decreases start,
{
    let front = bytes.take(start);
    if start == 0 {
        assert(bytes.skip(0) =~= bytes);
        assert(front =~= Seq::<u8>::empty());
        if records(bytes, narrow) is Ok {
            assert(Seq::<(u64, u64)>::empty() + records(bytes, narrow)->Ok_0 =~= records(
                bytes,
                narrow,
            )->Ok_0);
        }
    } else {
        lemma_first_record_bounds(front, narrow);
        let (record, used) = first_record(front, narrow)->Some_0;
        lemma_first_record_of_front(bytes, narrow, start);
        assert(front.skip(used as int) =~= bytes.skip(used as int).take(start - used));
        lemma_records_split(bytes.skip(used as int), narrow, start - used);
        assert(bytes.skip(used as int).skip(start - used) =~= bytes.skip(start));
        let middle = records(front.skip(used as int), narrow)->Ok_0;
        if records(bytes.skip(start), narrow) is Ok {
            let more = records(bytes.skip(start), narrow)->Ok_0;
            assert(seq![record] + (middle + more) =~= (seq![record] + middle) + more);
        }
    }
}

/// A record that the first bytes of a section hold whole is the first
/// record of the section.
proof fn lemma_first_record_of_front(bytes: Seq<u8>, narrow: bool, start: int)
    requires
        0 <= start <= bytes.len(),
        first_record(bytes.take(start), narrow) is Some,
    ensures
        first_record(bytes, narrow) == first_record(bytes.take(start), narrow),
{
    let front = bytes.take(start);
    let width = address_width(narrow) as int;
    assert(front.take(width) =~= bytes.take(width));
    assert(front.skip(width) =~= bytes.skip(width).take(start - width));
    lemma_uleb128_of_front(bytes.skip(width), start - width);
}

/// A number in LEB128 that the first bytes hold whole is the number at
/// the start of all the bytes.
proof fn lemma_uleb128_of_front(bytes: Seq<u8>, upto: int)
    requires
        0 <= upto <= bytes.len(),
        uleb128_len(bytes.take(upto)) is Some,
    ensures
        uleb128_len(bytes) == uleb128_len(bytes.take(upto)),
        uleb128(bytes) == uleb128(bytes.take(upto)),
    decreases upto,
{
    let front = bytes.take(upto);
    lemma_uleb128_len_bounds(front);
    if continues(front[0]) {
        assert(front.drop_first() =~= bytes.drop_first().take(upto - 1));
        lemma_uleb128_of_front(bytes.drop_first(), upto - 1);
    }
    let len = uleb128_len(front)->Some_0 as int;
    assert(uleb128_len(bytes) == Some(len as nat));
    assert(front.take(len) =~= bytes.take(len));
}

/// A section whose last record is cut short is malformed, and the error
/// names the position at which that record starts. The record at `start`
/// is cut short where the bytes end before its address does, or before a
/// byte of its stack size that does not say that another follows.
pub proof fn law_truncated_record(bytes: Seq<u8>, narrow: bool, start: int)
    requires
        0 <= start < bytes.len(),
        records(bytes.take(start), narrow) is Ok,
        bytes.len() < start + address_width(narrow) || forall|k: int|
            start + address_width(narrow) <= k < bytes.len() ==> continues(#[trigger] bytes[k]),
    ensures
        records(bytes, narrow) == Err::<Seq<(u64, u64)>, nat>(start as nat),
{
    let rest = bytes.skip(start);
    let width = address_width(narrow) as int;
    lemma_records_split(bytes, narrow, start);
    if rest.len() >= width {
        let value = rest.skip(width);
        assert forall|k: int| 0 <= k < value.len() implies continues(#[trigger] value[k]) by {
            assert(value[k] == bytes[start + width + k]);
        }
        lemma_uleb128_unfinished(value);
    }
    assert(first_record(rest, narrow) is None);
}

/// An executable whose symbol table can be used and whose stack-size
/// section ends in a record that is cut short cannot be analysed: the
/// error says that the stack-size section is malformed, and where.
pub proof fn law_truncated_section(executable: Executable, start: int)
    requires
        symbol_analysis(executable.symbols) is Ok,
        executable.stack_sizes matches Some(data) && {
            let narrow = executable.symbols is Entries32;
            &&& 0 <= start < data@.len()
            &&& records(data@.take(start), narrow) is Ok
            &&& (data@.len() < start + address_width(narrow) || forall|k: int|
                start + address_width(narrow) <= k < data@.len() ==> continues(#[trigger] data@[k]))
        },
    ensures
        analysis(executable) == Err::<FunctionsView, _>(
            AnalysisError::MalformedInput { section: Section::StackSizes, offset: start as usize },
        ),
{
    let data = executable.stack_sizes->Some_0;
    law_truncated_record(data@, executable.symbols is Entries32, start);
}

} // verus!
