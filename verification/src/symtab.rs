//! Reading the symbol table: which functions the executable defines, under
//! which names, and which functions it only refers to.

use vstd::prelude::*;
use std::collections::BTreeMap;
use crate::catalog::{catalog_view, Function, FunctionView};
use crate::error::AnalysisError;
use crate::names::{insert_name, names_view};
use crate::sequences::lemma_filter_step;
use crate::lookup::{find_function, lemma_low_bit, lemma_resolve, low_bit_clear, low_bit_set, resolve};
use crate::symbol::{
    is_alias_candidate, is_defined_function, is_undefined_function, is_unresolved_function,
    name_of, Symbol, SymbolKind,
};
use crate::tags::is_tag;

verus! {

/// The names of `symbols`, in their order.
pub open spec fn symbol_names(symbols: Seq<Symbol>) -> Seq<Seq<char>> {
    symbols.map_values(|symbol: Symbol| name_of(symbol))
}

/// The entries of the table that define a function at `address`, in the
/// table's order.
pub open spec fn entries_at(symbols: Seq<Symbol>, address: u64) -> Seq<Symbol> {
    symbols.filter(|symbol: Symbol| is_defined_function(symbol) && symbol.address == address)
}

/// The entries of the table that may be aliases and have the value
/// `address`, in the table's order.
pub open spec fn aliases_at(symbols: Seq<Symbol>, address: u64) -> Seq<Symbol> {
    symbols.filter(|symbol: Symbol| is_alias_candidate(symbol) && symbol.address == address)
}

/// The entries of the table that name a function without a place.
pub open spec fn undefined_entries(symbols: Seq<Symbol>) -> Seq<Symbol> {
    symbols.filter(|symbol: Symbol| is_undefined_function(symbol))
}

/// The position of the first function entry whose name could not be read.
pub open spec fn first_unresolved(symbols: Seq<Symbol>) -> Option<int>
    decreases symbols.len(),
{
    if symbols.len() == 0 {
        None
    } else {
        match first_unresolved(symbols.drop_last()) {
            Some(index) => Some(index),
            None => if is_unresolved_function(symbols.last()) {
                Some(symbols.len() - 1)
            } else {
                None
            },
        }
    }
}

/// The addresses at which the table defines a function.
pub open spec fn defined_addresses(symbols: Seq<Symbol>) -> Set<u64> {
    Set::new(|address: u64| entries_at(symbols, address).len() > 0)
}

/// The names of the functions that the table names and does not place.
pub open spec fn undefined_names(symbols: Seq<Symbol>) -> Set<Seq<char>> {
    symbol_names(undefined_entries(symbols)).to_set()
}

/// The aliases that go to the function which the two variants of `address`
/// stand for: those with the even variant as their value, then those with
/// the odd one.
pub open spec fn alias_names(symbols: Seq<Symbol>, address: u64) -> Seq<Seq<char>> {
    symbol_names(aliases_at(symbols, low_bit_clear(address))) + symbol_names(
        aliases_at(symbols, low_bit_set(address)),
    )
}

/// What the table says of the function at `address`: the names of the
/// entries that define it, then its aliases if it is the function that its
/// address stands for; the size of the first entry that defines it; no
/// stack figure.
pub open spec fn symtab_function(symbols: Seq<Symbol>, address: u64) -> FunctionView {
    FunctionView {
        names: symbol_names(entries_at(symbols, address)) + if resolve(
            defined_addresses(symbols),
            address,
        ) == Some(address) {
            alias_names(symbols, address)
        } else {
            Seq::empty()
        },
        size: entries_at(symbols, address).first().size,
        stack: None,
    }
}

/// The functions that the table defines, by address.
pub open spec fn symtab_defined(symbols: Seq<Symbol>) -> Map<u64, FunctionView> {
    Map::new(
        |address: u64| defined_addresses(symbols).contains(address),
        |address: u64| symtab_function(symbols, address),
    )
}

/// The names of a list with one entry more are the names of the list, then
/// that entry's name.
proof fn lemma_symbol_names_push(symbols: Seq<Symbol>, symbol: Symbol)
    ensures
        symbol_names(symbols.push(symbol)) == symbol_names(symbols).push(name_of(symbol)),
{
    assert(symbol_names(symbols.push(symbol)) =~= symbol_names(symbols).push(name_of(symbol)));
}

/// What one entry more of the table changes in what the table defines.
proof fn lemma_table_step(symbols: Seq<Symbol>, upto: int)
    requires
        0 <= upto < symbols.len(),
    ensures
        first_unresolved(symbols.take(upto + 1)) == match first_unresolved(symbols.take(upto)) {
            Some(index) => Some(index),
            None => if is_unresolved_function(symbols[upto]) {
                Some(upto)
            } else {
                None
            },
        },
        undefined_entries(symbols.take(upto + 1)) == if is_undefined_function(symbols[upto]) {
            undefined_entries(symbols.take(upto)).push(symbols[upto])
        } else {
            undefined_entries(symbols.take(upto))
        },
        forall|address: u64| #[trigger]
            entries_at(symbols.take(upto + 1), address) == if is_defined_function(symbols[upto])
                && symbols[upto].address == address {
                entries_at(symbols.take(upto), address).push(symbols[upto])
            } else {
                entries_at(symbols.take(upto), address)
            },
        forall|address: u64| #[trigger]
            aliases_at(symbols.take(upto + 1), address) == if is_alias_candidate(symbols[upto])
                && symbols[upto].address == address {
                aliases_at(symbols.take(upto), address).push(symbols[upto])
            } else {
                aliases_at(symbols.take(upto), address)
            },
{
    assert(symbols.take(upto + 1).drop_last() =~= symbols.take(upto));
    lemma_filter_step(symbols, upto, |symbol: Symbol| is_undefined_function(symbol));
    assert forall|address: u64| #[trigger]
        entries_at(symbols.take(upto + 1), address) == if is_defined_function(symbols[upto])
            && symbols[upto].address == address {
            entries_at(symbols.take(upto), address).push(symbols[upto])
        } else {
            entries_at(symbols.take(upto), address)
        } by {
        lemma_filter_step(
            symbols,
            upto,
            |symbol: Symbol| is_defined_function(symbol) && symbol.address == address,
        );
    }
    assert forall|address: u64| #[trigger]
        aliases_at(symbols.take(upto + 1), address) == if is_alias_candidate(symbols[upto])
            && symbols[upto].address == address {
            aliases_at(symbols.take(upto), address).push(symbols[upto])
        } else {
            aliases_at(symbols.take(upto), address)
        } by {
        lemma_filter_step(
            symbols,
            upto,
            |symbol: Symbol| is_alias_candidate(symbol) && symbol.address == address,
        );
    }
}

/// What the entries that define the function at `address` say of it: their
/// names, and the size of the first of them.
pub open spec fn own_function(symbols: Seq<Symbol>, address: u64) -> FunctionView {
    FunctionView {
        names: symbol_names(entries_at(symbols, address)),
        size: entries_at(symbols, address).first().size,
        stack: None,
    }
}

/// `address` with its lowest bit set if `odd`, and clear if not.
pub open spec fn low_bit_variant(address: u64, odd: bool) -> u64 {
    if odd {
        low_bit_set(address)
    } else {
        low_bit_clear(address)
    }
}

/// A function with the aliases added that have one variant of its address
/// as their value, if it is the function that its address stands for.
pub open spec fn with_aliases(
    function: FunctionView,
    known: Set<u64>,
    symbols: Seq<Symbol>,
    address: u64,
    odd: bool,
) -> FunctionView {
    FunctionView {
        names: function.names + if resolve(known, address) == Some(address) {
            symbol_names(aliases_at(symbols, low_bit_variant(address, odd)))
        } else {
            Seq::empty()
        },
        ..function
    }
}

/// Gives each function the aliases whose value is its address with the
/// lowest bit as `odd` says, in the table's order.
pub fn attach_aliases<'a>(
    symbols: &[Symbol<'a>],
    defined: &mut BTreeMap<u64, Function<'a>>,
    odd: bool,
)
    ensures
        final(defined)@.dom() == old(defined)@.dom(),
        forall|address: u64| #[trigger]
            final(defined)@.contains_key(address) ==> final(defined)@[address]@ == with_aliases(
                old(defined)@[address]@,
                old(defined)@.dom(),
                symbols@,
                address,
                odd,
            ),
{
    let ghost known = defined@.dom();
    let ghost before = defined@;
    let mut i: usize = 0;
    proof {
        reveal(Seq::filter);
        assert forall|address: u64| #[trigger] defined@.contains_key(address) implies defined@[address]@
            == with_aliases(before[address]@, known, symbols@.take(0), address, odd) by {
            assert(symbols@.take(0) =~= Seq::<Symbol>::empty());
            assert(symbol_names(aliases_at(symbols@.take(0), low_bit_variant(address, odd)))
                =~= Seq::<Seq<char>>::empty());
            assert(before[address]@.names + Seq::<Seq<char>>::empty() =~= before[address]@.names);
        }
    }
    while i < symbols.len()
        invariant
            i <= symbols.len(),
            known == old(defined)@.dom(),
            before == old(defined)@,
            defined@.dom() == known,
            forall|address: u64| #[trigger]
                defined@.contains_key(address) ==> defined@[address]@ == with_aliases(
                    before[address]@,
                    known,
                    symbols@.take(i as int),
                    address,
                    odd,
                ),
        decreases symbols.len() - i,
    {
        let symbol = symbols[i];
        let ghost current = defined@;
        proof {
            lemma_table_step(symbols@, i as int);
        }
        let ghost mut attached = false;
        if let SymbolKind::Untyped = symbol.kind {
            if let Some(name) = symbol.name {
                if !is_tag(name) && (symbol.address % 2 == 1) == odd {
                    proof {
                        lemma_low_bit(symbol.address);
                        lemma_resolve(known, symbol.address);
                        assert(low_bit_variant(symbol.address, odd) == symbol.address);
                    }
                    if let Some(target) = find_function(defined, symbol.address) {
                        let taken = defined.remove(&target);
                        let mut function = taken.unwrap();
                        function.push_name(name);
                        defined.insert(target, function);
                        proof {
                            attached = true;
                            assert(defined@.dom() =~= known);
                            assert forall|address: u64| #[trigger]
                                defined@.contains_key(address) implies defined@[address]@
                                == with_aliases(
                                before[address]@,
                                known,
                                symbols@.take(i + 1),
                                address,
                                odd,
                            ) by {
                                lemma_low_bit(address);
                                lemma_resolve(known, address);
                                let variant = low_bit_variant(address, odd);
                                if address == target {
                                    assert(variant == symbol.address);
                                    lemma_symbol_names_push(
                                        aliases_at(symbols@.take(i as int), variant),
                                        symbol,
                                    );
                                    assert(defined@[address]@.names =~= before[address]@.names
                                        + symbol_names(
                                        aliases_at(symbols@.take(i + 1), variant),
                                    ));
                                } else {
                                    assert(defined@[address] == current[address]);
                                    if resolve(known, address) == Some(address) {
                                        assert(variant != symbol.address);
                                    }
                                }
                            }
                        }
                    }
                }
            }
        }
        proof {
            if !attached {
                assert forall|address: u64| #[trigger]
                    defined@.contains_key(address) implies defined@[address]@ == with_aliases(
                    before[address]@,
                    known,
                    symbols@.take(i + 1),
                    address,
                    odd,
                ) by {
                    lemma_low_bit(address);
                    lemma_low_bit(symbol.address);
                    lemma_resolve(known, address);
                    lemma_resolve(known, symbol.address);
                    let variant = low_bit_variant(address, odd);
                    if resolve(known, address) == Some(address) && is_alias_candidate(symbol) {
                        assert(variant != symbol.address);
                    }
                }
            }
        }
        i += 1;
    }
    proof {
        assert(symbols@.take(symbols.len() as int) =~= symbols@);
    }
}

/// Reads the symbol table: returns the names of the functions that the
/// executable only refers to, and the functions that it defines, each with
/// its names and aliases and the size of its code.
///
/// A function entry without an address and a size is an undefined
/// function. Any other function entry defines the function at its address:
/// the first such entry gives the size, and each gives a name. An untyped
/// entry whose name can be read and is no mapping tag is an alias of the
/// function that its value stands for, if there is one. The only failure
/// is a function entry whose name cannot be read.
pub fn process_symtab_exec<'a>(symbols: &[Symbol<'a>]) -> (result: Result<
    (Vec<&'a str>, BTreeMap<u64, Function<'a>>),
    AnalysisError,
>)
    ensures
        match result {
            Ok((undefined, defined)) => {
                &&& first_unresolved(symbols@) is None
                &&& names_view(undefined@).no_duplicates()
                &&& names_view(undefined@).to_set() == undefined_names(symbols@)
                &&& catalog_view(defined@) == symtab_defined(symbols@)
            },
            Err(error) => {
                &&& first_unresolved(symbols@) matches Some(index)
                &&& error == (AnalysisError::UnresolvedName { index: index as usize })
            },
        },
{
    let mut undefined: Vec<&'a str> = Vec::new();
    let mut defined: BTreeMap<u64, Function<'a>> = BTreeMap::new();
    let mut i: usize = 0;
    proof {
        reveal(Seq::filter);
        assert(symbols@.take(0) =~= Seq::<Symbol>::empty());
        assert(names_view(undefined@) =~= Seq::<Seq<char>>::empty());
        assert(symbol_names(undefined_entries(symbols@.take(0))) =~= Seq::<Seq<char>>::empty());
        assert(defined@.dom() =~= defined_addresses(symbols@.take(0)));
    }
    while i < symbols.len()
        invariant
            i <= symbols.len(),
            first_unresolved(symbols@.take(i as int)) is None,
            names_view(undefined@).no_duplicates(),
            names_view(undefined@).to_set() == undefined_names(symbols@.take(i as int)),
            defined@.dom() == defined_addresses(symbols@.take(i as int)),
            forall|address: u64| #[trigger]
                defined@.contains_key(address) ==> defined@[address]@ == own_function(
                    symbols@.take(i as int),
                    address,
                ),
        decreases symbols.len() - i,
    {
        let symbol = symbols[i];
        let ghost current = defined@;
        let ghost seen = symbols@.take(i as int);
        proof {
            lemma_table_step(symbols@, i as int);
        }
        if let SymbolKind::Function = symbol.kind {
            match symbol.name {
                None => {
                    proof {
                        lemma_first_unresolved_prefix(symbols@, i as int + 1);
                    }
                    return Err(AnalysisError::UnresolvedName { index: i });
                },
                Some(name) => {
                    if symbol.address == 0 && symbol.size == 0 {
                        insert_name(&mut undefined, name);
                        proof {
                            lemma_symbol_names_push(undefined_entries(seen), symbol);
                            symbol_names(undefined_entries(seen)).lemma_push_to_set_commute(name@);
                        }
                    } else {
                        let taken = defined.remove(&symbol.address);
                        let mut function = match taken {
                            Some(function) => function,
                            None => Function::new(symbol.size),
                        };
                        function.push_name(name);
                        defined.insert(symbol.address, function);
                        proof {
                            lemma_symbol_names_push(entries_at(seen, symbol.address), symbol);
                            assert(Seq::<Seq<char>>::empty().push(name@) =~= symbol_names(
                                Seq::<Symbol>::empty().push(symbol),
                            ));
                            if !current.contains_key(symbol.address) {
                                assert(entries_at(seen, symbol.address) =~= Seq::<Symbol>::empty());
                            }
                        }
                    }
                },
            }
        }
        proof {
            assert(defined@.dom() =~= defined_addresses(symbols@.take(i + 1)));
        }
        i += 1;
    }
    proof {
        assert(symbols@.take(symbols.len() as int) =~= symbols@);
    }
    let ghost own = defined@;
    attach_aliases(symbols, &mut defined, false);
    let ghost even = defined@;
    attach_aliases(symbols, &mut defined, true);
    proof {
        let known = defined_addresses(symbols@);
        assert(catalog_view(defined@).dom() =~= symtab_defined(symbols@).dom());
        assert forall|address: u64| #[trigger]
            catalog_view(defined@).contains_key(address) implies catalog_view(defined@)[address]
            == symtab_defined(symbols@)[address] by {
            assert(own.contains_key(address));
            assert(even.contains_key(address));
            assert(defined@.contains_key(address));
            assert(catalog_view(defined@)[address].names =~= symtab_function(
                symbols@,
                address,
            ).names);
        }
        assert(catalog_view(defined@) =~= symtab_defined(symbols@));
    }
    Ok((undefined, defined))
}

/// A function entry whose name cannot be read in the first `upto` entries
/// of a table is the first such entry of the whole table too.
proof fn lemma_first_unresolved_prefix(symbols: Seq<Symbol>, upto: int)
    requires
        0 <= upto <= symbols.len(),
        first_unresolved(symbols.take(upto)) is Some,
    ensures
        first_unresolved(symbols) == first_unresolved(symbols.take(upto)),
    decreases symbols.len() - upto,
{
    if upto < symbols.len() {
        lemma_table_step(symbols, upto);
        lemma_first_unresolved_prefix(symbols, upto + 1);
    } else {
        assert(symbols.take(upto) =~= symbols);
    }
}

} // verus!
