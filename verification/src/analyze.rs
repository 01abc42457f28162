//! The analysis as a whole: from the symbol table and the stack-size
//! section of an executable to the catalog of its functions.

use vstd::prelude::*;
use std::collections::BTreeMap;
use crate::catalog::{catalog_view, Function, FunctionView, Functions, FunctionsView};
use crate::names::names_view;
use crate::correlate::{correlate, correlated};
use crate::error::{AnalysisError, Section};
use crate::stack_sizes::{decode_stack_sizes, records};
use crate::symbol::{Executable, Symbol, SymbolTable};
use crate::symtab::{
    defined_addresses, first_unresolved, process_symtab_exec, symbol_names,
    symtab_defined, undefined_entries, undefined_names,
};

verus! {

/// The entries of a symbol table; none where the table is absent or not
/// recognized.
pub open spec fn entries(table: SymbolTable) -> Seq<Symbol> {
    match table {
        SymbolTable::Entries32(entries) => entries@,
        SymbolTable::Entries64(entries) => entries@,
        _ => Seq::empty(),
    }
}

/// What the symbol table alone says: the names of the undefined functions
/// and the defined functions by address, or why the table cannot be used.
pub open spec fn symbol_analysis(table: SymbolTable) -> Result<
    (Set<Seq<char>>, Map<u64, FunctionView>),
    AnalysisError,
> {
    if table is Unrecognized {
        Err(AnalysisError::MalformedInput { section: Section::SymbolTable, offset: 0 })
    } else {
        match first_unresolved(entries(table)) {
            Some(index) => Err(AnalysisError::UnresolvedName { index: index as usize }),
            None => Ok((undefined_names(entries(table)), symtab_defined(entries(table)))),
        }
    }
}

/// What the analysis of an executable comes to.
///
/// Addresses are of 32 bits exactly where the symbol table has 32-bit
/// entries. The symbol table gives the functions; the stack-size section,
/// where there is one, gives them their stack sizes. An error in the
/// symbol table comes before one in the stack-size section.
pub open spec fn analysis(executable: Executable) -> Result<FunctionsView, AnalysisError> {
    let narrow = executable.symbols is Entries32;
    match symbol_analysis(executable.symbols) {
        Err(error) => Err(error),
        Ok((undefined, defined)) => match executable.stack_sizes {
            None => Ok(FunctionsView { have_32_bit_addresses: narrow, undefined, defined }),
            Some(data) => match records(data@, narrow) {
                Err(at) => Err(
                    AnalysisError::MalformedInput {
                        section: Section::StackSizes,
                        offset: at as usize,
                    },
                ),
                Ok(found) => Ok(
                    FunctionsView {
                        have_32_bit_addresses: narrow,
                        undefined,
                        defined: correlated(defined, found),
                    },
                ),
            },
        },
    }
}

/// A table without entries names and defines nothing.
pub proof fn lemma_empty_table()
    ensures
        first_unresolved(Seq::<Symbol>::empty()) is None,
        undefined_names(Seq::<Symbol>::empty()) == Set::<Seq<char>>::empty(),
        symtab_defined(Seq::<Symbol>::empty()) == Map::<u64, FunctionView>::empty(),
{
    reveal(Seq::filter);
    let none = Seq::<Symbol>::empty();
    assert(symbol_names(undefined_entries(none)) =~= Seq::<Seq<char>>::empty());
    assert(undefined_names(none) =~= Set::<Seq<char>>::empty());
    assert(defined_addresses(none) =~= Set::<u64>::empty());
    assert(symtab_defined(none) =~= Map::<u64, FunctionView>::empty());
}

/// Parses an executable and returns a list of functions and their stack usage
pub fn analyze_executable<'a>(executable: &Executable<'a>) -> (result: Result<
    Functions<'a>,
    AnalysisError,
>)
    ensures
        match result {
            Ok(functions) => functions.wf() && analysis(*executable) == Ok::<_, AnalysisError>(
                functions@,
            ),
            Err(error) => analysis(*executable) == Err::<FunctionsView, _>(error),
        },
{
    let mut have_32_bit_addresses = false;
    let (undefined, mut defined) = match &executable.symbols {
        SymbolTable::Absent => {
            proof {
                lemma_empty_table();
            }
            let undefined: Vec<&'a str> = Vec::new();
            let defined: BTreeMap<u64, Function<'a>> = BTreeMap::new();
            assert(names_view(undefined@) =~= Seq::<Seq<char>>::empty());
            assert(names_view(undefined@).to_set() =~= Set::<Seq<char>>::empty());
            assert(catalog_view(defined@) =~= Map::<u64, FunctionView>::empty());
            (undefined, defined)
        },
        SymbolTable::Entries32(entries) => {
            have_32_bit_addresses = true;
            match process_symtab_exec(entries.as_slice()) {
                Ok(found) => found,
                Err(error) => {
                    return Err(error);
                },
            }
        },
        SymbolTable::Entries64(entries) => {
            match process_symtab_exec(entries.as_slice()) {
                Ok(found) => found,
                Err(error) => {
                    return Err(error);
                },
            }
        },
        SymbolTable::Unrecognized => {
            return Err(
                AnalysisError::MalformedInput { section: Section::SymbolTable, offset: 0 },
            );
        },
    };
    if let Some(data) = executable.stack_sizes {
        match decode_stack_sizes(data, have_32_bit_addresses) {
            Ok(found) => {
                correlate(&mut defined, found.as_slice());
            },
            Err(error) => {
                return Err(error);
            },
        }
    }
    Ok(Functions { have_32_bit_addresses, undefined, defined })
}

} // verus!
