//! What the analysis reads of an executable: the entries of its symbol
//! table and the bytes of its stack-size section.

use vstd::prelude::*;
use crate::tags::is_mapping_tag;

verus! {

/// What a symbol stands for, as far as the analysis tells symbols apart.
#[derive(Clone, Copy, Debug, PartialEq, Eq, Structural)]
pub enum SymbolKind {
    /// A function or other executable code.
    Function,
    /// A symbol whose type the table does not state.
    Untyped,
    /// Anything else: an object, a section, a file, a type that is not
    /// known.
    Other,
}

/// One entry of the symbol table.
#[derive(Clone, Copy, Debug)]
pub struct Symbol<'a> {
    /// What the entry stands for.
    pub kind: SymbolKind,
    /// The entry's value: for a function, the address of its first
    /// instruction.
    pub address: u64,
    /// The number of bytes that the entry spans.
    pub size: u64,
    /// The entry's name, or `None` where it could not be read from the
    /// string table.
    pub name: Option<&'a str>,
}

/// The symbol table of an executable.
#[derive(Clone, Debug)]
pub enum SymbolTable<'a> {
    /// The executable has no symbol table.
    Absent,
    /// A table of 32-bit entries: addresses take four bytes.
    Entries32(Vec<Symbol<'a>>),
    /// A table of 64-bit entries: addresses take eight bytes.
    Entries64(Vec<Symbol<'a>>),
    /// A section by the symbol table's name that holds neither of the two.
    Unrecognized,
}

/// The parts of an executable that the analysis works on.
#[derive(Clone, Debug)]
pub struct Executable<'a> {
    /// The symbol table.
    pub symbols: SymbolTable<'a>,
    /// The bytes of the stack-size section, where the executable has one.
    pub stack_sizes: Option<&'a [u8]>,
}

/// The characters of a name that is known to be there.
pub open spec fn name_of(symbol: Symbol) -> Seq<char> {
    symbol.name.unwrap()@
}

/// A function with a place in the executable: any function entry but the
/// one with neither an address nor a size.
pub open spec fn is_defined_function(symbol: Symbol) -> bool {
    symbol.kind == SymbolKind::Function && !(symbol.address == 0 && symbol.size == 0)
}

/// A function that is named and not placed: address 0 and size 0.
pub open spec fn is_undefined_function(symbol: Symbol) -> bool {
    symbol.kind == SymbolKind::Function && symbol.address == 0 && symbol.size == 0
}

/// A function entry whose name could not be read.
pub open spec fn is_unresolved_function(symbol: Symbol) -> bool {
    symbol.kind == SymbolKind::Function && symbol.name is None
}

/// An untyped entry that may be a further name of a function: its name
/// could be read and is no mapping tag.
pub open spec fn is_alias_candidate(symbol: Symbol) -> bool {
    symbol.kind == SymbolKind::Untyped && symbol.name is Some && !is_mapping_tag(name_of(symbol))
}

} // verus!
