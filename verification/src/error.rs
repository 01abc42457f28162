//! The ways in which an analysis can fail.

use vstd::prelude::*;

verus! {

/// A section of the executable that the analysis reads.
#[derive(Clone, Copy, Debug, PartialEq, Eq, Structural)]
pub enum Section {
    /// The symbol table, `.symtab`.
    SymbolTable,
    /// The stack-size records, `.stack_sizes`.
    StackSizes,
}

/// Why an executable could not be analysed.
///
/// An error ends the analysis: no part of a catalog is handed out beside it.
#[derive(Clone, Copy, Debug, PartialEq, Eq, Structural)]
pub enum AnalysisError {
    /// A section does not hold what its format asks for. `offset` is the
    /// position in the section of the first byte that could not be made
    /// sense of: the start of the record that is cut short or too large,
    /// or 0 where the section as a whole is of the wrong kind.
    MalformedInput { section: Section, offset: usize },
    /// The symbol at `index` of the symbol table stands for a function, and
    /// its name could not be read from the string table.
    UnresolvedName { index: usize },
}

impl Section {
    /// The name under which the section is looked up in the executable.
    pub fn name(&self) -> (name: &'static str)
        ensures
            name@ == section_name(*self),
    {
        match self {
            Section::SymbolTable => ".symtab",
            Section::StackSizes => ".stack_sizes",
        }
    }
}

/// The name of each section, as the executable's section table spells it.
pub open spec fn section_name(section: Section) -> Seq<char> {
    match section {
        Section::SymbolTable => ".symtab"@,
        Section::StackSizes => ".stack_sizes"@,
    }
}

} // verus!
