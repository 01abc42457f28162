//! The result of an analysis: the functions of an executable, by address.

use vstd::prelude::*;
use std::collections::BTreeMap;
use crate::names::names_view;

verus! {

/// What is known of one function.
pub struct FunctionView {
    /// The names that the symbol table gives the function, in the order in
    /// which the table holds them, followed by its aliases.
    pub names: Seq<Seq<char>>,
    /// The number of bytes that the function's code takes.
    pub size: u64,
    /// The number of bytes of stack that the function needs, where a
    /// stack-size record says so.
    pub stack: Option<u64>,
}

/// A symbol that represents a function (subroutine).
#[derive(Clone, Debug)]
pub struct Function<'a> {
    names: Vec<&'a str>,
    size: u64,
    stack: Option<u64>,
}

impl<'a> View for Function<'a> {
    type V = FunctionView;

    closed spec fn view(&self) -> FunctionView {
        FunctionView { names: names_view(self.names@), size: self.size, stack: self.stack }
    }
}

impl<'a> Function<'a> {
    /// A function of `size` bytes that has no name and no stack figure yet.
    pub(crate) fn new(size: u64) -> (function: Function<'a>)
        ensures
            function@ == (FunctionView { names: Seq::empty(), size, stack: None }),
    {
        let function = Function { names: Vec::new(), size, stack: None };
        assert(names_view(function.names@) =~= Seq::empty());
        function
    }

    /// Adds `name` after the names that the function has.
    pub(crate) fn push_name(&mut self, name: &'a str)
        ensures
            final(self)@ == (FunctionView { names: old(self)@.names.push(name@), ..old(self)@ }),
    {
        self.names.push(name);
        assert(names_view(self.names@) =~= names_view(old(self).names@).push(name@));
    }

    /// Records the stack that the function needs.
    pub(crate) fn set_stack(&mut self, stack: u64)
        ensures
            final(self)@ == (FunctionView { stack: Some(stack), ..old(self)@ }),
    {
        self.stack = Some(stack);
    }

    /// Returns the (mangled) name of the function and its aliases
    pub fn names(&self) -> (names: &[&'a str])
        ensures
            names_view(names@) == self@.names,
    {
        self.names.as_slice()
    }

    /// Returns the size of this subroutine in bytes
    pub fn size(&self) -> (size: u64)
        ensures
            size == self@.size,
    {
        self.size
    }

    /// Returns the stack usage of the function in bytes
    pub fn stack(&self) -> (stack: Option<u64>)
        ensures
            stack == self@.stack,
    {
        self.stack
    }
}

/// What is known of each function of a map, under the same addresses.
pub open spec fn catalog_view(defined: Map<u64, Function>) -> Map<u64, FunctionView> {
    defined.map_values(|function: Function| function@)
}

/// The functions of an executable, as mathematical sets and maps.
pub struct FunctionsView {
    /// Whether addresses take four bytes rather than eight.
    pub have_32_bit_addresses: bool,
    /// The names of the functions that have no place in the executable.
    pub undefined: Set<Seq<char>>,
    /// The functions that have a place, by address.
    pub defined: Map<u64, FunctionView>,
}

/// Functions found after analyzing an executable
#[derive(Clone, Debug)]
pub struct Functions<'a> {
    /// Whether the addresses of these functions are 32-bit or 64-bit
    pub have_32_bit_addresses: bool,
    /// "undefined" symbols, symbols that need to be dynamically loaded.
    /// A set: no name stands in it twice.
    pub undefined: Vec<&'a str>,
    /// "defined" symbols, symbols with known locations (addresses)
    pub defined: BTreeMap<u64, Function<'a>>,
}

impl<'a> View for Functions<'a> {
    type V = FunctionsView;

    open spec fn view(&self) -> FunctionsView {
        FunctionsView {
            have_32_bit_addresses: self.have_32_bit_addresses,
            undefined: names_view(self.undefined@).to_set(),
            defined: catalog_view(self.defined@),
        }
    }
}

impl<'a> Functions<'a> {
    /// Whether the list of undefined names is a set: no name occurs twice.
    pub open spec fn wf(&self) -> bool {
        names_view(self.undefined@).no_duplicates()
    }
}

} // verus!
