//! The report: one row per defined function, the largest stack first.
//!
//! A row holds the function's names in readable form, the size of its code
//! and the stack that it needs, 0 where no figure is known. Names are made
//! readable by the `rustc-demangle` crate, which the function `demangle`
//! calls; what that crate returns is given a name here, `demangled`, and
//! nothing is claimed of it beyond that it depends on the symbol alone.

use vstd::prelude::*;
use vstd::string::*;
use vstd::std_specs::btree::axiom_spec_keys_iter;
use vstd::std_specs::iter::IteratorSpec;
use crate::catalog::{catalog_view, Function, FunctionView, Functions};
use crate::names::names_view;
use crate::sequences::{lemma_filter_step, lemma_insert, lemma_take_contains};

verus! {

/// The readable form that `rustc_demangle::demangle` gives a symbol name.
pub uninterp spec fn demangled(name: Seq<char>) -> Seq<char>;

/// Makes a symbol name readable with `rustc_demangle::demangle`, written
/// out through its `Display`. The contract names the text that comes back
/// and states nothing else of it.
#[verifier::external_body]
pub(crate) fn demangle(name: &str) -> (text: String)
    ensures
        text@ == demangled(name@),
{
    format!("{}", rustc_demangle::demangle(name))
}

/// One row of the report, as plain values.
pub struct RowView {
    /// The function's names in readable form, with one space between them.
    pub name: Seq<char>,
    /// The number of bytes that the function's code takes.
    pub code_size: u64,
    /// The number of bytes of stack that the function needs; 0 where that
    /// is not known.
    pub stack_size: u64,
}

/// One row of the report.
#[derive(Clone, Debug, PartialEq, Eq)]
pub struct Row {
    /// The function's names in readable form, with one space between them.
    pub name: String,
    /// The number of bytes that the function's code takes.
    pub code_size: u64,
    /// The number of bytes of stack that the function needs; 0 where that
    /// is not known.
    pub stack_size: u64,
}

impl View for Row {
    type V = RowView;

    open spec fn view(&self) -> RowView {
        RowView { name: self.name@, code_size: self.code_size, stack_size: self.stack_size }
    }
}

/// The rows of a list, as plain values.
pub open spec fn rows_view(rows: Seq<Row>) -> Seq<RowView> {
    rows.map_values(|row: Row| row@)
}

/// The characters of each string of a list.
pub open spec fn strings_view(strings: Seq<String>) -> Seq<Seq<char>> {
    strings.map_values(|string: String| string@)
}

/// The `parts` one after the other, with one space between each two.
pub open spec fn joined(parts: Seq<Seq<char>>) -> Seq<char>
    decreases parts.len(),
{
    if parts.len() == 0 {
        Seq::empty()
    } else if parts.len() == 1 {
        parts[0]
    } else {
        joined(parts.drop_last()) + seq![' '] + parts.last()
    }
}

/// The names that a row shows: those that are not empty, each in readable
/// form.
pub open spec fn shown_names(names: Seq<Seq<char>>) -> Seq<Seq<char>> {
    names.filter(|name: Seq<char>| name.len() > 0).map_values(|name: Seq<char>| demangled(name))
}

/// The row that the report has for a function.
pub open spec fn row_of(function: FunctionView) -> RowView {
    RowView {
        name: joined(shown_names(function.names)),
        code_size: function.size,
        stack_size: match function.stack {
            Some(stack) => stack,
            None => 0,
        },
    }
}

/// Whether no row needs more stack than a row before it.
pub open spec fn sorted_by_stack(rows: Seq<RowView>) -> bool {
    forall|i: int, j: int| 0 <= i < j < rows.len() ==> rows[i].stack_size >= rows[j].stack_size
}

/// Where a row of `stack_size` goes among `rows`: behind the rows at the
/// front that need as much stack or more.
pub open spec fn place_of(rows: Seq<RowView>, stack_size: u64) -> int
    decreases rows.len(),
{
    if rows.len() == 0 || rows[0].stack_size < stack_size {
        0
    } else {
        1 + place_of(rows.drop_first(), stack_size)
    }
}

/// Whether the report for `min_stack` and above has a row for the function
/// at `address`: there is such a function, and it needs that much stack.
pub open spec fn is_shown(defined: Map<u64, FunctionView>, min_stack: u64, address: u64) -> bool {
    defined.contains_key(address) && row_of(defined[address]).stack_size >= min_stack
}

/// Whether `rows` are the report on the functions `defined`, for the stack
/// size `min_stack` and above: the largest stack first, and one row for
/// each function that needs as much as `min_stack`, and for no other.
/// `addresses` says which function each row is for.
pub open spec fn is_report_for(
    defined: Map<u64, FunctionView>,
    min_stack: u64,
    rows: Seq<RowView>,
    addresses: Seq<u64>,
) -> bool {
    &&& sorted_by_stack(rows)
    &&& addresses.len() == rows.len()
    &&& addresses.no_duplicates()
    &&& forall|address: u64|
        #![trigger addresses.contains(address)]
        #![trigger is_shown(defined, min_stack, address)]
        addresses.contains(address) <==> is_shown(defined, min_stack, address)
    &&& forall|i: int|
        0 <= i < rows.len() ==> rows[i] == row_of(defined[#[trigger] addresses[i]])
}

/// Whether `rows` are the report on the functions `defined`, for the stack
/// size `min_stack` and above. The order among rows of one stack size is
/// left open.
pub open spec fn is_report(defined: Map<u64, FunctionView>, min_stack: u64, rows: Seq<RowView>) -> bool {
    exists|addresses: Seq<u64>| is_report_for(defined, min_stack, rows, addresses)
}

/// Joins `parts` into one string, with one space between each two.
pub fn join_names(parts: &Vec<String>) -> (text: String)
    ensures
        text@ == joined(strings_view(parts@)),
{
    let mut text = String::new();
    let mut i: usize = 0;
    while i < parts.len()
        invariant
            i <= parts.len(),
            text@ == joined(strings_view(parts@).take(i as int)),
        decreases parts.len() - i,
    {
        let ghost all = strings_view(parts@);
        proof {
            assert(all.take(i + 1).drop_last() =~= all.take(i as int));
            reveal_strlit(" ");
            assert(" "@ =~= seq![' ']);
            if i == 0 {
                assert(text@ + all[0] =~= all[0]);
            }
        }
        if i > 0 {
            text.append(" ");
        }
        text.append(parts[i].as_str());
        i += 1;
    }
    assert(strings_view(parts@).take(parts.len() as int) =~= strings_view(parts@));
    text
}

/// Filtering and rewriting one name more of a list.
proof fn lemma_shown_step(names: Seq<Seq<char>>, upto: int)
    requires
        0 <= upto < names.len(),
    ensures
        shown_names(names.take(upto + 1)) == if names[upto].len() > 0 {
            shown_names(names.take(upto)).push(demangled(names[upto]))
        } else {
            shown_names(names.take(upto))
        },
{
    let keep = |name: Seq<char>| name.len() > 0;
    lemma_filter_step(names, upto, keep);
    if names[upto].len() > 0 {
        assert(names.take(upto).filter(keep).push(names[upto]).map_values(
            |name: Seq<char>| demangled(name),
        ) =~= shown_names(names.take(upto)).push(demangled(names[upto])));
    }
}

/// Makes the row of the report for `function`.
pub fn report_row<'a>(function: &Function<'a>) -> (row: Row)
    ensures
        row@ == row_of(function@),
{
    let names = function.names();
    let ghost all = names_view(names@);
    let mut parts: Vec<String> = Vec::new();
    let mut i: usize = 0;
    proof {
        reveal(Seq::filter);
        assert(all.take(0) =~= Seq::<Seq<char>>::empty());
        assert(strings_view(parts@) =~= shown_names(all.take(0)));
    }
    while i < names.len()
        invariant
            i <= names.len(),
            all == names_view(names@),
            strings_view(parts@) == shown_names(all.take(i as int)),
        decreases names.len() - i,
    {
        let name = names[i];
        proof {
            lemma_shown_step(all, i as int);
        }
        if !name.is_empty() {
            let ghost before = strings_view(parts@);
            let text = demangle(name);
            parts.push(text);
            assert(strings_view(parts@) =~= before.push(demangled(name@)));
        }
        i += 1;
    }
    assert(all.take(names.len() as int) =~= all);
    let name = join_names(&parts);
    let stack_size = match function.stack() {
        Some(stack) => stack,
        None => 0,
    };
    Row { name, code_size: function.size(), stack_size }
}

/// The place of a row is behind rows that need as much stack or more, and
/// in front of one that needs less.
pub proof fn lemma_place_of(rows: Seq<RowView>, stack_size: u64)
    ensures
        0 <= place_of(rows, stack_size) <= rows.len(),
        forall|i: int|
            0 <= i < place_of(rows, stack_size) ==> (#[trigger] rows[i]).stack_size >= stack_size,
        place_of(rows, stack_size) < rows.len() ==> rows[place_of(rows, stack_size)].stack_size
            < stack_size,
    decreases rows.len(),
{
    if rows.len() != 0 && rows[0].stack_size >= stack_size {
        lemma_place_of(rows.drop_first(), stack_size);
        let rest = rows.drop_first();
        assert forall|i: int| 0 <= i < place_of(rows, stack_size) implies (#[trigger] rows[i]).stack_size
            >= stack_size by {
            if i > 0 {
                assert(rows[i] == rest[i - 1]);
            }
        }
    }
}

/// Puts `row` into rows that are in order of stack size, the largest
/// first: behind the rows that need as much stack or more, so that the
/// rows stay in order.
pub fn insert_row(rows: &mut Vec<Row>, row: Row)
    requires
        sorted_by_stack(rows_view(old(rows)@)),
    ensures
        rows_view(final(rows)@) == rows_view(old(rows)@).insert(
            place_of(rows_view(old(rows)@), row.stack_size),
            row@,
        ),
        sorted_by_stack(rows_view(final(rows)@)),
{
    let ghost before = rows_view(rows@);
    let mut position: usize = 0;
    proof {
        lemma_place_of(before, row.stack_size);
        assert(before.skip(0) =~= before);
    }
    while position < rows.len() && rows[position].stack_size >= row.stack_size
        invariant
            position <= rows.len(),
            rows == old(rows),
            before == rows_view(rows@),
            place_of(before, row.stack_size) == position + place_of(
                before.skip(position as int),
                row.stack_size,
            ),
        decreases rows.len() - position,
    {
        proof {
            assert(before.skip(position as int).drop_first() =~= before.skip(position + 1));
            assert(before.skip(position as int)[0] == before[position as int]);
        }
        position += 1;
    }
    proof {
        if position < rows.len() {
            assert(before.skip(position as int)[0] == before[position as int]);
        }
        assert(place_of(before, row.stack_size) == position);
    }
    let ghost shown = row@;
    rows.insert(position, row);
    proof {
        assert(rows_view(rows@) =~= before.insert(position as int, shown));
        let after = before.insert(position as int, shown);
        assert forall|i: int, j: int| 0 <= i < j < after.len() implies after[i].stack_size
            >= after[j].stack_size by {
            if i < position && j > position {
                assert(after[i] == before[i]);
                assert(after[j] == before[j - 1]);
            } else if j > position && i > position {
                assert(after[i] == before[i - 1]);
                assert(after[j] == before[j - 1]);
            }
        }
    }
}

/// Makes the report on `functions`: a row for each defined function that
/// needs `min_stack` bytes of stack or more, the largest stack first. A
/// function of which no stack size is known counts as needing none.
///
/// In which order rows of one stack size come is not promised.
pub fn report<'a>(functions: &Functions<'a>, min_stack: u64) -> (rows: Vec<Row>)
    ensures
        is_report(functions@.defined, min_stack, rows_view(rows@)),
{
    let mut rows: Vec<Row> = Vec::new();
    let ghost mut placed: Seq<u64> = Seq::empty();
    let ghost catalog = catalog_view(functions.defined@);
    let keys = functions.defined.keys();
    proof {
        axiom_spec_keys_iter(&functions.defined);
    }
    let ghost all = functions.defined.keys().remaining().unref();
    proof {
        assert(all.take(0) =~= Seq::<u64>::empty());
        assert(rows_view(rows@) =~= Seq::<RowView>::empty());
        assert(all.no_duplicates());
    }
    for key in it: keys
        invariant
            it.seq() == functions.defined.keys().remaining(),
            all == it.seq().unref(),
            all.no_duplicates(),
            all.to_set() == functions.defined@.dom(),
            catalog == catalog_view(functions.defined@),
            sorted_by_stack(rows_view(rows@)),
            placed.len() == rows.len(),
            placed.no_duplicates(),
            forall|address: u64| #[trigger]
                placed.contains(address) <==> all.take(it.index()).contains(address) && is_shown(
                    catalog,
                    min_stack,
                    address,
                ),
            forall|i: int|
                0 <= i < rows.len() ==> rows_view(rows@)[i] == row_of(
                    catalog[#[trigger] placed[i]],
                ),
    {
        let ghost index = it.index();
        let ghost address = *key;
        let ghost before = rows_view(rows@);
        let ghost placed_before = placed;
        proof {
            assert(all[index] == address);
            assert(all.to_set().contains(address));
            lemma_take_contains(all, index);
        }
        let found = functions.defined.get(key);
        assert(found is Some);
        if let Some(function) = found {
            let row = report_row(function);
            assert(row@ == row_of(catalog[address]));
            if row.stack_size >= min_stack {
                let ghost place = place_of(before, row.stack_size);
                let ghost shown = row@;
                proof {
                    lemma_place_of(before, row.stack_size);
                    lemma_insert(placed_before, place, address);
                    lemma_insert(before, place, shown);
                }
                insert_row(&mut rows, row);
                proof {
                    placed = placed_before.insert(place, address);
                    let after = rows_view(rows@);
                    assert(after.len() == rows.len());
                    assert(after == before.insert(place, shown));
                    assert forall|i: int| 0 <= i < rows.len() implies after[i] == row_of(
                        catalog[#[trigger] placed[i]],
                    ) by {
                        if i < place {
                            assert(placed[i] == placed_before[i]);
                            assert(after[i] == before[i]);
                        } else if i > place {
                            assert(placed[i] == placed_before[i - 1]);
                            assert(after[i] == before[i - 1]);
                        }
                    }
                }
            }
        }
    }
    proof {
        assert(all.take(all.len() as int) =~= all);
        assert forall|address: u64|
            #![trigger placed.contains(address)]
            #![trigger is_shown(catalog, min_stack, address)]
            placed.contains(address) <==> is_shown(catalog, min_stack, address) by {
            assert(all.contains(address) <==> all.to_set().contains(address));
        }
        assert(is_report_for(functions@.defined, min_stack, rows_view(rows@), placed));
    }
    rows
}

} // verus!
