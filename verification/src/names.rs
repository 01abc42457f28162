//! Lists of names, and lists that are sets of names.
//!
//! Two names are the same where they are made of the same characters. A
//! list of names is a set where no name is in it twice.

use vstd::prelude::*;
use vstd::utf8::{encode_utf8, encode_utf8_decode_utf8};

verus! {

/// The characters of each name of a list, in the list's order.
pub open spec fn names_view(names: Seq<&str>) -> Seq<Seq<char>> {
    names.map_values(|name: &str| name@)
}

/// Whether two names are made of the same characters.
pub fn same_name(left: &str, right: &str) -> (same: bool)
    ensures
        same == (left@ == right@),
{
    let a = left.as_bytes();
    let b = right.as_bytes();
    proof {
        encode_utf8_decode_utf8(left@);
        encode_utf8_decode_utf8(right@);
    }
    if a.len() != b.len() {
        return false;
    }
    let mut i: usize = 0;
    while i < a.len()
        invariant
            i <= a.len(),
            a.len() == b.len(),
            a@ == encode_utf8(left@),
            b@ == encode_utf8(right@),
            forall|k: int| 0 <= k < i ==> a@[k] == b@[k],
        decreases a.len() - i,
    {
        if a[i] != b[i] {
            return false;
        }
        i += 1;
    }
    assert(a@ =~= b@);
    true
}

/// Adds `name` to a set of names, unless a name of the same characters is
/// in it.
pub fn insert_name<'a>(names: &mut Vec<&'a str>, name: &'a str)
    requires
        names_view(old(names)@).no_duplicates(),
    ensures
        names_view(final(names)@).no_duplicates(),
        names_view(final(names)@).to_set() == names_view(old(names)@).to_set().insert(name@),
        names_view(old(names)@).contains(name@) ==> final(names)@ == old(names)@,
        !names_view(old(names)@).contains(name@) ==> final(names)@ == old(names)@.push(name),
{
    let ghost before = names_view(names@);
    let mut i: usize = 0;
    while i < names.len()
        invariant
            i <= names.len(),
            names == old(names),
            before == names_view(names@),
            before.no_duplicates(),
            forall|k: int| 0 <= k < i ==> before[k] != name@,
        decreases names.len() - i,
    {
        if same_name(names[i], name) {
            assert(before[i as int] == name@);
            assert(before.to_set().contains(name@));
            assert(before.to_set().insert(name@) =~= before.to_set());
            return ;
        }
        i += 1;
    }
    names.push(name);
    proof {
        assert(names_view(names@) =~= before.push(name@));
        before.lemma_push_to_set_commute(name@);
    }
}

} // verus!
