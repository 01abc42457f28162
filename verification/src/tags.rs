//! Mapping tags: the untyped symbols `$a`, `$t` and `$d`, with or without a
//! numeric suffix, by which some instruction sets mark where code of one
//! kind ends and code of another kind, or data, begins.

use vstd::prelude::*;
use vstd::string::*;
use vstd::utf8::is_ascii_chars;

verus! {

/// Whether `c` is one of the decimal digits `0` to `9`.
pub open spec fn is_decimal_digit(c: char) -> bool {
    '0' <= c <= '9'
}

/// Whether `name` is a mapping tag: `$a`, `$t` or `$d`, alone or followed
/// by a dot and one or more decimal digits.
pub open spec fn is_mapping_tag(name: Seq<char>) -> bool {
    &&& name.len() >= 2
    &&& name[0] == '$'
    &&& (name[1] == 'a' || name[1] == 't' || name[1] == 'd')
    &&& (name.len() == 2 || {
        &&& name.len() >= 4
        &&& name[2] == '.'
        &&& forall|i: int| 3 <= i < name.len() ==> is_decimal_digit(#[trigger] name[i])
    })
}

/// A mapping tag is made of ASCII characters only.
pub proof fn lemma_mapping_tag_is_ascii(name: Seq<char>)
    requires
        is_mapping_tag(name),
    ensures
        is_ascii_chars(name),
{
    assert forall|i: int| 0 <= i < name.len() implies '\0' <= #[trigger] name[i] <= '\u{7f}' by {
        if i >= 3 {
            assert(is_decimal_digit(name[i]));
        }
    }
}

/// Is this symbol a tag that delimits code and data within a subroutine?
pub fn is_tag(name: &str) -> (tag: bool)
    ensures
        tag == is_mapping_tag(name@),
{
    if !name.is_ascii() {
        proof {
            if is_mapping_tag(name@) {
                lemma_mapping_tag_is_ascii(name@);
            }
        }
        return false;
    }
    let bytes = name.as_bytes();
    proof {
        is_ascii_spec_bytes(name);
    }
    let n = bytes.len();
    if n < 2 || bytes[0] != 0x24 || !(bytes[1] == 0x61 || bytes[1] == 0x74 || bytes[1] == 0x64) {
        return false;
    }
    if n == 2 {
        return true;
    }
    if n < 4 || bytes[2] != 0x2e {
        return false;
    }
    let mut i: usize = 3;
    while i < n
        invariant
            3 <= i <= n,
            n == name@.len(),
            bytes@.len() == n,
            is_ascii_chars(name@),
            forall|k: int| 0 <= k < n ==> bytes@[k] == (#[trigger] name@[k]) as u8,
            forall|k: int| 3 <= k < i ==> is_decimal_digit(#[trigger] name@[k]),
        decreases n - i,
    {
        if bytes[i] < 0x30 || bytes[i] > 0x39 {
            assert(!is_decimal_digit(name@[i as int]));
            return false;
        }
        i += 1;
    }
    true
}

} // verus!
