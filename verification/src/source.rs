//! Source names: which one stands for the standard input.

use vstd::prelude::*;
use vstd::string::*;

verus! {

/// The name that stands for the standard input.
pub open spec fn standard_input() -> Seq<char> {
    "-"@
}

/// Whether `name` stands for the standard input; every other name is the
/// path of a file.
pub fn is_standard_input(name: &str) -> (r: bool)
    ensures
        r == (name@ == standard_input()),
{
    proof {
        reveal_strlit("-");
    }
    if name.unicode_len() == 1 {
        let first = name.get_char(0);
        assert(first == '-' ==> name@ =~= standard_input());
        first == '-'
    } else {
        false
    }
}

} // verus!
