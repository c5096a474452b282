//! Laws about how values are written.
use vstd::prelude::*;

use crate::text::{bool_text, decimal, joined, list_text, names_text, quoted};

verus! {

/// A truth value is written as `true` if and only if it is true, and as `false` if and only if it
/// is not.
pub proof fn law_truth_values(value: bool)
    ensures
        value <==> bool_text(value) == "true"@,
        !value <==> bool_text(value) == "false"@,
{
    reveal_strlit("true");
    reveal_strlit("false");
    assert("true"@.len() == 4 && "false"@.len() == 5);
}

/// The number that some decimal digits stand for.
pub open spec fn value_of(text: Seq<char>) -> int
    decreases text.len(),
{
    if text.len() == 0 {
        0
    } else {
        10 * value_of(text.drop_last()) + (text.last() as int - '0' as int)
    }
}

/// A number is written with decimal digits that stand for it, without a leading zero.
pub proof fn law_decimal(n: nat)
    ensures
        decimal(n).len() > 0,
        forall|i: int| 0 <= i < decimal(n).len() ==> '0' <= #[trigger] decimal(n)[i] <= '9',
        decimal(n).len() > 1 ==> decimal(n)[0] != '0',
        n > 0 ==> decimal(n)[0] != '0',
        value_of(decimal(n)) == n,
    decreases n,
{
    if n >= 10 {
        law_decimal(n / 10);
        assert(decimal(n).drop_last() =~= decimal(n / 10));
        assert(decimal(n)[0] == decimal(n / 10)[0]);
    } else {
        reveal_with_fuel(value_of, 2);
        assert(decimal(n).drop_last() =~= Seq::empty());
    }
}

/// Different numbers are written differently.
pub proof fn law_decimals_differ(m: nat, n: nat)
    ensures
        decimal(m) == decimal(n) <==> m == n,
{
    law_decimal(m);
    law_decimal(n);
}

/// Joining one text gives the text; joining two lists gives both, with a separator between them if
/// neither is empty.
pub proof fn law_joined(a: Seq<Seq<char>>, b: Seq<Seq<char>>, item: Seq<char>, separator: Seq<char>)
    ensures
        joined(Seq::empty(), separator) == Seq::<char>::empty(),
        joined(seq![item], separator) == item,
        a.len() > 0 && b.len() > 0 ==> joined(a + b, separator) == joined(a, separator) + separator
            + joined(b, separator),
    decreases b.len(),
{
    if a.len() > 0 && b.len() > 0 {
        let rest = b.drop_last();
        assert((a + b).drop_last() =~= a + rest);
        assert((a + b).last() == b.last());
        if rest.len() == 0 {
            assert(a + rest =~= a);
            assert(b[0] == b.last());
        } else {
            law_joined(a, rest, item, separator);
            assert(joined(a + b, separator) =~= joined(a, separator) + separator + joined(
                b,
                separator,
            ));
        }
    }
}

/// A list stands in square brackets, with a comma and a space between its items; a list of names
/// has the quoted names as its items, in their order.
pub proof fn law_lists(items: Seq<Seq<char>>, names: Seq<Seq<char>>)
    ensures
        list_text(items) == "["@ + joined(items, ", "@) + "]"@,
        names_text(names) == "["@ + joined(
            Seq::new(names.len(), |i: int| quoted(names[i])),
            ", "@,
        ) + "]"@,
{
    assert(names.map_values(|name: Seq<char>| quoted(name)) =~= Seq::new(
        names.len(),
        |i: int| quoted(names[i]),
    ));
}

} // verus!
