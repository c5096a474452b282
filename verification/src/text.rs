//! Building the text of messages.
use vstd::prelude::*;

verus! {

/// `a` followed by `b`.
pub fn cat2(a: &str, b: &str) -> (joined: String)
    ensures
        joined@ == a@ + b@,
{
    let mut joined = a.to_owned();
    joined.append(b);
    joined
}

/// Three texts, one after the other.
pub fn cat3(a: &str, b: &str, c: &str) -> (joined: String)
    ensures
        joined@ == a@ + b@ + c@,
{
    let mut joined = cat2(a, b);
    joined.append(c);
    joined
}

/// Four texts, one after the other.
pub fn cat4(a: &str, b: &str, c: &str, d: &str) -> (joined: String)
    ensures
        joined@ == a@ + b@ + c@ + d@,
{
    let mut joined = cat3(a, b, c);
    joined.append(d);
    joined
}

/// Five texts, one after the other.
pub fn cat5(a: &str, b: &str, c: &str, d: &str, e: &str) -> (joined: String)
    ensures
        joined@ == a@ + b@ + c@ + d@ + e@,
{
    let mut joined = cat4(a, b, c, d);
    joined.append(e);
    joined
}

/// Six texts, one after the other.
pub fn cat6(a: &str, b: &str, c: &str, d: &str, e: &str, f: &str) -> (joined: String)
    ensures
        joined@ == a@ + b@ + c@ + d@ + e@ + f@,
{
    let mut joined = cat5(a, b, c, d, e);
    joined.append(f);
    joined
}

/// How a truth value is written.
pub open spec fn bool_text(value: bool) -> Seq<char> {
    if value {
        "true"@
    } else {
        "false"@
    }
}

/// Writes a truth value.
pub fn write_bool(value: bool) -> (text: &'static str)
    ensures
        text@ == bool_text(value),
{
    if value {
        "true"
    } else {
        "false"
    }
}

/// The character of a decimal digit.
pub open spec fn digit(d: nat) -> char {
    ('0' as int + d) as char
}

/// A number in decimal notation, without leading zeros.
pub open spec fn decimal(n: nat) -> Seq<char>
    decreases n,
{
    if n < 10 {
        seq![digit(n)]
    } else {
        decimal(n / 10).push(digit(n % 10))
    }
}

fn write_digit(d: u8) -> (text: &'static str)
    requires
        d < 10,
    ensures
        text@ == seq![digit(d as nat)],
{
    proof {
        reveal_strlit("0");
        reveal_strlit("1");
        reveal_strlit("2");
        reveal_strlit("3");
        reveal_strlit("4");
        reveal_strlit("5");
        reveal_strlit("6");
        reveal_strlit("7");
        reveal_strlit("8");
        reveal_strlit("9");
    }
    match d {
        0 => "0",
        1 => "1",
        2 => "2",
        3 => "3",
        4 => "4",
        5 => "5",
        6 => "6",
        7 => "7",
        8 => "8",
        _ => "9",
    }
}

/// Writes a number in decimal notation.
pub fn write_decimal(n: u8) -> (text: String)
    ensures
        text@ == decimal(n as nat),
    decreases n,
{
    if n < 10 {
        write_digit(n).to_owned()
    } else {
        let mut text = write_decimal(n / 10);
        let ghost leading = text@;
        text.append(write_digit(n % 10));
        assert(text@ =~= leading.push(digit((n % 10) as nat)));
        text
    }
}

/// A text in double quotes, with the characters escaped that a Rust string literal would
/// escape: what `{:?}` makes of it.
pub uninterp spec fn quoted(text: Seq<char>) -> Seq<char>;

/// Quotes a text by `std::fmt::Debug` of `str`. What the formatted text is depends on
/// nothing but the characters of `text`; which of them are escaped, and how, is left to the
/// standard library.
#[verifier::external_body]
pub(crate) fn write_quoted(text: &str) -> (written: String)
    ensures
        written@ == quoted(text@),
{
    format!("{:?}", text)
}

/// The items one after the other, with `separator` between each two.
pub open spec fn joined(items: Seq<Seq<char>>, separator: Seq<char>) -> Seq<char>
    decreases items.len(),
{
    if items.len() == 0 {
        Seq::empty()
    } else if items.len() == 1 {
        items[0]
    } else {
        joined(items.drop_last(), separator) + separator + items.last()
    }
}

/// A list as `{:?}` writes it, of items that are written already.
pub open spec fn list_text(items: Seq<Seq<char>>) -> Seq<char> {
    "["@ + joined(items, ", "@) + "]"@
}

/// Writes a list of items that are written already.
pub fn write_list(items: &Vec<String>) -> (text: String)
    ensures
        text@ == list_text(items.deep_view()),
{
    let ghost all = items.deep_view();
    let mut inner = String::new();
    for i in 0..items.len()
        invariant
            all == items.deep_view(),
            inner@ == joined(all.take(i as int), ", "@),
    {
        let ghost before = inner@;
        if i > 0 {
            inner.append(", ");
        }
        inner.append(items[i].as_str());
        proof {
            let next = all.take(i + 1);
            assert(next.drop_last() =~= all.take(i as int));
            assert(next.last() == items[i as int]@);
            if i == 0 {
                assert(inner@ =~= next[0]);
            }
        }
    }
    assert(all.take(items.len() as int) =~= all);
    cat3("[", inner.as_str(), "]")
}

/// A list of names as `{:?}` writes it.
pub open spec fn names_text(names: Seq<Seq<char>>) -> Seq<char> {
    list_text(names.map_values(|name: Seq<char>| quoted(name)))
}

/// Writes a list of names, each of them quoted.
pub fn write_names(names: &Vec<String>) -> (text: String)
    ensures
        text@ == names_text(names.deep_view()),
{
    let mut items: Vec<String> = Vec::new();
    for i in 0..names.len()
        invariant
            items.len() == i,
            forall|j: int| 0 <= j < i ==> #[trigger] items@[j]@ == quoted(names@[j]@),
    {
        items.push(write_quoted(names[i].as_str()));
    }
    assert(items.deep_view() =~= names.deep_view().map_values(|name: Seq<char>| quoted(name)));
    write_list(&items)
}

} // verus!
