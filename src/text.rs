//! The text of node and edge labels.

use vstd::prelude::*;

verus! {

/// The decimal digit for `d`, for `d < 10`.
pub open spec fn digit_char(d: nat) -> char {
    if d == 0 { '0' }
    else if d == 1 { '1' }
    else if d == 2 { '2' }
    else if d == 3 { '3' }
    else if d == 4 { '4' }
    else if d == 5 { '5' }
    else if d == 6 { '6' }
    else if d == 7 { '7' }
    else if d == 8 { '8' }
    else { '9' }
}

/// `n` written in decimal, without leading zeros.
pub open spec fn decimal(n: nat) -> Seq<char>
    decreases n,
{
    if n < 10 {
        seq![digit_char(n)]
    } else {
        decimal(n / 10) + seq![digit_char(n % 10)]
    }
}

fn digit_str(d: usize) -> (r: &'static str)
    requires
        d < 10,
    ensures
        r@ == seq![digit_char(d as nat)],
{
    proof {
        reveal_strlit("0");
        reveal_strlit("1");
        reveal_strlit("2");
        reveal_strlit("3");
        reveal_strlit("4");
        reveal_strlit("5");
        reveal_strlit("6");
        reveal_strlit("7");
        reveal_strlit("8");
        reveal_strlit("9");
    }
    if d == 0 { "0" }
    else if d == 1 { "1" }
    else if d == 2 { "2" }
    else if d == 3 { "3" }
    else if d == 4 { "4" }
    else if d == 5 { "5" }
    else if d == 6 { "6" }
    else if d == 7 { "7" }
    else if d == 8 { "8" }
    else { "9" }
}

/// Writes `n` in decimal.
pub fn decimal_string(n: usize) -> (r: String)
    ensures
        r@ == decimal(n as nat),
    decreases n,
{
    if n < 10 {
        String::from_str(digit_str(n))
    } else {
        let mut s = decimal_string(n / 10);
        s.append(digit_str(n % 10));
        s
    }
}

/// `open` + `body` + `close`.
pub open spec fn wrapped(open: Seq<char>, body: Seq<char>, close: Seq<char>) -> Seq<char> {
    open + body + close
}

fn wrap(open: &str, body: &str, close: &str) -> (r: String)
    ensures
        r@ == wrapped(open@, body@, close@),
{
    let mut s = String::from_str(open);
    s.append(body);
    s.append(close);
    s
}

/// The label of a mapping node with `n` entries: `Map(n)`.
pub open spec fn map_label(n: nat) -> Seq<char> {
    wrapped("Map("@, decimal(n), ")"@)
}

/// The label of a sequence node with `n` elements: `Sequence(n)`.
pub open spec fn sequence_label(n: nat) -> Seq<char> {
    wrapped("Sequence("@, decimal(n), ")"@)
}

/// The label of the node that stands for position `i` of a sequence: `[i]`.
pub open spec fn index_label(i: nat) -> Seq<char> {
    wrapped("["@, decimal(i), "]"@)
}

/// The label of a tagged node: `Tagged(tag)`.
pub open spec fn tagged_label(tag: Seq<char>) -> Seq<char> {
    wrapped("Tagged("@, tag, ")"@)
}

/// The label of a string leaf: the string between double quotes.
pub open spec fn quoted_label(s: Seq<char>) -> Seq<char> {
    wrapped("\""@, s, "\""@)
}

pub fn make_map_label(n: usize) -> (r: String)
    ensures
        r@ == map_label(n as nat),
{
    let d = decimal_string(n);
    wrap("Map(", d.as_str(), ")")
}

pub fn make_sequence_label(n: usize) -> (r: String)
    ensures
        r@ == sequence_label(n as nat),
{
    let d = decimal_string(n);
    wrap("Sequence(", d.as_str(), ")")
}

pub fn make_index_label(i: usize) -> (r: String)
    ensures
        r@ == index_label(i as nat),
{
    let d = decimal_string(i);
    wrap("[", d.as_str(), "]")
}

pub fn make_tagged_label(tag: &str) -> (r: String)
    ensures
        r@ == tagged_label(tag@),
{
    wrap("Tagged(", tag, ")")
}

pub fn make_quoted_label(s: &str) -> (r: String)
    ensures
        r@ == quoted_label(s@),
{
    wrap("\"", s, "\"")
}

} // verus!
