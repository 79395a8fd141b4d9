//! The members written out as text, the way a set is shown: `{1, 2, 3}`, or
//! one member to a line.

use vstd::prelude::*;
use crate::bitmap::Bitmap;
use crate::model::ascending;

verus! {

/// `String::push` appends the given character to the end of the string.
pub assume_specification[ String::push ](text: &mut String, ch: char)
    ensures
        final(text)@ == old(text)@.push(ch),
;

/// The character that stands for a decimal digit.
pub open spec fn digit(d: nat) -> char {
    if d == 0 {
        '0'
    } else if d == 1 {
        '1'
    } else if d == 2 {
        '2'
    } else if d == 3 {
        '3'
    } else if d == 4 {
        '4'
    } else if d == 5 {
        '5'
    } else if d == 6 {
        '6'
    } else if d == 7 {
        '7'
    } else if d == 8 {
        '8'
    } else {
        '9'
    }
}

/// The decimal digits of `n`, the most significant first, without leading
/// zeros.
pub open spec fn decimal(n: nat) -> Seq<char>
    decreases n,
{
    if n < 10 {
        seq![digit(n)]
    } else {
        decimal(n / 10).push(digit(n % 10))
    }
}

/// What stands for one member in the text. On one line, members are parted
/// by a comma and a space; in the long form each has a line of its own,
/// indented by four spaces and closed by a comma.
pub open spec fn entry(item: u16, first: bool, pretty: bool) -> Seq<char> {
    if pretty {
        (if first {
            seq!['\n']
        } else {
            Seq::<char>::empty()
        }) + seq![' ', ' ', ' ', ' '] + decimal(item as nat) + seq![',', '\n']
    } else {
        (if first {
            Seq::<char>::empty()
        } else {
            seq![',', ' ']
        }) + decimal(item as nat)
    }
}

/// What stands for all of `items`, in their order.
pub open spec fn entries(items: Seq<u16>, pretty: bool) -> Seq<char>
    decreases items.len(),
{
    if items.len() == 0 {
        Seq::<char>::empty()
    } else {
        entries(items.drop_last(), pretty) + entry(items.last(), items.len() == 1, pretty)
    }
}

/// The text for `items`: their entries between braces.
pub open spec fn rendered(items: Seq<u16>, pretty: bool) -> Seq<char> {
    seq!['{'] + entries(items, pretty) + seq!['}']
}

fn digit_char(d: u16) -> (ch: char)
    requires
        d < 10,
    ensures
        ch == digit(d as nat),
{
    match d {
        0 => '0',
        1 => '1',
        2 => '2',
        3 => '3',
        4 => '4',
        5 => '5',
        6 => '6',
        7 => '7',
        8 => '8',
        _ => '9',
    }
}

/// Appends the decimal digits of `value`.
fn push_decimal(text: &mut String, value: u16)
    ensures
        final(text)@ == old(text)@ + decimal(value as nat),
{
    let ghost n = value as nat;
    proof {
        assert(n >= 10 ==> decimal(n) == decimal(n / 10).push(digit(n % 10)));
        assert(n >= 100 ==> decimal(n / 10) == decimal(n / 100).push(digit((n / 10) % 10)));
        assert(n >= 1000 ==> decimal(n / 100) == decimal(n / 1000).push(digit((n / 100) % 10)));
        assert(n >= 10000 ==> decimal(n / 1000) == decimal(n / 10000).push(
            digit((n / 1000) % 10),
        ));
        assert(n >= 10000 ==> decimal(n / 10000) == seq![digit(n / 10000)]);
    }
    if value >= 10000 {
        text.push(digit_char(value / 10000));
    }
    if value >= 1000 {
        text.push(digit_char((value / 1000) % 10));
    }
    if value >= 100 {
        text.push(digit_char((value / 100) % 10));
    }
    if value >= 10 {
        text.push(digit_char((value / 10) % 10));
    }
    text.push(digit_char(value % 10));
    assert(text@ =~= old(text)@ + decimal(n));
}

impl Bitmap {
    /// The members as text, smallest first, between braces: on one line,
    /// parted by commas, or, if `pretty`, one member to a line.
    pub fn fmt(&self, pretty: bool) -> (text: String)
        ensures
            text@ == rendered(ascending(self@, 65536), pretty),
    {
        let members = self.to_vec();
        let mut text = String::new();
        text.push('{');
        for index in 0..members.len()
            invariant
                text@ == seq!['{'] + entries(members@.take(index as int), pretty),
        {
            let ghost before = text@;
            proof {
                assert(members@.take(index + 1).drop_last() =~= members@.take(index as int));
            }
            if pretty {
                if index == 0 {
                    text.push('\n');
                }
                text.push(' ');
                text.push(' ');
                text.push(' ');
                text.push(' ');
            } else if index > 0 {
                text.push(',');
                text.push(' ');
            }
            push_decimal(&mut text, members[index]);
            if pretty {
                text.push(',');
                text.push('\n');
            }
            assert(text@ =~= before + entry(members@[index as int], index == 0, pretty));
        }
        proof {
            assert(members@.take(members@.len() as int) =~= members@);
        }
        text.push('}');
        text
    }
}

} // verus!
