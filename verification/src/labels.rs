//! Option labels ("A" to "Z") and option ids ("opt_0", "opt_1", ...).
use vstd::prelude::*;
use vstd::string::*;
use crate::text::{decimal, digit_char};

verus! {

/// Number of option labels: the letters "A" to "Z".
pub const LABEL_COUNT: usize = 26;

/// The label of the option at index `i`: the `i`-th capital letter.
pub open spec fn label_text(i: nat) -> Seq<char> {
    seq![((65 + i) as u32) as char]
}

/// The id of the option at index `i`: "opt_" followed by `i` in decimal.
pub open spec fn option_id_text(i: nat) -> Seq<char> {
    "opt_"@ + decimal(i)
}

fn letter(i: usize) -> (s: &'static str)
    requires
        i < LABEL_COUNT,
    ensures
        s@ == label_text(i as nat),
{
    proof {
        reveal_strlit("A");
        reveal_strlit("B");
        reveal_strlit("C");
        reveal_strlit("D");
        reveal_strlit("E");
        reveal_strlit("F");
        reveal_strlit("G");
        reveal_strlit("H");
        reveal_strlit("I");
        reveal_strlit("J");
        reveal_strlit("K");
        reveal_strlit("L");
        reveal_strlit("M");
        reveal_strlit("N");
        reveal_strlit("O");
        reveal_strlit("P");
        reveal_strlit("Q");
        reveal_strlit("R");
        reveal_strlit("S");
        reveal_strlit("T");
        reveal_strlit("U");
        reveal_strlit("V");
        reveal_strlit("W");
        reveal_strlit("X");
        reveal_strlit("Y");
        reveal_strlit("Z");
    }
    match i {
        0 => "A",
        1 => "B",
        2 => "C",
        3 => "D",
        4 => "E",
        5 => "F",
        6 => "G",
        7 => "H",
        8 => "I",
        9 => "J",
        10 => "K",
        11 => "L",
        12 => "M",
        13 => "N",
        14 => "O",
        15 => "P",
        16 => "Q",
        17 => "R",
        18 => "S",
        19 => "T",
        20 => "U",
        21 => "V",
        22 => "W",
        23 => "X",
        24 => "Y",
        25 => "Z",
        _ => "Z",
    }
}

/// The label of the option at index `i`.
pub fn option_label(i: usize) -> (s: String)
    requires
        i < LABEL_COUNT,
    ensures
        s@ == label_text(i as nat),
{
    String::from_str(letter(i))
}

fn digit(d: usize) -> (s: &'static str)
    requires
        d < 10,
    ensures
        s@ == seq![digit_char(d as nat)],
{
    proof {
        reveal_strlit("0");
        reveal_strlit("1");
        reveal_strlit("2");
        reveal_strlit("3");
        reveal_strlit("4");
        reveal_strlit("5");
        reveal_strlit("6");
        reveal_strlit("7");
        reveal_strlit("8");
        reveal_strlit("9");
    }
    match d {
        0 => "0",
        1 => "1",
        2 => "2",
        3 => "3",
        4 => "4",
        5 => "5",
        6 => "6",
        7 => "7",
        8 => "8",
        9 => "9",
        _ => "9",
    }
}

/// Appends the decimal spelling of `n`.
pub fn push_decimal(s: &mut String, n: usize)
    ensures
        final(s)@ == old(s)@ + decimal(n as nat),
    decreases n,
{
    if n < 10 {
        s.append(digit(n));
        assert(decimal(n as nat) == seq![digit_char(n as nat)]);
    } else {
        push_decimal(s, n / 10);
        s.append(digit(n % 10));
        assert(decimal(n as nat) == decimal((n / 10) as nat).push(digit_char((n % 10) as nat)));
        assert(old(s)@ + decimal((n / 10) as nat) + seq![digit_char((n % 10) as nat)] =~= old(s)@
            + decimal(n as nat));
    }
}

/// The id of the option at index `i`.
pub fn option_id(i: usize) -> (s: String)
    ensures
        s@ == option_id_text(i as nat),
{
    let mut s = String::from_str("opt_");
    push_decimal(&mut s, i);
    s
}

} // verus!
