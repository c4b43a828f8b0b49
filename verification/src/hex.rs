//! Hexadecimal rendering of byte strings, two digits per byte, high nibble
//! first.
use vstd::prelude::*;

verus! {

/// The lower-case hex digit of a nibble.
pub open spec fn hex_digit_lower(n: nat) -> char {
    if n < 10 {
        ((n + 48) as u32) as char
    } else {
        ((n + 87) as u32) as char
    }
}

/// The upper-case hex digit of a nibble.
pub open spec fn hex_digit_upper(n: nat) -> char {
    if n < 10 {
        ((n + 48) as u32) as char
    } else {
        ((n + 55) as u32) as char
    }
}

/// The lower-case hex rendering of `bytes`.
pub open spec fn hex_lower_spec(bytes: Seq<u8>) -> Seq<char>
    decreases bytes.len(),
{
    if bytes.len() == 0 {
        Seq::empty()
    } else {
        hex_lower_spec(bytes.drop_last()) + seq![
            hex_digit_lower((bytes.last() / 16) as nat),
            hex_digit_lower((bytes.last() % 16) as nat),
        ]
    }
}

/// The upper-case hex rendering of `bytes`.
pub open spec fn hex_upper_spec(bytes: Seq<u8>) -> Seq<char>
    decreases bytes.len(),
{
    if bytes.len() == 0 {
        Seq::empty()
    } else {
        hex_upper_spec(bytes.drop_last()) + seq![
            hex_digit_upper((bytes.last() / 16) as nat),
            hex_digit_upper((bytes.last() % 16) as nat),
        ]
    }
}

fn nibble_lower(n: u8) -> (r: char)
    requires
        n < 16,
    ensures
        r == hex_digit_lower(n as nat),
{
    match n {
        0 => '0',
        1 => '1',
        2 => '2',
        3 => '3',
        4 => '4',
        5 => '5',
        6 => '6',
        7 => '7',
        8 => '8',
        9 => '9',
        10 => 'a',
        11 => 'b',
        12 => 'c',
        13 => 'd',
        14 => 'e',
        _ => 'f',
    }
}

fn nibble_upper(n: u8) -> (r: char)
    requires
        n < 16,
    ensures
        r == hex_digit_upper(n as nat),
{
    match n {
        0 => '0',
        1 => '1',
        2 => '2',
        3 => '3',
        4 => '4',
        5 => '5',
        6 => '6',
        7 => '7',
        8 => '8',
        9 => '9',
        10 => 'A',
        11 => 'B',
        12 => 'C',
        13 => 'D',
        14 => 'E',
        _ => 'F',
    }
}

/// Lower-case hex encoding.
pub fn hex_lower(bytes: &[u8]) -> (r: String)
    ensures
        r@ == hex_lower_spec(bytes@),
{
    let mut out: Vec<char> = Vec::new();
    let mut i: usize = 0;
    while i < bytes.len()
        invariant
            i <= bytes@.len(),
            out@ == hex_lower_spec(bytes@.take(i as int)),
        decreases bytes@.len() - i,
    {
        let b = bytes[i];
        out.push(nibble_lower(b / 16));
        out.push(nibble_lower(b % 16));
        assert(bytes@.take(i as int + 1).drop_last() =~= bytes@.take(i as int));
        assert(out@ =~= hex_lower_spec(bytes@.take(i as int + 1)));
        i += 1;
    }
    assert(bytes@.take(i as int) =~= bytes@);
    crate::text::string_from_chars(&out)
}

/// Upper-case hex encoding.
pub fn hex_upper(bytes: &[u8]) -> (r: String)
    ensures
        r@ == hex_upper_spec(bytes@),
{
    let mut out: Vec<char> = Vec::new();
    let mut i: usize = 0;
    while i < bytes.len()
        invariant
            i <= bytes@.len(),
            out@ == hex_upper_spec(bytes@.take(i as int)),
        decreases bytes@.len() - i,
    {
        let b = bytes[i];
        out.push(nibble_upper(b / 16));
        out.push(nibble_upper(b % 16));
        assert(bytes@.take(i as int + 1).drop_last() =~= bytes@.take(i as int));
        assert(out@ =~= hex_upper_spec(bytes@.take(i as int + 1)));
        i += 1;
    }
    assert(bytes@.take(i as int) =~= bytes@);
    crate::text::string_from_chars(&out)
}

} // verus!
