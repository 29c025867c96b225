//! Human-readable descriptions of codepoint sequences, with the Unicode name of each codepoint.
use crate::chars::push_char;
use vstd::prelude::*;
use vstd::string::*;

verus! {

/// The Unicode name that `charname` gives a codepoint.
pub uninterp spec fn char_name_of(codepoint: u32) -> Seq<char>;

/// Relies on `charname::get_name`: the Unicode name of a codepoint, or the name of its range, or
/// a fixed placeholder; it depends on the codepoint alone.
#[verifier::external_body]
fn char_name(codepoint: u32) -> (r: &'static str)
    ensures
        r@ == char_name_of(codepoint),
{
    charname::get_name(codepoint)
}

/// The lowercase hexadecimal digit of `d`.
pub open spec fn hex_digit_char(d: u32) -> char {
    match d {
        0 => '0',
        1 => '1',
        2 => '2',
        3 => '3',
        4 => '4',
        5 => '5',
        6 => '6',
        7 => '7',
        8 => '8',
        9 => '9',
        10 => 'a',
        11 => 'b',
        12 => 'c',
        13 => 'd',
        14 => 'e',
        _ => 'f',
    }
}

/// The lowercase hexadecimal digits of `v`, without leading zeros.
pub open spec fn hex_digits(v: u32) -> Seq<char>
    decreases v,
{
    if v < 16 {
        seq![hex_digit_char(v)]
    } else {
        hex_digits(v / 16).push(hex_digit_char(v % 16))
    }
}

/// The description of one character with the given name: `'c' (U+hex, name)`.
pub open spec fn char_info_of(c: char, name: Seq<char>) -> Seq<char> {
    seq!['\'', c, '\'', ' ', '(', 'U', '+'] + hex_digits(c as u32) + seq![',', ' '] + name + seq![')']
}

/// The descriptions of the characters of `s`, one per line, each after the first preceded by
/// ` + `.
pub open spec fn seq_info_of(s: Seq<char>) -> Seq<char>
    decreases s.len(),
{
    if s.len() <= 1 {
        if s.len() == 1 {
            char_info_of(s[0], char_name_of(s[0] as u32))
        } else {
            seq![]
        }
    } else {
        seq_info_of(s.drop_last()) + seq!['\n', ' ', '+', ' '] + char_info_of(s.last(), char_name_of(s.last() as u32))
    }
}

fn hex_digit(d: u32) -> (r: char)
    requires
        d < 16,
    ensures
        r == hex_digit_char(d),
{
    match d {
        0 => '0',
        1 => '1',
        2 => '2',
        3 => '3',
        4 => '4',
        5 => '5',
        6 => '6',
        7 => '7',
        8 => '8',
        9 => '9',
        10 => 'a',
        11 => 'b',
        12 => 'c',
        13 => 'd',
        14 => 'e',
        _ => 'f',
    }
}

/// Appends the hexadecimal digits of `v`.
fn push_hex(s: &mut String, v: u32)
    ensures
        final(s)@ == old(s)@ + hex_digits(v),
    decreases v,
{
    if v >= 16 {
        push_hex(s, v / 16);
    }
    push_char(s, hex_digit(v % 16));
    assert(s@ =~= old(s)@ + hex_digits(v));
}

/// Appends every character of `t`.
fn push_str(s: &mut String, t: &str)
    ensures
        final(s)@ == old(s)@ + t@,
{
    s.append(t);
}

/// Appends the description of `c` under the name `name`.
fn push_char_info(s: &mut String, c: char, name: &str)
    ensures
        final(s)@ == old(s)@ + char_info_of(c, name@),
{
    push_char(s, '\'');
    push_char(s, c);
    push_char(s, '\'');
    push_char(s, ' ');
    push_char(s, '(');
    push_char(s, 'U');
    push_char(s, '+');
    push_hex(s, c as u32);
    push_char(s, ',');
    push_char(s, ' ');
    push_str(s, name);
    push_char(s, ')');
    assert(s@ =~= old(s)@ + char_info_of(c, name@));
}

/// Describes the character `c` under the name `name`: the character in quotes, then its value
/// in lowercase hexadecimal after `U+` and the name, in parentheses.
pub fn char_info(c: char, name: &str) -> (r: String)
    ensures
        r@ == char_info_of(c, name@),
{
    let mut s = String::new();
    push_char_info(&mut s, c, name);
    assert(s@ =~= char_info_of(c, name@));
    s
}

/// Describes each codepoint of `seq` on a line of its own: the character, its value in
/// hexadecimal and its Unicode name, every line after the first starting with ` + `. An empty
/// sequence has an empty description.
pub fn seq_info(seq: &str) -> (r: String)
    ensures
        r@ == seq_info_of(seq@),
{
    let n = seq.unicode_len();
    let mut description = String::new();
    if n == 0 {
        assert(description@ =~= seq_info_of(seq@));
        return description;
    }
    let first = seq.get_char(0);
    push_char_info(&mut description, first, char_name(first as u32));
    assert(seq@.take(1) =~= seq![seq@[0]]);
    assert(description@ =~= seq_info_of(seq@.take(1)));
    let mut i: usize = 1;
    while i < n
        invariant
            n == seq@.len(),
            1 <= i <= n,
            description@ == seq_info_of(seq@.take(i as int)),
        decreases n - i,
    {
        push_char(&mut description, '\n');
        push_char(&mut description, ' ');
        push_char(&mut description, '+');
        push_char(&mut description, ' ');
        let c = seq.get_char(i);
        push_char_info(&mut description, c, char_name(c as u32));
        assert(seq@.take(i + 1).drop_last() =~= seq@.take(i as int));
        i = i + 1;
        assert(description@ =~= seq_info_of(seq@.take(i as int)));
    }
    assert(seq@.take(i as int) =~= seq@);
    description
}

} // verus!
