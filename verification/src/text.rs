//! Hexadecimal and decimal text: digit tables, rendering of numbers as
//! fixed-width or minimal-width text, and parsing of hexadecimal numerals.

use vstd::prelude::*;
use vstd::string::*;

verus! {

/// The numeric value of a hexadecimal digit character, or 16 for any
/// character that is not a hexadecimal digit.
pub open spec fn hex_char_val(c: char) -> nat {
    if c == '0' {
        0
    } else if c == '1' {
        1
    } else if c == '2' {
        2
    } else if c == '3' {
        3
    } else if c == '4' {
        4
    } else if c == '5' {
        5
    } else if c == '6' {
        6
    } else if c == '7' {
        7
    } else if c == '8' {
        8
    } else if c == '9' {
        9
    } else if c == 'a' || c == 'A' {
        10
    } else if c == 'b' || c == 'B' {
        11
    } else if c == 'c' || c == 'C' {
        12
    } else if c == 'd' || c == 'D' {
        13
    } else if c == 'e' || c == 'E' {
        14
    } else if c == 'f' || c == 'F' {
        15
    } else {
        16
    }
}

/// A character counts as a hexadecimal digit exactly when it has a value.
pub open spec fn is_hex_digit(c: char) -> bool {
    hex_char_val(c) < 16
}

/// The lowercase character for a hexadecimal digit value below 16.
pub open spec fn hex_char(d: nat) -> char {
    if d == 0 {
        '0'
    } else if d == 1 {
        '1'
    } else if d == 2 {
        '2'
    } else if d == 3 {
        '3'
    } else if d == 4 {
        '4'
    } else if d == 5 {
        '5'
    } else if d == 6 {
        '6'
    } else if d == 7 {
        '7'
    } else if d == 8 {
        '8'
    } else if d == 9 {
        '9'
    } else if d == 10 {
        'a'
    } else if d == 11 {
        'b'
    } else if d == 12 {
        'c'
    } else if d == 13 {
        'd'
    } else if d == 14 {
        'e'
    } else {
        'f'
    }
}

/// Reading back the character of a digit yields the digit.
pub proof fn lemma_hex_char_val(d: nat)
    requires
        d < 16,
    ensures
        hex_char_val(hex_char(d)) == d,
{
}

/// Appends the lowercase hexadecimal digit character for `d` to `s`.
pub fn append_digit(s: &mut String, d: u8)
    requires
        d < 16,
    ensures
        final(s)@ == old(s)@.push(hex_char(d as nat)),
{
    match d {
        0 => {
            s.append("0");
            proof {
                reveal_strlit("0");
                assert(s@ =~= old(s)@.push(hex_char(d as nat)));
            }
        },
        1 => {
            s.append("1");
            proof {
                reveal_strlit("1");
                assert(s@ =~= old(s)@.push(hex_char(d as nat)));
            }
        },
        2 => {
            s.append("2");
            proof {
                reveal_strlit("2");
                assert(s@ =~= old(s)@.push(hex_char(d as nat)));
            }
        },
        3 => {
            s.append("3");
            proof {
                reveal_strlit("3");
                assert(s@ =~= old(s)@.push(hex_char(d as nat)));
            }
        },
        4 => {
            s.append("4");
            proof {
                reveal_strlit("4");
                assert(s@ =~= old(s)@.push(hex_char(d as nat)));
            }
        },
        5 => {
            s.append("5");
            proof {
                reveal_strlit("5");
                assert(s@ =~= old(s)@.push(hex_char(d as nat)));
            }
        },
        6 => {
            s.append("6");
            proof {
                reveal_strlit("6");
                assert(s@ =~= old(s)@.push(hex_char(d as nat)));
            }
        },
        7 => {
            s.append("7");
            proof {
                reveal_strlit("7");
                assert(s@ =~= old(s)@.push(hex_char(d as nat)));
            }
        },
        8 => {
            s.append("8");
            proof {
                reveal_strlit("8");
                assert(s@ =~= old(s)@.push(hex_char(d as nat)));
            }
        },
        9 => {
            s.append("9");
            proof {
                reveal_strlit("9");
                assert(s@ =~= old(s)@.push(hex_char(d as nat)));
            }
        },
        10 => {
            s.append("a");
            proof {
                reveal_strlit("a");
                assert(s@ =~= old(s)@.push(hex_char(d as nat)));
            }
        },
        11 => {
            s.append("b");
            proof {
                reveal_strlit("b");
                assert(s@ =~= old(s)@.push(hex_char(d as nat)));
            }
        },
        12 => {
            s.append("c");
            proof {
                reveal_strlit("c");
                assert(s@ =~= old(s)@.push(hex_char(d as nat)));
            }
        },
        13 => {
            s.append("d");
            proof {
                reveal_strlit("d");
                assert(s@ =~= old(s)@.push(hex_char(d as nat)));
            }
        },
        14 => {
            s.append("e");
            proof {
                reveal_strlit("e");
                assert(s@ =~= old(s)@.push(hex_char(d as nat)));
            }
        },
        _ => {
            s.append("f");
            proof {
                reveal_strlit("f");
                assert(s@ =~= old(s)@.push(hex_char(d as nat)));
            }
        },
    }
}

/// The numeric value of a hexadecimal digit character, if it is one.
pub fn hex_digit_value(c: char) -> (r: Option<u8>)
    ensures
        (r is Some) <==> is_hex_digit(c),
        r is Some ==> r.unwrap() as nat == hex_char_val(c),
{
    match c {
        '0' => Some(0),
        '1' => Some(1),
        '2' => Some(2),
        '3' => Some(3),
        '4' => Some(4),
        '5' => Some(5),
        '6' => Some(6),
        '7' => Some(7),
        '8' => Some(8),
        '9' => Some(9),
        'a' | 'A' => Some(10),
        'b' | 'B' => Some(11),
        'c' | 'C' => Some(12),
        'd' | 'D' => Some(13),
        'e' | 'E' => Some(14),
        'f' | 'F' => Some(15),
        _ => None,
    }
}

/// The number written by a sequence of hexadecimal digit characters,
/// most significant digit first.
pub open spec fn hex_value(s: Seq<char>) -> nat
    decreases s.len(),
{
    if s.len() == 0 {
        0
    } else {
        16 * hex_value(s.drop_last()) + hex_char_val(s.last())
    }
}

/// Every character of `s` is a hexadecimal digit.
pub open spec fn all_hex_digits(s: Seq<char>) -> bool {
    forall|i: int| 0 <= i < s.len() ==> is_hex_digit(#[trigger] s[i])
}

/// `s` is a non-empty hexadecimal numeral whose value fits in a `usize`.
pub open spec fn valid_hex_for_usize(s: Seq<char>) -> bool {
    s.len() > 0 && all_hex_digits(s) && hex_value(s) <= usize::MAX
}

/// The value of a numeral is at least the value of any of its prefixes.
pub proof fn lemma_hex_value_prefix_le(s: Seq<char>, i: int)
    requires
        0 <= i <= s.len(),
    ensures
        hex_value(s.subrange(0, i)) <= hex_value(s),
    decreases s.len() - i,
{
    if i < s.len() {
        assert(s.subrange(0, i + 1).drop_last() =~= s.subrange(0, i));
        assert(s.subrange(0, i + 1).last() == s[i]);
        assert(hex_value(s.subrange(0, i + 1)) == 16 * hex_value(s.subrange(0, i))
            + hex_char_val(s[i]));
        lemma_hex_value_prefix_le(s, i + 1);
    } else {
        assert(s.subrange(0, i) =~= s);
    }
}

/// Parses the characters of `s` between `from` and `to` as a hexadecimal
/// numeral: the parse succeeds exactly when that range is non-empty, all
/// its characters are hexadecimal digits, and the value fits in a `usize`.
pub fn parse_hex_range(s: &str, from: usize, to: usize) -> (r: Option<usize>)
    requires
        from <= to <= s@.len(),
    ensures
        (r is Some) <==> valid_hex_for_usize(s@.subrange(from as int, to as int)),
        r is Some ==> r.unwrap() as nat == hex_value(s@.subrange(from as int, to as int)),
{
    let ghost t = s@.subrange(from as int, to as int);
    if from == to {
        return None;
    }
    let mut acc: usize = 0;
    let mut i: usize = from;
    while i < to
        invariant
            from <= i <= to <= s@.len(),
            t == s@.subrange(from as int, to as int),
            t.len() == to - from,
            all_hex_digits(t.subrange(0, i - from)),
            acc as nat == hex_value(t.subrange(0, i - from)),
        decreases to - i,
    {
        let c = s.get_char(i);
        assert(c == t[i - from]);
        let d: u8 = match hex_digit_value(c) {
            Some(d) => d,
            None => {
                assert(!is_hex_digit(t[i - from]));
                return None;
            },
        };
        proof {
            assert(t.subrange(0, i - from + 1).drop_last() =~= t.subrange(0, i - from));
            assert(t.subrange(0, i - from + 1).last() == t[i - from]);
            assert(hex_value(t.subrange(0, i - from + 1)) == 16 * (acc as nat) + hex_char_val(
                c,
            ));
        }
        if acc > usize::MAX / 16 {
            proof {
                lemma_hex_value_prefix_le(t, i - from + 1);
            }
            return None;
        }
        acc = acc * 16 + (d as usize);
        i += 1;
    }
    assert(t.subrange(0, (to - from) as int) =~= t);
    Some(acc)
}

/// The `w` low hexadecimal digits of `v`, most significant first,
/// zero padded to exactly `w` characters.
pub open spec fn hex_pad_seq(v: nat, w: nat) -> Seq<char>
    decreases w,
{
    if w == 0 {
        Seq::empty()
    } else {
        hex_pad_seq(v / 16, (w - 1) as nat).push(hex_char(v % 16))
    }
}

/// A zero-padded text has exactly its requested width.
pub proof fn lemma_hex_pad_seq_len(v: nat, w: nat)
    ensures
        hex_pad_seq(v, w).len() == w,
    decreases w,
{
    if w > 0 {
        lemma_hex_pad_seq_len(v / 16, (w - 1) as nat);
    }
}

/// Renders `v` as exactly `w` lowercase hexadecimal digits, zero padded.
pub fn hex_pad(v: usize, w: usize) -> (r: String)
    ensures
        r@ == hex_pad_seq(v as nat, w as nat),
    decreases w,
{
    if w == 0 {
        String::new()
    } else {
        let mut s = hex_pad(v / 16, w - 1);
        append_digit(&mut s, (v % 16) as u8);
        s
    }
}

/// The shortest lowercase hexadecimal numeral for `v` ("0" for zero).
pub open spec fn hex_min_seq(v: nat) -> Seq<char>
    decreases v,
{
    if v < 16 {
        seq![hex_char(v)]
    } else {
        hex_min_seq(v / 16).push(hex_char(v % 16))
    }
}

/// Renders `v` in lowercase hexadecimal without padding.
pub fn hex_min(v: usize) -> (r: String)
    ensures
        r@ == hex_min_seq(v as nat),
    decreases v,
{
    if v < 16 {
        let mut s = String::new();
        append_digit(&mut s, v as u8);
        assert(s@ =~= seq![hex_char(v as nat)]);
        s
    } else {
        let mut s = hex_min(v / 16);
        append_digit(&mut s, (v % 16) as u8);
        s
    }
}

/// The decimal numeral for `v`, most significant digit first.
pub open spec fn dec_seq(v: nat) -> Seq<char>
    decreases v,
{
    if v < 10 {
        seq![hex_char(v)]
    } else {
        dec_seq(v / 10).push(hex_char(v % 10))
    }
}

/// Renders `v` in decimal.
pub fn dec_usize(v: usize) -> (r: String)
    ensures
        r@ == dec_seq(v as nat),
    decreases v,
{
    if v < 10 {
        let mut s = String::new();
        append_digit(&mut s, v as u8);
        assert(s@ =~= seq![hex_char(v as nat)]);
        s
    } else {
        let mut s = dec_usize(v / 10);
        append_digit(&mut s, (v % 10) as u8);
        s
    }
}

/// The decimal numeral for a signed value, with a leading minus sign
/// when it is negative.
pub open spec fn dec_int_seq(v: int) -> Seq<char> {
    if v < 0 {
        seq!['-'] + dec_seq((-v) as nat)
    } else {
        dec_seq(v as nat)
    }
}

/// Renders a signed value in decimal.
pub fn dec_i32(v: i32) -> (r: String)
    ensures
        r@ == dec_int_seq(v as int),
{
    if v < 0 {
        let w: i64 = v as i64;
        let p: i64 = -w;
        let mut s = "-".to_owned();
        proof {
            reveal_strlit("-");
            assert(s@ =~= seq!['-']);
        }
        let rest = dec_usize(p as usize);
        s.append(rest.as_str());
        s
    } else {
        dec_usize(v as usize)
    }
}

} // verus!
