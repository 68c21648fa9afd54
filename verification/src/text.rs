use vstd::prelude::*;

verus! {

/// The value of a hexadecimal digit of either case, `None` for any other
/// character.
pub open spec fn hex_value(c: char) -> Option<int> {
    let v = c as u32 as int;
    if 48 <= v <= 57 {
        Some(v - 48)
    } else if 97 <= v <= 102 {
        Some(v - 87)
    } else if 65 <= v <= 70 {
        Some(v - 55)
    } else {
        None
    }
}

/// The lower-case hexadecimal digit for a value below sixteen; `f` for every
/// other value.
pub open spec fn hex_digit(n: int) -> char {
    if n == 0 {
        '0'
    } else if n == 1 {
        '1'
    } else if n == 2 {
        '2'
    } else if n == 3 {
        '3'
    } else if n == 4 {
        '4'
    } else if n == 5 {
        '5'
    } else if n == 6 {
        '6'
    } else if n == 7 {
        '7'
    } else if n == 8 {
        '8'
    } else if n == 9 {
        '9'
    } else if n == 10 {
        'a'
    } else if n == 11 {
        'b'
    } else if n == 12 {
        'c'
    } else if n == 13 {
        'd'
    } else if n == 14 {
        'e'
    } else {
        'f'
    }
}

/// A digit keeps its value when it is written in lower case, and the digit
/// written for a value below sixteen has that value.
pub proof fn lemma_hex_digit_value(n: int)
    requires
        0 <= n < 16,
    ensures
        hex_value(hex_digit(n)) == Some(n),
{
}

/// The value of one character as a hexadecimal digit.
pub fn digit_value(c: char) -> (r: Option<u8>)
    ensures
        match r {
            Some(v) => hex_value(c) == Some(v as int),
            None => hex_value(c) is None,
        },
{
    let v: u32 = c as u32;
    if 48 <= v && v <= 57 {
        Some((v - 48) as u8)
    } else if 97 <= v && v <= 102 {
        Some((v - 87) as u8)
    } else if 65 <= v && v <= 70 {
        Some((v - 55) as u8)
    } else {
        None
    }
}

/// The one-character text of a lower-case hexadecimal digit; `f` for every
/// value above fourteen.
pub fn digit_text(n: u8) -> (r: &'static str)
    ensures
        r@ == seq![hex_digit(n as int)],
{
    proof {
        reveal_strlit("0");
        reveal_strlit("1");
        reveal_strlit("2");
        reveal_strlit("3");
        reveal_strlit("4");
        reveal_strlit("5");
        reveal_strlit("6");
        reveal_strlit("7");
        reveal_strlit("8");
        reveal_strlit("9");
        reveal_strlit("a");
        reveal_strlit("b");
        reveal_strlit("c");
        reveal_strlit("d");
        reveal_strlit("e");
        reveal_strlit("f");
    }
    let r = match n {
        0 => "0",
        1 => "1",
        2 => "2",
        3 => "3",
        4 => "4",
        5 => "5",
        6 => "6",
        7 => "7",
        8 => "8",
        9 => "9",
        10 => "a",
        11 => "b",
        12 => "c",
        13 => "d",
        14 => "e",
        _ => "f",
    };
    assert(r@ =~= seq![hex_digit(n as int)]);
    r
}

/// The value of a decimal digit, zero for any other character.
pub open spec fn decimal_digit_value(c: char) -> nat {
    let v = c as u32 as int;
    if 48 <= v <= 57 {
        (v - 48) as nat
    } else {
        0
    }
}

/// Whether the text is one or more decimal digits `0` to `9` and nothing
/// else.
pub open spec fn is_decimal(s: Seq<char>) -> bool {
    &&& s.len() > 0
    &&& forall|i: int| 0 <= i < s.len() ==> 48 <= (#[trigger] s[i]) as u32 <= 57
}

/// The number that a text of decimal digits denotes, most significant digit
/// first.
pub open spec fn decimal_value(s: Seq<char>) -> nat
    decreases s.len(),
{
    if s.len() == 0 {
        0
    } else {
        10 * decimal_value(s.drop_last()) + decimal_digit_value(s.last())
    }
}

/// The shortest decimal text of a number.
pub open spec fn decimal_text(n: nat) -> Seq<char>
    decreases n,
{
    if n < 10 {
        seq![hex_digit(n as int)]
    } else {
        decimal_text(n / 10).push(hex_digit((n % 10) as int))
    }
}

/// The last two decimal digits of a number, with a leading zero where needed.
pub open spec fn two_digit_text(n: nat) -> Seq<char> {
    seq![hex_digit((n / 10 % 10) as int), hex_digit((n % 10) as int)]
}

/// The last four decimal digits of a number, with leading zeros where
/// needed.
pub open spec fn four_digit_text(n: nat) -> Seq<char> {
    two_digit_text(n / 100) + two_digit_text(n)
}

/// A longer text denotes a number that is no smaller than the number that
/// any of its beginnings denotes.
pub proof fn lemma_decimal_value_grows(s: Seq<char>, i: int)
    requires
        0 <= i <= s.len(),
    ensures
        decimal_value(s.take(i)) <= decimal_value(s),
    decreases s.len(),
{
    if i < s.len() {
        lemma_decimal_value_grows(s.drop_last(), i);
        assert(s.drop_last().take(i) =~= s.take(i));
    } else {
        assert(s.take(i) =~= s);
    }
}

/// The decimal text of a number is made of digits and denotes that number.
pub proof fn lemma_decimal_text_value(n: nat)
    ensures
        is_decimal(decimal_text(n)),
        decimal_value(decimal_text(n)) == n,
    decreases n,
{
    let t = decimal_text(n);
    if n < 10 {
        assert(t.drop_last() =~= Seq::<char>::empty());
        assert(decimal_value(t.drop_last()) == 0);
    } else {
        lemma_decimal_text_value(n / 10);
        assert(t.drop_last() =~= decimal_text(n / 10));
        assert(t.last() == hex_digit((n % 10) as int));
    }
}

/// Reads an unsigned number written in decimal digits. Signs, spaces and
/// digits of other scripts are not accepted, nor a number above `u32::MAX`.
pub fn parse_decimal(text: &str) -> (r: Option<u32>)
    ensures
        r == if is_decimal(text@) && decimal_value(text@) <= u32::MAX {
            Some(decimal_value(text@) as u32)
        } else {
            None
        },
{
    let n = text.unicode_len();
    if n == 0 {
        return None;
    }
    let mut value: u64 = 0;
    let mut i: usize = 0;
    while i < n
        invariant
            i <= n,
            n == text@.len(),
            value == decimal_value(text@.take(i as int)),
            value <= u32::MAX,
            forall|j: int| 0 <= j < i ==> 48 <= (#[trigger] text@[j]) as u32 <= 57,
        decreases n - i,
    {
        let v: u32 = text.get_char(i) as u32;
        if v < 48 || v > 57 {
            return None;
        }
        proof {
            assert(text@.take(i + 1).drop_last() =~= text@.take(i as int));
            assert(text@.take(i + 1).last() == text@[i as int]);
        }
        value = value * 10 + (v - 48) as u64;
        if value > u32::MAX as u64 {
            proof {
                lemma_decimal_value_grows(text@, i + 1);
            }
            return None;
        }
        i = i + 1;
    }
    assert(text@.take(n as int) =~= text@);
    Some(value as u32)
}

/// Appends the shortest decimal text of a number.
pub fn append_decimal(out: &mut String, n: u64)
    ensures
        final(out)@ == old(out)@ + decimal_text(n as nat),
    decreases n,
{
    if n >= 10 {
        append_decimal(out, n / 10);
    }
    out.append(digit_text((n % 10) as u8));
    assert(final(out)@ =~= old(out)@ + decimal_text(n as nat));
}

/// Appends the last two decimal digits of a number.
pub fn append_two_digits(out: &mut String, n: u32)
    ensures
        final(out)@ == old(out)@ + two_digit_text(n as nat),
{
    out.append(digit_text((n / 10 % 10) as u8));
    out.append(digit_text((n % 10) as u8));
    assert(final(out)@ =~= old(out)@ + two_digit_text(n as nat));
}

/// Appends the last four decimal digits of a number.
pub fn append_four_digits(out: &mut String, n: u32)
    ensures
        final(out)@ == old(out)@ + four_digit_text(n as nat),
{
    append_two_digits(out, n / 100);
    append_two_digits(out, n);
    assert(final(out)@ =~= old(out)@ + four_digit_text(n as nat));
}

} // verus!
