//! Decimal digits: the text of an integer, and the integer that a text spells.

use vstd::prelude::*;

verus! {

/// Whether `c` is one of the ten ASCII digits.
pub open spec fn is_digit(c: char) -> bool {
    '0' <= c && c <= '9'
}

/// The number that the digit `c` stands for.
pub open spec fn digit_value(c: char) -> nat {
    (c as int - '0' as int) as nat
}

/// The digit that stands for `d`, for `d` below ten.
pub open spec fn digit_char(d: nat) -> char {
    ('0' as int + d) as char
}

/// Whether every character of `s` is a digit.
pub open spec fn all_digits(s: Seq<char>) -> bool {
    forall|i: int| 0 <= i < s.len() ==> is_digit(#[trigger] s[i])
}

/// The number that the digits of `s` spell in base ten; leading zeros count
/// for nothing, and the empty text spells zero.
pub open spec fn decimal_value(s: Seq<char>) -> nat
    decreases s.len(),
{
    if s.len() == 0 {
        0
    } else {
        10 * decimal_value(s.drop_last()) + digit_value(s.last())
    }
}

/// The shortest decimal text of `n`.
pub open spec fn nat_text(n: nat) -> Seq<char>
    decreases n,
{
    if n < 10 {
        seq![digit_char(n)]
    } else {
        nat_text(n / 10).push(digit_char(n % 10))
    }
}

/// The shortest decimal text of `i`, with a minus sign where it is negative.
pub open spec fn int_text(i: int) -> Seq<char> {
    if i < 0 {
        seq!['-'] + nat_text((-i) as nat)
    } else {
        nat_text(i as nat)
    }
}

/// The text of a number has at least one character, holds digits only, and
/// spells that number.
pub proof fn lemma_nat_text(n: nat)
    ensures
        nat_text(n).len() >= 1,
        all_digits(nat_text(n)),
        decimal_value(nat_text(n)) == n,
    decreases n,
{
    if n < 10 {
        let s = nat_text(n);
        assert(s.drop_last() =~= Seq::<char>::empty());
        assert(decimal_value(s.drop_last()) == 0);
    } else {
        lemma_nat_text(n / 10);
        let s = nat_text(n);
        assert(s.drop_last() =~= nat_text(n / 10));
        assert(s.last() == digit_char(n % 10));
    }
}

/// A text spells at least what any of its beginnings spells.
pub proof fn lemma_decimal_value_grows(s: Seq<char>, k: int)
    requires
        0 <= k <= s.len(),
    ensures
        decimal_value(s.take(k)) <= decimal_value(s),
    decreases s.len() - k,
{
    if k == s.len() {
        assert(s.take(k) =~= s);
    } else {
        lemma_decimal_value_grows(s.drop_last(), k);
        assert(s.drop_last().take(k) =~= s.take(k));
    }
}

/// Whether `c` is a digit.
pub fn is_digit_char(c: char) -> (b: bool)
    ensures
        b == is_digit(c),
{
    '0' <= c && c <= '9'
}

/// The digit for `d`.
fn digit_of(d: u8) -> (c: char)
    requires
        d < 10,
    ensures
        c == digit_char(d as nat),
        is_digit(c),
{
    match d {
        0 => '0',
        1 => '1',
        2 => '2',
        3 => '3',
        4 => '4',
        5 => '5',
        6 => '6',
        7 => '7',
        8 => '8',
        _ => '9',
    }
}

/// The value of the digit `c`.
fn value_of(c: char) -> (d: u8)
    requires
        is_digit(c),
    ensures
        d == digit_value(c),
        d < 10,
{
    (c as u32 - '0' as u32) as u8
}

/// Appends the decimal text of `n` to `out`.
pub fn push_nat(out: &mut String, n: u128)
    ensures
        final(out)@ == old(out)@ + nat_text(n as nat),
    decreases n,
{
    if n >= 10 {
        push_nat(out, n / 10);
    }
    out.push(digit_of((n % 10) as u8));
}

/// The size of `i`: the number without its sign.
pub open spec fn magnitude(i: int) -> nat {
    if i < 0 {
        (-i) as nat
    } else {
        i as nat
    }
}

/// The size of `v`.
pub fn magnitude_of(v: i128) -> (m: u128)
    ensures
        m == magnitude(v as int),
{
    if v == i128::MIN {
        0x8000_0000_0000_0000_0000_0000_0000_0000u128
    } else if v < 0 {
        (-v) as u128
    } else {
        v as u128
    }
}

/// Appends the decimal text of `v`.
pub fn push_int(out: &mut String, v: i128)
    ensures
        final(out)@ == old(out)@ + int_text(v as int),
{
    let ghost before = out@;
    if v < 0 {
        out.push('-');
    }
    push_nat(out, magnitude_of(v));
    assert(out@ =~= before + int_text(v as int));
}

/// Reads `chars[from..]` as a run of digits. Gives the number they spell, or
/// nothing where the run is empty, holds something else than digits, or
/// spells more than 128 bits hold; nothing too where `from` lies past the
/// end.
pub fn parse_digits(chars: &Vec<char>, from: usize) -> (value: Option<u128>)
    ensures
        from <= chars.len() ==> value == spelled(chars@.skip(from as int)),
        from > chars.len() ==> value.is_none(),
{
    let ghost run = chars@.skip(from as int);
    if from >= chars.len() {
        return None;
    }
    let mut acc: u128 = 0;
    let mut i: usize = from;
    while i < chars.len()
        invariant
            from <= i <= chars.len(),
            run == chars@.skip(from as int),
            all_digits(run.take(i - from)),
            acc == decimal_value(run.take(i - from)),
        decreases chars.len() - i,
    {
        let c = chars[i];
        assert(c == run[i - from]);
        if !is_digit_char(c) {
            return None;
        }
        let d = value_of(c);
        proof {
            let longer = run.take(i - from + 1);
            assert(longer.drop_last() =~= run.take(i - from));
            assert(longer.last() == c);
            assert(decimal_value(longer) == 10 * acc + d);
            assert forall|j: int| 0 <= j < longer.len() implies is_digit(#[trigger] longer[j]) by {
                if j < i - from {
                    assert(longer[j] == run.take(i - from)[j]);
                }
            }
            lemma_decimal_value_grows(run, i - from + 1);
        }
        if acc > (u128::MAX - d as u128) / 10 {
            return None;
        }
        acc = acc * 10 + d as u128;
        i += 1;
    }
    assert(run.take(i - from) =~= run);
    Some(acc)
}

/// What a run of digits spells, where it is a run of digits that 128 bits hold.
pub open spec fn spelled(run: Seq<char>) -> Option<u128> {
    if run.len() > 0 && all_digits(run) && decimal_value(run) <= u128::MAX {
        Some(decimal_value(run) as u128)
    } else {
        None
    }
}

} // verus!
