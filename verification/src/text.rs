//! Text: decimal numbers, padding and sequences of strings.

use vstd::arithmetic::power::*;
use vstd::prelude::*;

verus! {

/// The contents of a sequence of strings.
pub open spec fn texts(strings: Seq<String>) -> Seq<Seq<char>> {
    Seq::new(strings.len(), |i: int| strings[i]@)
}

/// The character of a decimal digit.
pub open spec fn digit(d: nat) -> char {
    (48 + d) as char
}

/// `n` in decimal notation, without leading zeros.
pub open spec fn decimal(n: nat) -> Seq<char>
    decreases n,
{
    if n < 10 {
        seq![digit(n)]
    } else {
        decimal(n / 10).push(digit(n % 10))
    }
}

/// `n` times the character `c`.
pub open spec fn repeated(c: char, n: nat) -> Seq<char> {
    Seq::new(n, |i: int| c)
}

/// `text` filled up with `fill` on the left to at least `width` characters.
pub open spec fn padded(text: Seq<char>, fill: char, width: nat) -> Seq<char> {
    if text.len() < width {
        repeated(fill, (width - text.len()) as nat) + text
    } else {
        text
    }
}

/// `part` occurs in `text`.
pub open spec fn occurs(part: Seq<char>, text: Seq<char>) -> bool {
    exists|i: int| occurs_at(part, text, i)
}

/// `part` occurs in `text` at place `i`.
pub open spec fn occurs_at(part: Seq<char>, text: Seq<char>, i: int) -> bool {
    0 <= i && i + part.len() <= text.len() && text.subrange(i, i + part.len()) == part
}

/// The number that decimal digits stand for, the least significant digit first.
pub open spec fn digits_value(digits: Seq<u8>) -> nat
    decreases digits.len(),
{
    if digits.len() == 0 {
        0
    } else {
        digits[0] as nat + 10 * digits_value(digits.drop_first())
    }
}

/// Decimal digits, the least significant first, without superfluous leading zeros.
pub open spec fn are_digits(digits: Seq<u8>) -> bool {
    &&& digits.len() > 0
    &&& forall|i: int| 0 <= i < digits.len() ==> #[trigger] digits[i] < 10
    &&& digits.len() > 1 ==> digits.last() > 0
}

/// Digits as text, the most significant first.
pub open spec fn written(digits: Seq<u8>) -> Seq<char> {
    Seq::new(digits.len(), |i: int| digit(digits[digits.len() - 1 - i] as nat))
}

proof fn lemma_one_digit(digits: Seq<u8>)
    requires
        digits.len() == 1,
    ensures
        digits_value(digits) == digits[0],
{
    reveal_with_fuel(digits_value, 2);
}

/// Writing the digits of a number is writing the number in decimal notation.
proof fn lemma_written_is_decimal(digits: Seq<u8>)
    requires
        are_digits(digits),
    ensures
        written(digits) == decimal(digits_value(digits)),
        digits.len() > 1 ==> digits_value(digits) >= 10,
    decreases digits.len(),
{
    let rest = digits.drop_first();
    let v = digits_value(digits);
    if digits.len() == 1 {
        lemma_one_digit(digits);
        assert(written(digits) =~= seq![digit(digits[0] as nat)]);
    } else {
        assert(rest.last() == digits.last());
        lemma_written_is_decimal(rest);
        if rest.len() == 1 {
            lemma_one_digit(rest);
        }
        assert(v == digits[0] + 10 * digits_value(rest));
        assert(v / 10 == digits_value(rest) && v % 10 == digits[0]);
        assert(written(digits) =~= written(rest).push(digit(digits[0] as nat)));
    }
}

/// A single digit as text.
fn digit_text(d: u8) -> (r: &'static str)
    requires
        d < 10,
    ensures
        r@ == seq![digit(d as nat)],
{
    proof {
        reveal_strlit("0");
        reveal_strlit("1");
        reveal_strlit("2");
        reveal_strlit("3");
        reveal_strlit("4");
        reveal_strlit("5");
        reveal_strlit("6");
        reveal_strlit("7");
        reveal_strlit("8");
        reveal_strlit("9");
    }
    match d {
        0 => "0",
        1 => "1",
        2 => "2",
        3 => "3",
        4 => "4",
        5 => "5",
        6 => "6",
        7 => "7",
        8 => "8",
        _ => "9",
    }
}

/// The decimal digits of `n`, the least significant first.
pub fn digits_of(n: u128) -> (digits: Vec<u8>)
    ensures
        are_digits(digits@),
        digits_value(digits@) == n,
    decreases n,
{
    if n < 10 {
        let mut digits: Vec<u8> = Vec::new();
        digits.push(n as u8);
        proof {
            lemma_one_digit(digits@);
        }
        digits
    } else {
        let mut digits: Vec<u8> = Vec::new();
        digits.push((n % 10) as u8);
        let mut rest = digits_of(n / 10);
        let ghost high = rest@;
        digits.append(&mut rest);
        proof {
            assert(digits@.drop_first() == high);
            assert(digits@.last() == high.last());
            if high.len() == 1 {
                lemma_one_digit(high);
            }
        }
        digits
    }
}

/// A further digit at the most significant end.
proof fn lemma_digits_push(digits: Seq<u8>, d: u8)
    ensures
        digits_value(digits.push(d)) == digits_value(digits) + d * pow(10, digits.len()),
    decreases digits.len(),
{
    reveal(pow);
    let longer = digits.push(d);
    if digits.len() == 0 {
        lemma_one_digit(longer);
    } else {
        lemma_digits_push(digits.drop_first(), d);
        assert(longer.drop_first() == digits.drop_first().push(d));
        let power = pow(10, (digits.len() - 1) as nat);
        assert(10 * (d * power) == d * (10 * power)) by (nonlinear_arith);
    }
}

/// Doubles the number that the digits stand for.
pub fn double_digits(digits: &Vec<u8>) -> (twice: Vec<u8>)
    requires
        are_digits(digits@),
        digits_value(digits@) > 0,
    ensures
        are_digits(twice@),
        digits_value(twice@) == 2 * digits_value(digits@),
{
    let mut twice: Vec<u8> = Vec::new();
    let mut carry: u8 = 0;
    let mut i: usize = 0;
    let ghost all = digits@;
    proof {
        if all.len() == 1 {
            lemma_one_digit(all);
        }
    }
    while i < digits.len()
        invariant
            all == digits@,
            are_digits(all),
            all.last() > 0,
            i <= all.len(),
            carry <= 1,
            twice@.len() == i,
            forall|j: int| 0 <= j < i ==> #[trigger] twice@[j] < 10,
            i == all.len() ==> carry > 0 || twice@.last() > 0,
            digits_value(twice@) + carry * pow(10, i as nat) == 2 * digits_value(all.take(i as int)),
        decreases digits.len() - i,
    {
        let sum: u8 = 2 * digits[i] + carry;
        let ghost before = twice@;
        let ghost carried = carry;
        let low: u8 = sum % 10;
        carry = sum / 10;
        twice.push(low);
        proof {
            lemma_digits_push(before, low);
            lemma_digits_push(all.take(i as int), all[i as int]);
            assert(all.take(i + 1) == all.take(i as int).push(all[i as int]));
            reveal(pow);
            let power = pow(10, i as nat);
            assert(low * power + carry * (10 * power) == carried * power + 2 * (all[i as int] * power))
                by (nonlinear_arith)
                requires
                    low + 10 * carry == 2 * all[i as int] + carried,
            ;
        }
        i += 1;
    }
    assert(all.take(i as int) == all);
    if carry > 0 {
        proof {
            lemma_digits_push(twice@, carry);
        }
        twice.push(carry);
    }
    twice
}

/// Digits as text, the most significant first.
pub fn write_digits(digits: &Vec<u8>) -> (text: String)
    requires
        are_digits(digits@),
    ensures
        text@ == decimal(digits_value(digits@)),
{
    let mut text = String::new();
    let mut i: usize = digits.len();
    while i > 0
        invariant
            are_digits(digits@),
            i <= digits@.len(),
            text@ == written(digits@).take(digits@.len() - i),
        decreases i,
    {
        i -= 1;
        text.append(digit_text(digits[i]));
        assert(text@ == written(digits@).take(digits@.len() - i));
    }
    proof {
        assert(written(digits@).take(digits@.len() as int) == written(digits@));
        lemma_written_is_decimal(digits@);
    }
    text
}

/// `n` in decimal notation.
pub fn decimal_text(n: u128) -> (text: String)
    ensures
        text@ == decimal(n as nat),
{
    write_digits(&digits_of(n))
}

/// `text` filled up with blanks on the left to at least `width` characters.
pub fn pad_with_blanks(text: String, width: usize) -> (r: String)
    ensures
        r@ == padded(text@, ' ', width as nat),
{
    proof {
        reveal_strlit(" ");
    }
    pad_with(text, " ", width)
}

/// `text` filled up with zeros on the left to at least `width` characters.
pub fn pad_with_zeros(text: String, width: usize) -> (r: String)
    ensures
        r@ == padded(text@, '0', width as nat),
{
    proof {
        reveal_strlit("0");
    }
    pad_with(text, "0", width)
}

fn pad_with(text: String, fill: &str, width: usize) -> (r: String)
    requires
        fill@.len() == 1,
    ensures
        r@ == padded(text@, fill@[0], width as nat),
{
    let len: usize = text.as_str().unicode_len();
    if len >= width {
        return text;
    }
    let mut r = String::new();
    let mut i: usize = 0;
    while i < width - len
        invariant
            fill@.len() == 1,
            i <= width - len,
            len < width,
            r@ == repeated(fill@[0], i as nat),
        decreases width - len - i,
    {
        r.append(fill);
        i += 1;
        assert(r@ == repeated(fill@[0], i as nat));
    }
    r.append(text.as_str());
    r
}

/// Tells whether `part` occurs in `text`.
pub fn has_part(text: &str, part: &str) -> (r: bool)
    ensures
        r == occurs(part@, text@),
{
    let n: usize = text.unicode_len();
    let len: usize = part.unicode_len();
    if len > n {
        return false;
    }
    let mut i: usize = 0;
    while i <= n - len
        invariant
            n == text@.len(),
            len == part@.len(),
            len <= n,
            i <= n - len + 1,
            forall|j: int| 0 <= j < i ==> !occurs_at(part@, text@, j),
        decreases n - len + 1 - i,
    {
        let mut k: usize = 0;
        while k < len && text.get_char(i + k) == part.get_char(k)
            invariant
                n == text@.len(),
                len == part@.len(),
                len <= n,
                i <= n - len,
                k <= len,
                forall|j: int| 0 <= j < k ==> text@[i + j] == #[trigger] part@[j],
            decreases len - k,
        {
            k += 1;
        }
        if k == len {
            assert(text@.subrange(i as int, i + len) == part@);
            assert(occurs_at(part@, text@, i as int));
            return true;
        }
        assert(!occurs_at(part@, text@, i as int)) by {
            assert(text@.subrange(i as int, i + len)[k as int] != part@[k as int]);
        }
        if i == n - len {
            return false;
        }
        i += 1;
    }
    false
}

/// What occurs in a text occurs in its continuations.
pub proof fn lemma_occurs_in_longer(part: Seq<char>, text: Seq<char>, more: Seq<char>)
    requires
        occurs(part, text),
    ensures
        occurs(part, text + more),
{
    let i = choose|i: int| occurs_at(part, text, i);
    assert((text + more).subrange(i, i + part.len()) =~= text.subrange(i, i + part.len()));
    assert(occurs_at(part, text + more, i));
}

/// A part occurs wherever it stands between two others.
pub proof fn lemma_occurs_between(before: Seq<char>, part: Seq<char>, after: Seq<char>)
    ensures
        occurs(part, before + part + after),
        occurs(part, before + part),
{
    let text = before + part + after;
    let at = before.len() as int;
    assert(text.subrange(at, at + part.len()) =~= part);
    assert(occurs_at(part, text, at));
    assert((before + part).subrange(at, at + part.len()) =~= part);
    assert(occurs_at(part, before + part, at));
}

/// What occurs in a text is the beginning of some rest of it.
pub proof fn lemma_occurrence_is_prefix(part: Seq<char>, text: Seq<char>)
    requires
        occurs(part, text),
    ensures
        exists|i: int| 0 <= i <= text.len() && part.is_prefix_of(#[trigger] text.skip(i)),
{
    let i = choose|i: int| occurs_at(part, text, i);
    assert(text.subrange(i, i + part.len()) == part);
    assert(text.skip(i).take(part.len() as int) =~= part);
    assert(part.is_prefix_of(text.skip(i)));
}

/// Decimal notation goes digit by digit.
pub proof fn lemma_decimal_digit_by_digit(n: nat, d: nat)
    requires
        d < 10,
    ensures
        decimal(d) == seq![(48 + d) as char],
        n > 0 ==> decimal(10 * n + d) == decimal(n).push((48 + d) as char),
{
}

/// Padding puts the fill in front, as much as is missing, and keeps the text.
pub proof fn lemma_padding_keeps_the_text(text: Seq<char>, fill: char, width: nat, missing: nat)
    requires
        missing == if text.len() < width {
            width - text.len()
        } else {
            0
        },
    ensures
        padded(text, fill, width).len() == missing + text.len(),
        padded(text, fill, width).skip(missing as int) == text,
        forall|i: int| 0 <= i < missing ==> #[trigger] padded(text, fill, width)[i] == fill,
{
    assert(padded(text, fill, width).skip(missing as int) =~= text);
}

} // verus!
