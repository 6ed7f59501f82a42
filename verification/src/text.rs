//! Text as sequences of characters: decimal numbers, comparison, searching.
use vstd::prelude::*;

verus! {

/// `String::push` appends one character at the end of the string.
pub assume_specification[ String::push ](s: &mut String, c: char)
    ensures
        final(s)@ == old(s)@.push(c),
;

/// The character that stands for a decimal digit.
pub open spec fn digit_char(d: nat) -> char {
    (48 + d) as char
}

/// Whether a character is one of `0` to `9`.
pub open spec fn is_digit(c: char) -> bool {
    '0' <= c <= '9'
}

/// The number that a decimal digit stands for.
pub open spec fn digit_value(c: char) -> nat {
    (c as int - 48) as nat
}

/// The decimal notation of a number, without leading zeros.
pub open spec fn decimal(n: nat) -> Seq<char>
    decreases n,
{
    if n < 10 {
        seq![digit_char(n)]
    } else {
        decimal(n / 10).push(digit_char(n % 10))
    }
}

/// The number that a sequence of decimal digits stands for.
pub open spec fn digits_value(s: Seq<char>) -> nat
    decreases s.len(),
{
    if s.len() == 0 {
        0
    } else {
        10 * digits_value(s.drop_last()) + digit_value(s.last())
    }
}

/// Whether a sequence is non-empty and holds nothing but decimal digits.
pub open spec fn all_digits(s: Seq<char>) -> bool {
    s.len() > 0 && forall|i: int| 0 <= i < s.len() ==> is_digit(#[trigger] s[i])
}

/// An unsigned number in text: an optional plus sign, then digits only, with a value of at most
/// `max`. Any other text stands for no number.
pub open spec fn parsed_number(s: Seq<char>, max: nat) -> Option<nat> {
    let digits = if s.len() > 0 && s[0] == '+' {
        s.skip(1)
    } else {
        s
    };
    if all_digits(digits) && digits_value(digits) <= max {
        Some(digits_value(digits))
    } else {
        None
    }
}

fn digit(d: u128) -> (c: char)
    requires
        d < 10,
    ensures
        c == digit_char(d as nat),
{
    match d {
        0 => '0',
        1 => '1',
        2 => '2',
        3 => '3',
        4 => '4',
        5 => '5',
        6 => '6',
        7 => '7',
        8 => '8',
        _ => '9',
    }
}

/// Appends one decimal digit.
pub fn push_digit(out: &mut String, d: u64)
    requires
        d < 10,
    ensures
        final(out)@ == old(out)@.push(digit_char(d as nat)),
{
    out.push(digit(d as u128));
}

/// Appends the decimal notation of `n`.
pub fn push_decimal(out: &mut String, n: u128)
    ensures
        final(out)@ == old(out)@ + decimal(n as nat),
    decreases n,
{
    if n >= 10 {
        push_decimal(out, n / 10);
    }
    out.push(digit(n % 10));
    assert(out@ =~= old(out)@ + decimal(n as nat));
}

/// The decimal notation of `n`.
pub fn number_text(n: u64) -> (r: String)
    ensures
        r@ == decimal(n as nat),
{
    let mut r = String::new();
    push_decimal(&mut r, n as u128);
    assert(r@ =~= decimal(n as nat));
    r
}

/// Whether two texts hold the same characters.
pub fn same_text(a: &str, b: &str) -> (r: bool)
    ensures
        r == (a@ == b@),
{
    a.to_owned() == b.to_owned()
}

proof fn lemma_prefix_value(s: Seq<char>, i: int)
    requires
        0 <= i <= s.len(),
    ensures
        digits_value(s.take(i)) <= digits_value(s),
    decreases s.len() - i,
{
    if i == s.len() {
        assert(s.take(i) =~= s);
    } else {
        lemma_prefix_value(s, i + 1);
        assert(s.take(i + 1).drop_last() =~= s.take(i));
    }
}

/// Reads an unsigned number, at most `max`.
pub fn parse_number(s: &str, max: u64) -> (r: Option<u64>)
    ensures
        r is Some <==> parsed_number(s@, max as nat) is Some,
        r matches Some(v) ==> parsed_number(s@, max as nat) == Some(v as nat),
{
    let mut value: u64 = 0;
    let mut any: bool = false;
    let mut first: bool = true;
    let ghost signed = s@.len() > 0 && s@[0] == '+';
    let ghost digits = if signed {
        s@.skip(1)
    } else {
        s@
    };
    let ghost mut count: int = 0;
    for c in it: s.chars()
        invariant
            it.seq() == s@,
            first == (it.index() == 0),
            signed == (s@.len() > 0 && s@[0] == '+'),
            digits == if signed {
                s@.skip(1)
            } else {
                s@
            },
            count == if signed && it.index() > 0 {
                it.index() - 1
            } else {
                it.index()
            },
            any == (count > 0),
            forall|i: int| 0 <= i < count ==> is_digit(#[trigger] digits[i]),
            value == digits_value(digits.take(count)),
            value <= max,
    {
        if !(first && c == '+') {
            assert(digits[count] == c);
            if c < '0' || c > '9' {
                assert(!is_digit(digits[count]));
                return None;
            }
            let d: u64 = c as u64 - 48;
            assert(digits.take(count + 1).drop_last() =~= digits.take(count));
            if value > max / 10 || d > max - value * 10 {
                proof {
                    lemma_prefix_value(digits, count + 1);
                }
                return None;
            }
            value = value * 10 + d;
            any = true;
            proof {
                count = count + 1;
            }
        }
        first = false;
    }
    assert(digits.take(count) =~= digits);
    if any {
        Some(value)
    } else {
        None
    }
}

/// Whether a text holds another somewhere.
pub open spec fn contains_text(s: Seq<char>, part: Seq<char>) -> bool {
    exists|i: int| 0 <= i <= s.len() - part.len() && #[trigger] starts_at(s, part, i)
}

/// Whether a text stands in another from the given place on.
pub open spec fn starts_at(s: Seq<char>, part: Seq<char>, i: int) -> bool {
    s.subrange(i, i + part.len()) == part
}

fn characters(s: &str) -> (r: Vec<char>)
    ensures
        r@ == s@,
{
    let mut r: Vec<char> = Vec::new();
    for c in it: s.chars()
        invariant
            it.seq() == s@,
            r@ =~= s@.take(it.index()),
    {
        r.push(c);
    }
    r
}

/// Tells whether a text holds another somewhere.
pub fn holds_text(s: &str, part: &str) -> (r: bool)
    ensures
        r == contains_text(s@, part@),
{
    let text = characters(s);
    let wanted = characters(part);
    if wanted.len() > text.len() {
        return false;
    }
    let size: usize = text.len();
    let last: usize = size - wanted.len();
    let mut i: usize = 0;
    while i <= last
        invariant
            text@ == s@,
            wanted@ == part@,
            last == s@.len() - part@.len(),
            size == s@.len(),
            i <= last + 1,
            forall|k: int| 0 <= k < i ==> !#[trigger] starts_at(s@, part@, k),
        decreases last + 1 - i,
    {
        let mut k: usize = 0;
        while k < wanted.len() && text[i + k] == wanted[k]
            invariant
                text@ == s@,
                wanted@ == part@,
                size == s@.len(),
                i + part@.len() <= size,
                k <= part@.len(),
                forall|j: int| 0 <= j < k ==> s@[i + j] == #[trigger] part@[j],
            decreases part@.len() - k,
        {
            k = k + 1;
        }
        if k == wanted.len() {
            assert(s@.subrange(i as int, i + part@.len()) =~= part@);
            assert(starts_at(s@, part@, i as int));
            return true;
        }
        assert(s@.subrange(i as int, i + part@.len())[k as int] != part@[k as int]);
        if i == last {
            return false;
        }
        i = i + 1;
    }
    false
}

/// The decimal notation of a number reads back as that number.
pub proof fn law_decimal_reads_back(n: nat, max: nat)
    requires
        n <= max,
    ensures
        parsed_number(decimal(n), max) == Some(n),
{
    lemma_decimal_digits(n);
}

/// Decimal notation consists of digits, and its value is the number.
pub proof fn lemma_decimal_digits(n: nat)
    ensures
        all_digits(decimal(n)),
        digits_value(decimal(n)) == n,
    decreases n,
{
    if n >= 10 {
        lemma_decimal_digits(n / 10);
        assert(decimal(n).drop_last() =~= decimal(n / 10));
    } else {
        assert(decimal(n).drop_last() =~= Seq::empty());
        assert(digits_value(decimal(n).drop_last()) == 0);
    }
}

/// Decimal notation puts the digits one after another, the highest first, and begins with 0 only
/// where the number is 0.
pub proof fn law_decimal_digits_in_order(n: nat, d: nat)
    requires
        d < 10,
    ensures
        n > 0 ==> decimal(10 * n + d) == decimal(n).push((48 + d) as char),
        decimal(d) == seq![(48 + d) as char],
        n > 0 ==> decimal(n)[0] != '0',
    decreases n,
{
    if n > 0 {
        assert((10 * n + d) / 10 == n && (10 * n + d) % 10 == d);
        if n >= 10 {
            law_decimal_digits_in_order(n / 10, n % 10);
            lemma_decimal_digits(n / 10);
        }
    }
}

/// One digit more.
pub proof fn lemma_digit_behind(s: Seq<char>, d: nat)
    requires
        d < 10,
    ensures
        digits_value(s.push(digit_char(d))) == 10 * digits_value(s) + d,
        all_digits(s) ==> all_digits(s.push(digit_char(d))),
{
    assert(s.push(digit_char(d)).drop_last() =~= s);
}

/// Numbers in text: a plus sign in front and zeros before the digits change nothing, and a number
/// above the limit is refused.
pub proof fn law_number_notation(n: nat, max: nat, s: Seq<char>)
    ensures
        n <= max ==> parsed_number(seq!['+'] + decimal(n), max) == Some(n),
        n > max ==> parsed_number(decimal(n), max) is None,
        all_digits(s) ==> parsed_number(seq!['0'] + s, max) == parsed_number(s, max),
{
    lemma_decimal_digits(n);
    assert((seq!['+'] + decimal(n)).skip(1) =~= decimal(n));
    if all_digits(s) {
        let t = seq!['0'] + s;
        lemma_leading_zero(s);
        assert forall|i: int| 0 <= i < t.len() implies is_digit(#[trigger] t[i]) by {
            if i > 0 {
                assert(t[i] == s[i - 1]);
            }
        }
        assert(all_digits(t));
        assert(is_digit(s[0]));
        assert(s[0] != '+' && t[0] != '+');
    }
}

proof fn lemma_leading_zero(s: Seq<char>)
    ensures
        digits_value(seq!['0'] + s) == digits_value(s),
    decreases s.len(),
{
    let t = seq!['0'] + s;
    if s.len() > 0 {
        lemma_leading_zero(s.drop_last());
        assert(t.drop_last() =~= seq!['0'] + s.drop_last());
    } else {
        assert(t.drop_last() =~= Seq::empty());
        assert(digits_value(t.drop_last()) == 0);
    }
}

/// A text with anything but digits in it, but for a plus sign in front, is no number, and neither
/// is one without digits.
pub proof fn law_other_texts_are_no_numbers(s: Seq<char>, max: nat, i: int)
    requires
        s.len() == 0 || s == seq!['+'] || (0 <= i < s.len() && !('0' <= s[i] <= '9') && !(i == 0
            && s[i] == '+')),
    ensures
        parsed_number(s, max) is None,
{
    if s.len() > 0 && s[0] == '+' {
        if s == seq!['+'] {
            assert(s.skip(1).len() == 0);
        } else {
            assert(!is_digit(s.skip(1)[i - 1]));
        }
    } else if s.len() > 0 && s != seq!['+'] {
        assert(!is_digit(s[i]));
    }
}

/// A text holds another exactly if it is made of something, the other text, and something more.
pub proof fn law_contained_text(s: Seq<char>, part: Seq<char>)
    ensures
        contains_text(s, part) <==> exists|a: Seq<char>, b: Seq<char>|
            s == #[trigger] (a + part + b),
{
    if contains_text(s, part) {
        let i = choose|i: int| 0 <= i <= s.len() - part.len() && #[trigger] starts_at(s, part, i);
        assert(s =~= s.take(i) + part + s.skip(i + part.len()));
    }
    if exists|a: Seq<char>, b: Seq<char>| s == #[trigger] (a + part + b) {
        let (a, b) = choose|a: Seq<char>, b: Seq<char>| s == #[trigger] (a + part + b);
        assert(s.subrange(a.len() as int, (a.len() + part.len()) as int) =~= part);
        assert(starts_at(s, part, a.len() as int));
    }
}

/// Whether a text is free of a character.
pub open spec fn free_of(s: Seq<char>, c: char) -> bool {
    forall|i: int| 0 <= i < s.len() ==> #[trigger] s[i] != c
}

/// The pieces of a text between the places where a character stands.
pub open spec fn split(s: Seq<char>, sep: char) -> Seq<Seq<char>>
    decreases s.len(),
{
    if s.len() == 0 {
        seq![Seq::<char>::empty()]
    } else {
        let before = split(s.drop_last(), sep);
        if s.last() == sep {
            before.push(Seq::<char>::empty())
        } else {
            before.drop_last().push(before.last().push(s.last()))
        }
    }
}

proof fn lemma_split_len(s: Seq<char>, sep: char)
    ensures
        split(s, sep).len() >= 1,
    decreases s.len(),
{
    if s.len() > 0 {
        lemma_split_len(s.drop_last(), sep);
    }
}

/// A text without the separator is one piece.
pub proof fn lemma_split_piece(s: Seq<char>, sep: char)
    requires
        free_of(s, sep),
    ensures
        split(s, sep) == seq![s],
    decreases s.len(),
{
    if s.len() > 0 {
        let before = s.drop_last();
        assert(forall|i: int| 0 <= i < before.len() ==> before[i] == s[i]);
        lemma_split_piece(before, sep);
        assert(s[s.len() - 1] != sep);
        assert(before.push(s.last()) =~= s);
        assert(split(s, sep) =~= seq![s]);
    } else {
        assert(s =~= Seq::empty());
    }
}

/// The pieces of two texts with the separator between them are those of the first, then those of
/// the second.
pub proof fn lemma_split_joined(a: Seq<char>, b: Seq<char>, sep: char)
    ensures
        split(a + seq![sep] + b, sep) == split(a, sep) + split(b, sep),
    decreases b.len(),
{
    let s = a + seq![sep] + b;
    lemma_split_len(a, sep);
    lemma_split_len(b, sep);
    if b.len() == 0 {
        assert(s.drop_last() =~= a);
        assert(split(s, sep) =~= split(a, sep) + split(b, sep));
    } else {
        let t = b.drop_last();
        lemma_split_joined(a, t, sep);
        lemma_split_len(t, sep);
        assert(s.drop_last() =~= a + seq![sep] + t);
        let (x, y) = (split(a, sep), split(t, sep));
        assert((x + y).drop_last() =~= x + y.drop_last());
        assert((x + y).last() == y.last());
        assert(split(s, sep) =~= split(a, sep) + split(b, sep));
    }
}

/// The pieces of two texts put together: the last piece of the first goes on with the first piece
/// of the second.
pub proof fn lemma_split_concat(s: Seq<char>, t: Seq<char>, sep: char)
    ensures
        split(s, sep).len() >= 1,
        split(t, sep).len() >= 1,
        split(s + t, sep) == split(s, sep).drop_last() + seq![
            split(s, sep).last() + split(t, sep)[0],
        ] + split(t, sep).skip(1),
    decreases t.len(),
{
    lemma_split_len(s, sep);
    lemma_split_len(t, sep);
    let (x, y) = (split(s, sep), split(t, sep));
    if t.len() == 0 {
        assert(s + t =~= s);
        assert(x.last() + y[0] =~= x.last());
        assert(x =~= x.drop_last() + seq![x.last() + y[0]] + y.skip(1));
    } else {
        let u = t.drop_last();
        lemma_split_concat(s, u, sep);
        lemma_split_len(u, sep);
        let z = split(u, sep);
        assert((s + t).drop_last() =~= s + u);
        let before = x.drop_last() + seq![x.last() + z[0]] + z.skip(1);
        if t.last() == sep {
            assert(before.push(Seq::<char>::empty()) =~= x.drop_last() + seq![x.last() + y[0]]
                + y.skip(1));
        } else {
            let c = t.last();
            if z.len() == 1 {
                assert(before.drop_last() =~= x.drop_last());
                assert((x.last() + z[0]).push(c) =~= x.last() + z[0].push(c));
                assert(before.drop_last().push(before.last().push(c)) =~= x.drop_last() + seq![
                    x.last() + y[0],
                ] + y.skip(1));
            } else {
                assert(before.last() == z.last());
                assert(before.drop_last().push(before.last().push(c)) =~= x.drop_last() + seq![
                    x.last() + y[0],
                ] + y.skip(1));
            }
        }
    }
}

/// What comes behind a text: more of its last piece, then the end of that piece, then the beginning
/// of the next.
pub proof fn lemma_next_piece(
    s: Seq<char>,
    done: Seq<Seq<char>>,
    piece: Seq<char>,
    value: Seq<char>,
    end: Seq<char>,
    next: Seq<char>,
    sep: char,
)
    requires
        split(s, sep) == done.push(piece),
        free_of(value, sep),
        free_of(end, sep),
        free_of(next, sep),
    ensures
        split(s + value + (end + seq![sep] + next), sep) == done.push(piece + value + end).push(
            next,
        ),
{
    let tail = end + seq![sep] + next;
    lemma_split_piece(value, sep);
    lemma_split_piece(end, sep);
    lemma_split_piece(next, sep);
    lemma_split_joined(end, next, sep);
    lemma_split_concat(s, value, sep);
    let more = done.push(piece + value);
    assert(done.push(piece).drop_last() =~= done);
    assert(split(s + value, sep) =~= more);
    lemma_split_concat(s + value, tail, sep);
    assert(more.drop_last() =~= done);
    assert(split(s + value + tail, sep) =~= done.push(piece + value + end).push(next));
}

} // verus!
