//! Operations on text, stated over sequences of characters.

use vstd::prelude::*;

verus! {

/// `String::push` appends one character to the end of the string.
pub assume_specification[ String::push ](s: &mut String, c: char)
    ensures
        final(s)@ == old(s)@.push(c),
;

/// The characters of a text, in order.
pub fn to_chars(text: &str) -> (chars: Vec<char>)
    ensures
        chars@ == text@,
{
    let mut chars: Vec<char> = Vec::new();
    for c in it: text.chars()
        invariant
            it.seq() == text@,
            chars@ == text@.take(it.index()),
    {
        chars.push(c);
    }
    assert(text@.take(text@.len() as int) =~= text@);
    chars
}

/// The text made of the characters at the positions from `start` up to `end`.
pub fn slice_text(chars: &Vec<char>, start: usize, end: usize) -> (text: String)
    requires
        start <= end <= chars@.len(),
    ensures
        text@ == chars@.subrange(start as int, end as int),
{
    let mut text = String::new();
    let mut i: usize = start;
    while i < end
        invariant
            start <= i <= end <= chars@.len(),
            text@ == chars@.subrange(start as int, i as int),
        decreases end - i,
    {
        text.push(chars[i]);
        i = i + 1;
        assert(chars@.subrange(start as int, i as int) =~= chars@.subrange(
            start as int,
            i - 1,
        ).push(chars@[i - 1]));
    }
    text
}

/// Two texts, one after the other.
pub fn concat2(a: &str, b: &str) -> (text: String)
    ensures
        text@ == a@ + b@,
{
    let mut text = a.to_owned();
    text.append(b);
    text
}

/// Three texts, one after the other.
pub fn concat3(a: &str, b: &str, c: &str) -> (text: String)
    ensures
        text@ == a@ + b@ + c@,
{
    let mut text = a.to_owned();
    text.append(b);
    text.append(c);
    text
}

/// Four texts, one after the other.
pub fn concat4(a: &str, b: &str, c: &str, d: &str) -> (text: String)
    ensures
        text@ == a@ + b@ + c@ + d@,
{
    let mut text = concat3(a, b, c);
    text.append(d);
    text
}

/// Whether two texts are equal.
pub fn equal_texts(a: &str, b: &str) -> (r: bool)
    ensures
        r == (a@ == b@),
{
    let x = to_chars(a);
    let y = to_chars(b);
    if x.len() != y.len() {
        return false;
    }
    let mut i: usize = 0;
    while i < x.len()
        invariant
            i <= x@.len(),
            x@ == a@,
            y@ == b@,
            x@.len() == y@.len(),
            forall|j: int| 0 <= j < i ==> x@[j] == y@[j],
        decreases x@.len() - i,
    {
        if x[i] != y[i] {
            return false;
        }
        i = i + 1;
    }
    assert(x@ =~= y@);
    true
}

/// The position of the last occurrence of `c`, or -1 where there is none.
pub open spec fn last_index_of(s: Seq<char>, c: char) -> int
    decreases s.len(),
{
    if s.len() == 0 {
        -1
    } else if s.last() == c {
        s.len() - 1
    } else {
        last_index_of(s.drop_last(), c)
    }
}

/// What the last occurrence of a character is: it holds the character, and nothing after it does.
pub proof fn lemma_last_index_of(s: Seq<char>, c: char)
    ensures
        -1 <= last_index_of(s, c) < s.len(),
        last_index_of(s, c) >= 0 ==> s[last_index_of(s, c)] == c,
        forall|i: int| last_index_of(s, c) < i < s.len() ==> s[i] != c,
    decreases s.len(),
{
    if s.len() > 0 && s.last() != c {
        lemma_last_index_of(s.drop_last(), c);
        assert forall|i: int| last_index_of(s, c) < i < s.len() implies s[i] != c by {
            if i < s.len() - 1 {
                assert(s.drop_last()[i] == s[i]);
            }
        }
    }
}

/// A position that holds `c`, with no `c` after it, is the last occurrence.
pub proof fn lemma_last_index_is(s: Seq<char>, c: char, at: int)
    requires
        -1 <= at < s.len(),
        at >= 0 ==> s[at] == c,
        forall|i: int| at < i < s.len() ==> s[i] != c,
    ensures
        last_index_of(s, c) == at,
{
    lemma_last_index_of(s, c);
}

/// The position of the last occurrence of `c`, if there is one.
pub fn find_last(chars: &Vec<char>, c: char) -> (found: Option<usize>)
    ensures
        match found {
            Some(i) => i == last_index_of(chars@, c) && i < chars@.len(),
            None => last_index_of(chars@, c) == -1,
        },
{
    let mut end: usize = chars.len();
    while end > 0
        invariant
            end <= chars@.len(),
            forall|i: int| end <= i < chars@.len() ==> chars@[i] != c,
        decreases end,
    {
        if chars[end - 1] == c {
            proof {
                lemma_last_index_is(chars@, c, end - 1);
            }
            return Some(end - 1);
        }
        end = end - 1;
    }
    proof {
        lemma_last_index_is(chars@, c, -1);
    }
    None
}

/// The characters with the Unicode property `White_Space`.
pub open spec fn is_white_space(c: char) -> bool {
    let n = c as int;
    ||| 0x09 <= n <= 0x0d
    ||| n == 0x20
    ||| n == 0x85
    ||| n == 0xa0
    ||| n == 0x1680
    ||| 0x2000 <= n <= 0x200a
    ||| n == 0x2028
    ||| n == 0x2029
    ||| n == 0x202f
    ||| n == 0x205f
    ||| n == 0x3000
}

/// Whether a character is white space.
pub fn white_space(c: char) -> (r: bool)
    ensures
        r == is_white_space(c),
{
    let n: u32 = c as u32;
    (0x09 <= n && n <= 0x0d) || n == 0x20 || n == 0x85 || n == 0xa0 || n == 0x1680 || (0x2000 <= n
        && n <= 0x200a) || n == 0x2028 || n == 0x2029 || n == 0x202f || n == 0x205f || n == 0x3000
}

/// The control characters: the Unicode general category `Cc`.
pub open spec fn is_control_char(c: char) -> bool {
    let n = c as int;
    n <= 0x1f || 0x7f <= n <= 0x9f
}

/// Whether a character is a control character.
pub fn control_char(c: char) -> (r: bool)
    ensures
        r == is_control_char(c),
{
    let n: u32 = c as u32;
    n <= 0x1f || (0x7f <= n && n <= 0x9f)
}

/// A text without the white space at its start.
pub open spec fn trim_start(s: Seq<char>) -> Seq<char>
    decreases s.len(),
{
    if s.len() > 0 && is_white_space(s[0]) {
        trim_start(s.drop_first())
    } else {
        s
    }
}

/// A text without the white space, and with `dots` also without the full stops, at its end.
pub open spec fn trim_end(s: Seq<char>, dots: bool) -> Seq<char>
    decreases s.len(),
{
    if s.len() > 0 && (is_white_space(s.last()) || (dots && s.last() == '.')) {
        trim_end(s.drop_last(), dots)
    } else {
        s
    }
}

/// Drops the white space at the start of a text.
pub fn drop_leading_space(chars: &Vec<char>) -> (rest: Vec<char>)
    ensures
        rest@ == trim_start(chars@),
{
    let mut start: usize = 0;
    assert(chars@.skip(0) =~= chars@);
    while start < chars.len() && white_space(chars[start])
        invariant
            start <= chars@.len(),
            trim_start(chars@.skip(start as int)) == trim_start(chars@),
        decreases chars@.len() - start,
    {
        assert(chars@.skip(start as int).drop_first() =~= chars@.skip(start + 1));
        start = start + 1;
    }
    let mut rest: Vec<char> = Vec::new();
    let mut i: usize = start;
    while i < chars.len()
        invariant
            start <= i <= chars@.len(),
            rest@ == chars@.subrange(start as int, i as int),
        decreases chars@.len() - i,
    {
        rest.push(chars[i]);
        i = i + 1;
    }
    assert(rest@ =~= chars@.skip(start as int));
    rest
}

/// Drops the white space, and with `dots` also the full stops, at the end of a text.
pub fn drop_trailing(chars: &mut Vec<char>, dots: bool)
    ensures
        final(chars)@ == trim_end(old(chars)@, dots),
{
    while chars.len() > 0 && (white_space(chars[chars.len() - 1]) || (dots && chars[chars.len() - 1]
        == '.'))
        invariant
            trim_end(chars@, dots) == trim_end(old(chars)@, dots),
        decreases chars@.len(),
    {
        chars.pop();
    }
}

/// The code of a character, with the ASCII capital letters counted as small letters.
pub open spec fn folded(c: char) -> int {
    if 0x41 <= c as int <= 0x5a {
        c as int + 0x20
    } else {
        c as int
    }
}

/// Whether two texts are equal but for the case of ASCII letters.
pub open spec fn equal_ignoring_case(a: Seq<char>, b: Seq<char>) -> bool {
    a.len() == b.len() && forall|i: int| 0 <= i < a.len() ==> folded(#[trigger] a[i]) == folded(b[i])
}

fn fold(c: char) -> (n: u32)
    ensures
        n == folded(c),
{
    let n: u32 = c as u32;
    if 0x41 <= n && n <= 0x5a {
        n + 0x20
    } else {
        n
    }
}

/// Compares two texts without regard to the case of ASCII letters.
pub fn eq_ignore_case(a: &Vec<char>, b: &Vec<char>) -> (r: bool)
    ensures
        r == equal_ignoring_case(a@, b@),
{
    if a.len() != b.len() {
        return false;
    }
    let mut i: usize = 0;
    while i < a.len()
        invariant
            i <= a@.len(),
            a@.len() == b@.len(),
            forall|j: int| 0 <= j < i ==> folded(#[trigger] a@[j]) == folded(b@[j]),
        decreases a@.len() - i,
    {
        if fold(a[i]) != fold(b[i]) {
            return false;
        }
        i = i + 1;
    }
    true
}

/// The decimal digit of a number below ten.
pub open spec fn digit(d: int) -> char {
    if d == 0 {
        '0'
    } else if d == 1 {
        '1'
    } else if d == 2 {
        '2'
    } else if d == 3 {
        '3'
    } else if d == 4 {
        '4'
    } else if d == 5 {
        '5'
    } else if d == 6 {
        '6'
    } else if d == 7 {
        '7'
    } else if d == 8 {
        '8'
    } else {
        '9'
    }
}

/// A number in decimal, without leading zeros.
pub open spec fn decimal_text(n: nat) -> Seq<char>
    decreases n,
{
    if n < 10 {
        seq![digit(n as int)]
    } else {
        decimal_text(n / 10).push(digit((n % 10) as int))
    }
}

/// A number in decimal, with leading zeros up to `width` digits.
pub open spec fn padded_text(n: nat, width: nat) -> Seq<char> {
    let digits = decimal_text(n);
    if digits.len() >= width {
        digits
    } else {
        Seq::new((width - digits.len()) as nat, |i: int| '0') + digits
    }
}

fn digit_char(d: usize) -> (c: char)
    requires
        d < 10,
    ensures
        c == digit(d as int),
{
    match d {
        0 => '0',
        1 => '1',
        2 => '2',
        3 => '3',
        4 => '4',
        5 => '5',
        6 => '6',
        7 => '7',
        8 => '8',
        _ => '9',
    }
}

/// Writes a number in decimal.
pub fn decimal(n: usize) -> (text: String)
    ensures
        text@ == decimal_text(n as nat),
    decreases n,
{
    let mut text = if n < 10 {
        String::new()
    } else {
        decimal(n / 10)
    };
    text.push(digit_char(n % 10));
    assert(n < 10 ==> text@ =~= decimal_text(n as nat));
    text
}

/// Writes a number in decimal, with leading zeros up to `width` digits.
pub fn padded_decimal(n: usize, width: usize) -> (text: String)
    ensures
        text@ == padded_text(n as nat, width as nat),
{
    let digits = decimal(n);
    let count = digits.as_str().unicode_len();
    let mut text = String::new();
    let mut i: usize = count;
    while i < width
        invariant
            count <= i,
            i <= width || i == count,
            text@ == Seq::new((i - count) as nat, |k: int| '0'),
        decreases width - i,
    {
        text.push('0');
        i = i + 1;
        assert(text@ =~= Seq::new((i - count) as nat, |k: int| '0'));
    }
    text.append(digits.as_str());
    assert(text@ =~= padded_text(n as nat, width as nat));
    text
}

/// The value of a digit, counted from `0`.
pub open spec fn digit_value(c: char) -> int {
    c as int - 0x30
}

/// The number that digits write in decimal.
pub open spec fn decimal_value(digits: Seq<char>) -> int
    decreases digits.len(),
{
    if digits.len() == 0 {
        0
    } else {
        10 * decimal_value(digits.drop_last()) + digit_value(digits.last())
    }
}

/// Whether a character is a decimal digit.
pub open spec fn is_digit(c: char) -> bool {
    '0' <= c <= '9'
}

/// Whether a text consists of digits.
pub open spec fn all_digits(s: Seq<char>) -> bool {
    forall|i: int| 0 <= i < s.len() ==> is_digit(#[trigger] s[i])
}

proof fn lemma_decimal_text(n: nat)
    ensures
        decimal_value(decimal_text(n)) == n,
        all_digits(decimal_text(n)),
        decimal_text(n).len() > 0,
    decreases n,
{
    if n < 10 {
        assert(decimal_text(n).drop_last() =~= Seq::<char>::empty());
        assert(decimal_value(Seq::<char>::empty()) == 0);
    } else {
        lemma_decimal_text(n / 10);
        assert(decimal_text(n).drop_last() =~= decimal_text(n / 10));
    }
}

proof fn lemma_leading_zeros(count: nat, digits: Seq<char>)
    ensures
        decimal_value(Seq::new(count, |i: int| '0') + digits) == decimal_value(digits),
    decreases count + digits.len(),
{
    let zeros = Seq::new(count, |i: int| '0');
    let all = zeros + digits;
    if digits.len() > 0 {
        assert(all.drop_last() =~= zeros + digits.drop_last());
        lemma_leading_zeros(count, digits.drop_last());
    } else if count > 0 {
        let fewer = Seq::new((count - 1) as nat, |i: int| '0');
        assert(all.drop_last() =~= fewer + digits);
        lemma_leading_zeros((count - 1) as nat, digits);
    } else {
        assert(all =~= digits);
    }
}

/// A number with leading zeros consists of digits, which still write that number.
pub proof fn lemma_padded_text(n: nat, width: nat)
    ensures
        decimal_value(padded_text(n, width)) == n,
        all_digits(padded_text(n, width)),
        padded_text(n, width).len() > 0,
        padded_text(n, width).len() >= width,
{
    lemma_decimal_text(n);
    let digits = decimal_text(n);
    if digits.len() < width {
        lemma_leading_zeros((width - digits.len()) as nat, digits);
    }
}

/// The digits that a text starts with.
pub open spec fn leading_digits(s: Seq<char>) -> Seq<char>
    decreases s.len(),
{
    if starts_with_number(s) {
        seq![s[0]] + leading_digits(s.drop_first())
    } else {
        Seq::empty()
    }
}

/// Whether a text starts with a number.
pub open spec fn starts_with_number(s: Seq<char>) -> bool {
    s.len() > 0 && is_digit(s[0])
}

/// The number that a text starts with.
pub open spec fn leading_number(s: Seq<char>) -> int {
    decimal_value(leading_digits(s))
}

/// A text of digits, and after them something else, starts with exactly those digits.
pub proof fn lemma_leading_digits(digits: Seq<char>, rest: Seq<char>)
    requires
        all_digits(digits),
        !starts_with_number(rest),
    ensures
        leading_digits(digits + rest) == digits,
    decreases digits.len(),
{
    let all = digits + rest;
    if digits.len() == 0 {
        assert(all =~= rest);
        assert(leading_digits(rest) =~= digits);
    } else {
        assert(all[0] == digits[0]);
        assert(all.drop_first() =~= digits.drop_first() + rest);
        lemma_leading_digits(digits.drop_first(), rest);
        assert(seq![all[0]] + digits.drop_first() =~= digits);
    }
}

/// Whether a text stands before another one in a plain list of texts: it is shorter and the other
/// starts with it, or has the smaller character where they first differ.
pub open spec fn sorts_before(a: Seq<char>, b: Seq<char>) -> bool {
    exists|at: int| #[trigger] parts_before(a, b, at)
}

/// Whether two texts are equal up to a place, and the first ends there or has the smaller character.
pub open spec fn parts_before(a: Seq<char>, b: Seq<char>, at: int) -> bool {
    &&& 0 <= at <= a.len() && at < b.len()
    &&& a.take(at) == b.take(at)
    &&& at < a.len() ==> a[at] < b[at]
}

/// The digit of a number at a place of its four.
pub open spec fn digit_of_four(n: nat, at: int) -> int {
    if at == 0 {
        (n / 1000) as int
    } else if at == 1 {
        (n / 100 % 10) as int
    } else if at == 2 {
        (n / 10 % 10) as int
    } else {
        (n % 10) as int
    }
}

/// Numbers below ten thousand have four digits with their leading zeros.
#[verifier::rlimit(60)]
pub proof fn lemma_four_digits(n: nat)
    requires
        n < 10_000,
    ensures
        padded_text(n, 4) == Seq::new(4, |i: int| digit(digit_of_four(n, i))),
{
    let all = Seq::new(4, |i: int| digit(digit_of_four(n, i)));
    lemma_split(n);
    if n < 10 {
        assert(padded_text(n, 4) =~= all);
    } else if n < 100 {
        assert(decimal_text(n / 10) =~= seq![digit((n / 10) as int)]);
        assert(padded_text(n, 4) =~= all);
    } else if n < 1000 {
        assert(decimal_text(n / 10 / 10) =~= seq![digit((n / 100) as int)]);
        assert(decimal_text(n / 10) =~= decimal_text(n / 100).push(digit((n / 10 % 10) as int)));
        assert(padded_text(n, 4) =~= all);
    } else {
        assert(decimal_text(n / 10 / 10 / 10) =~= seq![digit((n / 1000) as int)]);
        assert(decimal_text(n / 10 / 10) =~= decimal_text(n / 1000).push(
            digit((n / 100 % 10) as int),
        ));
        assert(decimal_text(n / 10) =~= decimal_text(n / 100).push(digit((n / 10 % 10) as int)));
        assert(padded_text(n, 4) =~= all);
    }
}

proof fn lemma_digits_rise(d: int, e: int)
    requires
        0 <= d < e < 10,
    ensures
        digit(d) < digit(e),
{
}

/// The first of its four digits in which a number is smaller than another one.
spec fn first_smaller_digit(a: nat, b: nat) -> int {
    if a / 1000 != b / 1000 {
        0
    } else if a / 100 != b / 100 {
        1
    } else if a / 10 != b / 10 {
        2
    } else {
        3
    }
}

proof fn lemma_split(n: nat)
    ensures
        n == 10 * (n / 10) + n % 10,
        n / 10 == 10 * (n / 100) + n / 10 % 10,
        n / 100 == 10 * (n / 1000) + n / 100 % 10,
{
    assert(n / 10 / 10 == n / 100);
    assert(n / 100 / 10 == n / 1000);
}

#[verifier::rlimit(60)]
proof fn lemma_first_smaller_digit(a: nat, b: nat)
    requires
        a < b < 10_000,
    ensures
        forall|i: int|
            0 <= i < first_smaller_digit(a, b) ==> #[trigger] digit_of_four(a, i) == digit_of_four(
                b,
                i,
            ),
        0 <= digit_of_four(a, first_smaller_digit(a, b)) < digit_of_four(
            b,
            first_smaller_digit(a, b),
        ) < 10,
{
    lemma_split(a);
    lemma_split(b);
    if a / 1000 != b / 1000 {
        assert(a / 1000 < b / 1000);
        assert(b / 1000 < 10);
    } else {
        assert(digit_of_four(a, 0) == digit_of_four(b, 0));
        if a / 100 == b / 100 {
            assert(digit_of_four(a, 1) == digit_of_four(b, 1));
            if a / 10 == b / 10 {
                assert(digit_of_four(a, 2) == digit_of_four(b, 2));
            } else {
                assert(a / 10 < b / 10);
            }
        } else {
            assert(a / 100 < b / 100);
        }
    }
}

/// Numbers with four digits stand in a plain list of texts in their order, whatever follows them.
#[verifier::rlimit(60)]
pub proof fn lemma_padded_numbers_sort(a: nat, rest_a: Seq<char>, b: nat, rest_b: Seq<char>)
    requires
        a < b < 10_000,
    ensures
        sorts_before(padded_text(a, 4) + rest_a, padded_text(b, 4) + rest_b),
{
    lemma_four_digits(a);
    lemma_four_digits(b);
    lemma_first_smaller_digit(a, b);
    let at = first_smaller_digit(a, b);
    let (s, t) = (padded_text(a, 4), padded_text(b, 4));
    let (x, y) = (s + rest_a, t + rest_b);
    assert(0 <= at < 4);
    lemma_digits_rise(digit_of_four(a, at), digit_of_four(b, at));
    assert forall|i: int| 0 <= i < at implies x[i] == y[i] by {
        assert(x[i] == digit(digit_of_four(a, i)));
        assert(y[i] == digit(digit_of_four(b, i)));
    }
    assert(x.take(at) =~= y.take(at));
    assert(x[at] == digit(digit_of_four(a, at)));
    assert(y[at] == digit(digit_of_four(b, at)));
    assert(parts_before(x, y, at));
}

/// Whether a text consists of white space.
pub open spec fn all_white_space(s: Seq<char>) -> bool {
    forall|i: int| 0 <= i < s.len() ==> is_white_space(#[trigger] s[i])
}

/// White space at the start of a text is dropped, and what stands behind the rest stays.
pub proof fn lemma_trim_start(space: Seq<char>, s: Seq<char>)
    requires
        all_white_space(space),
    ensures
        trim_start(space + s) == trim_start(s),
    decreases space.len(),
{
    if space.len() > 0 {
        assert((space + s)[0] == space[0]);
        assert((space + s).drop_first() =~= space.drop_first() + s);
        lemma_trim_start(space.drop_first(), s);
    } else {
        assert(space + s =~= s);
    }
}

/// What follows a text that does not consist of white space is out of reach of its start.
pub proof fn lemma_trim_start_of_sum(s: Seq<char>, rest: Seq<char>)
    requires
        rest.len() > 0 ==> (!is_white_space(rest[0]) || !all_white_space(s)),
    ensures
        trim_start(s + rest) == trim_start(s) + rest,
    decreases s.len(),
{
    if s.len() == 0 {
        assert(s + rest =~= rest);
        assert(trim_start(s) + rest =~= rest);
    } else if is_white_space(s[0]) {
        assert((s + rest)[0] == s[0]);
        assert((s + rest).drop_first() =~= s.drop_first() + rest);
        if all_white_space(s.drop_first()) {
            assert forall|i: int| 0 <= i < s.len() implies is_white_space(#[trigger] s[i]) by {
                if i > 0 {
                    assert(s.drop_first()[i - 1] == s[i]);
                }
            }
        }
        lemma_trim_start_of_sum(s.drop_first(), rest);
    } else {
        assert((s + rest)[0] == s[0]);
    }
}

/// Nothing is left of white space.
pub proof fn lemma_trim_start_of_space(s: Seq<char>)
    requires
        all_white_space(s),
    ensures
        trim_start(s).len() == 0,
{
    lemma_trim_start(s, Seq::empty());
    assert(s + Seq::<char>::empty() =~= s);
}

/// White space at the end of a text is dropped.
pub proof fn lemma_trim_end(s: Seq<char>, space: Seq<char>)
    requires
        all_white_space(space),
    ensures
        trim_end(s + space, false) == trim_end(s, false),
    decreases space.len(),
{
    if space.len() > 0 {
        assert((s + space).last() == space.last());
        assert((s + space).drop_last() =~= s + space.drop_last());
        lemma_trim_end(s, space.drop_last());
    } else {
        assert(s + space =~= s);
    }
}

/// White space is what Unicode counts as such: 25 characters, and no other.
pub proof fn law_white_space(c: char)
    ensures
        is_white_space(c) <==> (c == '\t' || c == '\n' || c == '\u{b}' || c == '\u{c}' || c == '\r' || c
            == ' ' || c == '\u{85}' || c == '\u{a0}' || c == '\u{1680}' || ('\u{2000}' <= c
            && c <= '\u{200a}') || c == '\u{2028}' || c == '\u{2029}' || c == '\u{202f}' || c
            == '\u{205f}' || c == '\u{3000}'),
        is_control_char(c) <==> (c < ' ' || ('\u{7f}' <= c && c <= '\u{9f}')),
{
}

/// A text without the white space at its start is the rest of the text from its first character that
/// is not white space.
pub proof fn law_trim_start(s: Seq<char>, at: int)
    requires
        0 <= at <= s.len(),
        forall|i: int| 0 <= i < at ==> is_white_space(#[trigger] s[i]),
        at < s.len() ==> !is_white_space(s[at]),
    ensures
        trim_start(s) == s.skip(at),
    decreases at,
{
    if at > 0 {
        let rest = s.drop_first();
        assert forall|i: int| 0 <= i < at - 1 implies is_white_space(#[trigger] rest[i]) by {
            assert(rest[i] == s[i + 1]);
        }
        assert(is_white_space(s[0]));
        law_trim_start(rest, at - 1);
        assert(rest.skip(at - 1) =~= s.skip(at));
    } else {
        assert(s.skip(0) =~= s);
    }
}

/// A text without the white space at its end is the text up to its last character that is neither
/// white space nor, where they are dropped too, a full stop.
pub proof fn law_trim_end(s: Seq<char>, dots: bool, at: int)
    requires
        0 <= at <= s.len(),
        forall|i: int|
            at <= i < s.len() ==> is_white_space(#[trigger] s[i]) || (dots && s[i] == '.'),
        at > 0 ==> !is_white_space(s[at - 1]) && (dots ==> s[at - 1] != '.'),
    ensures
        trim_end(s, dots) == s.take(at),
    decreases s.len(),
{
    if at < s.len() {
        let rest = s.drop_last();
        assert(is_white_space(s[s.len() - 1]) || (dots && s[s.len() - 1] == '.'));
        assert forall|i: int| at <= i < rest.len() implies is_white_space(#[trigger] rest[i]) || (dots
            && rest[i] == '.') by {
            assert(rest[i] == s[i]);
        }
        law_trim_end(rest, dots, at);
        assert(rest.take(at) =~= s.take(at));
    } else {
        assert(s.take(at) =~= s);
    }
}

/// Whether two characters are the same letter of the English alphabet, the first small and the second
/// capital.
pub open spec fn is_capital_of(small: char, capital: char) -> bool {
    'a' <= small <= 'z' && capital as int + 32 == small as int
}

/// Texts are equal but for case if and only if they have the same length, and at each place the same
/// character, or one letter of the English alphabet in small and in capital.
pub proof fn law_equal_ignoring_case(a: Seq<char>, b: Seq<char>)
    ensures
        equal_ignoring_case(a, b) <==> (a.len() == b.len() && forall|i: int|
            0 <= i < a.len() ==> (#[trigger] a[i] == b[i] || is_capital_of(a[i], b[i])
                || is_capital_of(b[i], a[i]))),
{
    if equal_ignoring_case(a, b) {
        assert forall|i: int| 0 <= i < a.len() implies (#[trigger] a[i] == b[i] || is_capital_of(
            a[i],
            b[i],
        ) || is_capital_of(b[i], a[i])) by {
            assert(folded(a[i]) == folded(b[i]));
        }
    } else if a.len() == b.len() {
        let i = choose|i: int| 0 <= i < a.len() && folded(#[trigger] a[i]) != folded(b[i]);
        assert(!(a[i] == b[i] || is_capital_of(a[i], b[i]) || is_capital_of(b[i], a[i])));
    }
}

/// A number in decimal has digits alone, the first of them zero only where it is the only one, and
/// their value is the number; with leading zeros it has as many digits as asked for, or more where it
/// needs them.
#[verifier::rlimit(60)]
pub proof fn law_decimal_text(n: nat, width: nat)
    ensures
        decimal_value(decimal_text(n)) == n,
        forall|i: int|
            0 <= i < decimal_text(n).len() ==> '0' <= #[trigger] decimal_text(n)[i] <= '9',
        decimal_text(n).len() > 0,
        decimal_text(n).len() > 1 ==> decimal_text(n)[0] != '0',
        padded_text(n, width).len() == if decimal_text(n).len() >= width {
            decimal_text(n).len()
        } else {
            width
        },
        decimal_value(padded_text(n, width)) == n,
        forall|i: int|
            0 <= i < padded_text(n, width).len() ==> '0' <= #[trigger] padded_text(n, width)[i]
                <= '9',
    decreases n,
{
    lemma_padded_text(n, width);
    lemma_decimal_text(n);
    assert forall|i: int| 0 <= i < decimal_text(n).len() implies '0' <= #[trigger] decimal_text(n)[i]
        <= '9' by {
        assert(is_digit(decimal_text(n)[i]));
    }
    assert forall|i: int| 0 <= i < padded_text(n, width).len() implies '0'
        <= #[trigger] padded_text(n, width)[i] <= '9' by {
        assert(is_digit(padded_text(n, width)[i]));
    }
    if n >= 10 {
        law_decimal_text(n / 10, width);
        let front = decimal_text(n / 10);
        assert(decimal_text(n)[0] == front[0]);
        if front.len() == 1 && front[0] == '0' {
            assert(front.drop_last() =~= Seq::<char>::empty());
            assert(decimal_value(front.drop_last()) == 0);
            assert(decimal_value(front) == 0);
        }
    }
}

/// The value of digits: each digit counts ten times as much as the one after it.
pub proof fn law_decimal_value(front: Seq<char>, last: char)
    ensures
        decimal_value(front.push(last)) == 10 * decimal_value(front) + (last as int - '0' as int),
        decimal_value(Seq::empty()) == 0,
{
    assert(front.push(last).drop_last() =~= front);
}

/// The number that a text starts with is the value of all the digits that it starts with.
pub proof fn law_leading_number(digits: Seq<char>, rest: Seq<char>)
    requires
        digits.len() > 0,
        forall|i: int| 0 <= i < digits.len() ==> '0' <= #[trigger] digits[i] <= '9',
        rest.len() > 0 ==> !('0' <= rest[0] <= '9'),
    ensures
        starts_with_number(digits + rest),
        leading_number(digits + rest) == decimal_value(digits),
        !starts_with_number(rest),
{
    assert forall|i: int| 0 <= i < digits.len() implies is_digit(#[trigger] digits[i]) by {}
    lemma_leading_digits(digits, rest);
    assert((digits + rest)[0] == digits[0]);
}

} // verus!
