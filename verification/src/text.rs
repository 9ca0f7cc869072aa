//! Small helpers on characters and strings shared by the parsing modules.

use vstd::prelude::*;

verus! {

/// Whether `c` is one of the ASCII digits `0` to `9`.
pub open spec fn is_digit(c: char) -> bool {
    '0' <= c && c <= '9'
}

/// The numeric value of an ASCII digit.
pub open spec fn digit_value(c: char) -> nat
    recommends
        is_digit(c),
{
    (c as u32 - '0' as u32) as nat
}

/// Whether every character of `s` is an ASCII digit.
pub open spec fn all_digits(s: Seq<char>) -> bool {
    forall|i: int| 0 <= i < s.len() ==> is_digit(#[trigger] s[i])
}

/// The number written by the digits of `s`, read in base ten.
pub open spec fn decimal_value(s: Seq<char>) -> nat
    decreases s.len(),
{
    if s.len() == 0 {
        0
    } else {
        decimal_value(s.drop_last()) * 10 + digit_value(s.last())
    }
}

/// Executable form of [`is_digit`].
pub fn char_is_digit(c: char) -> (r: bool)
    ensures
        r == is_digit(c),
{
    '0' <= c && c <= '9'
}

/// The characters of `s`, in order.
pub fn chars_of(s: &str) -> (out: Vec<char>)
    ensures
        out@ == s@,
{
    let mut out: Vec<char> = Vec::new();
    for c in it: s.chars()
        invariant
            out@ == it.seq().take(it.index() as int),
            it.seq() == s@,
    {
        out.push(c);
    }
    out
}

/// Appends one character to `s`, as `String::push` does.
///
/// Trusted: the string afterwards is the string before followed by `c`.
#[verifier::external_body]
pub(crate) fn push_char(s: &mut String, c: char)
    ensures
        final(s)@ == old(s)@.push(c),
{
    s.push(c);
}

/// Appends the characters `chars[from..to]` to `s`.
pub(crate) fn push_chars(s: &mut String, chars: &Vec<char>, from: usize, to: usize)
    requires
        from <= to <= chars.len(),
    ensures
        final(s)@ == old(s)@ + chars@.subrange(from as int, to as int),
{
    let mut i: usize = from;
    while i < to
        invariant
            from <= i <= to <= chars.len(),
            s@ == old(s)@ + chars@.subrange(from as int, i as int),
        decreases to - i,
    {
        push_char(s, chars[i]);
        i += 1;
    }
}

/// The string made of the characters `chars[from..to]`.
pub(crate) fn string_of(chars: &Vec<char>, from: usize, to: usize) -> (out: String)
    requires
        from <= to <= chars.len(),
    ensures
        out@ == chars@.subrange(from as int, to as int),
{
    let mut out = String::new();
    push_chars(&mut out, chars, from, to);
    out
}

/// Ten to the power `n`.
pub open spec fn pow10(n: nat) -> nat
    decreases n,
{
    if n == 0 {
        1
    } else {
        10 * pow10((n - 1) as nat)
    }
}

/// A run of digits of length `n` writes a number below `10^n`.
pub proof fn lemma_decimal_value_bound(s: Seq<char>)
    requires
        all_digits(s),
    ensures
        decimal_value(s) < pow10(s.len()),
    decreases s.len(),
{
    if s.len() > 0 {
        lemma_decimal_value_bound(s.drop_last());
    }
}

/// Reads the digits `chars[from..to]` as a number in base ten.
pub(crate) fn parse_digits(chars: &Vec<char>, from: usize, to: usize) -> (value: u32)
    requires
        from <= to <= chars.len(),
        to - from <= 9,
        all_digits(chars@.subrange(from as int, to as int)),
    ensures
        value == decimal_value(chars@.subrange(from as int, to as int)),
{
    let mut value: u32 = 0;
    let mut i: usize = from;
    while i < to
        invariant
            from <= i <= to <= chars.len(),
            to - from <= 9,
            all_digits(chars@.subrange(from as int, to as int)),
            value == decimal_value(chars@.subrange(from as int, i as int)),
        decreases to - i,
    {
        let c = chars[i];
        proof {
            let whole = chars@.subrange(from as int, to as int);
            let next = chars@.subrange(from as int, i + 1);
            assert(whole[i - from] == c);
            assert(next.drop_last() == chars@.subrange(from as int, i as int));
            assert(next.last() == c);
            assert forall|k: int| 0 <= k < next.len() implies is_digit(#[trigger] next[k]) by {
                assert(next[k] == whole[k]);
            }
            lemma_decimal_value_bound(next);
            lemma_pow10_monotonic(next.len(), 9);
        }
        value = value * 10 + (c as u32 - '0' as u32);
        i += 1;
    }
    value
}

/// `pow10` grows with its argument.
pub proof fn lemma_pow10_monotonic(a: nat, b: nat)
    requires
        a <= b,
    ensures
        pow10(a) <= pow10(b),
        pow10(9) == 1_000_000_000,
    decreases b,
{
    reveal_with_fuel(pow10, 10);
    if a < b {
        lemma_pow10_monotonic(a, (b - 1) as nat);
    }
}

/// The character that writes the digit `d`.
pub open spec fn digit_char(d: nat) -> char
    recommends
        d < 10,
{
    ('0' as u32 + d) as char
}

/// `value` written in base ten in exactly `width` digits, padded with zeros on
/// the left; digits above the width are not written.
pub open spec fn padded_decimal(value: nat, width: nat) -> Seq<char>
    decreases width,
{
    if width == 0 {
        Seq::<char>::empty()
    } else {
        padded_decimal(value / 10, (width - 1) as nat).push(digit_char(value % 10))
    }
}

/// The text of `value` in `width` digits has `width` characters, all digits.
pub proof fn lemma_padded_decimal_digits(value: nat, width: nat)
    ensures
        padded_decimal(value, width).len() == width,
        all_digits(padded_decimal(value, width)),
    decreases width,
{
    if width > 0 {
        lemma_padded_decimal_digits(value / 10, (width - 1) as nat);
    }
}

/// Reading back the padded text of a number that fits the width gives the
/// number.
pub proof fn lemma_decimal_of_padded(value: nat, width: nat)
    requires
        value < pow10(width),
    ensures
        decimal_value(padded_decimal(value, width)) == value,
    decreases width,
{
    if width > 0 {
        let text = padded_decimal(value, width);
        assert(text.drop_last() == padded_decimal(value / 10, (width - 1) as nat));
        lemma_decimal_of_padded(value / 10, (width - 1) as nat);
    }
}

/// Writing the value of a run of digits in as many digits gives the run back.
pub proof fn lemma_padded_of_decimal(s: Seq<char>)
    requires
        all_digits(s),
    ensures
        padded_decimal(decimal_value(s), s.len()) == s,
    decreases s.len(),
{
    if s.len() > 0 {
        lemma_padded_of_decimal(s.drop_last());
        let d = digit_value(s.last());
        assert(d < 10);
        assert((decimal_value(s.drop_last()) * 10 + d) / 10 == decimal_value(s.drop_last()));
        assert((decimal_value(s.drop_last()) * 10 + d) % 10 == d);
        assert(digit_char(d) == s.last());
        assert(padded_decimal(decimal_value(s), s.len()) =~= s);
    }
}

/// Appends `value` in exactly `width` digits, padded with zeros.
pub fn push_padded(s: &mut String, value: u32, width: usize)
    ensures
        final(s)@ == old(s)@ + padded_decimal(value as nat, width as nat),
{
    let mut digits: Vec<char> = Vec::new();
    let mut rest: u32 = value;
    let mut i: usize = 0;
    // digits holds the text backwards: the last digit first
    while i < width
        invariant
            i <= width,
            digits.len() == i,
            padded_decimal(value as nat, width as nat) == padded_decimal(
                rest as nat,
                (width - i) as nat,
            ) + digits@.reverse(),
        decreases width - i,
    {
        let d: u32 = rest % 10;
        let c: char = char_of_digit(d);
        proof {
            let before = digits@;
            let left = padded_decimal((rest / 10) as nat, (width - i - 1) as nat);
            assert(padded_decimal(rest as nat, (width - i) as nat) == left.push(c));
            assert(before.push(c).reverse() =~= seq![c] + before.reverse());
            assert(left.push(c) + before.reverse() =~= left + before.push(c).reverse());
        }
        digits.push(c);
        rest = rest / 10;
        i += 1;
    }
    let mut k: usize = width;
    while k > 0
        invariant
            k <= width,
            digits.len() == width,
            s@ == old(s)@ + digits@.reverse().subrange(0, width - k),
        decreases k,
    {
        k -= 1;
        proof {
            let r = digits@.reverse();
            assert(r[width - k - 1] == digits@[k as int]);
            assert(r.subrange(0, width - k) =~= r.subrange(0, width - k - 1).push(digits@[k as int]));
        }
        push_char(s, digits[k]);
    }
    proof {
        assert(digits@.reverse().subrange(0, width as int) =~= digits@.reverse());
        assert(padded_decimal(0, 0) =~= Seq::<char>::empty());
    }
}

/// The character for a digit below ten.
pub(crate) fn char_of_digit(d: u32) -> (c: char)
    requires
        d < 10,
    ensures
        c == digit_char(d as nat),
        is_digit(c),
{
    (d as u8 + 48u8) as char
}

/// The index just behind the last `/` of `s`, or 0 where `s` has none: where
/// the file name starts in a path.
pub open spec fn file_start(s: Seq<char>) -> int
    decreases s.len(),
{
    if s.len() == 0 {
        0
    } else if s.last() == '/' {
        s.len() as int
    } else {
        file_start(s.drop_last())
    }
}

/// The index just behind the last `/` of `chars[..end]`.
pub(crate) fn find_file_start(chars: &Vec<char>, end: usize) -> (start: usize)
    requires
        end <= chars.len(),
    ensures
        start == file_start(chars@.subrange(0, end as int)),
        start <= end,
{
    let mut j: usize = end;
    while j > 0 && chars[j - 1] != '/'
        invariant
            j <= end <= chars.len(),
            file_start(chars@.subrange(0, end as int)) == file_start(chars@.subrange(0, j as int)),
        decreases j,
    {
        proof {
            let here = chars@.subrange(0, j as int);
            assert(here.last() == chars[j - 1]);
            assert(here.drop_last() == chars@.subrange(0, j - 1));
        }
        j -= 1;
    }
    proof {
        let here = chars@.subrange(0, j as int);
        if j > 0 {
            assert(here.last() == chars[j - 1]);
        }
    }
    j
}

/// `value` written in base ten, without leading zeros.
pub open spec fn decimal_text(value: nat) -> Seq<char>
    decreases value,
{
    if value < 10 {
        seq![digit_char(value)]
    } else {
        decimal_text(value / 10).push(digit_char(value % 10))
    }
}

/// Appends `value` in base ten, without leading zeros.
pub fn push_decimal(s: &mut String, value: u64)
    ensures
        final(s)@ == old(s)@ + decimal_text(value as nat),
{
    let mut digits: Vec<char> = Vec::new();
    let mut rest: u64 = value;
    // digits holds the text backwards: the last digit first
    while rest >= 10
        invariant
            decimal_text(value as nat) == decimal_text(rest as nat) + digits@.reverse(),
        decreases rest,
    {
        let c: char = char_of_digit((rest % 10) as u32);
        proof {
            let before = digits@;
            let left = decimal_text((rest / 10) as nat);
            assert(decimal_text(rest as nat) == left.push(c));
            assert(before.push(c).reverse() =~= seq![c] + before.reverse());
            assert(left.push(c) + before.reverse() =~= left + before.push(c).reverse());
        }
        digits.push(c);
        rest = rest / 10;
    }
    let first: char = char_of_digit(rest as u32);
    push_char(s, first);
    let width = digits.len();
    let mut k: usize = width;
    while k > 0
        invariant
            k <= width == digits.len(),
            s@ == old(s)@.push(first) + digits@.reverse().subrange(0, width - k),
        decreases k,
    {
        k -= 1;
        proof {
            let r = digits@.reverse();
            assert(r[width - k - 1] == digits@[k as int]);
            assert(r.subrange(0, width - k) =~= r.subrange(0, width - k - 1).push(digits@[k as int]));
        }
        push_char(s, digits[k]);
    }
    proof {
        assert(digits@.reverse().subrange(0, width as int) =~= digits@.reverse());
        assert(s@ =~= old(s)@ + (seq![first] + digits@.reverse()));
    }
}

/// `value` in base ten with a `'` between each group of three digits,
/// counted from the right: `1'234'567`.
pub open spec fn grouped_text(value: nat) -> Seq<char>
    decreases value,
{
    if value < 1000 {
        decimal_text(value)
    } else {
        grouped_text(value / 1000).push('\'') + padded_decimal(value % 1000, 3)
    }
}

/// Appends `value` with its digits grouped in threes (see [`grouped_text`]).
pub fn push_grouped(s: &mut String, value: u64)
    ensures
        final(s)@ == old(s)@ + grouped_text(value as nat),
    decreases value,
{
    if value < 1000 {
        push_decimal(s, value);
    } else {
        push_grouped(s, value / 1000);
        push_char(s, '\'');
        push_padded(s, (value % 1000) as u32, 3);
        assert(s@ =~= old(s)@ + grouped_text(value as nat));
    }
}

/// `value` with its digits grouped in threes (see [`grouped_text`]).
pub fn group_thousands(value: u64) -> (text: String)
    ensures
        text@ == grouped_text(value as nat),
{
    let mut text = String::new();
    push_grouped(&mut text, value);
    text
}

/// Whether `text` is one of the strings of `list`.
pub fn contains_text(list: &Vec<String>, text: &str) -> (found: bool)
    ensures
        found == crate::types::texts(list@).contains(text@),
{
    let ghost all = crate::types::texts(list@);
    let mut i: usize = 0;
    while i < list.len()
        invariant
            i <= list.len(),
            all == crate::types::texts(list@),
            forall|k: int| 0 <= k < i ==> all[k] != text@,
        decreases list.len() - i,
    {
        if str_equal(list[i].as_str(), text) {
            assert(all[i as int] == text@);
            return true;
        }
        i += 1;
    }
    false
}

/// Whether two strings hold the same text.
pub fn str_equal(a: &str, b: &str) -> (same: bool)
    ensures
        same == (a@ == b@),
{
    let left = chars_of(a);
    let right = chars_of(b);
    if left.len() != right.len() {
        return false;
    }
    let mut i: usize = 0;
    while i < left.len()
        invariant
            i <= left.len() == right.len(),
            left@ == a@,
            right@ == b@,
            forall|k: int| 0 <= k < i ==> left[k] == right[k],
        decreases left.len() - i,
    {
        if left[i] != right[i] {
            return false;
        }
        i += 1;
    }
    assert(left@ =~= right@);
    true
}

} // verus!
