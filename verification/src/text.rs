//! Text as sequences of characters: what the rest of the library says about
//! strings, and the loops that compute it.

use vstd::prelude::*;
use vstd::string::*;

verus! {

/// `String::push`: appends one character and changes nothing else.
#[verifier::external_body]
pub(crate) fn add_char(s: &mut String, c: char)
    ensures
        final(s)@ == old(s)@.push(c),
{
    s.push(c);
}

// ---- what is said of text ----

/// `pattern` stands in `s` at position `at`.
pub open spec fn occurs_at(s: Seq<char>, pattern: Seq<char>, at: int) -> bool {
    &&& 0 <= at
    &&& at + pattern.len() <= s.len()
    &&& s.subrange(at, at + pattern.len()) == pattern
}

/// `pattern` stands somewhere in `s`.
pub open spec fn occurs(s: Seq<char>, pattern: Seq<char>) -> bool {
    exists|at: int| occurs_at(s, pattern, at)
}

/// The leftmost place where `pattern` stands in `s`.
pub open spec fn first_at(s: Seq<char>, pattern: Seq<char>, at: int) -> bool {
    &&& occurs_at(s, pattern, at)
    &&& forall|j: int| j < at ==> !occurs_at(s, pattern, j)
}

/// How many characters of `s` are `c`.
pub open spec fn count_of(s: Seq<char>, c: char) -> nat
    decreases s.len(),
{
    if s.len() == 0 {
        0
    } else {
        count_of(s.drop_last(), c) + (if s.last() == c { 1nat } else { 0nat })
    }
}

/// The lower-case form of an ASCII letter; any other character is itself.
pub open spec fn lower(c: char) -> char {
    if 'A' <= c && c <= 'Z' {
        ((c as u32 + 32) as u32) as char
    } else {
        c
    }
}

/// The characters with the Unicode property White_Space.
pub open spec fn is_white(c: char) -> bool {
    ||| '\u{9}' <= c && c <= '\u{d}'
    ||| c == '\u{20}'
    ||| c == '\u{85}'
    ||| c == '\u{a0}'
    ||| c == '\u{1680}'
    ||| '\u{2000}' <= c && c <= '\u{200a}'
    ||| c == '\u{2028}'
    ||| c == '\u{2029}'
    ||| c == '\u{202f}'
    ||| c == '\u{205f}'
    ||| c == '\u{3000}'
}

/// `s` without the white space at its start.
pub open spec fn trim_front(s: Seq<char>) -> Seq<char>
    decreases s.len(),
{
    if s.len() > 0 && is_white(s[0]) {
        trim_front(s.skip(1))
    } else {
        s
    }
}

/// `s` without the white space at its end.
pub open spec fn trim_back(s: Seq<char>) -> Seq<char>
    decreases s.len(),
{
    if s.len() > 0 && is_white(s.last()) {
        trim_back(s.drop_last())
    } else {
        s
    }
}

/// `s` without the white space at either end.
pub open spec fn trimmed(s: Seq<char>) -> Seq<char> {
    trim_back(trim_front(s))
}

/// `s` without the `c`s at its end.
pub open spec fn without_trailing(s: Seq<char>, c: char) -> Seq<char>
    decreases s.len(),
{
    if s.len() > 0 && s.last() == c {
        without_trailing(s.drop_last(), c)
    } else {
        s
    }
}

/// `s` without the `c`s at its start.
pub open spec fn without_leading(s: Seq<char>, c: char) -> Seq<char>
    decreases s.len(),
{
    if s.len() > 0 && s[0] == c {
        without_leading(s.skip(1), c)
    } else {
        s
    }
}

/// `s` once for each of `n`, in a row.
pub open spec fn repeated(s: Seq<char>, n: nat) -> Seq<char>
    decreases n,
{
    if n == 0 {
        Seq::empty()
    } else {
        repeated(s, (n - 1) as nat) + s
    }
}

/// The decimal digit for `d`.
pub open spec fn digit(d: nat) -> char {
    ((d + 48) as u32) as char
}

/// `n` in decimal, without leading zeros.
pub open spec fn decimal(n: nat) -> Seq<char>
    decreases n,
{
    if n < 10 {
        seq![digit(n)]
    } else {
        decimal(n / 10).push(digit(n % 10))
    }
}

/// `n` in decimal, with a minus sign where it is negative.
pub open spec fn signed_decimal(n: int) -> Seq<char> {
    if n < 0 {
        seq!['-'] + decimal((-n) as nat)
    } else {
        decimal(n as nat)
    }
}

/// `s` with zeros before it until it is at least `width` long.
pub open spec fn zero_padded(s: Seq<char>, width: nat) -> Seq<char>
    decreases width - s.len(),
{
    if s.len() < width {
        zero_padded(seq!['0'] + s, width)
    } else {
        s
    }
}

/// The value of `c` as a digit in `radix`, which is at most ten.
pub open spec fn digit_value(c: char, radix: nat) -> Option<nat> {
    if '0' <= c && c <= '9' && (c as int - 48) < radix {
        Some((c as int - 48) as nat)
    } else {
        None
    }
}

/// Whether `s` consists of digits in `radix` only.
pub open spec fn all_digits(s: Seq<char>, radix: nat) -> bool {
    forall|i: int| 0 <= i < s.len() ==> digit_value(#[trigger] s[i], radix) is Some
}

/// The number that the digits `s` stand for in `radix`.
pub open spec fn digits_value(s: Seq<char>, radix: nat) -> nat
    decreases s.len(),
{
    if s.len() == 0 {
        0
    } else {
        digits_value(s.drop_last(), radix) * radix + digit_value(s.last(), radix).unwrap_or(0)
    }
}

/// The number that `s` is written as in `radix`: digits, and before them at
/// most one plus sign.
pub open spec fn number_in(s: Seq<char>, radix: nat) -> Option<nat> {
    let digits = if s.len() > 0 && s[0] == '+' {
        s.skip(1)
    } else {
        s
    };
    if digits.len() > 0 && all_digits(digits, radix) {
        Some(digits_value(digits, radix))
    } else {
        None
    }
}

/// The texts in a list of strings.
pub open spec fn texts(list: Seq<String>) -> Seq<Seq<char>> {
    list.map_values(|s: String| s@)
}

// ---- the loops ----

/// The characters of `s`.
pub fn chars_of(s: &str) -> (chars: Vec<char>)
    ensures
        chars@ == s@,
{
    let mut chars: Vec<char> = Vec::new();
    for c in it: s.chars()
        invariant
            it.seq() == s@,
            chars@ == s@.take(it.index()),
    {
        chars.push(c);
        assert(s@.take(it.index() + 1) == s@.take(it.index()).push(c));
    }
    assert(s@.take(s@.len() as int) == s@);
    chars
}

/// The text between the positions `from` and `to`.
pub fn text_between(chars: &Vec<char>, from: usize, to: usize) -> (s: String)
    requires
        from <= to <= chars.len(),
    ensures
        s@ == chars@.subrange(from as int, to as int),
{
    let mut s = String::new();
    let mut i: usize = from;
    while i < to
        invariant
            from <= i <= to <= chars.len(),
            s@ == chars@.subrange(from as int, i as int),
        decreases to - i,
    {
        add_char(&mut s, chars[i]);
        assert(chars@.subrange(from as int, i + 1) == chars@.subrange(from as int, i as int).push(
            chars@[i as int],
        ));
        i += 1;
    }
    s
}

/// Whether `pattern` stands in `s` at position `at`.
pub fn matches_at(s: &Vec<char>, pattern: &Vec<char>, at: usize) -> (r: bool)
    ensures
        r == occurs_at(s@, pattern@, at as int),
{
    if at > s.len() || pattern.len() > s.len() - at {
        return false;
    }
    let mut i: usize = 0;
    while i < pattern.len()
        invariant
            i <= pattern.len(),
            at + pattern.len() <= s.len(),
            forall|j: int| 0 <= j < i ==> s@[at + j] == pattern@[j],
        decreases pattern.len() - i,
    {
        if s[at + i] != pattern[i] {
            assert(s@.subrange(at as int, at + pattern@.len())[i as int] != pattern@[i as int]);
            return false;
        }
        i += 1;
    }
    assert(s@.subrange(at as int, at + pattern@.len()) == pattern@);
    true
}

/// Whether two texts are the same.
pub fn same_text(a: &str, b: &str) -> (r: bool)
    ensures
        r == (a@ == b@),
{
    let a_chars = chars_of(a);
    let b_chars = chars_of(b);
    let r = a_chars.len() == b_chars.len() && matches_at(&a_chars, &b_chars, 0);
    assert(a@.subrange(0, a@.len() as int) == a@);
    r
}

/// Whether `s` starts with `prefix`.
pub fn starts_with(s: &str, prefix: &str) -> (r: bool)
    ensures
        r == prefix@.is_prefix_of(s@),
{
    let s_chars = chars_of(s);
    let prefix_chars = chars_of(prefix);
    matches_at(&s_chars, &prefix_chars, 0)
}

/// Whether `s` ends with `suffix`.
pub fn ends_with(s: &str, suffix: &str) -> (r: bool)
    ensures
        r == suffix@.is_suffix_of(s@),
{
    let s_chars = chars_of(s);
    let suffix_chars = chars_of(suffix);
    if suffix_chars.len() > s_chars.len() {
        return false;
    }
    matches_at(&s_chars, &suffix_chars, s_chars.len() - suffix_chars.len())
}

/// The leftmost place where `pattern` stands in `s`, at or after `from`.
pub fn find_from(s: &Vec<char>, pattern: &Vec<char>, from: usize) -> (r: Option<usize>)
    ensures
        (match r {
            Some(at) => from <= at && occurs_at(s@, pattern@, at as int) && forall|j: int|
                from <= j < at ==> !occurs_at(s@, pattern@, j),
            None => forall|j: int| from <= j ==> !occurs_at(s@, pattern@, j),
        }),
{
    let mut at: usize = from;
    while at <= s.len()
        invariant
            from <= at,
            forall|j: int| from <= j < at ==> !occurs_at(s@, pattern@, j),
        decreases s.len() + 1 - at,
    {
        if matches_at(s, pattern, at) {
            return Some(at);
        }
        if at == s.len() {
            return None;
        }
        at += 1;
    }
    None
}

/// The last position of `c` in `s`.
pub fn last_index(s: &Vec<char>, c: char) -> (r: Option<usize>)
    ensures
        (match r {
            Some(at) => at < s.len() && s@[at as int] == c && forall|j: int|
                at < j < s.len() ==> s@[j] != c,
            None => !s@.contains(c),
        }),
{
    let mut i: usize = s.len();
    while i > 0
        invariant
            i <= s.len(),
            forall|j: int| i <= j < s.len() ==> s@[j] != c,
        decreases i,
    {
        i -= 1;
        if s[i] == c {
            return Some(i);
        }
    }
    None
}

/// How many characters of `s` are `c`.
pub fn count_char(s: &str, c: char) -> (n: usize)
    ensures
        n == count_of(s@, c),
{
    let chars = chars_of(s);
    let mut n: usize = 0;
    let mut i: usize = 0;
    while i < chars.len()
        invariant
            i <= chars.len(),
            n <= i,
            n == count_of(chars@.take(i as int), c),
        decreases chars.len() - i,
    {
        assert(chars@.take(i + 1).drop_last() == chars@.take(i as int));
        if chars[i] == c {
            n += 1;
        }
        i += 1;
    }
    assert(chars@.take(i as int) == chars@);
    n
}

/// `s` with every ASCII letter in lower case.
pub fn lower_text(s: &str) -> (r: String)
    ensures
        r@ == s@.map_values(|c: char| lower(c)),
{
    let chars = chars_of(s);
    let mut r = String::new();
    let mut i: usize = 0;
    while i < chars.len()
        invariant
            i <= chars.len(),
            r@ == chars@.take(i as int).map_values(|c: char| lower(c)),
        decreases chars.len() - i,
    {
        let c = chars[i];
        if 'A' <= c && c <= 'Z' {
            let low: u8 = c as u8 + 32;
            add_char(&mut r, low as char);
        } else {
            add_char(&mut r, c);
        }
        i += 1;
        assert(chars@.take(i as int).map_values(|c: char| lower(c)) == chars@.take(
            i - 1,
        ).map_values(|c: char| lower(c)).push(lower(c)));
    }
    assert(chars@.take(i as int) == chars@);
    r
}

/// Whether `c` is white space.
pub fn white(c: char) -> (r: bool)
    ensures
        r == is_white(c),
{
    ('\u{9}' <= c && c <= '\u{d}') || c == '\u{20}' || c == '\u{85}' || c == '\u{a0}' || c
        == '\u{1680}' || ('\u{2000}' <= c && c <= '\u{200a}') || c == '\u{2028}' || c
        == '\u{2029}' || c == '\u{202f}' || c == '\u{205f}' || c == '\u{3000}'
}

/// `s` without the white space at either end.
pub fn trim(s: &str) -> (r: String)
    ensures
        r@ == trimmed(s@),
{
    let chars = chars_of(s);
    let mut from: usize = 0;
    assert(chars@.skip(0) == chars@);
    while from < chars.len() && white(chars[from])
        invariant
            from <= chars.len(),
            trim_front(chars@) == trim_front(chars@.skip(from as int)),
        decreases chars.len() - from,
    {
        assert(chars@.skip(from as int).skip(1) == chars@.skip(from + 1));
        from += 1;
    }
    let mut to: usize = chars.len();
    assert(chars@.subrange(from as int, to as int) == chars@.skip(from as int));
    while to > from && white(chars[to - 1])
        invariant
            from <= to <= chars.len(),
            trim_back(chars@.skip(from as int)) == trim_back(
                chars@.subrange(from as int, to as int),
            ),
        decreases to,
    {
        assert(chars@.subrange(from as int, to as int).drop_last() == chars@.subrange(
            from as int,
            to - 1,
        ));
        to -= 1;
    }
    text_between(&chars, from, to)
}

/// The digits between `from` and `to` as a number, where there are any, they
/// are all digits in `radix`, and the number fits.
pub fn parse_digits(chars: &Vec<char>, from: usize, to: usize, radix: u32) -> (r: Option<u64>)
    requires
        2 <= radix <= 10,
        from <= to <= chars.len(),
    ensures
        ({
            let digits = chars@.subrange(from as int, to as int);
            let value = digits_value(digits, radix as nat);
            if digits.len() > 0 && all_digits(digits, radix as nat) && value <= u64::MAX {
                r == Some(value as u64)
            } else {
                r is None
            }
        }),
{
    let ghost digits = chars@.subrange(from as int, to as int);
    if from == to {
        return None;
    }
    let mut i: usize = from;
    let mut value: u64 = 0;
    let mut fits: bool = true;
    while i < to
        invariant
            2 <= radix <= 10,
            from <= i <= to <= chars.len(),
            digits == chars@.subrange(from as int, to as int),
            fits ==> value == digits_value(digits.take(i - from), radix as nat),
            !fits ==> digits_value(digits.take(i - from), radix as nat) > u64::MAX,
            forall|j: int| 0 <= j < i - from ==> digit_value(#[trigger] digits[j], radix as nat) is Some,
        decreases to - i,
    {
        let c = chars[i];
        assert(digits[i - from] == c);
        if c < '0' || c > '9' || c as u32 - 48 >= radix {
            assert(digit_value(digits[i - from], radix as nat) is None);
            return None;
        }
        let d: u64 = c as u64 - 48;
        let ghost before = digits_value(digits.take(i - from), radix as nat);
        assert(digits.take(i + 1 - from).drop_last() == digits.take(i - from));
        assert(digits.take(i + 1 - from).last() == c);
        assert(before * radix >= before) by (nonlinear_arith)
            requires
                radix >= 2,
        ;
        if fits {
            match value.checked_mul(radix as u64) {
                Some(scaled) => {
                    match scaled.checked_add(d) {
                        Some(sum) => {
                            value = sum;
                        },
                        None => {
                            fits = false;
                        },
                    }
                },
                None => {
                    fits = false;
                },
            }
        }
        i += 1;
    }
    assert(digits.take(to - from) == digits);
    if fits {
        Some(value)
    } else {
        None
    }
}

/// The number that `s` is written as in `radix`, where it fits 32 bits.
pub fn parse_number(s: &str, radix: u32) -> (r: Option<u32>)
    requires
        2 <= radix <= 10,
    ensures
        (match number_in(s@, radix as nat) {
            Some(n) if n <= u32::MAX => r == Some(n as u32),
            _ => r is None,
        }),
{
    let chars = chars_of(s);
    let from: usize = if chars.len() > 0 && chars[0] == '+' {
        1
    } else {
        0
    };
    assert(chars@.skip(from as int) == chars@.subrange(from as int, chars@.len() as int));
    assert(chars@.skip(0) == chars@);
    match parse_digits(&chars, from, chars.len(), radix) {
        Some(n) => if n <= u32::MAX as u64 {
            Some(n as u32)
        } else {
            None
        },
        None => None,
    }
}

/// `n` in decimal.
pub fn decimal_text(n: u64) -> (s: String)
    ensures
        s@ == decimal(n as nat),
    decreases n,
{
    let mut s = if n < 10 {
        String::new()
    } else {
        decimal_text(n / 10)
    };
    let d: u8 = (n % 10) as u8 + 48;
    add_char(&mut s, d as char);
    assert(s@ == decimal(n as nat));
    s
}

/// `n` in decimal, with its sign where it is negative.
pub fn signed_decimal_text(n: i32) -> (s: String)
    ensures
        s@ == signed_decimal(n as int),
{
    if n < 0 {
        let mut s = String::new();
        add_char(&mut s, '-');
        let digits = decimal_text((0 - n as i64) as u64);
        s.append(digits.as_str());
        assert(s@ == seq!['-'] + digits@);
        s
    } else {
        decimal_text(n as u64)
    }
}

/// `n` in decimal, with zeros before it up to nine places.
pub fn nine_digits(n: u32) -> (s: String)
    ensures
        s@ == zero_padded(decimal(n as nat), 9),
{
    let digits = decimal_text(n as u64);
    let len: usize = digits.as_str().unicode_len();
    let mut zeros = String::new();
    assert(zeros@ + digits@ == digits@);
    let mut i: usize = len;
    while i < 9
        invariant
            digits@.len() == len,
            len <= i <= 9 || i == len,
            zeros@.len() == i - len,
            forall|j: int| 0 <= j < zeros@.len() ==> zeros@[j] == '0',
            zero_padded(zeros@ + digits@, 9) == zero_padded(digits@, 9),
        decreases 9 - i,
    {
        assert(zeros@.push('0') + digits@ == seq!['0'] + (zeros@ + digits@));
        add_char(&mut zeros, '0');
        i += 1;
    }
    zeros.append(digits.as_str());
    zeros
}

/// A copy of a list of strings.
pub fn copy_texts(list: &Vec<String>) -> (r: Vec<String>)
    ensures
        r@ == list@,
{
    let mut r: Vec<String> = Vec::new();
    let mut i: usize = 0;
    while i < list.len()
        invariant
            i <= list.len(),
            r@ == list@.take(i as int),
        decreases list.len() - i,
    {
        r.push(list[i].clone());
        assert(list@.take(i + 1) == list@.take(i as int).push(list@[i as int]));
        i += 1;
    }
    assert(list@.take(i as int) == list@);
    r
}

/// `s` repeated `n` times.
pub fn repeat_text(s: &str, n: usize) -> (r: String)
    ensures
        r@ == repeated(s@, n as nat),
{
    let mut r = String::new();
    let mut i: usize = 0;
    while i < n
        invariant
            i <= n,
            r@ == repeated(s@, i as nat),
        decreases n - i,
    {
        r.append(s);
        i += 1;
    }
    r
}

// ---- laws ----

/// A number in decimal is read back as itself.
pub proof fn law_decimal_reads_back(n: nat)
    ensures
        all_digits(decimal(n), 10),
        digits_value(decimal(n), 10) == n,
        decimal(n).len() > 0,
    decreases n,
{
    let d = n % 10;
    assert(digit_value(digit(d), 10) == Some(d));
    if n < 10 {
        assert(digits_value(decimal(n).drop_last(), 10) == 0);
    } else {
        law_decimal_reads_back(n / 10);
        assert(decimal(n).drop_last() =~= decimal(n / 10));
        assert(n == (n / 10) * 10 + d);
    }
}

/// A number of 64 bits has at most 20 digits.
pub proof fn law_decimal_is_short(n: u64)
    ensures
        decimal(n as nat).len() <= 20,
{
    lemma_digits_counted(n as nat, 20);
    reveal_with_fuel(vstd::arithmetic::power::pow, 21);
    assert(vstd::arithmetic::power::pow(10, 20) > u64::MAX);
}

proof fn lemma_digits_counted(n: nat, k: nat)
    ensures
        k > 0 && n < vstd::arithmetic::power::pow(10, k) ==> decimal(n).len() <= k,
    decreases k,
{
    if k > 1 && n < vstd::arithmetic::power::pow(10, k) {
        lemma_digits_counted(n / 10, (k - 1) as nat);
        reveal(vstd::arithmetic::power::pow);
        assert(vstd::arithmetic::power::pow(10, k) == 10 * vstd::arithmetic::power::pow(
            10,
            (k - 1) as nat,
        ));
    } else if k == 1 {
        reveal_with_fuel(vstd::arithmetic::power::pow, 2);
    }
}

/// Counting goes piece by piece: a text of two parts holds what they hold
/// together, and one character is one or none.
pub proof fn law_counts_add_up(a: Seq<char>, b: Seq<char>, c: char, d: char)
    ensures
        count_of(a + b, c) == count_of(a, c) + count_of(b, c),
        count_of(Seq::empty(), c) == 0,
        count_of(seq![d], c) == (if c == d {
            1int
        } else {
            0int
        }),
    decreases b.len(),
{
    reveal_with_fuel(count_of, 2);
    assert(seq![d].drop_last() =~= Seq::empty());
    if b.len() == 0 {
        assert(a + b =~= a);
    } else {
        law_counts_add_up(a, b.drop_last(), c, d);
        assert((a + b).drop_last() =~= a + b.drop_last());
        assert((a + b).last() == b.last());
    }
}

/// A text in a row of `m` and one of `n` make a row of both; once is the text
/// itself.
pub proof fn law_rows_add_up(s: Seq<char>, m: nat, n: nat)
    ensures
        repeated(s, m + n) == repeated(s, m) + repeated(s, n),
        repeated(s, 1) == s,
        repeated(s, 0) == Seq::<char>::empty(),
    decreases n,
{
    reveal_with_fuel(repeated, 2);
    assert(repeated(s, 1) =~= s);
    if n == 0 {
        assert(repeated(s, m) + repeated(s, n) =~= repeated(s, m));
    } else {
        law_rows_add_up(s, m, (n - 1) as nat);
        assert((m + n - 1) as nat == m + (n - 1) as nat);
        assert(repeated(s, m) + (repeated(s, (n - 1) as nat) + s) =~= (repeated(s, m) + repeated(
            s,
            (n - 1) as nat,
        )) + s);
    }
}

/// What is taken off the start of a text is that character and nothing else,
/// and what is left does not start with it.
pub proof fn law_leading_is_taken_off(s: Seq<char>, c: char)
    ensures
        ({
            let rest = without_leading(s, c);
            let off = s.len() - rest.len();
            &&& 0 <= off
            &&& rest == s.skip(off)
            &&& forall|i: int| 0 <= i < off ==> s[i] == c
            &&& rest.len() > 0 ==> rest[0] != c
        }),
    decreases s.len(),
{
    if s.len() > 0 && s[0] == c {
        law_leading_is_taken_off(s.skip(1), c);
        let rest = without_leading(s.skip(1), c);
        let off = s.len() - rest.len();
        assert(s.skip(1).skip(off - 1) =~= s.skip(off));
        assert forall|i: int| 0 <= i < off implies s[i] == c by {
            if i > 0 {
                assert(s.skip(1)[i - 1] == s[i]);
            }
        }
    } else {
        assert(s.skip(0) =~= s);
    }
}

/// What is taken off the end of a text is that character and nothing else, and
/// what is left does not end with it.
pub proof fn law_trailing_is_taken_off(s: Seq<char>, c: char)
    ensures
        ({
            let rest = without_trailing(s, c);
            &&& rest.len() <= s.len()
            &&& rest == s.take(rest.len() as int)
            &&& forall|i: int| rest.len() <= i < s.len() ==> s[i] == c
            &&& rest.len() > 0 ==> rest.last() != c
        }),
    decreases s.len(),
{
    if s.len() > 0 && s.last() == c {
        law_trailing_is_taken_off(s.drop_last(), c);
        let rest = without_trailing(s.drop_last(), c);
        assert(s.drop_last().take(rest.len() as int) =~= s.take(rest.len() as int));
        assert forall|i: int| rest.len() <= i < s.len() implies s[i] == c by {
            if i < s.len() - 1 {
                assert(s.drop_last()[i] == s[i]);
            }
        }
    } else {
        assert(s.take(s.len() as int) =~= s);
    }
}

proof fn lemma_front(s: Seq<char>)
    ensures
        ({
            let rest = trim_front(s);
            let off = s.len() - rest.len();
            &&& 0 <= off
            &&& rest == s.skip(off)
            &&& forall|i: int| 0 <= i < off ==> is_white(#[trigger] s[i])
            &&& rest.len() > 0 ==> !is_white(rest[0])
        }),
    decreases s.len(),
{
    if s.len() > 0 && is_white(s[0]) {
        lemma_front(s.skip(1));
        let rest = trim_front(s.skip(1));
        let off = s.len() - rest.len();
        assert(s.skip(1).skip(off - 1) =~= s.skip(off));
        assert forall|i: int| 0 <= i < off implies is_white(#[trigger] s[i]) by {
            if i > 0 {
                assert(s.skip(1)[i - 1] == s[i]);
            }
        }
    } else {
        assert(s.skip(0) =~= s);
    }
}

proof fn lemma_back(s: Seq<char>)
    ensures
        ({
            let rest = trim_back(s);
            &&& rest.len() <= s.len()
            &&& rest == s.take(rest.len() as int)
            &&& forall|i: int| rest.len() <= i < s.len() ==> is_white(#[trigger] s[i])
            &&& rest.len() > 0 ==> !is_white(rest.last())
        }),
    decreases s.len(),
{
    if s.len() > 0 && is_white(s.last()) {
        lemma_back(s.drop_last());
        let rest = trim_back(s.drop_last());
        assert(s.drop_last().take(rest.len() as int) =~= s.take(rest.len() as int));
        assert forall|i: int| rest.len() <= i < s.len() implies is_white(#[trigger] s[i]) by {
            if i < s.len() - 1 {
                assert(s.drop_last()[i] == s[i]);
            }
        }
    } else {
        assert(s.take(s.len() as int) =~= s);
    }
}

/// Trimming takes white space off both ends and nothing else: `s` is white
/// space, the trimmed text, and white space again, and the trimmed text neither
/// starts nor ends with any.
pub proof fn law_trimming_takes_off_white_space(s: Seq<char>)
    ensures
        exists|from: int, to: int|
            {
                &&& 0 <= from <= to <= s.len()
                &&& trimmed(s) == #[trigger] s.subrange(from, to)
                &&& forall|i: int| 0 <= i < from || to <= i < s.len() ==> is_white(#[trigger] s[i])
            },
        trimmed(s).len() > 0 ==> !is_white(trimmed(s)[0]) && !is_white(trimmed(s).last()),
        trimmed(s).len() == 0 <==> forall|i: int| 0 <= i < s.len() ==> is_white(#[trigger] s[i]),
{
    lemma_front(s);
    let front = trim_front(s);
    lemma_back(front);
    let from = s.len() - front.len();
    let to = from + trimmed(s).len();
    assert(trimmed(s) =~= s.subrange(from, to));
    assert forall|i: int| 0 <= i < from || to <= i < s.len() implies is_white(
        #[trigger] s[i],
    ) by {
        if to <= i {
            assert(front[i - from] == s[i]);
        }
    }
    if trimmed(s).len() > 0 {
        assert(trimmed(s)[0] == front[0]);
        assert(!is_white(s[from]));
    }
}

/// Only the letters from `A` to `Z` change: each becomes the letter thirty-two
/// places on, which no longer does.
pub proof fn law_only_capitals_are_lowered(c: char)
    ensures
        65 <= (c as int) <= 90 ==> lower(c) as int == c as int + 32,
        !(65 <= (c as int) <= 90) ==> lower(c) == c,
        lower(lower(c)) == lower(c),
{
}

/// The digits of a number: the last is what is left of it beyond the tens, and
/// the others are those of the tens.
pub proof fn law_decimal_is_written_by_tens(tens: nat, ones: nat)
    requires
        ones < 10,
    ensures
        decimal(tens * 10 + ones).last() as int == 48 + ones,
        tens > 0 ==> decimal(tens * 10 + ones).drop_last() == decimal(tens),
        tens == 0 ==> decimal(tens * 10 + ones).len() == 1,
{
    let n = tens * 10 + ones;
    if tens > 0 {
        assert(n / 10 == tens && n % 10 == ones);
        assert(decimal(n) == decimal(tens).push(digit(ones)));
        assert(decimal(n).drop_last() =~= decimal(tens));
    }
}

/// The value of digits: one more digit makes the value `radix` times what it
/// was, and the digit more.
pub proof fn law_a_digit_more(s: Seq<char>, c: char, radix: nat)
    requires
        48 <= (c as int) < 48 + radix,
        radix <= 10,
    ensures
        digits_value(s.push(c), radix) == digits_value(s, radix) * radix + (c as int - 48),
        digits_value(Seq::empty(), radix) == 0,
        all_digits(s.push(c), radix) == all_digits(s, radix),
{
    assert(s.push(c).drop_last() =~= s);
    assert(digit_value(c, radix) == Some((c as int - 48) as nat));
    if all_digits(s, radix) {
        assert forall|i: int| 0 <= i < s.push(c).len() implies digit_value(
            #[trigger] s.push(c)[i],
            radix,
        ) is Some by {
            if i < s.len() {
                assert(s.push(c)[i] == s[i]);
            }
        }
    }
    if all_digits(s.push(c), radix) {
        assert forall|i: int| 0 <= i < s.len() implies digit_value(
            #[trigger] s[i],
            radix,
        ) is Some by {
            assert(s.push(c)[i] == s[i]);
        }
    }
}

/// A character that is no digit has no place among digits.
pub proof fn law_other_characters_are_no_digits(a: Seq<char>, c: char, b: Seq<char>, radix: nat)
    requires
        !(48 <= (c as int) < 48 + radix),
        radix <= 10,
    ensures
        !all_digits(a.push(c) + b, radix),
{
    let s = a.push(c) + b;
    assert(s[a.len() as int] == c);
    assert(digit_value(s[a.len() as int], radix) is None);
}

/// A number that was written is read as itself, with a plus sign before it or
/// without, and digits in any radix are read as what they are worth. Anything
/// else, a sign alone included, is no number.
pub proof fn law_numbers_are_read(n: nat, s: Seq<char>, radix: nat)
    ensures
        number_in(decimal(n), 10) == Some(n),
        number_in(seq!['+'] + decimal(n), 10) == Some(n),
        s.len() > 0 && s[0] != '+' && all_digits(s, radix) ==> {
            &&& number_in(s, radix) == Some(digits_value(s, radix))
            &&& number_in(seq!['+'] + s, radix) == Some(digits_value(s, radix))
        },
        s.len() > 0 && s[0] != '+' && !all_digits(s, radix) ==> {
            &&& number_in(s, radix) is None
            &&& number_in(seq!['+'] + s, radix) is None
        },
        number_in(Seq::empty(), radix) is None,
        number_in(seq!['+'], radix) is None,
{
    law_decimal_reads_back(n);
    let d = decimal(n);
    assert(digit_value(d[0], 10) is Some);
    assert((seq!['+'] + d).skip(1) =~= d);
    assert((seq!['+'] + s).skip(1) =~= s);
    assert(seq!['+'].skip(1) =~= Seq::<char>::empty());
}

/// Zeros are put before a text until it has its width; the text itself stays at
/// the end.
pub proof fn law_padding_is_zeros(s: Seq<char>, width: nat)
    ensures
        ({
            let r = zero_padded(s, width);
            let pad = r.len() - s.len();
            &&& r.len() == (if s.len() < width {
                width
            } else {
                s.len()
            })
            &&& r.skip(pad) == s
            &&& forall|i: int| 0 <= i < pad ==> r[i] == '0'
        }),
    decreases width - s.len(),
{
    if s.len() < width {
        let t = seq!['0'] + s;
        law_padding_is_zeros(t, width);
        let r = zero_padded(t, width);
        let pad = r.len() - t.len();
        assert(r.skip(pad + 1) =~= r.skip(pad).skip(1));
        assert(t.skip(1) =~= s);
        assert(r[pad] == r.skip(pad)[0]);
    } else {
        assert(s.skip(0) =~= s);
    }
}

/// A negative number is a minus sign and the number without it.
pub proof fn law_sign_comes_first(n: nat)
    ensures
        signed_decimal(n as int) == decimal(n),
        n > 0 ==> signed_decimal(-n) == seq!['-'] + decimal(n),
{
}

/// A pattern stands where it was put, and where it stands the text falls into
/// what is before it, the pattern, and what is after it.
pub proof fn law_occurrence_splits_the_text(a: Seq<char>, p: Seq<char>, b: Seq<char>, s: Seq<char>)
    ensures
        occurs_at(a + p + b, p, a.len() as int),
        forall|at: int| #[trigger]
            occurs_at(s, p, at) ==> 0 <= at && at + p.len() <= s.len() && s == s.take(at) + p
                + s.skip(at + p.len()),
{
    assert((a + p + b).subrange(a.len() as int, (a.len() + p.len()) as int) =~= p);
    assert forall|at: int| #[trigger] occurs_at(s, p, at) implies s == s.take(at) + p + s.skip(
        at + p.len(),
    ) by {
        assert(s =~= s.take(at) + s.subrange(at, at + p.len()) + s.skip(at + p.len()));
    }
}

proof fn lemma_leading_zero(s: Seq<char>)
    ensures
        digits_value(seq!['0'] + s, 10) == digits_value(s, 10),
    decreases s.len(),
{
    let t = seq!['0'] + s;
    reveal_with_fuel(digits_value, 2);
    if s.len() == 0 {
        assert(t.drop_last() =~= Seq::<char>::empty());
        assert(t.last() == '0');
    } else {
        lemma_leading_zero(s.drop_last());
        assert(t.drop_last() =~= seq!['0'] + s.drop_last());
        assert(t.last() == s.last());
    }
}

/// Padding does not change what digits are worth, and they stay digits.
pub proof fn law_padding_keeps_the_value(s: Seq<char>, width: nat)
    requires
        all_digits(s, 10),
    ensures
        digits_value(zero_padded(s, width), 10) == digits_value(s, 10),
        all_digits(zero_padded(s, width), 10),
    decreases width - s.len(),
{
    if s.len() < width {
        let t = seq!['0'] + s;
        lemma_leading_zero(s);
        assert forall|i: int| 0 <= i < t.len() implies digit_value(#[trigger] t[i], 10) is Some by {
            if i > 0 {
                assert(t[i] == s[i - 1]);
            }
        }
        law_padding_keeps_the_value(t, width);
    }
}

/// A number below a thousand million fills nine digits exactly.
pub proof fn law_nine_digits_hold_the_nanoseconds(n: nat)
    requires
        n < 1_000_000_000,
    ensures
        zero_padded(decimal(n), 9).len() == 9,
        digits_value(zero_padded(decimal(n), 9), 10) == n,
        all_digits(zero_padded(decimal(n), 9), 10),
{
    law_decimal_reads_back(n);
    law_padding_is_zeros(decimal(n), 9);
    law_padding_keeps_the_value(decimal(n), 9);
    lemma_digits_counted(n, 9);
    reveal_with_fuel(vstd::arithmetic::power::pow, 10);
    assert(vstd::arithmetic::power::pow(10, 9) == 1_000_000_000);
}

/// The texts of a list are those of its strings, in order.
pub proof fn law_texts_are_those_of_the_strings(list: Seq<String>, i: int)
    ensures
        texts(list).len() == list.len(),
        0 <= i < list.len() ==> texts(list)[i] == list[i]@,
{
}

} // verus!
