//! Text as a sequence of characters: scanning, decimal numbers, and building strings.

use vstd::prelude::*;

verus! {

/// The characters that separate words: those with the Unicode property `White_Space`.
pub open spec fn is_white(c: char) -> bool {
    let u = c as u32;
    ||| 0x9 <= u <= 0xd
    ||| u == 0x20
    ||| u == 0x85
    ||| u == 0xa0
    ||| u == 0x1680
    ||| 0x2000 <= u <= 0x200a
    ||| u == 0x2028
    ||| u == 0x2029
    ||| u == 0x202f
    ||| u == 0x205f
    ||| u == 0x3000
}

pub open spec fn is_digit(c: char) -> bool {
    '0' <= c <= '9'
}

/// The value of a decimal digit.
pub open spec fn digit_value(c: char) -> nat {
    (c as u32 - 48) as nat
}

/// The number that a string of decimal digits spells.
pub open spec fn decimal_value(s: Seq<char>) -> nat
    decreases s.len(),
{
    if s.len() == 0 {
        0
    } else {
        decimal_value(s.drop_last()) * 10 + digit_value(s.last())
    }
}

/// `x` in decimal, without leading zeros.
pub open spec fn decimal(x: nat) -> Seq<char>
    decreases x,
{
    let last = ((x % 10) + 48) as char;
    if x < 10 {
        seq![last]
    } else {
        decimal(x / 10).push(last)
    }
}

/// Where the first `c` of `s` at or after `i` stands; the length of `s` if there is none.
pub open spec fn find_from(s: Seq<char>, c: char, i: int) -> int
    decreases s.len() - i,
{
    if i >= s.len() {
        s.len() as int
    } else if s[i] == c {
        i
    } else {
        find_from(s, c, i + 1)
    }
}

/// Where the last `c` of `s` before `i` stands; `-1` if there is none.
pub open spec fn find_back(s: Seq<char>, c: char, i: int) -> int
    decreases i,
{
    if i <= 0 {
        -1
    } else if s[i - 1] == c {
        i - 1
    } else {
        find_back(s, c, i - 1)
    }
}

/// The first position of `s` at or after `i` that holds no white space.
pub open spec fn skip_white(s: Seq<char>, i: int) -> int
    decreases s.len() - i,
{
    if i >= s.len() || !is_white(s[i]) {
        i
    } else {
        skip_white(s, i + 1)
    }
}

/// The first position of `s` at or after `i` that ends a word.
pub open spec fn skip_word(s: Seq<char>, i: int) -> int
    decreases s.len() - i,
{
    if i >= s.len() || is_white(s[i]) {
        i
    } else {
        skip_word(s, i + 1)
    }
}

/// An ASCII capital letter made small; any other character as it is.
pub open spec fn lower_char(c: char) -> char {
    if 'A' <= c <= 'Z' {
        ((c as u32) + 32) as char
    } else {
        c
    }
}

/// A text with its ASCII capitals made small.
pub open spec fn lower(s: Seq<char>) -> Seq<char> {
    s.map_values(|c: char| lower_char(c))
}

pub open spec fn all_digits(s: Seq<char>) -> bool {
    forall|i: int| 0 <= i < s.len() ==> is_digit(#[trigger] s[i])
}

/// `s` without the `+` that may stand in front of a number.
pub open spec fn unsigned(s: Seq<char>) -> Seq<char> {
    if s.len() > 0 && s[0] == '+' {
        s.skip(1)
    } else {
        s
    }
}

/// The number that `s` names, if it is decimal digits with an optional `+` in front and is at
/// most `max`.
pub open spec fn parse_number(s: Seq<char>, max: nat) -> Option<nat> {
    let digits = unsigned(s);
    if digits.len() > 0 && all_digits(digits) && decimal_value(digits) <= max {
        Some(decimal_value(digits))
    } else {
        None
    }
}

pub open spec fn starts_with(s: Seq<char>, prefix: Seq<char>) -> bool {
    prefix.len() <= s.len() && s.take(prefix.len() as int) == prefix
}

pub open spec fn ends_with(s: Seq<char>, suffix: Seq<char>) -> bool {
    suffix.len() <= s.len() && s.skip(s.len() - suffix.len()) == suffix
}

pub proof fn lemma_find_from(s: Seq<char>, c: char, i: int)
    requires
        0 <= i <= s.len(),
    ensures
        i <= find_from(s, c, i) <= s.len(),
        forall|j: int| i <= j < find_from(s, c, i) ==> s[j] != c,
        find_from(s, c, i) < s.len() ==> s[find_from(s, c, i)] == c,
    decreases s.len() - i,
{
    if i < s.len() && s[i] != c {
        lemma_find_from(s, c, i + 1);
    }
}

/// Where the last `c` before `i` stands.
pub proof fn lemma_find_back(s: Seq<char>, c: char, k: int, i: int)
    requires
        0 <= k < i <= s.len(),
        s[k] == c,
        forall|j: int| k < j < i ==> s[j] != c,
    ensures
        find_back(s, c, i) == k,
    decreases i,
{
    if i - 1 > k {
        lemma_find_back(s, c, k, i - 1);
    }
}

/// A longer string of digits spells a number at least as large.
proof fn lemma_decimal_value_grows(s: Seq<char>, i: int)
    requires
        0 <= i <= s.len(),
    ensures
        decimal_value(s.take(i)) <= decimal_value(s),
    decreases s.len() - i,
{
    if i < s.len() {
        lemma_decimal_value_grows(s, i + 1);
        assert(s.take(i + 1).drop_last() =~= s.take(i));
    } else {
        assert(s.take(i) =~= s);
    }
}

/// The decimal digits of a number spell that number, and only digits occur in them.
pub proof fn lemma_decimal_value_of_decimal(x: nat)
    ensures
        decimal_value(decimal(x)) == x,
        decimal(x).len() > 0,
        all_digits(decimal(x)),
    decreases x,
{
    reveal_with_fuel(decimal_value, 2);
    if x >= 10 {
        lemma_decimal_value_of_decimal(x / 10);
        let s = decimal(x);
        assert(s.drop_last() =~= decimal(x / 10));
        assert forall|i: int| 0 <= i < s.len() implies is_digit(#[trigger] s[i]) by {
            if i < s.len() - 1 {
                assert(s[i] == decimal(x / 10)[i]);
            }
        }
    } else {
        assert(decimal(x).drop_last() =~= Seq::empty());
    }
}

/// A positive number is written without a leading zero.
pub proof fn lemma_decimal_first_digit(x: nat)
    requires
        x > 0,
    ensures
        decimal(x)[0] != '0',
    decreases x,
{
    if x >= 10 {
        lemma_decimal_first_digit(x / 10);
        lemma_decimal_value_of_decimal(x / 10);
        assert(decimal(x)[0] == decimal(x / 10)[0]);
    }
}

/// A number is read back from its decimal digits.
pub proof fn law_decimal_round_trip(x: nat, max: nat)
    requires
        x <= max,
    ensures
        parse_number(decimal(x), max) == Some(x),
{
    lemma_decimal_value_of_decimal(x);
    assert(is_digit(decimal(x)[0]));
}

/// Whether a character is white space.
pub fn white(c: char) -> (r: bool)
    ensures
        r == is_white(c),
{
    let u: u32 = c as u32;
    (0x9 <= u && u <= 0xd) || u == 0x20 || u == 0x85 || u == 0xa0 || u == 0x1680 || (0x2000 <= u
        && u <= 0x200a) || u == 0x2028 || u == 0x2029 || u == 0x202f || u == 0x205f || u == 0x3000
}

/// The characters of a string.
pub fn chars_of(s: &str) -> (r: Vec<char>)
    ensures
        r@ == s@,
{
    let mut r: Vec<char> = Vec::new();
    for c in it: s.chars()
        invariant
            r@ == it.seq().take(it.index()),
            it.seq() == s@,
    {
        r.push(c);
        assert(r@ =~= it.seq().take(it.index() + 1));
    }
    assert(r@ =~= s@);
    r
}

/// `String::push` puts the character behind those that the string already holds.
pub assume_specification[ String::push ](s: &mut String, c: char)
    ensures
        final(s)@ == old(s)@.push(c),
;

/// The string that holds the given characters.
pub fn string_of(chars: &[char]) -> (r: String)
    ensures
        r@ == chars@,
{
    let mut r = String::new();
    let n: usize = chars.len();
    let mut i: usize = 0;
    while i < n
        invariant
            n == chars@.len(),
            i <= n,
            r@ == chars@.take(i as int),
        decreases n - i,
    {
        r.push(chars[i]);
        i = i + 1;
        assert(r@ =~= chars@.take(i as int));
    }
    assert(r@ =~= chars@);
    r
}

/// A copy of the characters `from..to` of `s`.
pub fn copy_chars(s: &[char], from: usize, to: usize) -> (r: Vec<char>)
    requires
        from <= to <= s@.len(),
    ensures
        r@ == s@.subrange(from as int, to as int),
{
    vstd::slice::slice_to_vec(vstd::slice::slice_subrange(s, from, to))
}

/// Appends `other` to `target`.
pub fn append_chars(target: &mut Vec<char>, other: &[char])
    ensures
        final(target)@ == old(target)@ + other@,
{
    target.extend_from_slice(other);
    assert(target@ =~= old(target)@ + other@);
}

/// Appends the characters of `other` to `target`.
pub fn append_str(target: &mut Vec<char>, other: &str)
    ensures
        final(target)@ == old(target)@ + other@,
{
    let chars = chars_of(other);
    append_chars(target, chars.as_slice());
}

/// Whether two texts are the same.
pub fn chars_equal(a: &[char], b: &[char]) -> (r: bool)
    ensures
        r == (a@ == b@),
{
    if a.len() != b.len() {
        return false;
    }
    let n: usize = a.len();
    let mut i: usize = 0;
    while i < n
        invariant
            n == a@.len(),
            n == b@.len(),
            i <= n,
            forall|j: int| 0 <= j < i ==> a@[j] == b@[j],
        decreases n - i,
    {
        if a[i] != b[i] {
            return false;
        }
        i = i + 1;
    }
    assert(a@ =~= b@);
    true
}

/// Whether `a` holds exactly the characters of `b`.
pub fn chars_are(a: &[char], b: &str) -> (r: bool)
    ensures
        r == (a@ == b@),
{
    let other = chars_of(b);
    chars_equal(a, other.as_slice())
}

/// The position of the first `c` of `s` at or after `from`; the length of `s` if there is none.
pub fn position_from(s: &[char], c: char, from: usize) -> (r: usize)
    requires
        from <= s@.len(),
    ensures
        r == find_from(s@, c, from as int),
        from <= r <= s@.len(),
{
    let n: usize = s.len();
    let mut i: usize = from;
    while i < n && s[i] != c
        invariant
            n == s@.len(),
            from <= i <= n,
            find_from(s@, c, from as int) == find_from(s@, c, i as int),
        decreases n - i,
    {
        i = i + 1;
    }
    i
}

/// The position of the last `c` of `s`.
pub fn last_position(s: &[char], c: char) -> (r: Option<usize>)
    ensures
        match r {
            Some(i) => i == find_back(s@, c, s@.len() as int) && i < s@.len(),
            None => find_back(s@, c, s@.len() as int) == -1,
        },
{
    let mut i: usize = s.len();
    while i > 0
        invariant
            i <= s@.len(),
            find_back(s@, c, s@.len() as int) == find_back(s@, c, i as int),
        decreases i,
    {
        i = i - 1;
        if s[i] == c {
            return Some(i);
        }
    }
    None
}

/// The position behind the white space that begins at `from`.
pub fn after_white(s: &[char], from: usize) -> (r: usize)
    requires
        from <= s@.len(),
    ensures
        r == skip_white(s@, from as int),
        from <= r <= s@.len(),
{
    let n: usize = s.len();
    let mut i: usize = from;
    while i < n && white(s[i])
        invariant
            n == s@.len(),
            from <= i <= n,
            skip_white(s@, from as int) == skip_white(s@, i as int),
        decreases n - i,
    {
        i = i + 1;
    }
    i
}

/// The position behind the word that begins at `from`.
pub fn after_word(s: &[char], from: usize) -> (r: usize)
    requires
        from <= s@.len(),
    ensures
        r == skip_word(s@, from as int),
        from <= r <= s@.len(),
{
    let n: usize = s.len();
    let mut i: usize = from;
    while i < n && !white(s[i])
        invariant
            n == s@.len(),
            from <= i <= n,
            skip_word(s@, from as int) == skip_word(s@, i as int),
        decreases n - i,
    {
        i = i + 1;
    }
    i
}

fn small_letter(c: char) -> (r: char)
    ensures
        r == lower_char(c),
{
    if 'A' <= c && c <= 'Z' {
        (c as u8 + 32) as char
    } else {
        c
    }
}

/// The text with its ASCII capitals made small.
pub fn to_lower(s: &[char]) -> (r: Vec<char>)
    ensures
        r@ == lower(s@),
{
    let mut r: Vec<char> = Vec::new();
    let n: usize = s.len();
    let mut i: usize = 0;
    while i < n
        invariant
            n == s@.len(),
            i <= n,
            r@ == lower(s@.take(i as int)),
        decreases n - i,
    {
        r.push(small_letter(s[i]));
        i = i + 1;
        assert(r@ =~= lower(s@.take(i as int)));
    }
    assert(s@.take(n as int) =~= s@);
    r
}

/// Reads a decimal number of at most `max`.
pub fn read_number(s: &[char], max: u32) -> (r: Option<u32>)
    requires
        max <= 0xffff,
    ensures
        match r {
            Some(v) => parse_number(s@, max as nat) == Some(v as nat),
            None => parse_number(s@, max as nat) is None,
        },
        r matches Some(v) ==> v <= max,
{
    let n: usize = s.len();
    let start: usize = if n > 0 && s[0] == '+' {
        1
    } else {
        0
    };
    let ghost digits = unsigned(s@);
    assert(digits =~= s@.skip(start as int));
    if start == n {
        return None;
    }
    let mut v: u32 = 0;
    let mut i: usize = start;
    while i < n
        invariant
            n == s@.len(),
            start <= i <= n,
            max <= 0xffff,
            v <= max,
            digits == s@.skip(start as int),
            v as nat == decimal_value(digits.take(i - start)),
            forall|j: int| 0 <= j < i - start ==> is_digit(#[trigger] digits[j]),
            digits == unsigned(s@),
        decreases n - i,
    {
        let c = s[i];
        assert(digits[i - start] == c);
        if c < '0' || c > '9' {
            assert(!is_digit(digits[i - start]));
            return None;
        }
        let d: u32 = c as u32 - 48;
        let next: u32 = v * 10 + d;
        proof {
            assert(digits.take(i - start + 1).drop_last() =~= digits.take(i - start));
            assert(digits.take(i - start + 1).last() == c);
            assert(next as nat == decimal_value(digits.take(i - start + 1)));
        }
        if next > max {
            proof {
                lemma_decimal_value_grows(digits, i - start + 1);
            }
            return None;
        }
        v = next;
        i = i + 1;
    }
    assert(digits.take(n - start) =~= digits);
    Some(v)
}

/// Appends `x` in decimal.
pub fn append_decimal(target: &mut Vec<char>, x: u64)
    ensures
        final(target)@ == old(target)@ + decimal(x as nat),
    decreases x,
{
    let last: char = ((x % 10) as u8 + 48) as char;
    if x >= 10 {
        append_decimal(target, x / 10);
    }
    target.push(last);
    assert(target@ =~= old(target)@ + decimal(x as nat));
}

/// Whether `s` begins with `prefix`.
pub fn begins_with(s: &[char], prefix: &[char]) -> (r: bool)
    ensures
        r == starts_with(s@, prefix@),
{
    let m: usize = prefix.len();
    if m > s.len() {
        return false;
    }
    let head = vstd::slice::slice_subrange(s, 0, m);
    assert(head@ =~= s@.take(m as int));
    chars_equal(head, prefix)
}

/// Whether `s` ends in `suffix`.
pub fn finishes_with(s: &[char], suffix: &[char]) -> (r: bool)
    ensures
        r == ends_with(s@, suffix@),
{
    let m: usize = suffix.len();
    let n: usize = s.len();
    if m > n {
        return false;
    }
    let tail = vstd::slice::slice_subrange(s, n - m, n);
    assert(tail@ =~= s@.skip(n - m));
    chars_equal(tail, suffix)
}

} // verus!
