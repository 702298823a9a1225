//! Small pieces of text handling that the rest of the library shares: decimal
//! numerals, white space, and comparison of strings.

use vstd::prelude::*;

verus! {

/// The character of the decimal digit `d`.
pub open spec fn digit_char(d: int) -> char {
    if d == 0 {
        '0'
    } else if d == 1 {
        '1'
    } else if d == 2 {
        '2'
    } else if d == 3 {
        '3'
    } else if d == 4 {
        '4'
    } else if d == 5 {
        '5'
    } else if d == 6 {
        '6'
    } else if d == 7 {
        '7'
    } else if d == 8 {
        '8'
    } else {
        '9'
    }
}

/// The decimal numeral of `n`, without leading zeros.
pub open spec fn decimal_digits(n: nat) -> Seq<char>
    decreases n,
{
    if n < 10 {
        seq![digit_char(n as int)]
    } else {
        decimal_digits(n / 10).push(digit_char((n % 10) as int))
    }
}

/// The decimal numeral of `n`, with a leading minus sign where `n` is negative.
pub open spec fn decimal(n: int) -> Seq<char> {
    if n < 0 {
        seq!['-'] + decimal_digits((-n) as nat)
    } else {
        decimal_digits(n as nat)
    }
}

/// Ten to the power `k`.
pub open spec fn pow10(k: nat) -> nat
    decreases k,
{
    if k == 0 {
        1
    } else {
        10 * pow10((k - 1) as nat)
    }
}

/// A number below `10^k` has at most `k` digits.
pub proof fn lemma_digits_len(n: nat, k: nat)
    requires
        k >= 1,
        n < pow10(k),
    ensures
        1 <= decimal_digits(n).len() <= k,
    decreases n,
{
    reveal_with_fuel(pow10, 2);
    if n >= 10 {
        if k == 1 {
            assert(pow10(1) == 10);
        } else {
            lemma_digits_len(n / 10, (k - 1) as nat);
        }
    }
}

/// A larger number has no fewer digits.
pub proof fn lemma_digits_len_monotonic(a: nat, b: nat)
    requires
        a <= b,
    ensures
        decimal_digits(a).len() <= decimal_digits(b).len(),
    decreases b,
{
    if a >= 10 {
        lemma_digits_len_monotonic(a / 10, b / 10);
    } else if b >= 10 {
        lemma_digits_len_monotonic(0, b / 10);
    }
}

/// The numeral of a 32-bit integer has between 1 and 11 characters.
pub proof fn lemma_decimal_len(n: int)
    requires
        i32::MIN <= n <= i32::MAX,
    ensures
        1 <= decimal(n).len() <= 11,
{
    reveal_with_fuel(pow10, 11);
    assert(pow10(10) == 10_000_000_000nat);
    if n < 0 {
        lemma_digits_len((-n) as nat, 10);
    } else {
        lemma_digits_len(n as nat, 10);
    }
}

/// The character of the decimal digit `d`.
pub fn digit(d: u8) -> (ch: char)
    requires
        d < 10,
    ensures
        ch == digit_char(d as int),
{
    if d == 0 {
        '0'
    } else if d == 1 {
        '1'
    } else if d == 2 {
        '2'
    } else if d == 3 {
        '3'
    } else if d == 4 {
        '4'
    } else if d == 5 {
        '5'
    } else if d == 6 {
        '6'
    } else if d == 7 {
        '7'
    } else if d == 8 {
        '8'
    } else {
        '9'
    }
}

/// The decimal numeral of `n`, without leading zeros.
pub fn digits_of(n: u32) -> (v: Vec<char>)
    ensures
        v@ == decimal_digits(n as nat),
    decreases n,
{
    if n < 10 {
        let mut v: Vec<char> = Vec::new();
        v.push(digit(n as u8));
        assert(v@ =~= decimal_digits(n as nat));
        v
    } else {
        let mut v = digits_of(n / 10);
        v.push(digit((n % 10) as u8));
        v
    }
}

/// The decimal numeral of `n`, as `i32::to_string` writes it.
pub fn decimal_text(n: i32) -> (v: Vec<char>)
    ensures
        v@ == decimal(n as int),
        1 <= v@.len() <= 11,
{
    proof {
        lemma_decimal_len(n as int);
    }
    if n < 0 {
        let m: u32 = (-(n as i64)) as u32;
        let mut v: Vec<char> = Vec::new();
        v.push('-');
        let mut d = digits_of(m);
        v.append(&mut d);
        assert(v@ =~= decimal(n as int));
        v
    } else {
        digits_of(n as u32)
    }
}

/// The characters of `s`.
pub fn chars_of(s: &str) -> (v: Vec<char>)
    ensures
        v@ == s@,
{
    let mut v: Vec<char> = Vec::new();
    for c in it: s.chars()
        invariant
            v@ == it.seq().take(it.index() as int),
            it.seq() == s@,
    {
        v.push(c);
    }
    v
}

/// Whether two strings hold the same characters.
pub fn same_text(a: &str, b: &str) -> (same: bool)
    ensures
        same == (a@ == b@),
{
    let x = chars_of(a);
    let y = chars_of(b);
    if x.len() != y.len() {
        return false;
    }
    let mut k: usize = 0;
    while k < x.len()
        invariant
            k <= x@.len(),
            x@.len() == y@.len(),
            x@ == a@,
            y@ == b@,
            forall|i: int| 0 <= i < k ==> x@[i] == y@[i],
        decreases x@.len() - k,
    {
        if x[k] != y[k] {
            return false;
        }
        k += 1;
    }
    assert(a@ =~= b@);
    true
}

/// Whether `c` is white space: a character with the Unicode property
/// White_Space.
pub open spec fn is_space(c: char) -> bool {
    let n = c as u32;
    ||| 0x09 <= n <= 0x0D
    ||| n == 0x20
    ||| n == 0x85
    ||| n == 0xA0
    ||| n == 0x1680
    ||| 0x2000 <= n <= 0x200A
    ||| n == 0x2028
    ||| n == 0x2029
    ||| n == 0x202F
    ||| n == 0x205F
    ||| n == 0x3000
}

/// Whether `c` is white space.
pub fn is_whitespace(c: char) -> (b: bool)
    ensures
        b == is_space(c),
{
    let n = c as u32;
    (0x09 <= n && n <= 0x0D) || n == 0x20 || n == 0x85 || n == 0xA0 || n == 0x1680 || (0x2000 <= n
        && n <= 0x200A) || n == 0x2028 || n == 0x2029 || n == 0x202F || n == 0x205F || n == 0x3000
}

/// The length of the word that `s` starts with: of its longest prefix without
/// white space.
pub open spec fn word_len(s: Seq<char>) -> nat
    decreases s.len(),
{
    if s.len() == 0 || is_space(s[0]) {
        0
    } else {
        1 + word_len(s.drop_first())
    }
}

/// The words of `s`: its maximal runs of characters that are not white space,
/// in order.
pub open spec fn words(s: Seq<char>) -> Seq<Seq<char>>
    decreases s.len(),
    via lemma_words_decreases
{
    if s.len() == 0 {
        Seq::empty()
    } else if is_space(s[0]) {
        words(s.drop_first())
    } else {
        seq![s.take(word_len(s) as int)] + words(s.skip(word_len(s) as int))
    }
}

#[via_fn]
proof fn lemma_words_decreases(s: Seq<char>) {
    lemma_word_len_bound(s);
}

/// A word is no longer than the text it starts.
pub proof fn lemma_word_len_bound(s: Seq<char>)
    ensures
        word_len(s) <= s.len(),
    decreases s.len(),
{
    if s.len() > 0 && !is_space(s[0]) {
        lemma_word_len_bound(s.drop_first());
    }
}

/// The spans of the words of `chars` between `from` and `to`: for each word,
/// the index of its first character and the index after its last.
pub fn word_spans(chars: &Vec<char>, from: usize, to: usize) -> (spans: Vec<(usize, usize)>)
    requires
        from <= to <= chars@.len(),
    ensures
        spans@.len() == words(chars@.subrange(from as int, to as int)).len(),
        forall|k: int|
            0 <= k < spans@.len() ==> from <= (#[trigger] spans@[k]).0 < spans@[k].1 <= to
                && chars@.subrange(spans@[k].0 as int, spans@[k].1 as int) == words(
                chars@.subrange(from as int, to as int),
            )[k],
{
    let ghost text = chars@.subrange(from as int, to as int);
    let mut spans: Vec<(usize, usize)> = Vec::new();
    let mut i: usize = from;
    proof {
        assert(text.skip(0) =~= text);
    }
    while i < to
        invariant
            from <= i <= to <= chars@.len(),
            text == chars@.subrange(from as int, to as int),
            words(text) == Seq::new(
                spans@.len(),
                |k: int| chars@.subrange(spans@[k].0 as int, spans@[k].1 as int),
            ) + words(text.skip(i - from)),
            forall|k: int| 0 <= k < spans@.len() ==> from <= (#[trigger] spans@[k]).0 < spans@[k].1 <= to,
        decreases to - i,
    {
        let ghost rest = text.skip(i - from);
        let ghost found = Seq::new(
            spans@.len(),
            |k: int| chars@.subrange(spans@[k].0 as int, spans@[k].1 as int),
        );
        assert(rest[0] == chars@[i as int]);
        if is_whitespace(chars[i]) {
            proof {
                assert(rest.drop_first() =~= text.skip(i + 1 - from));
            }
            i += 1;
        } else {
            let start = i;
            let mut j: usize = i + 1;
            proof {
                assert(rest.drop_first() =~= text.skip(j - from));
            }
            while j < to && !is_whitespace(chars[j])
                invariant
                    start < j <= to <= chars@.len(),
                    from <= start,
                    text == chars@.subrange(from as int, to as int),
                    rest == text.skip(start - from),
                    word_len(rest) == (j - start) + word_len(text.skip(j - from)),
                decreases to - j,
            {
                proof {
                    let tail = text.skip(j - from);
                    assert(tail[0] == chars@[j as int]);
                    assert(tail.drop_first() =~= text.skip(j + 1 - from));
                }
                j += 1;
            }
            proof {
                let tail = text.skip(j - from);
                if j < to {
                    assert(tail[0] == chars@[j as int]);
                }
                assert(word_len(tail) == 0);
                assert(word_len(rest) == j - start);
                assert(rest.take(j - start) =~= chars@.subrange(start as int, j as int));
                assert(rest.skip(j - start) =~= text.skip(j - from));
            }
            spans.push((start, j));
            proof {
                let found_now = Seq::new(
                    spans@.len(),
                    |k: int| chars@.subrange(spans@[k].0 as int, spans@[k].1 as int),
                );
                assert(found_now =~= found + seq![chars@.subrange(start as int, j as int)]);
            }
            i = j;
        }
    }
    proof {
        assert(text.skip(to - from) =~= Seq::<char>::empty());
        let found = Seq::new(
            spans@.len(),
            |k: int| chars@.subrange(spans@[k].0 as int, spans@[k].1 as int),
        );
        assert(words(text) =~= found);
    }
    spans
}

/// Whether `c` is one of the digits `0` to `9`.
pub open spec fn is_digit(c: char) -> bool {
    0x30 <= c as u32 <= 0x39
}

/// The value of the digit `c`.
pub open spec fn digit_value(c: char) -> nat {
    (c as u32 - 0x30) as nat
}

/// Whether every character of `s` is a digit.
pub open spec fn all_digits(s: Seq<char>) -> bool {
    forall|i: int| 0 <= i < s.len() ==> is_digit(#[trigger] s[i])
}

/// The number that the digits of `s` write in decimal.
pub open spec fn digits_value(s: Seq<char>) -> nat
    decreases s.len(),
{
    if s.len() == 0 {
        0
    } else {
        digits_value(s.drop_last()) * 10 + digit_value(s.last())
    }
}

/// The number that `s` writes, if `s` is a run of one digit or more and the
/// number is no more than `limit`.
pub open spec fn number_of(s: Seq<char>, limit: int) -> Option<int> {
    if s.len() > 0 && all_digits(s) && digits_value(s) <= limit {
        Some(digits_value(s) as int)
    } else {
        None
    }
}

/// `s` without a leading plus sign.
pub open spec fn unsigned_part(s: Seq<char>) -> Seq<char> {
    if s.len() > 0 && s[0] == '+' {
        s.skip(1)
    } else {
        s
    }
}

/// The unsigned 64-bit integer that `s` writes: digits, after at most one plus
/// sign, that write a number in range.
pub open spec fn parsed_u64(s: Seq<char>) -> Option<u64> {
    match number_of(unsigned_part(s), u64::MAX as int) {
        Some(v) => Some(v as u64),
        None => None,
    }
}

/// The signed 32-bit integer that `s` writes: digits, after at most one sign,
/// that write a number in range.
pub open spec fn parsed_i32(s: Seq<char>) -> Option<i32> {
    if s.len() > 0 && s[0] == '-' {
        match number_of(s.skip(1), -(i32::MIN as int)) {
            Some(v) => Some((-v) as i32),
            None => None,
        }
    } else {
        match number_of(unsigned_part(s), i32::MAX as int) {
            Some(v) => Some(v as i32),
            None => None,
        }
    }
}

/// A run of digits writes no less than any of its prefixes.
pub proof fn lemma_digits_value_prefix(s: Seq<char>, n: int)
    requires
        0 <= n <= s.len(),
    ensures
        digits_value(s.take(n)) <= digits_value(s),
    decreases s.len() - n,
{
    if n < s.len() {
        lemma_digits_value_prefix(s, n + 1);
        assert(s.take(n + 1).drop_last() =~= s.take(n));
    } else {
        assert(s.take(n) =~= s);
    }
}

/// Whether `c` is one of the digits `0` to `9`.
pub fn is_ascii_digit(c: char) -> (b: bool)
    ensures
        b == is_digit(c),
{
    let n = c as u32;
    0x30 <= n && n <= 0x39
}

/// The number that the characters from `from` to `to` write, if they are a run
/// of one digit or more and the number is no more than `limit`.
pub fn parse_digits(chars: &Vec<char>, from: usize, to: usize, limit: u64) -> (value: Option<u64>)
    requires
        from <= to <= chars@.len(),
    ensures
        match number_of(chars@.subrange(from as int, to as int), limit as int) {
            Some(v) => value == Some(v as u64),
            None => value is None,
        },
{
    let ghost run = chars@.subrange(from as int, to as int);
    if from == to {
        return None;
    }
    let mut acc: u64 = 0;
    let mut k: usize = from;
    proof {
        assert(run.take(0) =~= Seq::<char>::empty());
    }
    while k < to
        invariant
            from <= k <= to <= chars@.len(),
            run == chars@.subrange(from as int, to as int),
            all_digits(run.take(k - from)),
            acc == digits_value(run.take(k - from)),
            acc <= limit,
        decreases to - k,
    {
        let c = chars[k];
        proof {
            let upto = run.take(k + 1 - from);
            assert(upto.drop_last() =~= run.take(k - from));
            assert(upto.last() == c);
            assert(run[k - from] == c);
            lemma_digits_value_prefix(run, k + 1 - from);
        }
        if !is_ascii_digit(c) {
            return None;
        }
        let d: u64 = (c as u32 - 0x30) as u64;
        if d > limit || acc > (limit - d) / 10 {
            proof {
                assert(acc * 10 + d > limit);
            }
            return None;
        }
        acc = acc * 10 + d;
        proof {
            let upto = run.take(k + 1 - from);
            assert forall|i: int| 0 <= i < upto.len() implies is_digit(#[trigger] upto[i]) by {
                if i < k - from {
                    assert(upto[i] == run.take(k - from)[i]);
                }
            }
        }
        k += 1;
    }
    proof {
        assert(run.take(to - from) =~= run);
    }
    Some(acc)
}

/// The unsigned 64-bit integer that `s` writes, as `str::parse` reads it.
pub fn parse_u64(s: &str) -> (value: Option<u64>)
    ensures
        value == parsed_u64(s@),
{
    let chars = chars_of(s);
    let start: usize = if chars.len() > 0 && chars[0] == '+' {
        1
    } else {
        0
    };
    proof {
        assert(chars@.subrange(start as int, chars@.len() as int) =~= unsigned_part(s@));
    }
    parse_digits(&chars, start, chars.len(), u64::MAX)
}

/// The signed 32-bit integer that `s` writes, as `str::parse` reads it.
pub fn parse_i32(s: &str) -> (value: Option<i32>)
    ensures
        value == parsed_i32(s@),
{
    let chars = chars_of(s);
    if chars.len() > 0 && chars[0] == '-' {
        proof {
            assert(chars@.subrange(1, chars@.len() as int) =~= s@.skip(1));
        }
        match parse_digits(&chars, 1, chars.len(), 2147483648) {
            Some(v) => Some((-(v as i64)) as i32),
            None => None,
        }
    } else {
        let start: usize = if chars.len() > 0 && chars[0] == '+' {
            1
        } else {
            0
        };
        proof {
            assert(chars@.subrange(start as int, chars@.len() as int) =~= unsigned_part(s@));
        }
        match parse_digits(&chars, start, chars.len(), 2147483647) {
            Some(v) => Some(v as i32),
            None => None,
        }
    }
}

/// The texts of the strings.
pub open spec fn texts(strings: Seq<String>) -> Seq<Seq<char>> {
    Seq::new(strings.len(), |i: int| strings[i]@)
}

/// Whether `stem` is a prefix of `name`.
pub open spec fn is_prefix(stem: Seq<char>, name: Seq<char>) -> bool {
    stem.len() <= name.len() && name.take(stem.len() as int) == stem
}

/// Whether `name` starts with `stem`.
pub fn starts_with(name: &str, stem: &str) -> (b: bool)
    ensures
        b == is_prefix(stem@, name@),
{
    let x = chars_of(stem);
    let y = chars_of(name);
    if x.len() > y.len() {
        return false;
    }
    let mut k: usize = 0;
    while k < x.len()
        invariant
            k <= x@.len() <= y@.len(),
            x@ == stem@,
            y@ == name@,
            forall|i: int| 0 <= i < k ==> x@[i] == y@[i],
        decreases x@.len() - k,
    {
        if x[k] != y[k] {
            assert(name@.take(stem@.len() as int)[k as int] != stem@[k as int]);
            return false;
        }
        k += 1;
    }
    assert(name@.take(stem@.len() as int) =~= stem@);
    true
}

/// The number of digits that `s` starts with.
pub open spec fn leading_digits(s: Seq<char>) -> nat
    decreases s.len(),
{
    if s.len() == 0 || !is_digit(s[0]) {
        0
    } else {
        1 + leading_digits(s.drop_first())
    }
}

/// The number of digits that `s` ends with.
pub open spec fn trailing_digits(s: Seq<char>) -> nat
    decreases s.len(),
{
    if s.len() == 0 || !is_digit(s.last()) {
        0
    } else {
        1 + trailing_digits(s.drop_last())
    }
}

/// The digits that a text starts and ends with leave a part between them if
/// the text holds a character that is no digit, and are themselves runs of
/// digits.
pub proof fn lemma_digit_runs(s: Seq<char>)
    ensures
        leading_digits(s) <= s.len(),
        trailing_digits(s) <= s.len(),
        all_digits(s.take(leading_digits(s) as int)),
        all_digits(s.skip(s.len() - trailing_digits(s))),
        leading_digits(s) < s.len() ==> !is_digit(s[leading_digits(s) as int]),
        trailing_digits(s) < s.len() ==> !is_digit(s[s.len() - trailing_digits(s) - 1]),
        !all_digits(s) ==> leading_digits(s) + trailing_digits(s) < s.len(),
    decreases s.len(),
{
    if s.len() > 0 {
        let lead = leading_digits(s);
        let trail = trailing_digits(s);
        if is_digit(s[0]) {
            let rest = s.drop_first();
            lemma_digit_runs(rest);
            assert forall|i: int| 0 <= i < lead implies is_digit(#[trigger] s.take(lead as int)[i]) by {
                if i > 0 {
                    assert(s.take(lead as int)[i] == rest.take(lead - 1)[i - 1]);
                }
            }
            if lead < s.len() {
                assert(s[lead as int] == rest[lead - 1]);
            }
        }
        if is_digit(s.last()) {
            let front = s.drop_last();
            lemma_digit_runs(front);
            let start = s.len() - trail;
            assert forall|i: int| 0 <= i < trail implies is_digit(#[trigger] s.skip(start)[i]) by {
                if i < trail - 1 {
                    assert(s.skip(start)[i] == front.skip(front.len() - (trail - 1))[i]);
                }
            }
            if trail < s.len() {
                assert(s[s.len() - trail - 1] == front[front.len() - (trail - 1) - 1]);
            }
        }
        if !all_digits(s) && lead + trail >= s.len() {
            let k = choose|k: int| 0 <= k < s.len() && !is_digit(#[trigger] s[k]);
            if k < lead {
                assert(s.take(lead as int)[k] == s[k]);
            } else {
                assert(s.skip(s.len() - trail)[k - (s.len() - trail)] == s[k]);
            }
        }
    }
}

} // verus!
