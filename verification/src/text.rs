//! Characters, decimal numbers and fixed-width fields, as the rule text and
//! the raw inputs write them.

use vstd::prelude::*;
use vstd::string::*;

verus! {

/// The characters `'0'` to `'9'`.
pub open spec fn is_digit(c: char) -> bool {
    '0' <= c <= '9'
}

/// The number a digit stands for.
pub open spec fn digit_value(c: char) -> int {
    c as int - 48
}

/// The digit that stands for `d`, for `d` from 0 to 9.
pub open spec fn digit_char(d: int) -> char {
    if d == 0 {
        '0'
    } else if d == 1 {
        '1'
    } else if d == 2 {
        '2'
    } else if d == 3 {
        '3'
    } else if d == 4 {
        '4'
    } else if d == 5 {
        '5'
    } else if d == 6 {
        '6'
    } else if d == 7 {
        '7'
    } else if d == 8 {
        '8'
    } else {
        '9'
    }
}

/// Every character of `s` is a digit.
pub open spec fn all_digits(s: Seq<char>) -> bool {
    forall|i: int| 0 <= i < s.len() ==> is_digit(#[trigger] s[i])
}

/// The number that the digits of `s` write in base ten; 0 for no digits.
pub open spec fn decimal_value(s: Seq<char>) -> int
    decreases s.len(),
{
    if s.len() == 0 {
        0
    } else {
        decimal_value(s.drop_last()) * 10 + digit_value(s.last())
    }
}

/// What a run of characters means as an unsigned number: it must be one or
/// more digits and nothing else, and the number must fit in 32 bits.
pub open spec fn parse_decimal(s: Seq<char>) -> Option<u32> {
    if s.len() >= 1 && all_digits(s) && decimal_value(s) <= u32::MAX {
        Some(decimal_value(s) as u32)
    } else {
        None
    }
}

/// The digits of `n` in base ten, without leading zeros.
pub open spec fn decimal_text(n: nat) -> Seq<char>
    decreases n,
{
    if n < 10 {
        seq![digit_char(n as int)]
    } else {
        decimal_text(n / 10).push(digit_char((n % 10) as int))
    }
}

/// `n` below 100 as two digits.
pub open spec fn two_digits(n: int) -> Seq<char> {
    seq![digit_char(n / 10), digit_char(n % 10)]
}

/// `n` below 10000 as four digits.
pub open spec fn four_digits(n: int) -> Seq<char> {
    seq![
        digit_char(n / 1000),
        digit_char((n / 100) % 10),
        digit_char((n / 10) % 10),
        digit_char(n % 10),
    ]
}

/// The number written by the two characters of `s` at `at`, if both are digits.
pub open spec fn two_digit_field(s: Seq<char>, at: int) -> Option<int> {
    if 0 <= at && at + 2 <= s.len() && is_digit(s[at]) && is_digit(s[at + 1]) {
        Some(digit_value(s[at]) * 10 + digit_value(s[at + 1]))
    } else {
        None
    }
}

/// The number written by the four characters of `s` at `at`, if all are digits.
pub open spec fn four_digit_field(s: Seq<char>, at: int) -> Option<int> {
    if 0 <= at && at + 4 <= s.len() && is_digit(s[at]) && is_digit(s[at + 1]) && is_digit(s[at + 2])
        && is_digit(s[at + 3]) {
        Some(
            digit_value(s[at]) * 1000 + digit_value(s[at + 1]) * 100 + digit_value(s[at + 2]) * 10
                + digit_value(s[at + 3]),
        )
    } else {
        None
    }
}

/// A digit character and its value are two views of one thing.
pub proof fn lemma_digit_char(d: int)
    requires
        0 <= d <= 9,
    ensures
        is_digit(digit_char(d)),
        digit_value(digit_char(d)) == d,
{
}

/// The value of the digits read so far never exceeds the value of them all.
pub proof fn lemma_decimal_value_prefix(s: Seq<char>, k: int)
    requires
        all_digits(s),
        0 <= k <= s.len(),
    ensures
        0 <= decimal_value(s.take(k)) <= decimal_value(s),
    decreases s.len() - k,
{
    if k == s.len() {
        assert(s.take(k) =~= s);
        lemma_decimal_value_nonnegative(s);
    } else {
        lemma_decimal_value_prefix(s, k + 1);
        assert(s.take(k + 1).drop_last() =~= s.take(k));
        lemma_decimal_value_nonnegative(s.take(k));
    }
}

/// Digits write no negative number.
proof fn lemma_decimal_value_nonnegative(s: Seq<char>)
    requires
        all_digits(s),
    ensures
        decimal_value(s) >= 0,
    decreases s.len(),
{
    if s.len() > 0 {
        lemma_decimal_value_nonnegative(s.drop_last());
    }
}

/// Reading the digits that [`decimal_text`] writes gives the number back.
pub proof fn lemma_decimal_round_trip(n: nat)
    ensures
        decimal_text(n).len() >= 1,
        all_digits(decimal_text(n)),
        decimal_value(decimal_text(n)) == n,
    decreases n,
{
    if n < 10 {
        lemma_digit_char(n as int);
        assert(decimal_text(n).drop_last() =~= Seq::<char>::empty());
        assert(decimal_value(Seq::<char>::empty()) == 0);
        assert(decimal_text(n).last() == digit_char(n as int));
    } else {
        lemma_decimal_round_trip(n / 10);
        lemma_digit_char((n % 10) as int);
        assert(decimal_text(n).drop_last() =~= decimal_text(n / 10));
        assert(decimal_text(n).last() == digit_char((n % 10) as int));
    }
}

/// Position of the first `c` in `s`, or the length of `s` if it has none.
pub open spec fn first_index_of(s: Seq<char>, c: char) -> int
    decreases s.len(),
{
    if s.len() == 0 || s[0] == c {
        0
    } else {
        1 + first_index_of(s.drop_first(), c)
    }
}

/// Position of the last `c` in `s`, or -1 if it has none.
pub open spec fn last_index_of(s: Seq<char>, c: char) -> int
    decreases s.len(),
{
    if s.len() == 0 {
        -1
    } else if s.last() == c {
        s.len() - 1
    } else {
        last_index_of(s.drop_last(), c)
    }
}

/// [`first_index_of`] is the one position with `c` on it and none before.
pub proof fn lemma_first_index_of(s: Seq<char>, c: char, at: int)
    requires
        0 <= at <= s.len(),
        at < s.len() ==> s[at] == c,
        forall|i: int| 0 <= i < at ==> s[i] != c,
    ensures
        first_index_of(s, c) == at,
    decreases at,
{
    if at > 0 {
        let rest = s.drop_first();
        assert(s[0] != c);
        assert forall|i: int| 0 <= i < at - 1 implies rest[i] != c by {
            assert(rest[i] == s[i + 1]);
        }
        lemma_first_index_of(rest, c, at - 1);
    }
}

/// [`last_index_of`] is the one position with `c` on it and none after.
pub proof fn lemma_last_index_of(s: Seq<char>, c: char, at: int)
    requires
        -1 <= at < s.len(),
        at >= 0 ==> s[at] == c,
        forall|i: int| at < i < s.len() ==> s[i] != c,
    ensures
        last_index_of(s, c) == at,
    decreases s.len(),
{
    if s.len() > 0 && at < s.len() - 1 {
        assert(s.last() != c);
        lemma_last_index_of(s.drop_last(), c, at);
    }
}

/// No character of `s` is `c`.
pub open spec fn free_of(s: Seq<char>, c: char) -> bool {
    forall|k: int| 0 <= k < s.len() ==> #[trigger] s[k] != c
}

/// Joining two texts that are free of `c` gives a text free of `c`.
pub proof fn lemma_free_of_join(a: Seq<char>, b: Seq<char>, c: char)
    requires
        free_of(a, c),
        free_of(b, c),
    ensures
        free_of(a + b, c),
{
    assert forall|k: int| 0 <= k < (a + b).len() implies #[trigger] (a + b)[k] != c by {
        if k < a.len() {
            assert((a + b)[k] == a[k]);
        } else {
            assert((a + b)[k] == b[k - a.len()]);
        }
    }
}

/// The digits of a number hold digits only.
pub proof fn lemma_decimal_text_plain(n: nat, c: char)
    requires
        !is_digit(c),
    ensures
        free_of(decimal_text(n), c),
{
    lemma_decimal_round_trip(n);
    let t = decimal_text(n);
    assert forall|k: int| 0 <= k < t.len() implies #[trigger] t[k] != c by {
        assert(is_digit(t[k]));
    }
}

/// The characters of a string slice.
pub fn chars_of(s: &str) -> (r: Vec<char>)
    ensures
        r@ == s@,
{
    let mut out: Vec<char> = Vec::new();
    for c in it: s.chars()
        invariant
            out@ == it.seq().take(it.index()),
            it.seq() == s@,
    {
        out.push(c);
    }
    out
}

/// A copy of the characters of `v` from `from` up to `to`.
pub fn slice_of(v: &Vec<char>, from: usize, to: usize) -> (r: Vec<char>)
    requires
        from <= to <= v.len(),
    ensures
        r@ == v@.subrange(from as int, to as int),
{
    let mut out: Vec<char> = Vec::new();
    let mut i: usize = from;
    while i < to
        invariant
            from <= i <= to <= v.len(),
            out@ == v@.subrange(from as int, i as int),
        decreases to - i,
    {
        out.push(v[i]);
        i = i + 1;
    }
    out
}

/// Whether `v` holds exactly the characters of `word`.
pub fn same_text(v: &Vec<char>, word: &str) -> (r: bool)
    ensures
        r == (v@ == word@),
{
    let w = chars_of(word);
    if w.len() != v.len() {
        return false;
    }
    let mut i: usize = 0;
    while i < v.len()
        invariant
            i <= v.len() == w.len(),
            w@ == word@,
            v@.take(i as int) == w@.take(i as int),
        decreases v.len() - i,
    {
        if v[i] != w[i] {
            assert(v@[i as int] != word@[i as int]);
            return false;
        }
        assert(v@.take(i + 1) =~= v@.take(i as int).push(v@[i as int]));
        assert(w@.take(i + 1) =~= w@.take(i as int).push(w@[i as int]));
        i = i + 1;
    }
    assert(v@.take(v.len() as int) =~= v@);
    assert(w@.take(w.len() as int) =~= w@);
    true
}

/// Position of the first `c` in `v` at or after `from`, or the length of
/// `v` if there is none.
pub fn find_char(v: &Vec<char>, from: usize, c: char) -> (r: usize)
    requires
        from <= v.len(),
    ensures
        from <= r <= v.len(),
        r < v.len() ==> v@[r as int] == c,
        forall|i: int| from <= i < r ==> v@[i] != c,
{
    let mut i: usize = from;
    while i < v.len()
        invariant
            from <= i <= v.len(),
            forall|j: int| from <= j < i ==> v@[j] != c,
        decreases v.len() - i,
    {
        if v[i] == c {
            return i;
        }
        i = i + 1;
    }
    i
}

/// Executable form of [`parse_decimal`].
pub fn read_decimal(v: &Vec<char>) -> (r: Option<u32>)
    ensures
        r == parse_decimal(v@),
{
    if v.len() == 0 {
        return None;
    }
    let mut acc: u64 = 0;
    let mut i: usize = 0;
    while i < v.len()
        invariant
            i <= v.len(),
            all_digits(v@.take(i as int)),
            acc == decimal_value(v@.take(i as int)),
            acc <= u32::MAX,
        decreases v.len() - i,
    {
        let c = v[i];
        if !('0' <= c && c <= '9') {
            return None;
        }
        let d: u64 = (c as u32 - 48) as u64;
        assert(v@.take(i + 1).drop_last() =~= v@.take(i as int));
        acc = acc * 10 + d;
        i = i + 1;
        if acc > u32::MAX as u64 {
            proof {
                if all_digits(v@) {
                    lemma_decimal_value_prefix(v@, i as int);
                }
            }
            return None;
        }
    }
    assert(v@.take(v.len() as int) =~= v@);
    Some(acc as u32)
}

/// The one-character text of a digit.
pub fn digit_text(d: u8) -> (r: &'static str)
    requires
        d <= 9,
    ensures
        r@ == seq![digit_char(d as int)],
{
    proof {
        reveal_strlit("0");
        reveal_strlit("1");
        reveal_strlit("2");
        reveal_strlit("3");
        reveal_strlit("4");
        reveal_strlit("5");
        reveal_strlit("6");
        reveal_strlit("7");
        reveal_strlit("8");
        reveal_strlit("9");
    }
    let r = if d == 0 {
        "0"
    } else if d == 1 {
        "1"
    } else if d == 2 {
        "2"
    } else if d == 3 {
        "3"
    } else if d == 4 {
        "4"
    } else if d == 5 {
        "5"
    } else if d == 6 {
        "6"
    } else if d == 7 {
        "7"
    } else if d == 8 {
        "8"
    } else {
        "9"
    };
    assert(r@ =~= seq![digit_char(d as int)]);
    r
}

/// Appends [`decimal_text`] of `n` to `out`.
pub fn append_decimal(out: &mut String, n: u32)
    ensures
        final(out)@ == old(out)@ + decimal_text(n as nat),
    decreases n,
{
    if n >= 10 {
        append_decimal(out, n / 10);
    }
    out.append(digit_text((n % 10) as u8));
    assert(final(out)@ =~= old(out)@ + decimal_text(n as nat));
}

/// Appends [`two_digits`] of `n` to `out`.
pub fn append_two_digits(out: &mut String, n: u8)
    requires
        n < 100,
    ensures
        final(out)@ == old(out)@ + two_digits(n as int),
{
    out.append(digit_text(n / 10));
    out.append(digit_text(n % 10));
    assert(final(out)@ =~= old(out)@ + two_digits(n as int));
}

/// Appends [`four_digits`] of `n` to `out`.
pub fn append_four_digits(out: &mut String, n: u16)
    requires
        n < 10000,
    ensures
        final(out)@ == old(out)@ + four_digits(n as int),
{
    out.append(digit_text((n / 1000) as u8));
    out.append(digit_text(((n / 100) % 10) as u8));
    out.append(digit_text(((n / 10) % 10) as u8));
    out.append(digit_text((n % 10) as u8));
    assert(final(out)@ =~= old(out)@ + four_digits(n as int));
}

/// Executable form of [`two_digit_field`].
pub fn read_two_digits(v: &Vec<char>, at: usize) -> (r: Option<u8>)
    ensures
        match two_digit_field(v@, at as int) {
            Some(n) => r == Some(n as u8) && 0 <= n < 100,
            None => r is None,
        },
{
    if at > v.len() || v.len() - at < 2 {
        return None;
    }
    let a = v[at];
    let b = v[at + 1];
    if '0' <= a && a <= '9' && '0' <= b && b <= '9' {
        Some(((a as u32 - 48) * 10 + (b as u32 - 48)) as u8)
    } else {
        None
    }
}

/// Executable form of [`four_digit_field`].
pub fn read_four_digits(v: &Vec<char>, at: usize) -> (r: Option<u16>)
    ensures
        match four_digit_field(v@, at as int) {
            Some(n) => r == Some(n as u16) && 0 <= n < 10000,
            None => r is None,
        },
{
    if at > v.len() || v.len() - at < 4 {
        return None;
    }
    let a = v[at];
    let b = v[at + 1];
    let c = v[at + 2];
    let d = v[at + 3];
    if '0' <= a && a <= '9' && '0' <= b && b <= '9' && '0' <= c && c <= '9' && '0' <= d && d
        <= '9' {
        Some(
            ((a as u32 - 48) * 1000 + (b as u32 - 48) * 100 + (c as u32 - 48) * 10 + (d as u32
                - 48)) as u16,
        )
    } else {
        None
    }
}

} // verus!
