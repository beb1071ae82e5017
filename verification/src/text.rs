//! Text as sequences of characters: decimal numbers, white space and lines.
use vstd::prelude::*;
use vstd::string::{StrSliceExecFns, StringExecFns};

verus! {

/// The character of a decimal digit.
pub open spec fn digit(d: nat) -> char {
    if d == 0 {
        '0'
    } else if d == 1 {
        '1'
    } else if d == 2 {
        '2'
    } else if d == 3 {
        '3'
    } else if d == 4 {
        '4'
    } else if d == 5 {
        '5'
    } else if d == 6 {
        '6'
    } else if d == 7 {
        '7'
    } else if d == 8 {
        '8'
    } else {
        '9'
    }
}

/// A number in decimal, without leading zeros.
pub open spec fn decimal(n: nat) -> Seq<char>
    decreases n,
{
    if n < 10 {
        seq![digit(n)]
    } else {
        decimal(n / 10).push(digit(n % 10))
    }
}

/// Whether a character is an ASCII digit.
pub open spec fn is_digit(c: char) -> bool {
    '0' <= c <= '9'
}

/// The number that a string of ASCII digits denotes.
pub open spec fn number(s: Seq<char>) -> nat
    decreases s.len(),
{
    if s.len() == 0 {
        0
    } else {
        (number(s.drop_last()) * 10 + (s.last() as u32 - '0' as u32)) as nat
    }
}

/// The digits of a number that may be written with a plus sign.
pub open spec fn unsigned_part(s: Seq<char>) -> Seq<char> {
    if s.len() > 0 && s[0] == '+' {
        s.skip(1)
    } else {
        s
    }
}

/// The number that `s` denotes in decimal, if it denotes one: an optional
/// plus sign and at least one digit.
pub open spec fn decimal_value(s: Seq<char>) -> Option<nat> {
    let digits = unsigned_part(s);
    if digits.len() > 0 && forall|i: int| 0 <= i < digits.len() ==> is_digit(digits[i]) {
        Some(number(digits))
    } else {
        None
    }
}

/// Whether a character is white space (Unicode property `White_Space`).
pub open spec fn is_white(c: char) -> bool {
    ||| '\u{9}' <= c <= '\u{d}'
    ||| c == '\u{20}'
    ||| c == '\u{85}'
    ||| c == '\u{a0}'
    ||| c == '\u{1680}'
    ||| '\u{2000}' <= c <= '\u{200a}'
    ||| c == '\u{2028}'
    ||| c == '\u{2029}'
    ||| c == '\u{202f}'
    ||| c == '\u{205f}'
    ||| c == '\u{3000}'
}

/// `s` without the white space at its start.
pub open spec fn trim_start(s: Seq<char>) -> Seq<char>
    decreases s.len(),
{
    if s.len() > 0 && is_white(s[0]) {
        trim_start(s.skip(1))
    } else {
        s
    }
}

/// `s` without the white space at its end.
pub open spec fn trim_end(s: Seq<char>) -> Seq<char>
    decreases s.len(),
{
    if s.len() > 0 && is_white(s.last()) {
        trim_end(s.drop_last())
    } else {
        s
    }
}

/// `s` without the white space around it.
pub open spec fn trim(s: Seq<char>) -> Seq<char> {
    trim_end(trim_start(s))
}

/// Where `c` first occurs in `s` at or after `from`; the length of `s` if it
/// does not.
pub open spec fn find(s: Seq<char>, c: char, from: int) -> int
    decreases s.len() - from,
{
    if from >= s.len() {
        s.len() as int
    } else if s[from] == c {
        from
    } else {
        find(s, c, from + 1)
    }
}

/// A line without the carriage return that belongs to its line feed.
pub open spec fn without_return(s: Seq<char>) -> Seq<char> {
    if s.len() > 0 && s.last() == '\r' {
        s.drop_last()
    } else {
        s
    }
}

/// The lines of a text, each without its line ending. The last line may have
/// none.
pub open spec fn lines(s: Seq<char>) -> Seq<Seq<char>>
    decreases s.len(),
{
    if s.len() == 0 {
        Seq::empty()
    } else {
        let end = find(s, '\n', 0);
        if 0 <= end < s.len() {
            seq![without_return(s.take(end))] + lines(s.skip(end + 1))
        } else {
            seq![s]
        }
    }
}

fn digit_text(d: u128) -> (text: &'static str)
    requires
        d < 10,
    ensures
        text@ == seq![digit(d as nat)],
{
    proof {
        reveal_strlit("0");
        reveal_strlit("1");
        reveal_strlit("2");
        reveal_strlit("3");
        reveal_strlit("4");
        reveal_strlit("5");
        reveal_strlit("6");
        reveal_strlit("7");
        reveal_strlit("8");
        reveal_strlit("9");
    }
    if d == 0 {
        "0"
    } else if d == 1 {
        "1"
    } else if d == 2 {
        "2"
    } else if d == 3 {
        "3"
    } else if d == 4 {
        "4"
    } else if d == 5 {
        "5"
    } else if d == 6 {
        "6"
    } else if d == 7 {
        "7"
    } else if d == 8 {
        "8"
    } else {
        "9"
    }
}

/// Writes a number in decimal.
pub fn decimal_text(n: u128) -> (text: String)
    ensures
        text@ == decimal(n as nat),
    decreases n,
{
    if n < 10 {
        String::from_str(digit_text(n))
    } else {
        let mut text: String = decimal_text(n / 10);
        text.append(digit_text(n % 10));
        proof {
            assert(decimal((n / 10) as nat) + seq![digit((n % 10) as nat)] =~= decimal(
                (n / 10) as nat,
            ).push(digit((n % 10) as nat)));
        }
        text
    }
}

/// Writes a number in decimal.
pub fn usize_text(n: usize) -> (text: String)
    ensures
        text@ == decimal(n as nat),
{
    decimal_text(n as u128)
}

/// The characters of a text.
pub fn chars_of(s: &str) -> (chars: Vec<char>)
    ensures
        chars@ == s@,
{
    let mut chars: Vec<char> = Vec::new();
    for c in it: s.chars()
        invariant
            it.seq() == s@,
            chars@ == s@.take(it.index() as int),
    {
        proof {
            assert(s@.take(it.index() + 1) =~= s@.take(it.index() as int).push(
                s@[it.index() as int],
            ));
        }
        chars.push(c);
    }
    proof {
        assert(s@.take(s@.len() as int) =~= s@);
    }
    chars
}

/// A longer string of digits denotes no smaller number.
proof fn lemma_number_grows(s: Seq<char>, i: int)
    requires
        0 <= i <= s.len(),
        forall|j: int| 0 <= j < s.len() ==> is_digit(s[j]),
    ensures
        number(s.take(i)) <= number(s),
    decreases s.len() - i,
{
    if i < s.len() {
        lemma_number_grows(s, i + 1);
        assert(s.take(i + 1).drop_last() =~= s.take(i));
        assert(s.take(i + 1).last() == s[i]);
    } else {
        assert(s.take(i) =~= s);
    }
}

/// Reads a decimal number of at most `max`.
pub fn parse_decimal(chars: &Vec<char>, from: usize, to: usize, max: u128) -> (value: Option<u128>)
    requires
        from <= to <= chars@.len(),
    ensures
        match (decimal_value(chars@.subrange(from as int, to as int)), value) {
            (Some(n), Some(v)) => n == v && v <= max,
            (Some(n), None) => n > max,
            (None, v) => v is None,
        },
{
    let ghost s = chars@.subrange(from as int, to as int);
    let ghost digits = unsigned_part(s);
    let mut start: usize = from;
    if from < to && chars[from] == '+' {
        start = from + 1;
        proof {
            assert(s.skip(1) =~= chars@.subrange(start as int, to as int));
        }
    }
    proof {
        assert(digits == chars@.subrange(start as int, to as int));
    }
    if start == to {
        return None;
    }
    let mut acc: u128 = 0;
    let mut i: usize = start;
    proof {
        assert(digits.take(0) =~= Seq::<char>::empty());
    }
    while i < to
        invariant
            from <= start <= i <= to <= chars@.len(),
            start < to,
            s == chars@.subrange(from as int, to as int),
            digits == unsigned_part(s),
            digits == chars@.subrange(start as int, to as int),
            forall|j: int| 0 <= j < i - start ==> is_digit(digits[j]),
            acc == number(digits.take(i - start)),
            acc <= max,
        decreases to - i,
    {
        let c: char = chars[i];
        let ghost k = i - start;
        proof {
            assert(digits[k] == c);
            assert(digits.take(k + 1).drop_last() =~= digits.take(k));
        }
        if c < '0' || c > '9' {
            proof {
                assert(!is_digit(digits[k]));
            }
            return None;
        }
        let d: u128 = (c as u32 - '0' as u32) as u128;
        if max < d || acc > (max - d) / 10 {
            proof {
                assert(number(digits.take(k + 1)) == acc * 10 + d);
                assert(number(digits.take(k + 1)) > max);
                if forall|j: int| 0 <= j < digits.len() ==> is_digit(digits[j]) {
                    lemma_number_grows(digits, k + 1);
                }
            }
            return None;
        }
        acc = acc * 10 + d;
        i = i + 1;
    }
    proof {
        assert(digits.take(digits.len() as int) =~= digits);
    }
    Some(acc)
}

/// Whether a character is white space.
pub fn white(c: char) -> (res: bool)
    ensures
        res == is_white(c),
{
    ('\u{9}' <= c && c <= '\u{d}') || c == '\u{20}' || c == '\u{85}' || c == '\u{a0}' || c
        == '\u{1680}' || ('\u{2000}' <= c && c <= '\u{200a}') || c == '\u{2028}' || c == '\u{2029}'
        || c == '\u{202f}' || c == '\u{205f}' || c == '\u{3000}'
}

/// The bounds of a range of characters without the white space around it.
pub fn trim_range(chars: &Vec<char>, from: usize, to: usize) -> (range: (usize, usize))
    requires
        from <= to <= chars@.len(),
    ensures
        from <= range.0 <= range.1 <= to,
        chars@.subrange(range.0 as int, range.1 as int) == trim(
            chars@.subrange(from as int, to as int),
        ),
{
    let mut a: usize = from;
    let ghost s = chars@.subrange(from as int, to as int);
    while a < to && white(chars[a])
        invariant
            from <= a <= to <= chars@.len(),
            s == chars@.subrange(from as int, to as int),
            trim_start(chars@.subrange(a as int, to as int)) == trim_start(s),
        decreases to - a,
    {
        proof {
            assert(chars@.subrange(a as int, to as int).skip(1) =~= chars@.subrange(
                a + 1,
                to as int,
            ));
        }
        a = a + 1;
    }
    let ghost rest = chars@.subrange(a as int, to as int);
    assert(rest == trim_start(s));
    let mut b: usize = to;
    while a < b && white(chars[b - 1])
        invariant
            from <= a <= b <= to <= chars@.len(),
            rest == chars@.subrange(a as int, to as int),
            trim_end(chars@.subrange(a as int, b as int)) == trim_end(rest),
        decreases b - a,
    {
        proof {
            assert(chars@.subrange(a as int, b as int).drop_last() =~= chars@.subrange(
                a as int,
                b - 1,
            ));
        }
        b = b - 1;
    }
    (a, b)
}

/// The position of the first `c` in a range of characters, or its end.
pub fn find_char(chars: &Vec<char>, c: char, from: usize, to: usize) -> (at: usize)
    requires
        from <= to <= chars@.len(),
    ensures
        from <= at <= to,
        at - from == find(chars@.subrange(from as int, to as int), c, 0),
{
    let ghost s = chars@.subrange(from as int, to as int);
    let mut at: usize = from;
    while at < to && chars[at] != c
        invariant
            from <= at <= to <= chars@.len(),
            s == chars@.subrange(from as int, to as int),
            find(s, c, at - from) == find(s, c, 0),
        decreases to - at,
    {
        at = at + 1;
    }
    at
}

/// `find` stops at the first occurrence.
pub proof fn lemma_find(s: Seq<char>, c: char, from: int)
    requires
        0 <= from <= s.len(),
    ensures
        from <= find(s, c, from) <= s.len(),
        find(s, c, from) < s.len() ==> s[find(s, c, from)] == c,
        forall|i: int| from <= i < find(s, c, from) ==> s[i] != c,
    decreases s.len() - from,
{
    if from < s.len() && s[from] != c {
        lemma_find(s, c, from + 1);
    }
}

/// A number written in decimal reads back as itself.
pub proof fn decimal_round_trip(n: nat)
    ensures
        decimal_value(decimal(n)) == Some(n),
{
    lemma_decimal_digits(n);
    assert(unsigned_part(decimal(n)) == decimal(n));
}

/// There is no white space in a decimal number.
pub proof fn lemma_decimal_untrimmed(n: nat)
    ensures
        decimal(n).len() > 0,
        is_digit(decimal(n).last()),
        trim(decimal(n)) == decimal(n),
{
    lemma_decimal_digits(n);
    assert(is_digit(decimal(n)[0]));
    assert(is_digit(decimal(n)[decimal(n).len() - 1]));
}

proof fn lemma_decimal_digits(n: nat)
    ensures
        decimal(n).len() > 0,
        forall|i: int| 0 <= i < decimal(n).len() ==> is_digit(decimal(n)[i]),
        number(decimal(n)) == n,
    decreases n,
{
    if n < 10 {
        assert(decimal(n).drop_last() =~= Seq::<char>::empty());
        assert(number(Seq::<char>::empty()) == 0);
        assert(number(decimal(n)) == number(decimal(n).drop_last()) * 10 + (decimal(n).last() as u32
            - '0' as u32));
    } else {
        lemma_decimal_digits(n / 10);
        assert(decimal(n).drop_last() =~= decimal(n / 10));
        assert(decimal(n).last() == digit(n % 10));
    }
}

/// Exactly these characters are white space.
pub proof fn white_space_is_these(c: char)
    ensures
        is_white(c) <==> {
            ||| c == '\t'
            ||| c == '\n'
            ||| c == '\u{b}'
            ||| c == '\u{c}'
            ||| c == '\r'
            ||| c == ' '
            ||| c == '\u{85}'
            ||| c == '\u{a0}'
            ||| c == '\u{1680}'
            ||| c == '\u{2000}'
            ||| c == '\u{2001}'
            ||| c == '\u{2002}'
            ||| c == '\u{2003}'
            ||| c == '\u{2004}'
            ||| c == '\u{2005}'
            ||| c == '\u{2006}'
            ||| c == '\u{2007}'
            ||| c == '\u{2008}'
            ||| c == '\u{2009}'
            ||| c == '\u{200a}'
            ||| c == '\u{2028}'
            ||| c == '\u{2029}'
            ||| c == '\u{202f}'
            ||| c == '\u{205f}'
            ||| c == '\u{3000}'
        },
{
}

/// Whether a text is made of white space only.
pub open spec fn all_white(s: Seq<char>) -> bool {
    forall|i: int| 0 <= i < s.len() ==> is_white(#[trigger] s[i])
}

proof fn lemma_trim_start(s: Seq<char>)
    ensures
        trim_start(s).len() <= s.len(),
        s == s.take(s.len() - trim_start(s).len()) + trim_start(s),
        all_white(s.take(s.len() - trim_start(s).len())),
        trim_start(s).len() > 0 ==> !is_white(trim_start(s)[0]),
    decreases s.len(),
{
    if s.len() > 0 && is_white(s[0]) {
        let rest = s.skip(1);
        lemma_trim_start(rest);
        let cut = s.len() - trim_start(s).len();
        assert(s.skip(cut) =~= rest.skip(cut - 1));
        assert(rest =~= rest.take(cut - 1) + trim_start(rest));
        assert(rest.skip(cut - 1) =~= trim_start(rest));
        assert(s =~= s.take(cut) + trim_start(s));
        assert forall|i: int| 0 <= i < cut implies is_white(#[trigger] s.take(cut)[i]) by {
            if i > 0 {
                assert(rest.take(cut - 1)[i - 1] == s[i]);
            }
        }
    } else {
        assert(s.take(0) + s =~= s);
    }
}

proof fn lemma_trim_end(s: Seq<char>)
    ensures
        trim_end(s).len() <= s.len(),
        s == trim_end(s) + s.skip(trim_end(s).len() as int),
        all_white(s.skip(trim_end(s).len() as int)),
        trim_end(s).len() > 0 ==> !is_white(trim_end(s).last()),
    decreases s.len(),
{
    if s.len() > 0 && is_white(s.last()) {
        let rest = s.drop_last();
        lemma_trim_end(rest);
        let kept = trim_end(s).len() as int;
        assert(rest =~= trim_end(rest) + rest.skip(kept));
        assert(s.take(kept) =~= rest.take(kept));
        assert(rest.take(kept) =~= trim_end(rest));
        assert(s =~= trim_end(s) + s.skip(kept));
        assert forall|i: int| 0 <= i < s.skip(kept).len() implies is_white(
            #[trigger] s.skip(kept)[i],
        ) by {
            if kept + i < s.len() - 1 {
                assert(rest.skip(kept)[i] == s[kept + i]);
            }
        }
    } else {
        assert(s + s.skip(s.len() as int) =~= s);
    }
}

/// Trimming takes white space away at both ends, all of it and nothing else.
pub proof fn trimming_cuts_white_space_only(s: Seq<char>)
    ensures
        exists|a: Seq<char>, b: Seq<char>|
            s == #[trigger] (a + trim(s) + b) && all_white(a) && all_white(b),
        trim(s).len() > 0 ==> !is_white(trim(s)[0]) && !is_white(trim(s).last()),
{
    lemma_trim_start(s);
    let t = trim_start(s);
    lemma_trim_end(t);
    let a = s.take(s.len() - t.len());
    let b = t.skip(trim_end(t).len() as int);
    assert(s =~= a + trim(s) + b);
    if trim(s).len() > 0 {
        assert(t[0] == trim(s)[0]);
    }
}

/// The decimal digits are written as themselves.
pub proof fn digits_are_written_as_themselves()
    ensures
        decimal(0) == "0"@,
        decimal(1) == "1"@,
        decimal(2) == "2"@,
        decimal(3) == "3"@,
        decimal(4) == "4"@,
        decimal(5) == "5"@,
        decimal(6) == "6"@,
        decimal(7) == "7"@,
        decimal(8) == "8"@,
        decimal(9) == "9"@,
{
    reveal_strlit("0");
    reveal_strlit("1");
    reveal_strlit("2");
    reveal_strlit("3");
    reveal_strlit("4");
    reveal_strlit("5");
    reveal_strlit("6");
    reveal_strlit("7");
    reveal_strlit("8");
    reveal_strlit("9");
}

/// Another digit goes behind the digits of the number before it.
pub proof fn longer_numbers_extend_shorter_ones(n: nat, d: nat)
    requires
        1 <= n,
        d < 10,
    ensures
        decimal(10 * n + d) == decimal(n) + decimal(d),
{
    assert((10 * n + d) / 10 == n);
    assert((10 * n + d) % 10 == d);
    assert(decimal(10 * n + d) =~= decimal(n) + decimal(d));
}

/// What a text of digits denotes grows by one decimal place with every digit,
/// whatever digits come before: leading zeros do no harm.
pub proof fn digits_are_read_place_by_place(s: Seq<char>, d: nat)
    requires
        s.len() > 0 ==> s[0] != '+',
        s.len() > 0 ==> decimal_value(s) is Some,
        d < 10,
    ensures
        decimal_value(s + decimal(d)) == Some(
            (10 * (if s.len() > 0 {
                decimal_value(s)->0
            } else {
                0
            }) + d) as nat,
        ),
{
    let t = s + decimal(d);
    assert(decimal(d) =~= seq![digit(d)]);
    assert(t.drop_last() =~= s);
    assert(t.last() == digit(d));
    assert(unsigned_part(t) == t);
    assert forall|i: int| 0 <= i < t.len() implies is_digit(t[i]) by {
        if i < s.len() {
            assert(unsigned_part(s) == s);
            assert(is_digit(s[i]));
        }
    }
    if s.len() == 0 {
        assert(number(s) == 0);
    }
}

/// A plus sign before a number changes nothing, and nothing but digits may
/// follow it.
pub proof fn only_digits_denote_numbers(s: Seq<char>)
    ensures
        s.len() > 0 && s[0] != '+' ==> decimal_value(seq!['+'] + s) == decimal_value(s),
        decimal_value(s) is Some ==> s.len() > 0 && (s[0] == '+' ==> s.len() > 1)
            && forall|i: int|
                0 <= i < s.len() ==> (i == 0 && s[i] == '+') || '0' <= #[trigger] s[i] <= '9',
{
    let t = seq!['+'] + s;
    assert(t.skip(1) =~= s);
    if decimal_value(s) is Some {
        let digits = unsigned_part(s);
        assert forall|i: int| 0 <= i < s.len() implies (i == 0 && s[i] == '+') || '0'
            <= #[trigger] s[i] <= '9' by {
            if s[0] == '+' {
                if i > 0 {
                    assert(digits[i - 1] == s[i]);
                    assert(is_digit(digits[i - 1]));
                }
            } else {
                assert(is_digit(digits[i]));
            }
        }
    }
}

/// Whether a character does not occur in a text.
pub open spec fn free_of(s: Seq<char>, c: char) -> bool {
    forall|i: int| 0 <= i < s.len() ==> (#[trigger] s[i]) != c
}

/// A line ends at its line feed, with or without a carriage return before it;
/// what follows is lines of its own. Text without a line feed is one line.
pub proof fn lines_end_at_line_feeds(a: Seq<char>, b: Seq<char>)
    requires
        free_of(a, '\n'),
    ensures
        lines(a + seq!['\r', '\n'] + b) == seq![a] + lines(b),
        a.len() == 0 || a.last() != '\r' ==> lines(a + seq!['\n'] + b) == seq![a] + lines(b),
        a.len() > 0 ==> lines(a) == seq![a],
        lines(Seq::empty()) == Seq::<Seq<char>>::empty(),
{
    let s = a + seq!['\r', '\n'] + b;
    let e: int = a.len() as int + 1;
    lemma_find(s, '\n', 0);
    assert(s[e] == '\n');
    assert forall|i: int| 0 <= i < e implies s[i] != '\n' by {
        if i < a.len() {
            assert(s[i] == a[i]);
        } else {
            assert(s[i] == '\r');
        }
    }
    assert(find(s, '\n', 0) == e);
    assert(s.take(e) =~= a.push('\r'));
    assert(a.push('\r').drop_last() =~= a);
    assert(s.skip(e + 1) =~= b);

    let t = a + seq!['\n'] + b;
    let f: int = a.len() as int;
    lemma_find(t, '\n', 0);
    assert(t[f] == '\n');
    assert forall|i: int| 0 <= i < f implies t[i] != '\n' by {
        assert(t[i] == a[i]);
    }
    assert(find(t, '\n', 0) == f);
    assert(t.take(f) =~= a);
    assert(t.skip(f + 1) =~= b);

    lemma_find(a, '\n', 0);
    if a.len() > 0 && find(a, '\n', 0) < a.len() {
        assert(a[find(a, '\n', 0)] == '\n');
    }
}

/// The lines of two texts put together are those of the one and then those of
/// the other, where the first ends in a line feed.
pub proof fn lines_of_joined_texts(a: Seq<char>, b: Seq<char>)
    requires
        a.len() > 0 ==> a.last() == '\n',
    ensures
        lines(a + b) == lines(a) + lines(b),
    decreases a.len(),
{
    if a.len() == 0 {
        assert(a + b =~= b);
        assert(lines(a) + lines(b) =~= lines(b));
    } else {
        lemma_find(a, '\n', 0);
        let e = find(a, '\n', 0);
        assert(a[a.len() - 1] == '\n');
        assert(e < a.len());
        let s = a + b;
        lemma_find(s, '\n', 0);
        assert forall|i: int| 0 <= i < e implies s[i] != '\n' by {
            assert(s[i] == a[i]);
        }
        assert(s[e] == '\n');
        assert(find(s, '\n', 0) == e);
        assert(s.take(e) =~= a.take(e));
        let rest = a.skip(e + 1);
        assert(s.skip(e + 1) =~= rest + b);
        if rest.len() > 0 {
            assert(rest.last() == a.last());
        }
        lines_of_joined_texts(rest, b);
        assert(lines(s) =~= lines(a) + lines(b));
    }
}

/// The parts of a text between its commas.
pub open spec fn fields(s: Seq<char>) -> Seq<Seq<char>>
    decreases s.len(),
{
    if s.len() == 0 {
        seq![Seq::empty()]
    } else {
        let before = fields(s.drop_last());
        if s.last() == ',' {
            before.push(Seq::empty())
        } else {
            before.drop_last().push(before.last().push(s.last()))
        }
    }
}

/// A text without a comma is one field, and behind a comma a new field begins.
pub proof fn fields_begin_at_commas(s: Seq<char>, a: Seq<char>)
    requires
        free_of(a, ','),
    ensures
        fields(a) == seq![a],
        fields(s + ","@ + a) == fields(s).push(a),
        fields(s).len() > 0,
    decreases a.len(),
{
    reveal_strlit(",");
    lemma_fields_len(s);
    let t = s + ","@ + a;
    if a.len() == 0 {
        assert(a =~= Seq::<char>::empty());
        assert(t.drop_last() =~= s);
        assert(t.last() == ',');
        assert(fields(t) =~= fields(s).push(a));
        assert(fields(a) =~= seq![a]);
    } else {
        let b = a.drop_last();
        assert forall|i: int| 0 <= i < b.len() implies (#[trigger] b[i]) != ',' by {
            assert(b[i] == a[i]);
        }
        fields_begin_at_commas(s, b);
        assert(t.drop_last() =~= s + ","@ + b);
        assert(t.last() == a.last());
        assert(a[a.len() - 1] != ',');
        assert(b.push(a.last()) =~= a);
        assert(fields(t) =~= fields(s).push(a));
        assert(fields(a) =~= seq![a]);
    }
}

proof fn lemma_fields_len(s: Seq<char>)
    ensures
        fields(s).len() > 0,
    decreases s.len(),
{
    if s.len() > 0 {
        lemma_fields_len(s.drop_last());
    }
}

/// A number written in decimal has no comma and no line feed.
pub proof fn decimals_are_digits(n: nat)
    ensures
        decimal(n).len() > 0,
        free_of(decimal(n), ','),
        free_of(decimal(n), '\n'),
        forall|i: int| 0 <= i < decimal(n).len() ==> '0' <= #[trigger] decimal(n)[i] <= '9',
{
    lemma_decimal_digits(n);
    assert forall|i: int| 0 <= i < decimal(n).len() implies '0' <= #[trigger] decimal(n)[i]
        <= '9' by {
        assert(is_digit(decimal(n)[i]));
    }
}

} // verus!
