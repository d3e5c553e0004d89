//! Character-sequence vocabulary shared by the request parser and the
//! response writer: prefixes, decimal numerals and line splitting.
//!
//! Everything is stated over `Seq<char>`, the view of `str` and `String`.
//! The executable helpers work on a `[char]` copy of the text so that a
//! character can be inspected in constant time.

use vstd::prelude::*;
use vstd::utf8::is_ascii_chars;

verus! {

/// `s` begins with `prefix`.
pub open spec fn starts_with(s: Seq<char>, prefix: Seq<char>) -> bool {
    prefix.len() <= s.len() && s.take(prefix.len() as int) == prefix
}

/// `part` stands somewhere in `whole`, character for character. The empty
/// text stands in every text.
pub open spec fn piece_of(part: Seq<char>, whole: Seq<char>) -> bool {
    exists|from: int, to: int|
        0 <= from <= to <= whole.len() && part == #[trigger] whole.subrange(from, to)
}

/// `c` is one of the ASCII digits `0` to `9`.
pub open spec fn is_digit(c: char) -> bool {
    '0' <= c && c <= '9'
}

/// The number that the ASCII digit `c` stands for.
pub open spec fn digit_value(c: char) -> nat
    recommends
        is_digit(c),
{
    (c as u32 - '0' as u32) as nat
}

/// The ASCII digit that stands for `d`.
pub open spec fn digit_char(d: nat) -> char
    recommends
        d < 10,
{
    ((d + 48) as u8) as char
}

/// Every character of `s` is an ASCII digit.
pub open spec fn all_digits(s: Seq<char>) -> bool {
    forall|i: int| 0 <= i < s.len() ==> is_digit(#[trigger] s[i])
}

/// The number written by the decimal numeral `digits`, most significant
/// digit first. Leading zeros are allowed; the empty numeral is worth 0.
pub open spec fn decimal_value(digits: Seq<char>) -> nat
    recommends
        all_digits(digits),
    decreases digits.len(),
{
    if digits.len() == 0 {
        0
    } else {
        10 * decimal_value(digits.drop_last()) + digit_value(digits.last())
    }
}

/// The shortest decimal numeral for `n`: no leading zero, and `0` for zero.
pub open spec fn decimal_text(n: nat) -> Seq<char>
    decreases n,
{
    if n < 10 {
        seq![digit_char(n)]
    } else {
        decimal_text(n / 10).push(digit_char(n % 10))
    }
}

/// How many ASCII digits stand at the start of `s` before the first
/// character that is not one.
pub open spec fn digit_run(s: Seq<char>) -> nat
    decreases s.len(),
{
    if s.len() > 0 && is_digit(s[0]) {
        1 + digit_run(s.skip(1))
    } else {
        0
    }
}

/// A line break, carriage return then line feed, stands at index `i` of `s`.
pub open spec fn line_break_at(s: Seq<char>, i: int) -> bool {
    0 <= i && i + 1 < s.len() && s[i] == '\r' && s[i + 1] == '\n'
}

/// The length of the first line of `s`: the index of the first line break,
/// or the whole length where `s` holds none.
pub open spec fn first_line_len(s: Seq<char>) -> nat
    decreases s.len(),
{
    if s.len() == 0 || line_break_at(s, 0) {
        0
    } else {
        1 + first_line_len(s.skip(1))
    }
}

/// The lines of `s`: the pieces between its line breaks, read left to
/// right. A text without a break is one line, the empty text included, and a
/// text that ends in a break has an empty last line.
///
/// The first line stops short of the end only where a line break stands,
/// so that the rest begins two characters on.
pub open spec fn split_lines(s: Seq<char>) -> Seq<Seq<char>>
    decreases s.len(),
{
    let n = first_line_len(s) as int;
    if n + 2 <= s.len() {
        seq![s.take(n)] + split_lines(s.skip(n + 2))
    } else {
        seq![s]
    }
}

/// The lines put together again with a line break between neighbours.
pub open spec fn join_lines(lines: Seq<Seq<char>>) -> Seq<char>
    decreases lines.len(),
{
    if lines.len() == 0 {
        Seq::empty()
    } else if lines.len() == 1 {
        lines[0]
    } else {
        lines[0] + seq!['\r', '\n'] + join_lines(lines.skip(1))
    }
}

/// No line break stands anywhere in `s`.
pub open spec fn unbroken(s: Seq<char>) -> bool {
    forall|i: int| !line_break_at(s, i)
}

/// The first line ends inside the text, at a line break or at the end, and
/// holds no line break itself.
pub proof fn lemma_first_line_len(s: Seq<char>)
    ensures
        first_line_len(s) <= s.len(),
        first_line_len(s) < s.len() ==> line_break_at(s, first_line_len(s) as int),
        forall|i: int| 0 <= i < first_line_len(s) ==> !line_break_at(s, i),
    decreases s.len(),
{
    if s.len() == 0 || line_break_at(s, 0) {
    } else {
        let t = s.skip(1);
        lemma_first_line_len(t);
        assert forall|i: int| 0 <= i < first_line_len(s) implies !line_break_at(s, i) by {
            if i > 0 {
                assert(!line_break_at(t, i - 1));
            }
        }
        if first_line_len(s) < s.len() {
            assert(line_break_at(t, first_line_len(t) as int));
        }
    }
}

/// Splitting loses nothing: the lines joined by line breaks are the text.
pub proof fn lemma_join_split(s: Seq<char>)
    ensures
        split_lines(s).len() >= 1,
        join_lines(split_lines(s)) == s,
    decreases s.len(),
{
    lemma_first_line_len(s);
    let n = first_line_len(s) as int;
    if n + 2 <= s.len() {
        let rest = s.skip(n + 2);
        lemma_join_split(rest);
        let lines = split_lines(s);
        assert(lines.skip(1) =~= split_lines(rest));
        assert(lines[0] == s.take(n));
        assert(s =~= s.take(n) + seq!['\r', '\n'] + rest);
    }
}

/// No line of a split text holds a line break.
pub proof fn lemma_split_lines_unbroken(s: Seq<char>, k: int)
    requires
        0 <= k < split_lines(s).len(),
    ensures
        unbroken(split_lines(s)[k]),
    decreases s.len(),
{
    lemma_first_line_len(s);
    let n = first_line_len(s) as int;
    if n + 2 <= s.len() {
        if k == 0 {
            let first = s.take(n);
            assert forall|i: int| !line_break_at(first, i) by {
                if line_break_at(first, i) {
                    assert(line_break_at(s, i));
                }
            }
        } else {
            lemma_split_lines_unbroken(s.skip(n + 2), k - 1);
        }
    } else {
        assert forall|i: int| !line_break_at(s, i) by {
            if line_break_at(s, i) {
                assert(i < first_line_len(s));
            }
        }
    }
}

/// There is one way only to cut a text into lines: lines without a line
/// break that give the text when joined are the lines of the text.
pub proof fn lemma_split_join(lines: Seq<Seq<char>>)
    requires
        lines.len() >= 1,
        forall|k: int| 0 <= k < lines.len() ==> unbroken(#[trigger] lines[k]),
    ensures
        split_lines(join_lines(lines)) == lines,
    decreases lines.len(),
{
    let s = join_lines(lines);
    let first = lines[0];
    let n = first.len() as int;
    lemma_first_line_len(s);
    assert(unbroken(first));
    if lines.len() == 1 {
        assert forall|i: int| !line_break_at(s, i) by {
            assert(!line_break_at(first, i));
        }
        assert(split_lines(s) =~= lines);
    } else {
        let others = lines.skip(1);
        assert forall|k: int| 0 <= k < others.len() implies unbroken(#[trigger] others[k]) by {
            assert(others[k] == lines[k + 1]);
        }
        lemma_split_join(others);
        let rest = join_lines(others);
        assert(s == first + seq!['\r', '\n'] + rest);
        assert(line_break_at(s, n));
        assert forall|i: int| 0 <= i < n implies !line_break_at(s, i) by {
            assert(!line_break_at(first, i));
            if i + 1 == n {
                assert(s[i + 1] == '\r');
            }
        }
        assert(first_line_len(s) == n);
        assert(s.take(n) =~= first);
        assert(s.skip(n + 2) =~= rest);
        assert(split_lines(s) =~= lines);
    }
}

/// A piece of a piece is a piece.
pub proof fn lemma_piece_of_piece(part: Seq<char>, middle: Seq<char>, whole: Seq<char>)
    requires
        piece_of(part, middle),
        piece_of(middle, whole),
    ensures
        piece_of(part, whole),
{
    let (a, b) = choose|a: int, b: int|
        0 <= a <= b <= whole.len() && middle == #[trigger] whole.subrange(a, b);
    let (c, d) = choose|c: int, d: int|
        0 <= c <= d <= middle.len() && part == #[trigger] middle.subrange(c, d);
    assert(part =~= whole.subrange(a + c, a + d));
}

/// What is left of a text after its first characters is a piece of it.
pub proof fn lemma_skip_is_piece(s: Seq<char>, n: int)
    requires
        0 <= n <= s.len(),
    ensures
        piece_of(s.skip(n), s),
{
    assert(s.skip(n) =~= s.subrange(n, s.len() as int));
}

/// A piece is no longer than the whole, and a piece of an ASCII text is an
/// ASCII text.
pub proof fn lemma_piece_is_smaller(part: Seq<char>, whole: Seq<char>)
    requires
        piece_of(part, whole),
    ensures
        part.len() <= whole.len(),
        is_ascii_chars(whole) ==> is_ascii_chars(part),
{
    let (a, b) = choose|a: int, b: int|
        0 <= a <= b <= whole.len() && part == #[trigger] whole.subrange(a, b);
    if is_ascii_chars(whole) {
        assert forall|i: int| 0 <= i < part.len() implies '\0' <= #[trigger] part[i]
            <= '\u{7f}' by {
            assert(part[i] == whole[a + i]);
        }
    }
}

/// Two ASCII texts put together are an ASCII text.
pub proof fn lemma_ascii_concat(first: Seq<char>, second: Seq<char>)
    requires
        is_ascii_chars(first),
        is_ascii_chars(second),
    ensures
        is_ascii_chars(first + second),
{
    assert forall|i: int| 0 <= i < (first + second).len() implies '\0' <= #[trigger] (first
        + second)[i] <= '\u{7f}' by {
        if i < first.len() {
            assert((first + second)[i] == first[i]);
        } else {
            assert((first + second)[i] == second[i - first.len()]);
        }
    }
}

/// Every line of a text is a piece of it.
pub proof fn lemma_line_is_piece(s: Seq<char>, k: int)
    requires
        0 <= k < split_lines(s).len(),
    ensures
        piece_of(split_lines(s)[k], s),
    decreases s.len(),
{
    lemma_first_line_len(s);
    let n = first_line_len(s) as int;
    if n + 2 <= s.len() {
        if k == 0 {
            assert(s.take(n) =~= s.subrange(0, n));
        } else {
            let rest = s.skip(n + 2);
            lemma_line_is_piece(rest, k - 1);
            lemma_skip_is_piece(s, n + 2);
            lemma_piece_of_piece(split_lines(rest)[k - 1], rest, s);
        }
    } else {
        assert(s =~= s.subrange(0, s.len() as int));
    }
}

/// The digits at the start of a text are digits, and what follows them, if
/// anything does, is not one.
pub proof fn lemma_digit_run(s: Seq<char>)
    ensures
        digit_run(s) <= s.len(),
        all_digits(s.take(digit_run(s) as int)),
        digit_run(s) < s.len() ==> !is_digit(s[digit_run(s) as int]),
    decreases s.len(),
{
    if s.len() > 0 && is_digit(s[0]) {
        let t = s.skip(1);
        lemma_digit_run(t);
        let n = digit_run(s) as int;
        assert forall|i: int| 0 <= i < n implies is_digit(#[trigger] s.take(n)[i]) by {
            if i > 0 {
                assert(s.take(n)[i] == t.take(n - 1)[i - 1]);
            }
        }
    }
}

/// A run of digits ends where the first character that is no digit stands.
pub proof fn lemma_digit_run_of_numeral(digits: Seq<char>, rest: Seq<char>)
    requires
        all_digits(digits),
        rest.len() == 0 || !is_digit(rest[0]),
    ensures
        digit_run(digits + rest) == digits.len(),
    decreases digits.len(),
{
    let s = digits + rest;
    if digits.len() == 0 {
        assert(s =~= rest);
    } else {
        assert(s[0] == digits[0]);
        assert(s.skip(1) =~= digits.skip(1) + rest);
        assert forall|i: int| 0 <= i < digits.skip(1).len() implies is_digit(
            #[trigger] digits.skip(1)[i],
        ) by {
            assert(digits.skip(1)[i] == digits[i + 1]);
        }
        lemma_digit_run_of_numeral(digits.skip(1), rest);
    }
}

/// A numeral is worth at least as much as any numeral it begins with.
pub proof fn lemma_decimal_value_grows(digits: Seq<char>, k: int)
    requires
        0 <= k <= digits.len(),
    ensures
        decimal_value(digits.take(k)) <= decimal_value(digits),
    decreases digits.len(),
{
    if k == digits.len() {
        assert(digits.take(k) =~= digits);
    } else {
        lemma_decimal_value_grows(digits.drop_last(), k);
        assert(digits.drop_last().take(k) =~= digits.take(k));
    }
}

/// A numeral as it is written is made of digits, and reading it gives the
/// number back.
pub proof fn lemma_decimal_round_trip(n: nat)
    ensures
        decimal_text(n).len() >= 1,
        all_digits(decimal_text(n)),
        decimal_value(decimal_text(n)) == n,
    decreases n,
{
    if n < 10 {
        assert(decimal_text(n).drop_last() =~= Seq::<char>::empty());
        assert(decimal_value(decimal_text(n).drop_last()) == 0);
    } else {
        lemma_decimal_round_trip(n / 10);
        assert(decimal_text(n).drop_last() =~= decimal_text(n / 10));
    }
}

/// A numeral is an ASCII text.
pub proof fn lemma_decimal_text_is_ascii(n: nat)
    ensures
        is_ascii_chars(decimal_text(n)),
{
    lemma_decimal_round_trip(n);
    assert forall|i: int| 0 <= i < decimal_text(n).len() implies '\0' <= #[trigger] decimal_text(
        n,
    )[i] <= '\u{7f}' by {
        assert(is_digit(decimal_text(n)[i]));
    }
}

/// Copies the characters of `s` into a vector, one element per character.
pub fn to_chars(s: &str) -> (chars: Vec<char>)
    ensures
        chars@ == s@,
{
    let mut chars: Vec<char> = Vec::new();
    for c in it: s.chars()
        invariant
            chars@ == it.seq().take(it.index() as int),
            it.seq() == s@,
    {
        chars.push(c);
    }
    chars
}

/// Tells whether `line` begins with `prefix`.
pub fn has_prefix(line: &[char], prefix: &str) -> (found: bool)
    ensures
        found == starts_with(line@, prefix@),
{
    let n = prefix.unicode_len();
    if line.len() < n {
        return false;
    }
    let mut i: usize = 0;
    while i < n
        invariant
            i <= n,
            n == prefix@.len(),
            n <= line@.len(),
            forall|j: int| 0 <= j < i ==> line@[j] == prefix@[j],
        decreases n - i,
    {
        if line[i] != prefix.get_char(i) {
            assert(line@.take(n as int)[i as int] != prefix@[i as int]);
            return false;
        }
        i += 1;
    }
    assert(line@.take(n as int) =~= prefix@);
    true
}

/// Finds where the line that starts at `from` ends: at the next line break,
/// or at the end of the text.
pub fn line_end(chars: &[char], from: usize) -> (end: usize)
    requires
        from <= chars@.len(),
    ensures
        from <= end <= chars@.len(),
        end - from == first_line_len(chars@.skip(from as int)),
{
    let len = chars.len();
    let mut i: usize = from;
    loop
        invariant_except_break
            from <= i <= len,
            len == chars@.len(),
            first_line_len(chars@.skip(from as int)) == (i - from) + first_line_len(
                chars@.skip(i as int),
            ),
        ensures
            from <= i <= len,
            i - from == first_line_len(chars@.skip(from as int)),
        decreases len - i,
    {
        let ghost tail = chars@.skip(i as int);
        if i == len {
            break ;
        }
        if i + 1 < len && chars[i] == '\r' && chars[i + 1] == '\n' {
            assert(line_break_at(tail, 0));
            break ;
        }
        assert(!line_break_at(tail, 0));
        assert(tail.skip(1) =~= chars@.skip(i + 1));
        i += 1;
    }
    i
}

/// Finds where the run of digits that starts at `from` ends.
pub fn digits_end(line: &[char], from: usize) -> (end: usize)
    requires
        from <= line@.len(),
    ensures
        from <= end <= line@.len(),
        end - from == digit_run(line@.skip(from as int)),
{
    let len = line.len();
    let mut i: usize = from;
    while i < len && line[i] >= '0' && line[i] <= '9'
        invariant
            from <= i <= len,
            len == line@.len(),
            digit_run(line@.skip(from as int)) == (i - from) + digit_run(line@.skip(i as int)),
        decreases len - i,
    {
        assert(line@.skip(i as int).skip(1) =~= line@.skip(i + 1));
        i += 1;
    }
    i
}

/// Reads a decimal numeral. `None` says that the number does not fit in
/// `usize`.
pub fn read_decimal(digits: &[char]) -> (value: Option<usize>)
    requires
        all_digits(digits@),
    ensures
        match value {
            Some(v) => v == decimal_value(digits@),
            None => decimal_value(digits@) > usize::MAX,
        },
{
    let len = digits.len();
    let mut value: usize = 0;
    let mut i: usize = 0;
    while i < len
        invariant
            i <= len,
            len == digits@.len(),
            all_digits(digits@),
            value == decimal_value(digits@.take(i as int)),
        decreases len - i,
    {
        let c = digits[i];
        assert(is_digit(c));
        let d = (c as u32 - '0' as u32) as usize;
        proof {
            let next = digits@.take(i + 1);
            assert(next.drop_last() =~= digits@.take(i as int));
            assert(decimal_value(next) == 10 * value + d);
            lemma_decimal_value_grows(digits@, i + 1);
        }
        let tens = match value.checked_mul(10) {
            Some(t) => t,
            None => {
                return None;
            },
        };
        value = match tens.checked_add(d) {
            Some(v) => v,
            None => {
                return None;
            },
        };
        i += 1;
    }
    assert(digits@.take(len as int) =~= digits@);
    Some(value)
}

/// The one-character text of a digit.
fn digit_str(d: usize) -> (s: &'static str)
    requires
        d < 10,
    ensures
        s@ == seq![digit_char(d as nat)],
{
    proof {
        reveal_strlit("0");
        reveal_strlit("1");
        reveal_strlit("2");
        reveal_strlit("3");
        reveal_strlit("4");
        reveal_strlit("5");
        reveal_strlit("6");
        reveal_strlit("7");
        reveal_strlit("8");
        reveal_strlit("9");
    }
    let s = match d {
        0 => "0",
        1 => "1",
        2 => "2",
        3 => "3",
        4 => "4",
        5 => "5",
        6 => "6",
        7 => "7",
        8 => "8",
        _ => "9",
    };
    assert(s@ =~= seq![digit_char(d as nat)]);
    s
}

/// Appends the shortest decimal numeral for `n` to `out`.
pub fn push_decimal(out: &mut String, n: usize)
    ensures
        final(out)@ == old(out)@ + decimal_text(n as nat),
    decreases n,
{
    if n >= 10 {
        push_decimal(out, n / 10);
    }
    out.append(digit_str(n % 10));
    assert(out@ =~= old(out)@ + decimal_text(n as nat));
}

} // verus!
