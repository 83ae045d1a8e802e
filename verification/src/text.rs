//! Text building blocks: decimal numerals, comparison and scanning of strings.

use vstd::prelude::*;

verus! {

/// The decimal digit `d` as a character.
pub open spec fn digit(d: nat) -> char {
    if d == 0 {
        '0'
    } else if d == 1 {
        '1'
    } else if d == 2 {
        '2'
    } else if d == 3 {
        '3'
    } else if d == 4 {
        '4'
    } else if d == 5 {
        '5'
    } else if d == 6 {
        '6'
    } else if d == 7 {
        '7'
    } else if d == 8 {
        '8'
    } else {
        '9'
    }
}

/// The decimal numeral of `n`, without leading zeros.
pub open spec fn decimal(n: nat) -> Seq<char>
    decreases n,
{
    if n < 10 {
        seq![digit(n)]
    } else {
        decimal(n / 10).push(digit(n % 10))
    }
}

/// `String::push` of std: appends one character at the end.
pub assume_specification[ String::push ](s: &mut String, c: char)
    ensures
        final(s)@ == old(s)@.push(c),
;

/// Whether a character has the Unicode `White_Space` property.
pub open spec fn white_space(c: char) -> bool {
    ||| '\u{9}' <= c <= '\u{d}'
    ||| c == ' '
    ||| c == '\u{85}'
    ||| c == '\u{a0}'
    ||| c == '\u{1680}'
    ||| '\u{2000}' <= c <= '\u{200a}'
    ||| c == '\u{2028}'
    ||| c == '\u{2029}'
    ||| c == '\u{202f}'
    ||| c == '\u{205f}'
    ||| c == '\u{3000}'
}

/// Whether a character has the Unicode `White_Space` property.
pub fn is_white_space(c: char) -> (res: bool)
    ensures
        res == white_space(c),
{
    ('\u{9}' <= c && c <= '\u{d}') || c == ' ' || c == '\u{85}' || c == '\u{a0}' || c == '\u{1680}'
        || ('\u{2000}' <= c && c <= '\u{200a}') || c == '\u{2028}' || c == '\u{2029}' || c
        == '\u{202f}' || c == '\u{205f}' || c == '\u{3000}'
}

/// Whether a text is empty or white space throughout.
pub open spec fn blank(s: Seq<char>) -> bool {
    forall|i: int| 0 <= i < s.len() ==> white_space(#[trigger] s[i])
}

/// The text from its first character on that is not white space.
pub open spec fn trim_start(s: Seq<char>) -> Seq<char>
    decreases s.len(),
{
    if s.len() > 0 && white_space(s[0]) {
        trim_start(s.drop_first())
    } else {
        s
    }
}

/// The end of the line that starts at `from`: the position of the next line feed, or
/// the end of the text.
pub open spec fn line_end(s: Seq<char>, from: int) -> int
    decreases s.len() - from,
{
    if from >= s.len() || s[from] == '\n' {
        from
    } else {
        line_end(s, from + 1)
    }
}

/// The lines of a text from position `from` on. A line ends at a line feed, which may
/// be preceded by a carriage return; the last line need not be ended.
pub open spec fn lines_from(s: Seq<char>, from: int) -> Seq<Seq<char>>
    decreases s.len() + 1 - from,
    via lines_from_decreases
{
    if from < 0 || from >= s.len() {
        seq![]
    } else {
        let end = line_end(s, from);
        let text = if from < end < s.len() && s[end - 1] == '\r' {
            s.subrange(from, end - 1)
        } else {
            s.subrange(from, end)
        };
        seq![text] + lines_from(s, end + 1)
    }
}

#[via_fn]
proof fn lines_from_decreases(s: Seq<char>, from: int) {
    if 0 <= from < s.len() {
        line_end_bounds(s, from);
    }
}

/// A line ends within the text, at or after its start.
pub proof fn line_end_bounds(s: Seq<char>, from: int)
    requires
        0 <= from <= s.len(),
    ensures
        from <= line_end(s, from) <= s.len(),
    decreases s.len() - from,
{
    if from < s.len() && s[from] != '\n' {
        line_end_bounds(s, from + 1);
    }
}

/// The lines of a text.
pub open spec fn lines(s: Seq<char>) -> Seq<Seq<char>> {
    lines_from(s, 0)
}

/// A line in the second of two texts ends where it ends in that text alone.
proof fn line_end_behind(p: Seq<char>, q: Seq<char>, from: int)
    requires
        0 <= from <= q.len(),
    ensures
        line_end(p + q, p.len() + from) == p.len() + line_end(q, from),
    decreases q.len() - from,
{
    if from < q.len() {
        assert((p + q)[p.len() + from] == q[from]);
        if q[from] != '\n' {
            line_end_behind(p, q, from + 1);
        }
    }
}

/// The lines of the second of two texts are those it has alone.
proof fn lines_behind(p: Seq<char>, q: Seq<char>, from: int)
    requires
        0 <= from <= q.len() + 1,
    ensures
        lines_from(p + q, p.len() + from) == lines_from(q, from),
    decreases q.len() + 1 - from,
{
    if from < q.len() {
        let end = line_end(q, from);
        line_end_bounds(q, from);
        line_end_behind(p, q, from);
        lines_behind(p, q, end + 1);
        assert((p + q).subrange(p.len() + from, p.len() + end) =~= q.subrange(from, end));
        if from < end {
            assert((p + q)[p.len() + end - 1] == q[end - 1]);
            assert((p + q).subrange(p.len() + from, p.len() + end - 1) =~= q.subrange(
                from,
                end - 1,
            ));
        }
    }
}

/// A line of a text that ends with a line feed ends before its last character.
proof fn line_end_before(p: Seq<char>, q: Seq<char>, from: int)
    requires
        0 <= from < p.len(),
        p.last() == '\n',
    ensures
        line_end(p + q, from) == line_end(p, from) < p.len(),
    decreases p.len() - from,
{
    assert((p + q)[from] == p[from]);
    if p[from] != '\n' {
        line_end_before(p, q, from + 1);
    }
}

proof fn lines_of_both_from(p: Seq<char>, q: Seq<char>, from: int)
    requires
        0 <= from <= p.len(),
        p.len() > 0 ==> p.last() == '\n',
    ensures
        lines_from(p + q, from) == lines_from(p, from) + lines(q),
    decreases p.len() - from,
{
    if from < p.len() {
        let end = line_end(p, from);
        line_end_bounds(p, from);
        line_end_before(p, q, from);
        lines_of_both_from(p, q, end + 1);
        assert((p + q).subrange(from, end) =~= p.subrange(from, end));
        if from < end {
            assert((p + q)[end - 1] == p[end - 1]);
            assert((p + q).subrange(from, end - 1) =~= p.subrange(from, end - 1));
        }
        assert(lines_from(p + q, from) =~= lines_from(p, from) + lines(q));
    } else {
        lines_behind(p, q, 0);
        assert(lines_from(p, from) + lines(q) =~= lines(q));
    }
}

/// Behind a text that is empty or ends with a line feed, a second text starts a line:
/// the lines of both together are those of the first, then those of the second.
pub proof fn lines_of_both(p: Seq<char>, q: Seq<char>)
    requires
        p.len() > 0 ==> p.last() == '\n',
    ensures
        lines(p + q) == lines(p) + lines(q),
{
    lines_of_both_from(p, q, 0);
}

proof fn line_end_without_feed(s: Seq<char>, from: int)
    requires
        0 <= from <= s.len(),
        forall|i: int| 0 <= i < s.len() ==> s[i] != '\n',
    ensures
        line_end(s, from) == s.len(),
        line_end(s.push('\n'), from) == s.len(),
    decreases s.len() - from,
{
    if from < s.len() {
        line_end_without_feed(s, from + 1);
    }
}

/// A text without line feeds, ended by one, is a single line: the text, without a
/// carriage return at its end.
pub proof fn one_line(s: Seq<char>)
    requires
        forall|i: int| 0 <= i < s.len() ==> s[i] != '\n',
    ensures
        lines(s.push('\n')) == seq![
            if s.len() > 0 && s.last() == '\r' {
                s.drop_last()
            } else {
                s
            },
        ],
{
    let t = s.push('\n');
    line_end_without_feed(s, 0);
    assert(t.subrange(0, s.len() as int) =~= s);
    if s.len() > 0 {
        assert(t[s.len() - 1] == s.last());
        assert(t.subrange(0, s.len() - 1) =~= s.drop_last());
    }
    assert(lines_from(t, (s.len() + 1) as int) =~= seq![]);
    assert(lines(t) =~= seq![
        if s.len() > 0 && s.last() == '\r' {
            s.drop_last()
        } else {
            s
        },
    ]);
}

/// The text of a range of characters.
pub fn text_of(chars: &Vec<char>, from: usize, to: usize) -> (res: String)
    requires
        from <= to <= chars@.len(),
    ensures
        res@ == chars@.subrange(from as int, to as int),
{
    let mut out = String::new();
    let mut i: usize = from;
    while i < to
        invariant
            from <= i <= to <= chars@.len(),
            out@ == chars@.subrange(from as int, i as int),
        decreases to - i,
    {
        out.push(chars[i]);
        i += 1;
        assert(out@ =~= chars@.subrange(from as int, i as int));
    }
    out
}

/// Whether a text is empty or white space throughout.
pub fn is_blank(s: &str) -> (res: bool)
    ensures
        res == blank(s@),
{
    let chars = chars_of(s);
    let mut i: usize = 0;
    while i < chars.len()
        invariant
            chars@ == s@,
            i <= chars@.len(),
            forall|j: int| 0 <= j < i ==> white_space(#[trigger] s@[j]),
        decreases chars.len() - i,
    {
        if !is_white_space(chars[i]) {
            assert(!white_space(s@[i as int]));
            return false;
        }
        i += 1;
    }
    true
}

/// Whether the first character that is not white space is `c`.
pub fn starts_with_after_space(s: &str, c: char) -> (res: bool)
    ensures
        res == (trim_start(s@).len() > 0 && trim_start(s@)[0] == c),
{
    let chars = chars_of(s);
    let mut i: usize = 0;
    assert(s@.skip(0) =~= s@);
    while i < chars.len() && is_white_space(chars[i])
        invariant
            chars@ == s@,
            i <= chars@.len(),
            trim_start(s@) == trim_start(s@.skip(i as int)),
        decreases chars.len() - i,
    {
        assert(s@.skip(i as int).drop_first() =~= s@.skip(i + 1));
        i += 1;
    }
    if i < chars.len() {
        assert(s@.skip(i as int)[0] == s@[i as int]);
        chars[i] == c
    } else {
        assert(s@.skip(i as int).len() == 0);
        false
    }
}

/// The lines of a text, split at line feeds and at carriage returns before them.
pub fn split_lines(s: &str) -> (res: Vec<String>)
    ensures
        res@.map_values(|l: String| l@) == lines(s@),
{
    let chars = chars_of(s);
    let n: usize = chars.len();
    let mut out: Vec<String> = Vec::new();
    let mut from: usize = 0;
    assert(out@.map_values(|l: String| l@) =~= Seq::<Seq<char>>::empty());
    while from < n
        invariant
            chars@ == s@,
            n == chars@.len(),
            from <= n,
            lines(s@) == out@.map_values(|l: String| l@) + lines_from(s@, from as int),
        decreases n - from,
    {
        let mut end: usize = from;
        while end < n && chars[end] != '\n'
            invariant
                chars@ == s@,
                n == chars@.len(),
                from <= end <= n,
                line_end(s@, from as int) == line_end(s@, end as int),
            decreases n - end,
        {
            end += 1;
        }
        let text = if from < end && end < n && chars[end - 1] == '\r' {
            text_of(&chars, from, end - 1)
        } else {
            text_of(&chars, from, end)
        };
        let ghost before = out@;
        out.push(text);
        proof {
            assert(out@.map_values(|l: String| l@) =~= before.map_values(|l: String| l@).push(
                text@,
            ));
            assert(lines_from(s@, from as int) == seq![text@] + lines_from(s@, end + 1));
            assert(lines(s@) =~= out@.map_values(|l: String| l@) + lines_from(s@, end + 1));
        }
        if end < n {
            from = end + 1;
        } else {
            assert(lines_from(s@, end + 1) =~= lines_from(s@, end as int));
            from = end;
        }
    }
    assert(lines(s@) =~= out@.map_values(|l: String| l@));
    out
}

/// The value of a decimal digit; `None` for any other character.
pub open spec fn digit_value(c: char) -> Option<nat> {
    if '0' <= c <= '9' {
        Some((c as u32 - '0' as u32) as nat)
    } else {
        None
    }
}

/// The number that a sequence of digits denotes; `None` if another character occurs.
pub open spec fn digits_value(s: Seq<char>) -> Option<nat>
    decreases s.len(),
{
    if s.len() == 0 {
        Some(0)
    } else {
        match (digits_value(s.drop_last()), digit_value(s.last())) {
            (Some(n), Some(d)) => Some(10 * n + d),
            _ => None,
        }
    }
}

/// The number that a text denotes: one or more decimal digits after at most one plus
/// sign, with a value that a `usize` holds.
pub open spec fn parsed(s: Seq<char>) -> Option<usize> {
    let body = if s.len() > 1 && s[0] == '+' {
        s.drop_first()
    } else {
        s
    };
    match digits_value(body) {
        Some(n) => if body.len() > 0 && n <= usize::MAX {
            Some(n as usize)
        } else {
            None
        },
        None => None,
    }
}

/// The digits of a numeral denote its number.
pub proof fn numerals_denote(n: nat)
    ensures
        decimal(n).len() > 0,
        digits_value(decimal(n)) == Some(n),
        digit_value(decimal(n)[0]) is Some,
    decreases n,
{
    reveal_with_fuel(digits_value, 2);
    if n >= 10 {
        numerals_denote(n / 10);
        assert(decimal(n).drop_last() =~= decimal(n / 10));
        assert(decimal(n).last() == digit(n % 10));
        assert(digit_value(digit(n % 10)) == Some(n % 10));
        assert(decimal(n)[0] == decimal(n / 10)[0]);
    } else {
        assert(decimal(n).drop_last() =~= Seq::<char>::empty());
        assert(decimal(n).last() == digit(n));
    }
}

/// A numeral is read as its number.
pub proof fn numerals_read_back(n: usize)
    ensures
        parsed(decimal(n as nat)) == Some(n),
{
    numerals_denote(n as nat);
}

/// A prefix that is no number, or too large a one, spoils the whole.
proof fn digits_value_grows(s: Seq<char>, n: int)
    requires
        0 <= n <= s.len(),
    ensures
        digits_value(s.take(n)) is None ==> digits_value(s) is None,
        digits_value(s) is Some ==> digits_value(s)->0 >= digits_value(s.take(n))->0,
    decreases s.len(),
{
    if n == s.len() {
        assert(s.take(n) =~= s);
    } else {
        assert(s.drop_last().take(n) =~= s.take(n));
        digits_value_grows(s.drop_last(), n);
    }
}

/// The number that a range of characters denotes, if it is all digits and fits.
pub fn parse_digits(chars: &Vec<char>, from: usize) -> (res: Option<usize>)
    requires
        from <= chars@.len(),
    ensures
        ({
            let v = digits_value(chars@.skip(from as int));
            res == if v is Some && v->0 <= usize::MAX {
                Some(v->0 as usize)
            } else {
                None
            }
        }),
{
    let ghost body = chars@.skip(from as int);
    let mut n: usize = 0;
    let mut i: usize = from;
    assert(body.take(0) =~= Seq::<char>::empty());
    while i < chars.len()
        invariant
            from <= i <= chars@.len(),
            body == chars@.skip(from as int),
            digits_value(body.take(i - from)) == Some(n as nat),
        decreases chars.len() - i,
    {
        let c = chars[i];
        let ghost upto = body.take(i - from + 1);
        proof {
            assert(upto.drop_last() =~= body.take(i - from));
            assert(upto.last() == c);
            digits_value_grows(body, i - from + 1);
        }
        if !('0' <= c && c <= '9') {
            return None;
        }
        let d: usize = (c as u32 - '0' as u32) as usize;
        let scaled = match n.checked_mul(10) {
            Some(m) => m,
            None => {
                return None;
            },
        };
        n = match scaled.checked_add(d) {
            Some(m) => m,
            None => {
                return None;
            },
        };
        i += 1;
    }
    assert(body.take(i - from) =~= body);
    Some(n)
}

/// Reads a text as a number.
pub fn parse_usize(s: &str) -> (res: Option<usize>)
    ensures
        res == parsed(s@),
{
    let chars = chars_of(s);
    if chars.len() == 0 {
        return None;
    }
    if chars.len() > 1 && chars[0] == '+' {
        assert(chars@.skip(1) =~= s@.drop_first());
        return parse_digits(&chars, 1);
    }
    assert(chars@.skip(0) =~= s@);
    parse_digits(&chars, 0)
}

/// Appends one decimal digit.
fn push_digit(s: &mut String, d: u64)
    requires
        d < 10,
    ensures
        final(s)@ == old(s)@.push(digit(d as nat)),
{
    proof {
        reveal_strlit("0");
        reveal_strlit("1");
        reveal_strlit("2");
        reveal_strlit("3");
        reveal_strlit("4");
        reveal_strlit("5");
        reveal_strlit("6");
        reveal_strlit("7");
        reveal_strlit("8");
        reveal_strlit("9");
    }
    let t: &str = match d {
        0 => "0",
        1 => "1",
        2 => "2",
        3 => "3",
        4 => "4",
        5 => "5",
        6 => "6",
        7 => "7",
        8 => "8",
        _ => "9",
    };
    assert(t@ =~= seq![digit(d as nat)]);
    s.append(t);
    assert(s@ =~= old(s)@.push(digit(d as nat)));
}

/// Appends the decimal numeral of `n`.
pub fn push_decimal(s: &mut String, n: u64)
    ensures
        final(s)@ == old(s)@ + decimal(n as nat),
    decreases n,
{
    if n >= 10 {
        push_decimal(s, n / 10);
    }
    push_digit(s, n % 10);
    assert(s@ =~= old(s)@ + decimal(n as nat));
}

/// Whether two strings hold the same characters.
pub fn same(a: &str, b: &str) -> (res: bool)
    ensures
        res == (a@ == b@),
{
    let x = a.to_owned();
    let y = b.to_owned();
    x == y
}

/// The characters of a string, in order.
pub fn chars_of(s: &str) -> (res: Vec<char>)
    ensures
        res@ == s@,
{
    let mut out: Vec<char> = Vec::new();
    for c in it: s.chars()
        invariant
            it.seq() == s@,
            out@ == s@.take(it.index() as int),
    {
        out.push(c);
        assert(out@ =~= s@.take(it.index() + 1));
    }
    assert(out@ =~= s@);
    out
}

/// Trimming drops white space at the start, all of it and nothing else.
pub proof fn trimming_drops_leading_space(s: Seq<char>)
    ensures
        trim_start(s).len() <= s.len(),
        trim_start(s) == s.skip(s.len() - trim_start(s).len()),
        blank(s.take(s.len() - trim_start(s).len())),
        trim_start(s).len() > 0 ==> !white_space(trim_start(s)[0]),
    decreases s.len(),
{
    if s.len() > 0 && white_space(s[0]) {
        let rest = s.drop_first();
        trimming_drops_leading_space(rest);
        let n = s.len() - trim_start(s).len();
        assert(trim_start(s) =~= s.skip(n));
        assert forall|i: int| 0 <= i < s.take(n).len() implies white_space(
            #[trigger] s.take(n)[i],
        ) by {
            if i > 0 {
                assert(rest.take(n - 1)[i - 1] == s[i]);
            }
        }
    } else {
        assert(s.skip(0) =~= s);
    }
}

/// A number is read from decimal digits alone, with at most a plus sign before them: one digit
/// more, behind, is ten times the number and that digit.
pub proof fn numbers_are_read_digit_by_digit(s: Seq<char>, c: char)
    ensures
        digits_value(seq![]) == Some(0nat),
        digits_value(s) is Some && '0' <= c <= '9' ==> digits_value(s.push(c)) == Some(
            (10 * digits_value(s)->0 + (c as u32 - '0' as u32)) as nat,
        ),
        !('0' <= c <= '9') ==> digits_value(s.push(c)) is None,
        digits_value(s) is None ==> digits_value(s.push(c)) is None,
        parsed(seq![]) is None,
        parsed(s) is Some && s[0] != '+' ==> digits_value(s) == Some(parsed(s)->0 as nat),
        parsed(s) is Some && s[0] == '+' ==> digits_value(s.drop_first()) == Some(
            parsed(s)->0 as nat,
        ),
{
    assert(s.push(c).drop_last() =~= s);
    assert(s.push(c).last() == c);
    if parsed(s) is Some && s[0] == '+' && s.len() == 1 {
        assert(digit_value('+') is None);
        assert(s.last() == '+');
    }
}

} // verus!
