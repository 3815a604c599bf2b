//! What holds of texts: how they are cut, trimmed and read as numbers.
use crate::text;
use vstd::prelude::*;

verus! {

/// White space is what Unicode calls so.
pub proof fn law_white_space(c: char)
    ensures
        text::is_white(c) <==> {
            ||| '\u{9}' <= c <= '\u{d}'
            ||| c == ' '
            ||| c == '\u{85}'
            ||| c == '\u{a0}'
            ||| c == '\u{1680}'
            ||| '\u{2000}' <= c <= '\u{200a}'
            ||| c == '\u{2028}'
            ||| c == '\u{2029}'
            ||| c == '\u{202f}'
            ||| c == '\u{205f}'
            ||| c == '\u{3000}'
        },
{
}

/// Trimming takes all the white space off both ends, and nothing else: what is left is a part of
/// the text, with white space alone before and behind it, and none at its own ends.
pub proof fn law_trimming_takes_white_space_off_both_ends(s: Seq<char>) -> (r: (int, int))
    ensures
        0 <= r.0 <= r.1 <= s.len(),
        text::trimmed(s) == s.subrange(r.0, r.1),
        forall|i: int| 0 <= i < r.0 || r.1 <= i < s.len() ==> text::is_white(#[trigger] s[i]),
        r.0 < r.1 ==> !text::is_white(s[r.0]) && !text::is_white(s[r.1 - 1]),
{
    let i = lemma_trim_start(s);
    let t = text::trim_start(s);
    let j = lemma_trim_end(t);
    let n = i + j;
    assert(t == s.skip(i));
    assert(text::trimmed(s) =~= s.subrange(i, n));
    assert forall|k: int| 0 <= k < i || n <= k < s.len() implies text::is_white(#[trigger] s[k]) by {
        if n <= k {
            assert(s[k] == t[k - i]);
        }
    }
    if i < n {
        assert(t[0] == s[i]);
        assert(t[j - 1] == s[n - 1]);
    }
    (i, n)
}

/// What is trimmed has nothing left to trim.
pub proof fn law_trimming_again_changes_nothing(s: Seq<char>)
    ensures
        text::trimmed(text::trimmed(s)) == text::trimmed(s),
{
    let (i, j) = law_trimming_takes_white_space_off_both_ends(s);
    let t = text::trimmed(s);
    if i < j {
        assert(t[0] == s[i]);
        assert(t.last() == s[j - 1]);
    }
}

proof fn lemma_trim_start(s: Seq<char>) -> (i: int)
    ensures
        0 <= i <= s.len(),
        text::trim_start(s) == s.skip(i),
        forall|k: int| 0 <= k < i ==> text::is_white(#[trigger] s[k]),
        i < s.len() ==> !text::is_white(s[i]),
    decreases s.len(),
{
    if s.len() > 0 && text::is_white(s[0]) {
        let j = lemma_trim_start(s.skip(1));
        assert(s.skip(1).skip(j) =~= s.skip(j + 1));
        assert forall|k: int| 0 <= k < j + 1 implies text::is_white(#[trigger] s[k]) by {
            if k > 0 {
                assert(s[k] == s.skip(1)[k - 1]);
            }
        }
        j + 1
    } else {
        assert(s.skip(0) =~= s);
        0
    }
}

proof fn lemma_trim_end(s: Seq<char>) -> (j: int)
    ensures
        0 <= j <= s.len(),
        text::trim_end(s) == s.take(j),
        forall|k: int| j <= k < s.len() ==> text::is_white(#[trigger] s[k]),
        j > 0 ==> !text::is_white(s[j - 1]),
    decreases s.len(),
{
    if s.len() > 0 && text::is_white(s.last()) {
        let j = lemma_trim_end(s.drop_last());
        assert(s.drop_last().take(j) =~= s.take(j));
        assert forall|k: int| j <= k < s.len() implies text::is_white(#[trigger] s[k]) by {
            if k < s.len() - 1 {
                assert(s[k] == s.drop_last()[k]);
            }
        }
        j
    } else {
        assert(s.take(s.len() as int) =~= s);
        s.len() as int
    }
}

/// A text is cut at the first separator, where it has one.
pub proof fn law_cutting_at_the_first(s: Seq<char>, c: char, a: Seq<char>, b: Seq<char>)
    ensures
        text::split_once(s, c) == Some((a, b)) <==> s == a + seq![c] + b && !a.contains(c),
        text::split_once(s, c) is None <==> !s.contains(c),
{
    text::lemma_first(s, c);
    let i = text::first(s, c);
    if i < s.len() {
        assert(s =~= s.take(i) + seq![c] + s.skip(i + 1));
        assert(s.contains(c));
        assert(!s.take(i).contains(c));
    }
    if s == a + seq![c] + b && !a.contains(c) {
        let n = a.len() as int;
        assert(s[n] == c);
        assert forall|j: int| 0 <= j < n implies s[j] != c by {
            assert(s[j] == a[j]);
        }
        text::lemma_first_unique(s, c, n);
        assert(s.take(n) =~= a);
        assert(s.skip(n + 1) =~= b);
    }
}

/// A text is cut at the last separator, where it has one.
pub proof fn law_cutting_at_the_last(s: Seq<char>, c: char, a: Seq<char>, b: Seq<char>)
    ensures
        text::rsplit_once(s, c) == Some((a, b)) <==> s == a + seq![c] + b && !b.contains(c),
        text::rsplit_once(s, c) is None <==> !s.contains(c),
{
    text::lemma_last(s, c);
    let i = text::last(s, c);
    if i >= 0 {
        assert(s =~= s.take(i) + seq![c] + s.skip(i + 1));
        assert(s.contains(c));
        assert(!s.skip(i + 1).contains(c)) by {
            if s.skip(i + 1).contains(c) {
                let k = s.skip(i + 1).index_of(c);
                assert(s[i + 1 + k] == c);
            }
        }
    }
    if s == a + seq![c] + b && !b.contains(c) {
        let n = a.len() as int;
        assert(s[n] == c);
        assert forall|j: int| n < j < s.len() implies s[j] != c by {
            assert(s[j] == b[j - n - 1]);
        }
        text::lemma_last_unique(s, c, n);
        assert(s.take(n) =~= a);
        assert(s.skip(n + 1) =~= b);
    }
}

/// Texts with a separator between each two.
pub open spec fn joined(parts: Seq<Seq<char>>, c: char) -> Seq<char>
    decreases parts.len(),
{
    if parts.len() == 0 {
        Seq::empty()
    } else if parts.len() == 1 {
        parts[0]
    } else {
        parts[0] + seq![c] + joined(parts.skip(1), c)
    }
}

/// The parts of a text are what stands between its separators: no part holds one, and with
/// separators between them they make the text.
pub proof fn law_parts_make_the_text(s: Seq<char>, c: char)
    ensures
        text::split(s, c).len() > 0,
        joined(text::split(s, c), c) == s,
        forall|i: int|
            0 <= i < text::split(s, c).len() ==> !(#[trigger] text::split(s, c)[i]).contains(c),
    decreases s.len(),
{
    text::lemma_first(s, c);
    let i = text::first(s, c);
    let parts = text::split(s, c);
    if i < s.len() {
        let rest = text::split(s.skip(i + 1), c);
        law_parts_make_the_text(s.skip(i + 1), c);
        assert(parts =~= seq![s.take(i)] + rest);
        assert(parts.skip(1) =~= rest);
        assert(s =~= s.take(i) + seq![c] + s.skip(i + 1));
        assert forall|k: int| 0 <= k < parts.len() implies !(#[trigger] parts[k]).contains(c) by {
            if k > 0 {
                assert(parts[k] == rest[k - 1]);
            } else {
                assert(!s.take(i).contains(c));
            }
        }
    } else {
        assert(parts =~= seq![s]);
        assert(!s.contains(c));
    }
}

/// What follows a prefix is what makes the text with it.
pub proof fn law_a_prefix_is_taken_off(s: Seq<char>, prefix: Seq<char>, rest: Seq<char>)
    ensures
        text::strip_prefix(s, prefix) == Some(rest) <==> s == prefix + rest,
{
    if text::strip_prefix(s, prefix) == Some(rest) {
        assert(s =~= prefix + rest);
    }
    if s == prefix + rest {
        assert(s.take(prefix.len() as int) =~= prefix);
        assert(s.skip(prefix.len() as int) =~= rest);
    }
}

/// A text without a line feed is a line; before a line feed stands a line, without the carriage
/// return at its end; and the lines behind it follow.
pub proof fn law_lines(line: Seq<char>, rest: Seq<char>)
    requires
        !line.contains('\n'),
    ensures
        text::lines_of(Seq::empty()) == Seq::<Seq<char>>::empty(),
        line.len() > 0 ==> text::lines_of(line) == seq![line],
        line.len() > 0 && line.last() == '\r' ==> text::lines_of(line + seq!['\n'] + rest) == seq![
            line.drop_last(),
        ] + text::lines_of(rest),
        line.len() == 0 || line.last() != '\r' ==> text::lines_of(line + seq!['\n'] + rest)
            == seq![line] + text::lines_of(rest),
{
    text::lemma_first_unique(line, '\n', line.len() as int);
    let s = line + seq!['\n'] + rest;
    let n = line.len() as int;
    assert forall|j: int| 0 <= j < n implies s[j] != '\n' by {
        assert(s[j] == line[j]);
    }
    text::lemma_first_unique(s, '\n', n);
    assert(s.take(n) =~= line);
    assert(s.skip(n + 1) =~= rest);
}

/// The case of ASCII letters is lowered, and nothing else changes.
pub proof fn law_lowering(s: Seq<char>)
    ensures
        text::lowered(s).len() == s.len(),
        forall|i: int|
            0 <= i < s.len() ==> (#[trigger] text::lowered(s)[i]) as int == (if 'A' <= s[i] <= 'Z' {
                s[i] as int + 32
            } else {
                s[i] as int
            }),
{
}

/// The digits of a number stand for it, the most significant first and none of them in vain.
pub proof fn law_decimal_numbers(n: nat, digits: Seq<char>, c: char)
    requires
        '0' <= c <= '9',
    ensures
        text::digits_value(Seq::empty()) == 0,
        text::digits_value(digits.push(c)) == 10 * text::digits_value(digits) + (c as u32
            - '0' as u32),
        text::digits_value(text::decimal(n)) == n,
        text::decimal(n).len() > 0,
        text::decimal(n).len() > 1 ==> text::decimal(n)[0] != '0',
        forall|i: int|
            0 <= i < text::decimal(n).len() ==> '0' <= (#[trigger] text::decimal(n)[i]) <= '9',
{
    text::lemma_decimal_round_trip(n);
    assert(digits.push(c).drop_last() =~= digits);
    assert forall|i: int| 0 <= i < text::decimal(n).len() implies '0' <= (
    #[trigger] text::decimal(n)[i]) <= '9' by {
        assert(text::is_digit(text::decimal(n)[i]));
    }
    lemma_no_leading_zero(n);
}

proof fn lemma_no_leading_zero(n: nat)
    ensures
        text::decimal(n).len() > 0,
        n > 0 ==> text::decimal(n)[0] != '0',
        n < 10 ==> text::decimal(n).len() == 1,
    decreases n,
{
    if n >= 10 {
        lemma_no_leading_zero(n / 10);
        assert(text::decimal(n)[0] == text::decimal(n / 10)[0]);
    }
}

/// A number is read where it is not too large, also with a plus before it; other texts are none.
pub proof fn law_reading_numbers(s: Seq<char>, n: nat, max: nat)
    ensures
        text::parse_unsigned(text::decimal(n), max) == (if n <= max {
            Some(n)
        } else {
            None
        }),
        text::parse_unsigned(seq!['+'] + text::decimal(n), max) == (if n <= max {
            Some(n)
        } else {
            None
        }),
        text::parse_digits(text::decimal(n), max) == (if n <= max {
            Some(n)
        } else {
            None
        }),
        text::parse_unsigned(Seq::empty(), max) is None,
        (exists|i: int| 0 < i < s.len() && !('0' <= #[trigger] s[i] <= '9'))
            ==> text::parse_unsigned(s, max) is None && text::parse_digits(s, max) is None,
{
    text::lemma_decimal_round_trip(n);
    assert(text::is_digit(text::decimal(n)[0]));
    let plus = seq!['+'] + text::decimal(n);
    assert(plus.skip(1) =~= text::decimal(n));
    if exists|i: int| 0 < i < s.len() && !('0' <= #[trigger] s[i] <= '9') {
        let i = choose|i: int| 0 < i < s.len() && !('0' <= #[trigger] s[i] <= '9');
        assert(!text::is_digit(s[i]));
        assert(s.skip(1)[i - 1] == s[i]);
    }
}

} // verus!
