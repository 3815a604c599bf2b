//! Text as sequences of Unicode scalar values: searching, splitting, trimming, and decimal
//! numbers.
use vstd::prelude::*;
use vstd::slice::slice_subrange;
use vstd::string::{StrSliceExecFns, StringExecFns};

verus! {

broadcast use vstd::string::group_string_axioms;

/// `String::push` appends one character.
pub assume_specification[ String::push ](s: &mut String, c: char)
    ensures
        final(s)@ == old(s)@.push(c),
;

// ---------------------------------------------------------------------------------------------
// Conversions and comparison
// ---------------------------------------------------------------------------------------------

/// An optional string, by its contents.
pub open spec fn optional(s: Option<String>) -> Option<Seq<char>> {
    match s {
        Some(s) => Some(s@),
        None => None,
    }
}

/// The characters of `s`.
pub fn chars_of(s: &str) -> (r: Vec<char>)
    ensures
        r@ == s@,
{
    let mut out: Vec<char> = Vec::new();
    for c in it: s.chars()
        invariant
            it.seq() == s@,
            out@ == s@.take(it.index() as int),
    {
        out.push(c);
        assert(s@.take(it.index() as int + 1) =~= s@.take(it.index() as int).push(c));
    }
    assert(s@.take(s@.len() as int) =~= s@);
    out
}

/// The string made of `chars`.
pub fn string_of(chars: &[char]) -> (r: String)
    ensures
        r@ == chars@,
{
    let mut out = String::new();
    let mut i: usize = 0;
    while i < chars.len()
        invariant
            i <= chars@.len(),
            out@ == chars@.take(i as int),
        decreases chars.len() - i,
    {
        out.push(chars[i]);
        assert(chars@.take(i as int + 1) =~= chars@.take(i as int).push(chars@[i as int]));
        i += 1;
    }
    assert(chars@.take(chars@.len() as int) =~= chars@);
    out
}

/// Whether two character slices are equal.
pub fn chars_eq(a: &[char], b: &[char]) -> (r: bool)
    ensures
        r == (a@ == b@),
{
    if a.len() != b.len() {
        return false;
    }
    let mut i: usize = 0;
    while i < a.len()
        invariant
            i <= a@.len(),
            a@.len() == b@.len(),
            forall|j: int| 0 <= j < i ==> a@[j] == b@[j],
        decreases a.len() - i,
    {
        if a[i] != b[i] {
            return false;
        }
        i += 1;
    }
    assert(a@ =~= b@);
    true
}

/// Whether two byte slices are equal.
pub fn bytes_eq(a: &[u8], b: &[u8]) -> (r: bool)
    ensures
        r == (a@ == b@),
{
    if a.len() != b.len() {
        return false;
    }
    let mut i: usize = 0;
    while i < a.len()
        invariant
            i <= a@.len(),
            a@.len() == b@.len(),
            forall|j: int| 0 <= j < i ==> a@[j] == b@[j],
        decreases a.len() - i,
    {
        if a[i] != b[i] {
            return false;
        }
        i += 1;
    }
    assert(a@ =~= b@);
    true
}

/// Whether two strings are equal.
pub fn str_eq(a: &str, b: &str) -> (r: bool)
    ensures
        r == (a@ == b@),
{
    chars_eq(chars_of(a).as_slice(), chars_of(b).as_slice())
}

/// The lower case of an ASCII letter; any other character is unchanged.
pub open spec fn ascii_lower(c: char) -> char {
    if 'A' <= c <= 'Z' {
        ((c as u32 + 32) as u32) as char
    } else {
        c
    }
}

/// `s` with its ASCII letters in lower case.
pub open spec fn lowered(s: Seq<char>) -> Seq<char> {
    s.map_values(|c: char| ascii_lower(c))
}

/// The lower case of an ASCII letter.
pub fn to_ascii_lower(c: char) -> (r: char)
    ensures
        r == ascii_lower(c),
{
    if 'A' <= c && c <= 'Z' {
        let b: u8 = c as u8;
        (b + 32) as char
    } else {
        c
    }
}

/// `s` with its ASCII letters in lower case.
pub fn lower(s: &str) -> (r: String)
    ensures
        r@ == lowered(s@),
{
    let chars = chars_of(s);
    let mut out: Vec<char> = Vec::new();
    let mut i: usize = 0;
    while i < chars.len()
        invariant
            i <= chars@.len(),
            chars@ == s@,
            out@ == lowered(chars@.take(i as int)),
        decreases chars.len() - i,
    {
        out.push(to_ascii_lower(chars[i]));
        assert(out@ =~= lowered(chars@.take(i as int + 1)));
        i += 1;
    }
    assert(chars@.take(chars@.len() as int) =~= chars@);
    string_of(out.as_slice())
}

/// Whether two strings are equal when the case of ASCII letters is ignored.
pub fn eq_ignore_ascii_case(a: &str, b: &str) -> (r: bool)
    ensures
        r == (lowered(a@) == lowered(b@)),
{
    let la = lower(a);
    let lb = lower(b);
    str_eq(la.as_str(), lb.as_str())
}

// ---------------------------------------------------------------------------------------------
// Searching and splitting
// ---------------------------------------------------------------------------------------------

/// The position of the first `c` in `s`, or the length of `s` when there is none.
pub open spec fn first(s: Seq<char>, c: char) -> int
    decreases s.len(),
{
    if s.len() == 0 {
        0
    } else if s[0] == c {
        0
    } else {
        1 + first(s.skip(1), c)
    }
}

/// The position of the last `c` in `s`, or -1 when there is none.
pub open spec fn last(s: Seq<char>, c: char) -> int
    decreases s.len(),
{
    if s.len() == 0 {
        -1
    } else if s.last() == c {
        s.len() - 1
    } else {
        last(s.drop_last(), c)
    }
}

/// What is before and after the first `c`.
pub open spec fn split_once(s: Seq<char>, c: char) -> Option<(Seq<char>, Seq<char>)> {
    let i = first(s, c);
    if i < s.len() {
        Some((s.take(i), s.skip(i + 1)))
    } else {
        None
    }
}

/// What is before and after the last `c`.
pub open spec fn rsplit_once(s: Seq<char>, c: char) -> Option<(Seq<char>, Seq<char>)> {
    let i = last(s, c);
    if i >= 0 {
        Some((s.take(i), s.skip(i + 1)))
    } else {
        None
    }
}

/// The parts of `s` between the separators `c`.
pub open spec fn split(s: Seq<char>, c: char) -> Seq<Seq<char>>
    decreases s.len(),
    via split_decreases
{
    let i = first(s, c);
    if i < s.len() {
        seq![s.take(i)] + split(s.skip(i + 1), c)
    } else {
        seq![s]
    }
}

#[via_fn]
proof fn split_decreases(s: Seq<char>, c: char) {
    lemma_first(s, c);
}

/// What follows `prefix` in `s`.
pub open spec fn strip_prefix(s: Seq<char>, prefix: Seq<char>) -> Option<Seq<char>> {
    if prefix.len() <= s.len() && s.take(prefix.len() as int) == prefix {
        Some(s.skip(prefix.len() as int))
    } else {
        None
    }
}

/// `first` is where `c` occurs first.
pub proof fn lemma_first(s: Seq<char>, c: char)
    ensures
        0 <= first(s, c) <= s.len(),
        first(s, c) < s.len() ==> s[first(s, c)] == c,
        forall|j: int| 0 <= j < first(s, c) ==> s[j] != c,
    decreases s.len(),
{
    if s.len() > 0 && s[0] != c {
        lemma_first(s.skip(1), c);
        assert forall|j: int| 0 <= j < first(s, c) implies s[j] != c by {
            if j > 0 {
                assert(s[j] == s.skip(1)[j - 1]);
            }
        }
    }
}

/// A position that no `c` precedes, and that holds `c` unless it is the end, is `first`.
pub proof fn lemma_first_unique(s: Seq<char>, c: char, i: int)
    requires
        0 <= i <= s.len(),
        i < s.len() ==> s[i] == c,
        forall|j: int| 0 <= j < i ==> s[j] != c,
    ensures
        first(s, c) == i,
{
    lemma_first(s, c);
}

/// `last` is where `c` occurs last.
pub proof fn lemma_last(s: Seq<char>, c: char)
    ensures
        -1 <= last(s, c) < s.len(),
        last(s, c) >= 0 ==> s[last(s, c)] == c,
        forall|j: int| last(s, c) < j < s.len() ==> s[j] != c,
    decreases s.len(),
{
    if s.len() > 0 && s.last() != c {
        lemma_last(s.drop_last(), c);
        assert forall|j: int| last(s, c) < j < s.len() implies s[j] != c by {
            if j < s.len() - 1 {
                assert(s[j] == s.drop_last()[j]);
            }
        }
    }
}

/// A position that no `c` follows, and that holds `c` unless it is -1, is `last`.
pub proof fn lemma_last_unique(s: Seq<char>, c: char, i: int)
    requires
        -1 <= i < s.len(),
        i >= 0 ==> s[i] == c,
        forall|j: int| i < j < s.len() ==> s[j] != c,
    ensures
        last(s, c) == i,
{
    lemma_last(s, c);
}

/// The position of the first `c`, or the length.
pub fn find(s: &[char], c: char) -> (r: usize)
    ensures
        r == first(s@, c),
        r <= s@.len(),
{
    let mut i: usize = 0;
    while i < s.len()
        invariant
            i <= s@.len(),
            forall|j: int| 0 <= j < i ==> s@[j] != c,
        decreases s.len() - i,
    {
        if s[i] == c {
            proof {
                lemma_first_unique(s@, c, i as int);
            }
            return i;
        }
        i += 1;
    }
    proof {
        lemma_first_unique(s@, c, s@.len() as int);
    }
    i
}

/// The position of the first `a` that `b` follows in `s`, or the length of `s` when there is none.
pub open spec fn first_pair(s: Seq<char>, a: char, b: char) -> int
    decreases s.len(),
{
    if s.len() == 0 {
        0
    } else if s.len() >= 2 && s[0] == a && s[1] == b {
        0
    } else {
        1 + first_pair(s.skip(1), a, b)
    }
}

/// Where the first `a` with a `b` after it is, and that there is none before it.
pub proof fn lemma_first_pair(s: Seq<char>, a: char, b: char)
    ensures
        0 <= first_pair(s, a, b) <= s.len(),
        first_pair(s, a, b) < s.len() ==> first_pair(s, a, b) + 2 <= s.len() && s[first_pair(s, a, b)] == a
            && s[first_pair(s, a, b) + 1] == b,
        forall|j: int|
            0 <= j < first_pair(s, a, b) && j + 1 < s.len() ==> !((#[trigger] s[j]) == a && s[j + 1]
                == b),
    decreases s.len(),
{
    if s.len() > 0 && !(s.len() >= 2 && s[0] == a && s[1] == b) {
        let t = s.skip(1);
        lemma_first_pair(t, a, b);
        assert forall|j: int| 0 <= j < first_pair(s, a, b) && j + 1 < s.len() implies !((
        #[trigger] s[j]) == a && s[j + 1] == b) by {
            if j > 0 {
                assert(s[j] == t[j - 1] && s[j + 1] == t[j]);
            }
        }
    }
}

/// Where the first `a` with a `b` after it is, from what stands before it.
pub proof fn lemma_first_pair_unique(s: Seq<char>, a: char, b: char, i: int)
    requires
        0 <= i <= s.len(),
        i < s.len() ==> i + 2 <= s.len() && s[i] == a && s[i + 1] == b,
        forall|j: int|
            0 <= j < i && j + 1 < s.len() ==> !((#[trigger] s[j]) == a && s[j + 1] == b),
    ensures
        first_pair(s, a, b) == i,
{
    lemma_first_pair(s, a, b);
    let k = first_pair(s, a, b);
    if k < i {
        assert(s[k] == a);
    } else if i < k {
        assert(s[i] == a);
    }
}

/// The position of the first `a` with a `b` after it, or the length.
pub fn find_pair(s: &[char], a: char, b: char) -> (r: usize)
    ensures
        r == first_pair(s@, a, b),
{
    let mut i: usize = 0;
    while i < s.len()
        invariant
            i <= s@.len(),
            forall|j: int|
                0 <= j < i && j + 1 < s@.len() ==> !((#[trigger] s@[j]) == a && s@[j + 1] == b),
        decreases s.len() - i,
    {
        if s.len() - i >= 2 && s[i] == a && s[i + 1] == b {
            proof {
                lemma_first_pair_unique(s@, a, b, i as int);
            }
            return i;
        }
        i += 1;
    }
    proof {
        lemma_first_pair_unique(s@, a, b, s@.len() as int);
    }
    i
}

/// The position of the last `c`, if any.
pub fn rfind(s: &[char], c: char) -> (r: Option<usize>)
    ensures
        match r {
            Some(i) => i == last(s@, c) && i < s@.len(),
            None => last(s@, c) < 0,
        },
{
    let mut i: usize = s.len();
    while i > 0
        invariant
            i <= s@.len(),
            forall|j: int| i <= j < s@.len() ==> s@[j] != c,
        decreases i,
    {
        i -= 1;
        if s[i] == c {
            proof {
                lemma_last_unique(s@, c, i as int);
            }
            return Some(i);
        }
    }
    proof {
        lemma_last_unique(s@, c, -1);
    }
    None
}

/// What follows `prefix` in `s`.
pub fn after_prefix<'a>(s: &'a [char], prefix: &str) -> (r: Option<&'a [char]>)
    ensures
        match r {
            Some(rest) => strip_prefix(s@, prefix@) == Some(rest@),
            None => strip_prefix(s@, prefix@) is None,
        },
{
    let p = chars_of(prefix);
    let n = p.len();
    if n <= s.len() && chars_eq(slice_subrange(s, 0, n), p.as_slice()) {
        assert(s@.subrange(0, n as int) =~= s@.take(n as int));
        assert(s@.subrange(n as int, s@.len() as int) =~= s@.skip(n as int));
        Some(slice_subrange(s, n, s.len()))
    } else {
        assert(n <= s@.len() ==> s@.subrange(0, n as int) =~= s@.take(n as int));
        None
    }
}

// ---------------------------------------------------------------------------------------------
// Trimming and lines
// ---------------------------------------------------------------------------------------------

/// The Unicode `White_Space` property.
pub open spec fn is_white(c: char) -> bool {
    let v = c as u32;
    ||| 0x09 <= v <= 0x0d
    ||| v == 0x20
    ||| v == 0x85
    ||| v == 0xa0
    ||| v == 0x1680
    ||| 0x2000 <= v <= 0x200a
    ||| v == 0x2028
    ||| v == 0x2029
    ||| v == 0x202f
    ||| v == 0x205f
    ||| v == 0x3000
}

/// `s` without the white space at its start.
pub open spec fn trim_start(s: Seq<char>) -> Seq<char>
    decreases s.len(),
{
    if s.len() > 0 && is_white(s[0]) {
        trim_start(s.skip(1))
    } else {
        s
    }
}

/// `s` without the white space at its end.
pub open spec fn trim_end(s: Seq<char>) -> Seq<char>
    decreases s.len(),
{
    if s.len() > 0 && is_white(s.last()) {
        trim_end(s.drop_last())
    } else {
        s
    }
}

/// `s` without the white space at both ends.
pub open spec fn trimmed(s: Seq<char>) -> Seq<char> {
    trim_end(trim_start(s))
}

/// Whether `c` is white space.
pub fn white(c: char) -> (r: bool)
    ensures
        r == is_white(c),
{
    let v: u32 = c as u32;
    (0x09 <= v && v <= 0x0d) || v == 0x20 || v == 0x85 || v == 0xa0 || v == 0x1680 || (0x2000 <= v
        && v <= 0x200a) || v == 0x2028 || v == 0x2029 || v == 0x202f || v == 0x205f || v == 0x3000
}

/// `s` without the white space at both ends.
pub fn trim(s: &[char]) -> (r: &[char])
    ensures
        r@ == trimmed(s@),
{
    let mut i: usize = 0;
    assert(s@.skip(0) =~= s@);
    while i < s.len() && white(s[i])
        invariant
            i <= s@.len(),
            trim_start(s@) == trim_start(s@.skip(i as int)),
        decreases s.len() - i,
    {
        assert(s@.skip(i as int).skip(1) =~= s@.skip(i as int + 1));
        i += 1;
    }
    let ghost t = s@.skip(i as int);
    assert(trim_start(s@) == t);
    let mut j: usize = s.len();
    assert(t =~= s@.subrange(i as int, j as int));
    while j > i && white(s[j - 1])
        invariant
            i <= j <= s@.len(),
            trim_end(t) == trim_end(s@.subrange(i as int, j as int)),
        decreases j,
    {
        assert(s@.subrange(i as int, j as int).drop_last() =~= s@.subrange(i as int, j - 1));
        j -= 1;
    }
    slice_subrange(s, i, j)
}

/// A line without the `\r` that ended it.
pub open spec fn chomp(s: Seq<char>) -> Seq<char> {
    if s.len() > 0 && s.last() == '\r' {
        s.drop_last()
    } else {
        s
    }
}

/// The lines of `s`, which end with `\n` or `\r\n`; the last line need not.
pub open spec fn lines_of(s: Seq<char>) -> Seq<Seq<char>>
    decreases s.len(),
    via lines_of_decreases
{
    let i = first(s, '\n');
    if s.len() == 0 {
        seq![]
    } else if i < s.len() {
        seq![chomp(s.take(i))] + lines_of(s.skip(i + 1))
    } else {
        seq![s]
    }
}

#[via_fn]
proof fn lines_of_decreases(s: Seq<char>) {
    lemma_first(s, '\n');
}

/// No line is longer than the text.
pub proof fn lemma_lines_len(s: Seq<char>)
    ensures
        forall|i: int| 0 <= i < lines_of(s).len() ==> (#[trigger] lines_of(s)[i]).len() <= s.len(),
    decreases s.len(),
{
    let n = first(s, '\n');
    lemma_first(s, '\n');
    if s.len() > 0 && n < s.len() {
        let rest = lines_of(s.skip(n + 1));
        lemma_lines_len(s.skip(n + 1));
        assert forall|i: int| 0 <= i < lines_of(s).len() implies (#[trigger] lines_of(s)[i]).len()
            <= s.len() by {
            if i > 0 {
                assert(lines_of(s)[i] == rest[i - 1]);
            }
        }
    }
}

/// Trimming makes no text longer.
pub proof fn lemma_trimmed_len(s: Seq<char>)
    ensures
        trimmed(s).len() <= s.len(),
{
    lemma_trim_start_len(s);
    lemma_trim_end_len(trim_start(s));
}

proof fn lemma_trim_start_len(s: Seq<char>)
    ensures
        trim_start(s).len() <= s.len(),
    decreases s.len(),
{
    if s.len() > 0 && is_white(s[0]) {
        lemma_trim_start_len(s.skip(1));
    }
}

proof fn lemma_trim_end_len(s: Seq<char>)
    ensures
        trim_end(s).len() <= s.len(),
    decreases s.len(),
{
    if s.len() > 0 && is_white(s.last()) {
        lemma_trim_end_len(s.drop_last());
    }
}

/// The contents of a vector of character vectors.
pub open spec fn texts(v: Seq<Vec<char>>) -> Seq<Seq<char>> {
    v.map_values(|t: Vec<char>| t@)
}

/// The contents of a vector of strings.
pub open spec fn strings(v: Seq<String>) -> Seq<Seq<char>> {
    v.map_values(|t: String| t@)
}

/// The lines of `s`.
pub fn lines(s: &[char]) -> (r: Vec<Vec<char>>)
    ensures
        texts(r@) == lines_of(s@),
{
    let mut out: Vec<Vec<char>> = Vec::new();
    let mut start: usize = 0;
    assert(s@.skip(0) =~= s@);
    assert(texts(out@) + lines_of(s@) =~= lines_of(s@));
    while start < s.len()
        invariant
            start <= s@.len(),
            texts(out@) + lines_of(s@.skip(start as int)) == lines_of(s@),
        decreases s.len() - start,
    {
        let ghost rest = s@.skip(start as int);
        let ghost before = out@;
        let tail = slice_subrange(s, start, s.len());
        assert(tail@ =~= rest);
        let i = find(tail, '\n');
        if i < tail.len() {
            let mut end: usize = start + i;
            if end > start && s[end - 1] == '\r' {
                end -= 1;
            }
            let line = vstd::slice::slice_to_vec(slice_subrange(s, start, end));
            assert(line@ =~= chomp(rest.take(i as int)));
            out.push(line);
            assert(rest.skip(i as int + 1) =~= s@.skip(start + i + 1));
            assert(texts(out@) =~= texts(before).push(line@));
            assert(texts(out@) + lines_of(s@.skip(start + i + 1)) =~= texts(before) + lines_of(
                rest,
            ));
            start = start + i + 1;
        } else {
            let line = vstd::slice::slice_to_vec(tail);
            out.push(line);
            assert(texts(out@) =~= texts(before).push(line@));
            assert(s@.skip(s@.len() as int) =~= Seq::<char>::empty());
            assert(texts(out@) + lines_of(Seq::<char>::empty()) =~= texts(before) + lines_of(rest));
            start = s.len();
        }
    }
    assert(s@.skip(start as int) =~= Seq::<char>::empty());
    assert(texts(out@) + lines_of(Seq::<char>::empty()) =~= texts(out@));
    out
}

/// The parts of `s` between the separators `c`.
pub fn split_chars(s: &[char], c: char) -> (r: Vec<Vec<char>>)
    ensures
        texts(r@) == split(s@, c),
{
    let mut out: Vec<Vec<char>> = Vec::new();
    let mut start: usize = 0;
    assert(s@.skip(0) =~= s@);
    assert(texts(out@) + split(s@, c) =~= split(s@, c));
    loop
        invariant
            start <= s@.len(),
            texts(out@) + split(s@.skip(start as int), c) == split(s@, c),
        decreases s.len() - start,
    {
        let ghost rest = s@.skip(start as int);
        let ghost before = out@;
        let tail = slice_subrange(s, start, s.len());
        assert(tail@ =~= rest);
        let i = find(tail, c);
        let part = vstd::slice::slice_to_vec(slice_subrange(tail, 0, i));
        assert(part@ =~= rest.take(i as int));
        out.push(part);
        assert(texts(out@) =~= texts(before).push(part@));
        if i < tail.len() {
            assert(rest.skip(i as int + 1) =~= s@.skip(start + i + 1));
            assert(texts(out@) + split(s@.skip(start + i + 1), c) =~= texts(before) + split(
                rest,
                c,
            ));
            start = start + i + 1;
        } else {
            assert(rest.take(i as int) =~= rest);
            assert(texts(out@) =~= texts(before) + split(rest, c));
            return out;
        }
    }
}

// ---------------------------------------------------------------------------------------------
// Decimal numbers
// ---------------------------------------------------------------------------------------------

/// Whether `c` is a decimal digit.
pub open spec fn is_digit(c: char) -> bool {
    '0' <= c <= '9'
}

/// Whether every character of `s` is a decimal digit.
pub open spec fn all_digits(s: Seq<char>) -> bool {
    forall|i: int| 0 <= i < s.len() ==> is_digit(#[trigger] s[i])
}

/// The number that a digit stands for.
pub open spec fn digit_value(c: char) -> nat {
    (c as u32 - '0' as u32) as nat
}

/// The number that a sequence of digits stands for.
pub open spec fn digits_value(s: Seq<char>) -> nat
    decreases s.len(),
{
    if s.len() == 0 {
        0
    } else {
        digits_value(s.drop_last()) * 10 + digit_value(s.last())
    }
}

/// The digit that stands for `n`.
pub open spec fn digit_char(n: nat) -> char {
    (('0' as u32 + n) as u32) as char
}

/// `n` in decimal, without leading zeros.
pub open spec fn decimal(n: nat) -> Seq<char>
    decreases n,
{
    if n < 10 {
        seq![digit_char(n)]
    } else {
        decimal(n / 10).push(digit_char(n % 10))
    }
}

/// A nonempty sequence of digits for a number of at most `max`.
pub open spec fn parse_digits(s: Seq<char>, max: nat) -> Option<nat> {
    if s.len() > 0 && all_digits(s) && digits_value(s) <= max {
        Some(digits_value(s))
    } else {
        None
    }
}

/// An unsigned number of at most `max`: digits, which a `+` may precede.
pub open spec fn parse_unsigned(s: Seq<char>, max: nat) -> Option<nat> {
    if s.len() > 0 && s[0] == '+' {
        parse_digits(s.skip(1), max)
    } else {
        parse_digits(s, max)
    }
}

/// More digits never make the number smaller.
proof fn lemma_digits_value_grows(s: Seq<char>, i: int)
    requires
        0 <= i <= s.len(),
    ensures
        digits_value(s.take(i)) <= digits_value(s),
    decreases s.len(),
{
    if i == s.len() {
        assert(s.take(i) =~= s);
    } else {
        lemma_digits_value_grows(s.drop_last(), i);
        assert(s.drop_last().take(i) =~= s.take(i));
    }
}

/// Reads digits for a number of at most `max`.
pub fn read_digits(s: &[char], max: u64) -> (r: Option<u64>)
    requires
        max <= 0xffff_ffff_ffff,
    ensures
        match r {
            Some(v) => parse_digits(s@, max as nat) == Some(v as nat),
            None => parse_digits(s@, max as nat) is None,
        },
{
    if s.len() == 0 {
        return None;
    }
    let mut value: u64 = 0;
    let mut i: usize = 0;
    while i < s.len()
        invariant
            i <= s@.len(),
            max <= 0xffff_ffff_ffff,
            value <= max,
            value as nat == digits_value(s@.take(i as int)),
            all_digits(s@.take(i as int)),
        decreases s.len() - i,
    {
        let c = s[i];
        if !('0' <= c && c <= '9') {
            assert(!is_digit(s@[i as int]));
            return None;
        }
        let d: u64 = (c as u32 - '0' as u32) as u64;
        proof {
            let t = s@.take(i as int + 1);
            assert(t.drop_last() =~= s@.take(i as int));
            assert(t.last() == c);
            assert forall|j: int| 0 <= j < t.len() implies is_digit(#[trigger] t[j]) by {
                if j < i {
                    assert(t[j] == s@.take(i as int)[j]);
                }
            }
        }
        value = value * 10 + d;
        if value > max {
            proof {
                lemma_digits_value_grows(s@, i as int + 1);
            }
            return None;
        }
        i += 1;
    }
    assert(s@.take(s@.len() as int) =~= s@);
    Some(value)
}

/// Reads an unsigned number of at most `max`.
pub fn read_unsigned(s: &[char], max: u64) -> (r: Option<u64>)
    requires
        max <= 0xffff_ffff_ffff,
    ensures
        match r {
            Some(v) => parse_unsigned(s@, max as nat) == Some(v as nat),
            None => parse_unsigned(s@, max as nat) is None,
        },
{
    if s.len() > 0 && s[0] == '+' {
        let rest = slice_subrange(s, 1, s.len());
        assert(rest@ =~= s@.skip(1));
        read_digits(rest, max)
    } else {
        read_digits(s, max)
    }
}

/// `n` in decimal.
pub fn decimal_string(n: u64) -> (r: String)
    ensures
        r@ == decimal(n as nat),
    decreases n,
{
    let d: u8 = (n % 10) as u8;
    let c: char = (48u8 + d) as char;
    assert(c == digit_char((n % 10) as nat));
    if n < 10 {
        let mut out = String::new();
        out.push(c);
        assert(out@ =~= decimal(n as nat));
        out
    } else {
        let mut out = decimal_string(n / 10);
        out.push(c);
        out
    }
}

/// Writing a number in decimal and reading it back gives the number.
pub proof fn lemma_decimal_round_trip(n: nat)
    ensures
        decimal(n).len() > 0,
        all_digits(decimal(n)),
        digits_value(decimal(n)) == n,
    decreases n,
{
    if n < 10 {
        assert(decimal(n).drop_last() =~= Seq::<char>::empty());
        assert(digits_value(Seq::<char>::empty()) == 0);
        assert(decimal(n).last() == digit_char(n));
    } else {
        lemma_decimal_round_trip(n / 10);
        let s = decimal(n);
        assert(s.drop_last() =~= decimal(n / 10));
        assert(s.last() == digit_char(n % 10));
        assert forall|i: int| 0 <= i < s.len() implies is_digit(#[trigger] s[i]) by {
            if i < s.len() - 1 {
                assert(s[i] == decimal(n / 10)[i]);
            }
        }
    }
}

// ---------------------------------------------------------------------------------------------
// Quoting
// ---------------------------------------------------------------------------------------------

/// How the formatter quotes `s` for debugging.
pub uninterp spec fn quoted(s: Seq<char>) -> Seq<char>;

/// The `Debug` form of `s`, as the formatter of `std` writes it.
#[verifier::external_body]
pub(crate) fn quote(s: &str) -> (r: String)
    ensures
        r@ == quoted(s@),
{
    format!("{s:?}")
}

} // verus!
