//! Character-level text operations.
//!
//! Every function here is stated over `Seq<char>`, the view of `str` and
//! `String`. The algorithms work on `Vec<char>`. White space is stated as
//! its list of code points; lower-casing and the numeric characters, which
//! take the standard library's Unicode tables, are named, not described.

use vstd::prelude::*;

verus! {

/// The text that `str::to_lowercase` gives for `s`.
pub uninterp spec fn lowercase(s: Seq<char>) -> Seq<char>;

/// `c` is white space: one of the code points with the Unicode property
/// `White_Space`.
pub open spec fn is_whitespace(c: char) -> bool {
    let n = c as int;
    ||| 0x09 <= n <= 0x0d
    ||| n == 0x20
    ||| n == 0x85
    ||| n == 0xa0
    ||| n == 0x1680
    ||| 0x2000 <= n <= 0x200a
    ||| n == 0x2028
    ||| n == 0x2029
    ||| n == 0x202f
    ||| n == 0x205f
    ||| n == 0x3000
}

/// `s` holds no line break.
pub open spec fn no_line_break(s: Seq<char>) -> bool {
    forall|k: int| 0 <= k < s.len() ==> s[k] != '\n'
}

/// Whether `char::is_numeric` holds of `c`.
pub uninterp spec fn is_numeric(c: char) -> bool;

/// Calls `str::to_lowercase`. Trusted: the result is the lower-case form of
/// `s` as the standard library defines it, named `lowercase`.
#[verifier::external_body]
pub(crate) fn to_lowercase(s: &str) -> (out: String)
    ensures
        out@ == lowercase(s@),
{
    s.to_lowercase()
}

/// Calls `char::is_whitespace`. Trusted: it holds of exactly the code points
/// with the Unicode property `White_Space`, which `is_whitespace` lists.
#[verifier::external_body]
pub(crate) fn char_is_whitespace(c: char) -> (b: bool)
    ensures
        b == is_whitespace(c),
{
    c.is_whitespace()
}

/// Calls `char::is_numeric`. Trusted: the answer is the one named
/// `is_numeric`.
#[verifier::external_body]
pub(crate) fn char_is_numeric(c: char) -> (b: bool)
    ensures
        b == is_numeric(c),
{
    c.is_numeric()
}

/// Calls `String::from_iter` on the characters of `v`. Trusted: the string
/// holds exactly those characters, in order.
#[verifier::external_body]
pub(crate) fn string_from_chars(v: &Vec<char>) -> (s: String)
    ensures
        s@ == v@,
{
    String::from_iter(v.iter())
}

/// The characters of `s`, in order.
pub fn chars_of(s: &str) -> (out: Vec<char>)
    ensures
        out@ == s@,
{
    let mut out: Vec<char> = Vec::new();
    for c in it: s.chars()
        invariant
            it.seq() == s@,
            out@ == s@.take(it.index() as int),
    {
        out.push(c);
    }
    out
}

/// The views of a vector of character vectors.
pub open spec fn rows(v: Seq<Vec<char>>) -> Seq<Seq<char>> {
    Seq::new(v.len(), |i: int| v[i]@)
}

/// Appends the characters of `src` to `dst`.
pub fn push_chars(dst: &mut Vec<char>, src: &Vec<char>)
    ensures
        final(dst)@ == old(dst)@ + src@,
{
    let mut i: usize = 0;
    while i < src.len()
        invariant
            i <= src.len(),
            dst@ == old(dst)@ + src@.take(i as int),
        decreases src.len() - i,
    {
        dst.push(src[i]);
        i += 1;
    }
}

/// Appends the characters of `src` to `dst`.
pub fn push_str(dst: &mut Vec<char>, src: &str)
    ensures
        final(dst)@ == old(dst)@ + src@,
{
    let chars = chars_of(src);
    push_chars(dst, &chars);
}

/// Whether `a` and `b` hold the same characters.
pub fn same_chars(a: &Vec<char>, b: &Vec<char>) -> (r: bool)
    ensures
        r == (a@ == b@),
{
    if a.len() != b.len() {
        return false;
    }
    let mut i: usize = 0;
    while i < a.len()
        invariant
            i <= a.len(),
            a.len() == b.len(),
            a@.take(i as int) == b@.take(i as int),
        decreases a.len() - i,
    {
        if a[i] != b[i] {
            return false;
        }
        i += 1;
    }
    assert(a@ == a@.take(a.len() as int));
    assert(b@ == b@.take(b.len() as int));
    true
}

/// `pat` stands in `s` at position `at`.
pub open spec fn occurs_at(s: Seq<char>, pat: Seq<char>, at: int) -> bool {
    0 <= at && at + pat.len() <= s.len() && s.subrange(at, at + pat.len()) == pat
}

/// `s` ends with `suffix`.
pub open spec fn ends_with(s: Seq<char>, suffix: Seq<char>) -> bool {
    occurs_at(s, suffix, s.len() - suffix.len())
}

/// `pat` stands somewhere in `s`.
pub open spec fn contains(s: Seq<char>, pat: Seq<char>) -> bool {
    exists|at: int| occurs_at(s, pat, at)
}

/// Whether `pat` stands in `s` at position `at`.
pub fn matches_at(s: &Vec<char>, pat: &Vec<char>, at: usize) -> (r: bool)
    ensures
        r == occurs_at(s@, pat@, at as int),
{
    if pat.len() > s.len() || at > s.len() - pat.len() {
        return false;
    }
    let mut k: usize = 0;
    while k < pat.len()
        invariant
            k <= pat.len(),
            at + pat.len() <= s.len(),
            forall|j: int| 0 <= j < k ==> s@[at + j] == pat@[j],
        decreases pat.len() - k,
    {
        if s[at + k] != pat[k] {
            return false;
        }
        k += 1;
    }
    assert(s@.subrange(at as int, at + pat.len()) =~= pat@);
    true
}

/// Whether `s` ends with `suffix`.
pub fn has_suffix(s: &Vec<char>, suffix: &Vec<char>) -> (r: bool)
    ensures
        r == ends_with(s@, suffix@),
{
    if suffix.len() > s.len() {
        false
    } else {
        matches_at(s, suffix, s.len() - suffix.len())
    }
}

/// Whether `pat` stands somewhere in `s`.
pub fn has_substring(s: &Vec<char>, pat: &Vec<char>) -> (r: bool)
    ensures
        r == contains(s@, pat@),
{
    if pat.len() > s.len() {
        return false;
    }
    let last = s.len() - pat.len();
    let mut at: usize = 0;
    while at < last
        invariant
            at <= last,
            last == s.len() - pat.len(),
            forall|j: int| 0 <= j < at ==> !occurs_at(s@, pat@, j),
        decreases last - at,
    {
        if matches_at(s, pat, at) {
            return true;
        }
        at += 1;
    }
    matches_at(s, pat, last)
}

/// How many white-space characters `s` starts with.
pub open spec fn leading_whitespace(s: Seq<char>) -> nat
    decreases s.len(),
{
    if s.len() > 0 && is_whitespace(s[0]) {
        1 + leading_whitespace(s.drop_first())
    } else {
        0
    }
}

/// How many white-space characters `s` ends with.
pub open spec fn trailing_whitespace(s: Seq<char>) -> nat
    decreases s.len(),
{
    if s.len() > 0 && is_whitespace(s.last()) {
        1 + trailing_whitespace(s.drop_last())
    } else {
        0
    }
}

/// `s` without the white space at its two ends.
pub open spec fn trimmed(s: Seq<char>) -> Seq<char> {
    let rest = s.skip(leading_whitespace(s) as int);
    rest.take(rest.len() - trailing_whitespace(rest))
}

/// `n` is the number of white-space characters that `s` starts with.
pub proof fn lemma_leading_whitespace(s: Seq<char>, n: int)
    requires
        0 <= n <= s.len(),
        forall|k: int| 0 <= k < n ==> is_whitespace(s[k]),
        n == s.len() || !is_whitespace(s[n]),
    ensures
        leading_whitespace(s) == n,
    decreases n,
{
    if n > 0 {
        let t = s.drop_first();
        lemma_leading_whitespace(t, n - 1);
    }
}

/// `n` is the number of white-space characters that `s` ends with.
pub proof fn lemma_trailing_whitespace(s: Seq<char>, n: int)
    requires
        0 <= n <= s.len(),
        forall|k: int| s.len() - n <= k < s.len() ==> is_whitespace(s[k]),
        n == s.len() || !is_whitespace(s[s.len() - n - 1]),
    ensures
        trailing_whitespace(s) == n,
    decreases n,
{
    if n > 0 {
        let t = s.drop_last();
        lemma_trailing_whitespace(t, n - 1);
    }
}

/// `s` without the white space at its two ends.
pub fn trim(s: &Vec<char>) -> (out: Vec<char>)
    ensures
        out@ == trimmed(s@),
{
    let n = s.len();
    let mut a: usize = 0;
    while a < n && char_is_whitespace(s[a])
        invariant
            a <= n,
            n == s.len(),
            forall|k: int| 0 <= k < a ==> is_whitespace(s@[k]),
        decreases n - a,
    {
        a += 1;
    }
    let mut b: usize = n;
    while b > a && char_is_whitespace(s[b - 1])
        invariant
            a <= b <= n,
            n == s.len(),
            forall|k: int| b <= k < n ==> is_whitespace(s@[k]),
        decreases b,
    {
        b -= 1;
    }
    let mut out: Vec<char> = Vec::new();
    let mut i: usize = a;
    while i < b
        invariant
            a <= i <= b <= n,
            n == s.len(),
            out@ == s@.subrange(a as int, i as int),
        decreases b - i,
    {
        out.push(s[i]);
        i += 1;
    }
    proof {
        lemma_leading_whitespace(s@, a as int);
        let rest = s@.skip(a as int);
        lemma_trailing_whitespace(rest, n - b);
    }
    out
}

/// A trimmed text neither starts nor ends with white space.
pub proof fn lemma_trimmed_ends(s: Seq<char>)
    ensures
        trimmed(s).len() > 0 ==> !is_whitespace(trimmed(s)[0]) && !is_whitespace(
            trimmed(s).last(),
        ),
        trimmed(s).len() <= s.len(),
{
    lemma_leading_whitespace_stops(s);
    let rest = s.skip(leading_whitespace(s) as int);
    lemma_trailing_whitespace_stops(rest);
}

/// The count of leading white space stays within the text and stops at the
/// first character that is no white space.
pub proof fn lemma_leading_whitespace_stops(s: Seq<char>)
    ensures
        leading_whitespace(s) <= s.len(),
        leading_whitespace(s) < s.len() ==> !is_whitespace(s[leading_whitespace(s) as int]),
        forall|k: int| 0 <= k < leading_whitespace(s) ==> is_whitespace(s[k]),
    decreases s.len(),
{
    if s.len() > 0 && is_whitespace(s[0]) {
        let t = s.drop_first();
        lemma_leading_whitespace_stops(t);
        assert forall|k: int| 0 <= k < leading_whitespace(s) implies is_whitespace(s[k]) by {
            if k > 0 {
                assert(t[k - 1] == s[k]);
            }
        }
    }
}

/// The count of trailing white space stays within the text and stops at the
/// last character that is no white space.
pub proof fn lemma_trailing_whitespace_stops(s: Seq<char>)
    ensures
        trailing_whitespace(s) <= s.len(),
        trailing_whitespace(s) < s.len() ==> !is_whitespace(
            s[s.len() - trailing_whitespace(s) - 1],
        ),
        forall|k: int| s.len() - trailing_whitespace(s) <= k < s.len() ==> is_whitespace(s[k]),
    decreases s.len(),
{
    if s.len() > 0 && is_whitespace(s.last()) {
        let t = s.drop_last();
        lemma_trailing_whitespace_stops(t);
        assert forall|k: int| s.len() - trailing_whitespace(s) <= k < s.len() implies is_whitespace(
            s[k],
        ) by {
            if k < s.len() - 1 {
                assert(t[k] == s[k]);
            }
        }
    }
}

/// How many characters stand before the first `sep` in `s`; the length of `s`
/// where `sep` does not occur.
pub open spec fn run_before(s: Seq<char>, sep: char) -> nat
    decreases s.len(),
{
    if s.len() > 0 && s[0] != sep {
        1 + run_before(s.drop_first(), sep)
    } else {
        0
    }
}

/// The pieces of `s` between occurrences of `sep`. There is always at least
/// one piece; a text that ends with `sep` has an empty last piece.
pub open spec fn split_on(s: Seq<char>, sep: char) -> Seq<Seq<char>>
    decreases s.len(),
{
    let n = run_before(s, sep);
    if n >= s.len() {
        seq![s]
    } else {
        seq![s.take(n as int)] + split_on(s.skip(n as int + 1), sep)
    }
}

/// `n` is the number of characters before the first `sep` in `s`.
pub proof fn lemma_run_before(s: Seq<char>, sep: char, n: int)
    requires
        0 <= n <= s.len(),
        forall|k: int| 0 <= k < n ==> s[k] != sep,
        n == s.len() || s[n] == sep,
    ensures
        run_before(s, sep) == n,
    decreases n,
{
    if n > 0 {
        let t = s.drop_first();
        lemma_run_before(t, sep, n - 1);
    }
}

/// The run before the first `sep` stays within the text, holds no `sep`,
/// and ends at a `sep` or at the end of the text.
pub proof fn lemma_run_before_stops(s: Seq<char>, sep: char)
    ensures
        run_before(s, sep) <= s.len(),
        forall|k: int| 0 <= k < run_before(s, sep) ==> s[k] != sep,
        run_before(s, sep) < s.len() ==> s[run_before(s, sep) as int] == sep,
    decreases s.len(),
{
    if s.len() > 0 && s[0] != sep {
        let t = s.drop_first();
        lemma_run_before_stops(t, sep);
        assert forall|k: int| 0 <= k < run_before(s, sep) implies s[k] != sep by {
            if k > 0 {
                assert(t[k - 1] == s[k]);
            }
        }
    }
}

/// A text without `sep` is its own single piece.
pub proof fn lemma_split_plain(s: Seq<char>, sep: char)
    requires
        forall|k: int| 0 <= k < s.len() ==> s[k] != sep,
    ensures
        split_on(s, sep) == seq![s],
{
    lemma_run_before(s, sep, s.len() as int);
}

/// The pieces of two texts with a `sep` between them are the pieces of the
/// first, then the pieces of the second.
pub proof fn lemma_split_concat(a: Seq<char>, b: Seq<char>, sep: char)
    ensures
        split_on(a + seq![sep] + b, sep) == split_on(a, sep) + split_on(b, sep),
    decreases a.len(),
{
    let whole = a + seq![sep] + b;
    let n = run_before(a, sep) as int;
    lemma_run_before_stops(a, sep);
    if n < a.len() {
        lemma_run_before(whole, sep, n);
        assert(whole.take(n) =~= a.take(n));
        assert(whole.skip(n + 1) =~= a.skip(n + 1) + seq![sep] + b);
        lemma_split_concat(a.skip(n + 1), b, sep);
    } else {
        lemma_run_before(whole, sep, n);
        assert(whole.take(n) =~= a);
        assert(whole.skip(n + 1) =~= b);
    }
}

/// Splitting undoes joining: lines without `sep`, joined by `sep`, split
/// into themselves. No lines at all join to the empty text, which is one
/// empty piece.
pub proof fn lemma_split_joined(lines: Seq<Seq<char>>, sep: char)
    requires
        forall|i: int, k: int|
            0 <= i < lines.len() && 0 <= k < lines[i].len() ==> lines[i][k] != sep,
    ensures
        split_on(joined(lines, seq![sep]), sep) == if lines.len() == 0 {
            seq![Seq::<char>::empty()]
        } else {
            lines
        },
    decreases lines.len(),
{
    if lines.len() == 0 {
        lemma_split_plain(Seq::<char>::empty(), sep);
    } else if lines.len() == 1 {
        lemma_split_plain(lines[0], sep);
    } else {
        let front = lines.drop_last();
        lemma_split_joined(front, sep);
        lemma_split_concat(joined(front, seq![sep]), lines.last(), sep);
        lemma_split_plain(lines.last(), sep);
    }
}

/// The pieces of `s` between occurrences of `sep`.
pub fn split(s: &Vec<char>, sep: char) -> (out: Vec<Vec<char>>)
    ensures
        rows(out@) == split_on(s@, sep),
{
    let mut out: Vec<Vec<char>> = Vec::new();
    let mut piece: Vec<char> = Vec::new();
    let mut start: usize = 0;
    let mut i: usize = 0;
    proof {
        assert(s@.skip(0) =~= s@);
    }
    while i < s.len()
        invariant
            start <= i <= s.len(),
            piece@ == s@.subrange(start as int, i as int),
            forall|k: int| start <= k < i ==> s@[k] != sep,
            split_on(s@, sep) == rows(out@) + split_on(s@.skip(start as int), sep),
        decreases s.len() - i,
    {
        if s[i] == sep {
            proof {
                let rest = s@.skip(start as int);
                lemma_run_before(rest, sep, i - start);
                assert(rest.take(i - start) =~= piece@);
                assert(rest.skip(i - start + 1) =~= s@.skip(i + 1));
            }
            out.push(piece);
            piece = Vec::new();
            start = i + 1;
        } else {
            piece.push(s[i]);
        }
        i += 1;
    }
    proof {
        let rest = s@.skip(start as int);
        lemma_run_before(rest, sep, rest.len() as int);
    }
    out.push(piece);
    out
}

/// The texts of `parts` in a row, with `sep` between neighbours.
pub open spec fn joined(parts: Seq<Seq<char>>, sep: Seq<char>) -> Seq<char>
    decreases parts.len(),
{
    if parts.len() == 0 {
        Seq::empty()
    } else if parts.len() == 1 {
        parts[0]
    } else {
        joined(parts.drop_last(), sep) + sep + parts.last()
    }
}

/// The texts of `parts` in a row, with `sep` between neighbours.
pub fn join(parts: &Vec<Vec<char>>, sep: &Vec<char>) -> (out: Vec<char>)
    ensures
        out@ == joined(rows(parts@), sep@),
{
    let mut out: Vec<char> = Vec::new();
    let mut i: usize = 0;
    while i < parts.len()
        invariant
            i <= parts.len(),
            out@ == joined(rows(parts@).take(i as int), sep@),
        decreases parts.len() - i,
    {
        proof {
            let next = rows(parts@).take(i + 1);
            assert(next.drop_last() =~= rows(parts@).take(i as int));
        }
        if i > 0 {
            push_chars(&mut out, sep);
        }
        push_chars(&mut out, &parts[i]);
        i += 1;
    }
    assert(rows(parts@).take(parts.len() as int) =~= rows(parts@));
    out
}

/// The code point of `c`.
pub open spec fn code_point(c: char) -> int {
    c as int
}

/// `a` stands before `b` in the order of a dictionary whose alphabet is the
/// code points: the first character in which they differ decides, and a text
/// stands before each of its extensions.
pub open spec fn lex_less(a: Seq<char>, b: Seq<char>) -> bool
    decreases a.len(),
{
    if b.len() == 0 {
        false
    } else if a.len() == 0 {
        true
    } else if a[0] == b[0] {
        lex_less(a.drop_first(), b.drop_first())
    } else {
        code_point(a[0]) < code_point(b[0])
    }
}

/// No text stands before itself.
pub proof fn lemma_lex_less_irreflexive(a: Seq<char>)
    ensures
        !lex_less(a, a),
    decreases a.len(),
{
    if a.len() > 0 {
        lemma_lex_less_irreflexive(a.drop_first());
    }
}

/// Of two different texts one stands before the other.
pub proof fn lemma_lex_less_total(a: Seq<char>, b: Seq<char>)
    ensures
        lex_less(a, b) || lex_less(b, a) || a == b,
    decreases a.len(),
{
    if a.len() > 0 && b.len() > 0 {
        if a[0] == b[0] {
            lemma_lex_less_total(a.drop_first(), b.drop_first());
            if a.drop_first() == b.drop_first() {
                assert(a =~= seq![a[0]] + a.drop_first());
            }
        }
    }
}

/// The order is transitive.
pub proof fn lemma_lex_less_transitive(a: Seq<char>, b: Seq<char>, c: Seq<char>)
    requires
        lex_less(a, b),
        lex_less(b, c),
    ensures
        lex_less(a, c),
    decreases a.len(),
{
    if a.len() > 0 && a[0] == b[0] && b[0] == c[0] {
        lemma_lex_less_transitive(a.drop_first(), b.drop_first(), c.drop_first());
    }
}

/// Whether `a` stands before `b` in the order `lex_less`.
pub fn lex_lt(a: &Vec<char>, b: &Vec<char>) -> (r: bool)
    ensures
        r == lex_less(a@, b@),
{
    let mut i: usize = 0;
    proof {
        assert(a@.skip(0) =~= a@);
        assert(b@.skip(0) =~= b@);
    }
    while i < a.len() && i < b.len()
        invariant
            i <= a.len(),
            i <= b.len(),
            lex_less(a@, b@) == lex_less(a@.skip(i as int), b@.skip(i as int)),
        decreases a.len() - i,
    {
        proof {
            assert(a@.skip(i as int).drop_first() =~= a@.skip(i + 1));
            assert(b@.skip(i as int).drop_first() =~= b@.skip(i + 1));
        }
        if a[i] != b[i] {
            return a[i] < b[i];
        }
        i += 1;
    }
    i < b.len()
}

/// The character of the decimal digit `d`.
pub open spec fn digit(d: int) -> char {
    if d == 0 {
        '0'
    } else if d == 1 {
        '1'
    } else if d == 2 {
        '2'
    } else if d == 3 {
        '3'
    } else if d == 4 {
        '4'
    } else if d == 5 {
        '5'
    } else if d == 6 {
        '6'
    } else if d == 7 {
        '7'
    } else if d == 8 {
        '8'
    } else {
        '9'
    }
}

/// `n` written in decimal digits, without leading zeros.
pub open spec fn decimal(n: nat) -> Seq<char>
    decreases n,
{
    if n < 10 {
        seq![digit(n as int)]
    } else {
        decimal(n / 10).push(digit((n % 10) as int))
    }
}

/// The character of the decimal digit `d`.
pub fn digit_char(d: u64) -> (c: char)
    requires
        d < 10,
    ensures
        c == digit(d as int),
{
    if d == 0 {
        '0'
    } else if d == 1 {
        '1'
    } else if d == 2 {
        '2'
    } else if d == 3 {
        '3'
    } else if d == 4 {
        '4'
    } else if d == 5 {
        '5'
    } else if d == 6 {
        '6'
    } else if d == 7 {
        '7'
    } else if d == 8 {
        '8'
    } else {
        '9'
    }
}

/// `n` written in decimal digits, without leading zeros.
pub fn decimal_digits(n: u64) -> (out: Vec<char>)
    ensures
        out@ == decimal(n as nat),
    decreases n,
{
    if n < 10 {
        let mut out: Vec<char> = Vec::new();
        out.push(digit_char(n));
        out
    } else {
        let mut out = decimal_digits(n / 10);
        out.push(digit_char(n % 10));
        out
    }
}

/// The views of a list of strings.
pub open spec fn texts(list: Seq<String>) -> Seq<Seq<char>> {
    Seq::new(list.len(), |i: int| list[i]@)
}

/// `list` without every occurrence of `item`, the rest in their order.
pub open spec fn without(list: Seq<Seq<char>>, item: Seq<char>) -> Seq<Seq<char>>
    decreases list.len(),
{
    if list.len() == 0 {
        Seq::empty()
    } else if list.last() == item {
        without(list.drop_last(), item)
    } else {
        without(list.drop_last(), item).push(list.last())
    }
}

/// `x` is left after the removal of `item` exactly if it was there and is
/// not `item`.
pub proof fn lemma_without_contains(list: Seq<Seq<char>>, item: Seq<char>, x: Seq<char>)
    ensures
        without(list, item).contains(x) <==> list.contains(x) && x != item,
        without(list, item).len() <= list.len(),
    decreases list.len(),
{
    if list.len() > 0 {
        let rest = list.drop_last();
        let w = without(rest, item);
        let full = without(list, item);
        lemma_without_contains(rest, item, x);
        if full.contains(x) {
            let k = choose|k: int| 0 <= k < full.len() && full[k] == x;
            if list.last() == item || k < w.len() {
                assert(w[k] == x);
                let j = choose|j: int| 0 <= j < rest.len() && rest[j] == x;
                assert(list[j] == x);
            }
        }
        if list.contains(x) && x != item {
            let j = choose|j: int| 0 <= j < list.len() && list[j] == x;
            if j == list.len() - 1 {
                assert(full[w.len() as int] == x);
            } else {
                assert(rest[j] == x);
                let k = choose|k: int| 0 <= k < w.len() && w[k] == x;
                assert(full[k] == x);
            }
        }
    }
}

/// A list without repetitions stays one when an item is removed.
pub proof fn lemma_without_distinct(list: Seq<Seq<char>>, item: Seq<char>)
    requires
        list.no_duplicates(),
    ensures
        without(list, item).no_duplicates(),
    decreases list.len(),
{
    if list.len() > 0 {
        let rest = list.drop_last();
        lemma_without_distinct(rest, item);
        lemma_without_contains(rest, item, list.last());
        if rest.contains(list.last()) {
            let j = choose|j: int| 0 <= j < rest.len() && rest[j] == list.last();
            assert(list[j] == list[list.len() - 1]);
        }
    }
}

/// Whether `item` is in `list`.
pub fn list_contains(list: &Vec<String>, item: &str) -> (found: bool)
    ensures
        found == texts(list@).contains(item@),
{
    let wanted = item.to_owned();
    let mut i: usize = 0;
    while i < list.len()
        invariant
            i <= list.len(),
            wanted@ == item@,
            forall|k: int| 0 <= k < i ==> texts(list@)[k] != item@,
        decreases list.len() - i,
    {
        if list[i] == wanted {
            assert(texts(list@)[i as int] == item@);
            return true;
        }
        i += 1;
    }
    false
}

/// Takes every occurrence of `item` out of `list`.
pub fn list_remove(list: &mut Vec<String>, item: &str)
    ensures
        texts(final(list)@) == without(texts(old(list)@), item@),
{
    let wanted = item.to_owned();
    let mut kept: Vec<String> = Vec::new();
    let mut i: usize = 0;
    while i < list.len()
        invariant
            i <= list.len(),
            wanted@ == item@,
            list@ == old(list)@,
            texts(kept@) == without(texts(list@).take(i as int), item@),
        decreases list.len() - i,
    {
        proof {
            let next = texts(list@).take(i + 1);
            assert(next.drop_last() =~= texts(list@).take(i as int));
        }
        if list[i] != wanted {
            kept.push(list[i].clone());
        }
        i += 1;
    }
    assert(texts(list@).take(list.len() as int) =~= texts(list@));
    *list = kept;
}

/// The text of `a` followed by the text of `b`.
pub fn followed_by(a: &str, b: &str) -> (out: String)
    ensures
        out@ == a@ + b@,
{
    let mut chars = chars_of(a);
    push_str(&mut chars, b);
    string_from_chars(&chars)
}

} // verus!
