//! Text operations over strings seen as sequences of characters.
//!
//! Each operation is a spec function on `Seq<char>` together with an executable
//! function whose contract refers to it.
use vstd::prelude::*;

verus! {

// ---------------------------------------------------------------------------
// Vocabulary
// ---------------------------------------------------------------------------
/// The texts of a list of owned strings.
pub open spec fn texts(v: Seq<String>) -> Seq<Seq<char>> {
    Seq::new(v.len(), |i: int| v[i]@)
}

/// The texts of a list of borrowed strings.
pub open spec fn slices(v: Seq<&str>) -> Seq<Seq<char>> {
    Seq::new(v.len(), |i: int| v[i]@)
}

/// The text of an optional string.
pub open spec fn opt_text(s: Option<String>) -> Option<Seq<char>> {
    match s {
        Some(t) => Some(t@),
        None => None,
    }
}

/// The text of an optional borrowed string.
pub open spec fn opt_slice(s: Option<&str>) -> Option<Seq<char>> {
    match s {
        Some(t) => Some(t@),
        None => None,
    }
}

/// The texts of an optional list of owned strings.
pub open spec fn opt_texts(v: Option<Vec<String>>) -> Option<Seq<Seq<char>>> {
    match v {
        Some(list) => Some(texts(list@)),
        None => None,
    }
}

/// The texts of an optional list of borrowed strings.
pub open spec fn opt_slices(v: Option<Vec<&str>>) -> Option<Seq<Seq<char>>> {
    match v {
        Some(list) => Some(slices(list@)),
        None => None,
    }
}

/// `pat` stands in `s` at position `i`.
pub open spec fn has_at(s: Seq<char>, i: int, pat: Seq<char>) -> bool {
    &&& 0 <= i
    &&& i + pat.len() <= s.len()
    &&& s.subrange(i, i + pat.len()) == pat
}

/// `pat` stands somewhere in `s`.
pub open spec fn contains_text(s: Seq<char>, pat: Seq<char>) -> bool {
    exists|i: int| has_at(s, i, pat)
}

/// `a` stands in `s`, and `b` stands in `s` after it.
pub open spec fn comes_before(s: Seq<char>, a: Seq<char>, b: Seq<char>) -> bool {
    exists|i: int, j: int| #[trigger]
        has_at(s, i, a) && #[trigger] has_at(s, j, b) && i + a.len() <= j
}

pub open spec fn starts_with(s: Seq<char>, pat: Seq<char>) -> bool {
    has_at(s, 0, pat)
}

pub open spec fn ends_with(s: Seq<char>, pat: Seq<char>) -> bool {
    has_at(s, s.len() - pat.len(), pat)
}

/// The position of the first `c` in `s`, or the length of `s` where there is none.
pub open spec fn find(s: Seq<char>, c: char) -> int
    decreases s.len(),
{
    if s.len() == 0 || s[0] == c {
        0
    } else {
        1 + find(s.skip(1), c)
    }
}

/// The position of the last `c` in `s`, or -1 where there is none.
pub open spec fn rfind(s: Seq<char>, c: char) -> int
    decreases s.len(),
{
    if s.len() == 0 {
        -1
    } else if s.last() == c {
        s.len() - 1
    } else {
        rfind(s.drop_last(), c)
    }
}

/// What stands before and after the first `c` in `s`.
pub open spec fn cut(s: Seq<char>, c: char) -> Option<(Seq<char>, Seq<char>)> {
    let i = find(s, c);
    if i < s.len() {
        Some((s.take(i), s.skip(i + 1)))
    } else {
        None
    }
}

/// `s` without the copies of `pat` at its start.
pub open spec fn without_prefixes(s: Seq<char>, pat: Seq<char>) -> Seq<char>
    decreases s.len(),
{
    if pat.len() > 0 && starts_with(s, pat) {
        without_prefixes(s.skip(pat.len() as int), pat)
    } else {
        s
    }
}

/// `s` without the copies of `pat` at its end.
pub open spec fn without_suffixes(s: Seq<char>, pat: Seq<char>) -> Seq<char>
    decreases s.len(),
{
    if pat.len() > 0 && ends_with(s, pat) {
        without_suffixes(s.take(s.len() - pat.len()), pat)
    } else {
        s
    }
}

/// The characters with Unicode's White_Space property.
pub open spec fn is_white(c: char) -> bool {
    ||| '\u{9}' <= c <= '\u{d}'
    ||| c == ' '
    ||| c == '\u{85}'
    ||| c == '\u{a0}'
    ||| c == '\u{1680}'
    ||| '\u{2000}' <= c <= '\u{200a}'
    ||| c == '\u{2028}'
    ||| c == '\u{2029}'
    ||| c == '\u{202f}'
    ||| c == '\u{205f}'
    ||| c == '\u{3000}'
}

/// How many white characters `s` starts with.
pub open spec fn white_run(s: Seq<char>) -> int
    decreases s.len(),
{
    if s.len() > 0 && is_white(s[0]) {
        1 + white_run(s.skip(1))
    } else {
        0
    }
}

/// How many characters that are not white `s` starts with.
pub open spec fn word_run(s: Seq<char>) -> int
    decreases s.len(),
{
    if s.len() > 0 && !is_white(s[0]) {
        1 + word_run(s.skip(1))
    } else {
        0
    }
}

/// `s` without white characters at its end.
pub open spec fn trim_end(s: Seq<char>) -> Seq<char>
    decreases s.len(),
{
    if s.len() > 0 && is_white(s.last()) {
        trim_end(s.drop_last())
    } else {
        s
    }
}

/// `s` without white characters at its start.
pub open spec fn trim_start(s: Seq<char>) -> Seq<char> {
    s.skip(white_run(s))
}

/// `s` without white characters at either end.
pub open spec fn trim(s: Seq<char>) -> Seq<char> {
    trim_end(trim_start(s))
}

/// A line that a newline ended, without a carriage return before that newline.
pub open spec fn without_return(s: Seq<char>) -> Seq<char> {
    if s.len() > 0 && s.last() == '\r' {
        s.drop_last()
    } else {
        s
    }
}

/// The lines of `s`; a newline at the very end starts no further line.
pub open spec fn lines(s: Seq<char>) -> Seq<Seq<char>>
    decreases s.len(),
    via lines_decreases
{
    if s.len() == 0 {
        Seq::empty()
    } else {
        let i = find(s, '\n');
        if i < s.len() {
            seq![without_return(s.take(i))] + lines(s.skip(i + 1))
        } else {
            seq![s]
        }
    }
}

#[via_fn]
proof fn lines_decreases(s: Seq<char>) {
    lemma_find(s, '\n');
}

/// The maximal runs of `s` that hold no white character.
pub open spec fn words(s: Seq<char>) -> Seq<Seq<char>>
    decreases s.len(),
    via words_decreases
{
    let t = trim_start(s);
    if t.len() == 0 {
        Seq::empty()
    } else {
        seq![t.take(word_run(t))] + words(t.skip(word_run(t)))
    }
}

#[via_fn]
proof fn words_decreases(s: Seq<char>) {
    lemma_white_run(s);
    lemma_word_run(trim_start(s));
}

/// The pieces of `s` between the copies of `c`.
pub open spec fn split(s: Seq<char>, c: char) -> Seq<Seq<char>>
    decreases s.len(),
    via split_decreases
{
    let i = find(s, c);
    if i < s.len() {
        seq![s.take(i)] + split(s.skip(i + 1), c)
    } else {
        seq![s]
    }
}

#[via_fn]
proof fn split_decreases(s: Seq<char>, c: char) {
    lemma_find(s, c);
}

/// The texts of `list` one after another, with `sep` between neighbours.
pub open spec fn joined(list: Seq<Seq<char>>, sep: Seq<char>) -> Seq<char>
    decreases list.len(),
{
    if list.len() == 0 {
        Seq::empty()
    } else if list.len() == 1 {
        list[0]
    } else {
        joined(list.drop_last(), sep) + sep + list.last()
    }
}

/// The character of a decimal digit.
pub open spec fn digit_char(d: int) -> char {
    (('0' as u32) + d) as char
}

/// A number in decimal notation.
pub open spec fn decimal(n: nat) -> Seq<char>
    decreases n,
{
    if n < 10 {
        seq![digit_char(n as int)]
    } else {
        decimal(n / 10).push(digit_char((n % 10) as int))
    }
}

pub open spec fn is_digit(c: char) -> bool {
    '0' <= c <= '9'
}

/// The value of a run of decimal digits.
pub open spec fn digits_value(s: Seq<char>) -> nat
    decreases s.len(),
{
    if s.len() == 0 {
        0
    } else {
        digits_value(s.drop_last()) * 10 + ((s.last() as u32 - '0' as u32) as nat)
    }
}

/// The value of `digits`, where it is a run of digits of at most 64 bits.
pub open spec fn unsigned_value(digits: Seq<char>) -> Option<u64> {
    if digits.len() > 0 && (forall|i: int| 0 <= i < digits.len() ==> is_digit(digits[i]))
        && digits_value(digits) <= u64::MAX {
        Some(digits_value(digits) as u64)
    } else {
        None
    }
}

/// The number that `s` writes down: an optional plus sign, then digits only, with a
/// value of at most 64 bits.
pub open spec fn parsed_u64(s: Seq<char>) -> Option<u64> {
    if s.len() > 0 && s[0] == '+' {
        unsigned_value(s.skip(1))
    } else {
        unsigned_value(s)
    }
}

/// `a` stands before `b` in the order of their characters.
pub open spec fn text_lt(a: Seq<char>, b: Seq<char>) -> bool
    decreases a.len(),
{
    if b.len() == 0 {
        false
    } else if a.len() == 0 {
        true
    } else if a[0] != b[0] {
        a[0] < b[0]
    } else {
        text_lt(a.skip(1), b.skip(1))
    }
}

// ---------------------------------------------------------------------------
// Facts
// ---------------------------------------------------------------------------
pub proof fn lemma_find(s: Seq<char>, c: char)
    ensures
        0 <= find(s, c) <= s.len(),
        forall|j: int| 0 <= j < find(s, c) ==> s[j] != c,
        find(s, c) < s.len() ==> s[find(s, c)] == c,
        find(s, c) < s.len() <==> s.contains(c),
    decreases s.len(),
{
    if s.len() > 0 && s[0] != c {
        lemma_find(s.skip(1), c);
        assert forall|j: int| 0 <= j < find(s, c) implies s[j] != c by {
            if j > 0 {
                assert(s.skip(1)[j - 1] == s[j]);
            }
        }
        if s.contains(c) {
            let k = s.index_of(c);
            assert(s.skip(1)[k - 1] == c);
        }
    }
}

proof fn lemma_find_is(s: Seq<char>, c: char, i: int)
    requires
        0 <= i <= s.len(),
        forall|j: int| 0 <= j < i ==> s[j] != c,
        i < s.len() ==> s[i] == c,
    ensures
        find(s, c) == i,
{
    lemma_find(s, c);
}

pub proof fn lemma_rfind(s: Seq<char>, c: char)
    ensures
        -1 <= rfind(s, c) < s.len(),
        forall|j: int| rfind(s, c) < j < s.len() ==> s[j] != c,
        rfind(s, c) >= 0 ==> s[rfind(s, c)] == c,
    decreases s.len(),
{
    if s.len() > 0 && s.last() != c {
        lemma_rfind(s.drop_last(), c);
        assert forall|j: int| rfind(s, c) < j < s.len() implies s[j] != c by {
            if j < s.len() - 1 {
                assert(s.drop_last()[j] == s[j]);
            }
        }
    }
}

pub proof fn lemma_white_run(s: Seq<char>)
    ensures
        0 <= white_run(s) <= s.len(),
        forall|j: int| 0 <= j < white_run(s) ==> is_white(s[j]),
        white_run(s) < s.len() ==> !is_white(s[white_run(s)]),
    decreases s.len(),
{
    if s.len() > 0 && is_white(s[0]) {
        lemma_white_run(s.skip(1));
        assert forall|j: int| 0 <= j < white_run(s) implies is_white(s[j]) by {
            if j > 0 {
                assert(s.skip(1)[j - 1] == s[j]);
            }
        }
    }
}

pub proof fn lemma_word_run(s: Seq<char>)
    ensures
        0 <= word_run(s) <= s.len(),
        forall|j: int| 0 <= j < word_run(s) ==> !is_white(s[j]),
        word_run(s) < s.len() ==> is_white(s[word_run(s)]),
        s.len() > 0 && !is_white(s[0]) ==> word_run(s) > 0,
    decreases s.len(),
{
    if s.len() > 0 && !is_white(s[0]) {
        lemma_word_run(s.skip(1));
        assert forall|j: int| 0 <= j < word_run(s) implies !is_white(s[j]) by {
            if j > 0 {
                assert(s.skip(1)[j - 1] == s[j]);
            }
        }
    }
}

/// Trimming leaves a text that has no white character at either end.
pub proof fn lemma_trim_ends(s: Seq<char>)
    ensures
        trim(s).len() > 0 ==> !is_white(trim(s)[0]) && !is_white(trim(s).last()),
        trim(s).len() <= s.len(),
{
    lemma_white_run(s);
    lemma_trim_end(trim_start(s));
}

proof fn lemma_trim_end(s: Seq<char>)
    ensures
        trim_end(s).len() <= s.len(),
        trim_end(s) == s.take(trim_end(s).len() as int),
        trim_end(s).len() > 0 ==> !is_white(trim_end(s).last()),
        forall|j: int| trim_end(s).len() <= j < s.len() ==> is_white(s[j]),
    decreases s.len(),
{
    if s.len() > 0 && is_white(s.last()) {
        lemma_trim_end(s.drop_last());
        let n = trim_end(s).len() as int;
        assert(s.drop_last().take(n) == s.take(n));
        assert forall|j: int| n <= j < s.len() implies is_white(s[j]) by {
            if j < s.len() - 1 {
                assert(s.drop_last()[j] == s[j]);
            }
        }
    } else {
        assert(s.take(s.len() as int) == s);
    }
}

proof fn lemma_trim_end_is(s: Seq<char>, n: int)
    requires
        0 <= n <= s.len(),
        n > 0 ==> !is_white(s[n - 1]),
        forall|j: int| n <= j < s.len() ==> is_white(s[j]),
    ensures
        trim_end(s) == s.take(n),
{
    lemma_trim_end(s);
    let m = trim_end(s).len() as int;
    if m < n {
        assert(is_white(s[n - 1]));
    } else if m > n {
        assert(trim_end(s).last() == s[m - 1]);
    }
}

/// Trimming moves what has no white character at either end, and takes none of it away.
pub proof fn lemma_trim_keeps(s: Seq<char>, i: int, pat: Seq<char>)
    requires
        has_at(s, i, pat),
        pat.len() > 0,
        !is_white(pat[0]),
        !is_white(pat.last()),
    ensures
        has_at(trim(s), i - white_run(s), pat),
{
    lemma_white_run(s);
    let r = white_run(s);
    let t = trim_start(s);
    lemma_trim_end(t);
    let n = pat.len() as int;
    assert(s.subrange(i, i + n)[0] == s[i]);
    assert(s.subrange(i, i + n)[n - 1] == s[i + n - 1]);
    assert(r <= i);
    assert(t[i - r + n - 1] == s[i + n - 1]);
    assert(i - r + n <= trim(s).len());
    assert(trim(s).subrange(i - r, i - r + n) =~= pat) by {
        assert forall|k: int| 0 <= k < n implies trim(s)[i - r + k] == pat[k] by {
            assert(s.subrange(i, i + n)[k] == s[i + k]);
        }
    }
}

/// Trimming a trimmed text changes nothing.
pub proof fn lemma_trim_idempotent(s: Seq<char>)
    ensures
        trim(trim(s)) == trim(s),
{
    lemma_trim_ends(s);
    let t = trim(s);
    assert(white_run(t) == 0);
    assert(t.skip(0) == t);
}

pub proof fn lemma_text_lt_irreflexive(a: Seq<char>)
    ensures
        !text_lt(a, a),
    decreases a.len(),
{
    if a.len() > 0 {
        lemma_text_lt_irreflexive(a.skip(1));
    }
}

pub proof fn lemma_text_lt_transitive(a: Seq<char>, b: Seq<char>, c: Seq<char>)
    requires
        text_lt(a, b),
        text_lt(b, c),
    ensures
        text_lt(a, c),
    decreases a.len(),
{
    if a.len() > 0 && a[0] == b[0] && b[0] == c[0] {
        lemma_text_lt_transitive(a.skip(1), b.skip(1), c.skip(1));
    }
}

pub proof fn lemma_text_lt_total(a: Seq<char>, b: Seq<char>)
    ensures
        a == b || text_lt(a, b) || text_lt(b, a),
    decreases a.len(),
{
    if a.len() > 0 && b.len() > 0 && a[0] == b[0] {
        lemma_text_lt_total(a.skip(1), b.skip(1));
        if a.skip(1) == b.skip(1) {
            assert(a == seq![a[0]] + a.skip(1));
            assert(b == seq![b[0]] + b.skip(1));
        }
    } else if a.len() == 0 && b.len() == 0 {
        assert(a == b);
    }
}

/// What stands in a text stands in every longer one.
pub proof fn lemma_contains_inside(
    before: Seq<char>,
    mid: Seq<char>,
    after: Seq<char>,
    pat: Seq<char>,
)
    requires
        contains_text(mid, pat),
    ensures
        contains_text(before + mid + after, pat),
{
    let i = choose|i: int| has_at(mid, i, pat);
    let all = before + mid + after;
    let at = before.len() + i;
    assert(all.subrange(at, at + pat.len()) =~= mid.subrange(i, i + pat.len()));
    assert(has_at(all, at, pat));
}

/// What stands in a text in some order stands in every longer one in that order.
pub proof fn lemma_before_inside(
    before: Seq<char>,
    mid: Seq<char>,
    after: Seq<char>,
    a: Seq<char>,
    b: Seq<char>,
)
    requires
        comes_before(mid, a, b),
    ensures
        comes_before(before + mid + after, a, b),
{
    let (i, j) = choose|i: int, j: int| #[trigger]
        has_at(mid, i, a) && #[trigger] has_at(mid, j, b) && i + a.len() <= j;
    let all = before + mid + after;
    let n = before.len() as int;
    assert(all.subrange(n + i, n + i + a.len()) =~= mid.subrange(i, i + a.len()));
    assert(all.subrange(n + j, n + j + b.len()) =~= mid.subrange(j, j + b.len()));
    assert(has_at(all, n + i, a));
    assert(has_at(all, n + j, b));
}

/// A text that stands between two others stands in the whole.
pub proof fn lemma_contains_middle(before: Seq<char>, mid: Seq<char>, after: Seq<char>)
    ensures
        contains_text(before + mid + after, mid),
{
    assert(mid.subrange(0, mid.len() as int) =~= mid);
    assert(has_at(mid, 0, mid));
    lemma_contains_inside(before, mid, after, mid);
}

/// What stands in one of the texts stands in all of them joined.
pub proof fn lemma_contains_joined(list: Seq<Seq<char>>, sep: Seq<char>, i: int, pat: Seq<char>)
    requires
        0 <= i < list.len(),
        contains_text(list[i], pat),
    ensures
        contains_text(joined(list, sep), pat),
    decreases list.len(),
{
    let first = list.drop_last();
    lemma_joined_push(first, sep, list.last());
    assert(list =~= first.push(list.last()));
    let none = Seq::<char>::empty();
    if i < first.len() {
        lemma_contains_joined(first, sep, i, pat);
        lemma_contains_inside(none, joined(first, sep), sep + list.last(), pat);
        assert(none + joined(first, sep) + (sep + list.last()) =~= joined(list, sep));
    } else if first.len() > 0 {
        lemma_contains_inside(joined(first, sep) + sep, list.last(), none, pat);
        assert(joined(first, sep) + sep + list.last() + none =~= joined(list, sep));
    }
}

/// Joined texts keep their order.
pub proof fn lemma_joined_in_order(list: Seq<Seq<char>>, sep: Seq<char>, i: int, j: int)
    requires
        0 <= i < j < list.len(),
    ensures
        comes_before(joined(list, sep), list[i], list[j]),
    decreases list.len(),
{
    let first = list.drop_last();
    lemma_joined_push(first, sep, list.last());
    assert(list =~= first.push(list.last()));
    let none = Seq::<char>::empty();
    let head = joined(first, sep);
    if j < first.len() {
        lemma_joined_in_order(first, sep, i, j);
        lemma_before_inside(none, head, sep + list.last(), list[i], list[j]);
        assert(none + head + (sep + list.last()) =~= joined(list, sep));
    } else {
        let whole = joined(list, sep);
        assert(list[i].subrange(0, list[i].len() as int) =~= list[i]);
        assert(has_at(list[i], 0, list[i]));
        lemma_contains_joined(first, sep, i, list[i]);
        let p = choose|p: int| has_at(head, p, list[i]);
        let q = (head + sep).len() as int;
        assert(whole =~= head + sep + list[j]);
        assert(whole.subrange(p, p + list[i].len()) =~= head.subrange(p, p + list[i].len()));
        assert(whole.subrange(q, q + list[j].len()) =~= list[j]);
        assert(has_at(whole, p, list[i]));
        assert(has_at(whole, q, list[j]));
    }
}

/// Appending one text to a non-empty joined list.
pub proof fn lemma_joined_push(list: Seq<Seq<char>>, sep: Seq<char>, next: Seq<char>)
    ensures
        list.len() == 0 ==> joined(list.push(next), sep) == next,
        list.len() > 0 ==> joined(list.push(next), sep) == joined(list, sep) + sep + next,
{
    assert(list.push(next).drop_last() == list);
}

// ---------------------------------------------------------------------------
// Executable functions
// ---------------------------------------------------------------------------
/// `char::is_whitespace`: whether the character has the White_Space property of
/// the Unicode character database, whose members `is_white` lists.
pub assume_specification[ char::is_whitespace ](c: char) -> (r: bool)
    ensures
        r == is_white(c),
;

/// The characters of a string, in order.
pub fn chars_of(s: &str) -> (v: Vec<char>)
    ensures
        v@ == s@,
{
    let mut v: Vec<char> = Vec::new();
    for c in it: s.chars()
        invariant
            it.seq() == s@,
            v@ == s@.take(it.index() as int),
    {
        v.push(c);
        assert(v@ == s@.take(it.index() + 1));
    }
    assert(s@.take(s@.len() as int) == s@);
    v
}

/// Whether two strings hold the same characters.
pub fn str_eq(a: &str, b: &str) -> (r: bool)
    ensures
        r == (a@ == b@),
{
    a.to_owned() == b.to_owned()
}

fn matches_at(s: &Vec<char>, i: usize, pat: &Vec<char>) -> (r: bool)
    requires
        i + pat@.len() <= s@.len(),
    ensures
        r == has_at(s@, i as int, pat@),
{
    let n = pat.len();
    let len = s.len();
    let mut k: usize = 0;
    while k < n
        invariant
            n == pat@.len(),
            len == s@.len(),
            i + n <= len,
            k <= n,
            forall|j: int| 0 <= j < k ==> s@[i + j] == pat@[j],
        decreases n - k,
    {
        if s[i + k] != pat[k] {
            assert(s@.subrange(i as int, i + n)[k as int] == s@[i + k]);
            return false;
        }
        k += 1;
    }
    assert(s@.subrange(i as int, i + n) == pat@);
    true
}

/// Whether `pat` occurs in `s`.
pub fn str_contains(s: &str, pat: &str) -> (r: bool)
    ensures
        r == contains_text(s@, pat@),
{
    let cs = chars_of(s);
    let ps = chars_of(pat);
    if ps.len() > cs.len() {
        return false;
    }
    let last: usize = cs.len() - ps.len();
    let mut i: usize = 0;
    while i <= last
        invariant
            cs@ == s@,
            ps@ == pat@,
            last == cs@.len() - ps@.len(),
            i <= last + 1,
            forall|j: int| 0 <= j < i ==> !has_at(s@, j, pat@),
        decreases last + 1 - i,
    {
        if matches_at(&cs, i, &ps) {
            return true;
        }
        if i == last {
            assert forall|j: int| !has_at(s@, j, pat@) by {
                if has_at(s@, j, pat@) {
                    assert(0 <= j <= last);
                }
            }
            return false;
        }
        i += 1;
    }
    false
}

/// Whether `s` starts with `pat`.
pub fn str_starts_with(s: &str, pat: &str) -> (r: bool)
    ensures
        r == starts_with(s@, pat@),
{
    let cs = chars_of(s);
    let ps = chars_of(pat);
    ps.len() <= cs.len() && matches_at(&cs, 0, &ps)
}

/// Whether `s` ends with `pat`.
pub fn str_ends_with(s: &str, pat: &str) -> (r: bool)
    ensures
        r == ends_with(s@, pat@),
{
    let cs = chars_of(s);
    let ps = chars_of(pat);
    ps.len() <= cs.len() && matches_at(&cs, cs.len() - ps.len(), &ps)
}

/// The text from position `from` on.
pub fn str_skip<'a>(s: &'a str, from: usize) -> (r: &'a str)
    requires
        from <= s@.len(),
    ensures
        r@ == s@.skip(from as int),
{
    let n = s.unicode_len();
    s.substring_char(from, n)
}

/// The text before position `to`.
pub fn str_take<'a>(s: &'a str, to: usize) -> (r: &'a str)
    requires
        to <= s@.len(),
    ensures
        r@ == s@.take(to as int),
{
    s.substring_char(0, to)
}

/// `s` without one copy of `pat` at its start, if there is one.
pub fn strip_prefix<'a>(s: &'a str, pat: &str) -> (r: Option<&'a str>)
    ensures
        match r {
            Some(rest) => starts_with(s@, pat@) && rest@ == s@.skip(pat@.len() as int),
            None => !starts_with(s@, pat@),
        },
{
    if str_starts_with(s, pat) {
        let n = pat.unicode_len();
        Some(str_skip(s, n))
    } else {
        None
    }
}

fn find_from(cs: &Vec<char>, from: usize, c: char) -> (r: usize)
    requires
        from <= cs@.len(),
    ensures
        from <= r <= cs@.len(),
        r == from + find(cs@.skip(from as int), c),
{
    let n = cs.len();
    let mut i: usize = from;
    while i < n && cs[i] != c
        invariant
            n == cs@.len(),
            from <= i <= n,
            forall|j: int| from <= j < i ==> cs@[j] != c,
        decreases n - i,
    {
        i += 1;
    }
    proof {
        let rest = cs@.skip(from as int);
        assert forall|j: int| 0 <= j < i - from implies rest[j] != c by {
            assert(rest[j] == cs@[from + j]);
        }
        lemma_find_is(rest, c, i - from);
    }
    i
}

/// Splits at the first `c`.
pub fn split_once<'a>(s: &'a str, c: char) -> (r: Option<(&'a str, &'a str)>)
    ensures
        match r {
            Some((a, b)) => cut(s@, c) == Some((a@, b@)),
            None => cut(s@, c) is None,
        },
{
    let cs = chars_of(s);
    let i = find_from(&cs, 0, c);
    assert(cs@.skip(0) == s@);
    if i < cs.len() {
        Some((str_take(s, i), str_skip(s, i + 1)))
    } else {
        None
    }
}

/// The position of the last `c`.
pub fn str_rfind(s: &str, c: char) -> (r: Option<usize>)
    ensures
        match r {
            Some(i) => i == rfind(s@, c) && i < s@.len() <= usize::MAX,
            None => rfind(s@, c) == -1,
        },
{
    let cs = chars_of(s);
    let mut i: usize = cs.len();
    proof {
        lemma_rfind(s@, c);
    }
    while i > 0
        invariant
            cs@ == s@,
            i <= cs@.len(),
            forall|j: int| i <= j < cs@.len() ==> cs@[j] != c,
            cs@.len() <= usize::MAX,
            -1 <= rfind(s@, c) < s@.len(),
            forall|j: int| rfind(s@, c) < j < s@.len() ==> s@[j] != c,
            rfind(s@, c) >= 0 ==> s@[rfind(s@, c)] == c,
        decreases i,
    {
        i -= 1;
        if cs[i] == c {
            return Some(i);
        }
    }
    None
}

/// `s` without the copies of `pat` at its start.
pub fn trim_start_matches<'a>(s: &'a str, pat: &str) -> (r: &'a str)
    ensures
        r@ == without_prefixes(s@, pat@),
{
    let cs = chars_of(s);
    let ps = chars_of(pat);
    let n = ps.len();
    let len = cs.len();
    let mut i: usize = 0;
    assert(s@.skip(0) == s@);
    if n > 0 {
        while n <= len - i && matches_at(&cs, i, &ps)
            invariant
                cs@ == s@,
                ps@ == pat@,
                n == ps@.len(),
                len == cs@.len(),
                n > 0,
                i <= len,
                without_prefixes(s@, pat@) == without_prefixes(s@.skip(i as int), pat@),
            decreases len - i,
        {
            proof {
                let t = s@.skip(i as int);
                assert(t.subrange(0, n as int) == s@.subrange(i as int, i + n));
                assert(starts_with(t, pat@));
                assert(t.skip(n as int) == s@.skip(i + n));
            }
            i += n;
        }
        proof {
            let t = s@.skip(i as int);
            if starts_with(t, pat@) {
                assert(t.subrange(0, n as int) == s@.subrange(i as int, i + n));
            }
        }
    }
    str_skip(s, i)
}

/// `s` without the copies of `pat` at its end.
pub fn trim_end_matches<'a>(s: &'a str, pat: &str) -> (r: &'a str)
    ensures
        r@ == without_suffixes(s@, pat@),
{
    let cs = chars_of(s);
    let ps = chars_of(pat);
    let n = ps.len();
    let mut i: usize = cs.len();
    assert(s@.take(i as int) == s@);
    if n > 0 {
        while n <= i && matches_at(&cs, i - n, &ps)
            invariant
                cs@ == s@,
                ps@ == pat@,
                n == ps@.len(),
                n > 0,
                i <= cs@.len(),
                without_suffixes(s@, pat@) == without_suffixes(s@.take(i as int), pat@),
            decreases i,
        {
            proof {
                let t = s@.take(i as int);
                assert(t.subrange(i - n, i as int) == s@.subrange(i - n, i as int));
                assert(ends_with(t, pat@));
                assert(t.take(i - n) == s@.take(i - n));
            }
            i -= n;
        }
        proof {
            let t = s@.take(i as int);
            if ends_with(t, pat@) {
                assert(t.subrange(i - n, i as int) == s@.subrange(i - n, i as int));
            }
        }
    }
    str_take(s, i)
}

/// `s` without white characters at its start.
pub fn str_trim_start<'a>(s: &'a str) -> (r: &'a str)
    ensures
        r@ == trim_start(s@),
{
    let cs = chars_of(s);
    let n = cs.len();
    let mut i: usize = 0;
    while i < n && cs[i].is_whitespace()
        invariant
            cs@ == s@,
            n == cs@.len(),
            i <= n,
            forall|j: int| 0 <= j < i ==> is_white(cs@[j]),
        decreases n - i,
    {
        i += 1;
    }
    proof {
        lemma_white_run(s@);
    }
    str_skip(s, i)
}

/// `s` without white characters at either end.
pub fn str_trim<'a>(s: &'a str) -> (r: &'a str)
    ensures
        r@ == trim(s@),
{
    let t = str_trim_start(s);
    let cs = chars_of(t);
    let mut i: usize = cs.len();
    while i > 0 && cs[i - 1].is_whitespace()
        invariant
            cs@ == t@,
            i <= cs@.len(),
            forall|j: int| i <= j < cs@.len() ==> is_white(cs@[j]),
        decreases i,
    {
        i -= 1;
    }
    proof {
        lemma_trim_end_is(t@, i as int);
    }
    str_take(t, i)
}

/// The lines of `s`.
pub fn str_lines<'a>(s: &'a str) -> (r: Vec<&'a str>)
    ensures
        slices(r@) == lines(s@),
{
    let cs = chars_of(s);
    let n = cs.len();
    let mut out: Vec<&'a str> = Vec::new();
    let mut pos: usize = 0;
    assert(s@.skip(0) == s@);
    assert(slices(out@) + lines(s@) == lines(s@));
    while pos < n
        invariant
            cs@ == s@,
            n == cs@.len(),
            pos <= n,
            slices(out@) + lines(s@.skip(pos as int)) == lines(s@),
        decreases n - pos,
    {
        let i = find_from(&cs, pos, '\n');
        let ghost rest = s@.skip(pos as int);
        let ghost before = slices(out@);
        if i < n {
            let end: usize = if i > pos && cs[i - 1] == '\r' {
                i - 1
            } else {
                i
            };
            let piece = s.substring_char(pos, end);
            out.push(piece);
            proof {
                assert(rest.take(i - pos) == s@.subrange(pos as int, i as int));
                assert(piece@ == without_return(rest.take(i - pos)));
                assert(rest.skip(i - pos + 1) == s@.skip(i + 1));
                assert(slices(out@) == before.push(piece@));
                assert(before.push(piece@) + lines(s@.skip(i + 1)) == before + (seq![piece@]
                    + lines(s@.skip(i + 1))));
            }
            pos = i + 1;
        } else {
            let piece = str_skip(s, pos);
            out.push(piece);
            proof {
                assert(slices(out@) == before.push(piece@));
                assert(before.push(piece@) == before + seq![piece@]);
                assert(lines(s@.skip(n as int)) == Seq::<Seq<char>>::empty());
                assert(slices(out@) + lines(s@.skip(n as int)) == slices(out@));
            }
            pos = n;
        }
    }
    assert(slices(out@) + lines(s@.skip(pos as int)) == slices(out@));
    out
}

/// The words of `s`: its maximal runs without white characters.
pub fn str_words<'a>(s: &'a str) -> (r: Vec<&'a str>)
    ensures
        slices(r@) == words(s@),
{
    let cs = chars_of(s);
    let n = cs.len();
    let mut out: Vec<&'a str> = Vec::new();
    let mut pos: usize = 0;
    assert(s@.skip(0) == s@);
    assert(slices(out@) + words(s@) == words(s@));
    while pos < n
        invariant
            cs@ == s@,
            n == cs@.len(),
            pos <= n,
            slices(out@) + words(s@.skip(pos as int)) == words(s@),
        decreases n - pos,
    {
        let ghost rest = s@.skip(pos as int);
        let ghost before = slices(out@);
        let mut i: usize = pos;
        while i < n && cs[i].is_whitespace()
            invariant
                cs@ == s@,
                n == cs@.len(),
                pos <= i <= n,
                forall|j: int| pos <= j < i ==> is_white(cs@[j]),
            decreases n - i,
        {
            i += 1;
        }
        proof {
            lemma_white_run(rest);
            assert forall|j: int| 0 <= j < i - pos implies is_white(rest[j]) by {
                assert(rest[j] == cs@[pos + j]);
            }
            assert(i < n ==> rest[i - pos] == cs@[i as int]);
            assert(white_run(rest) == i - pos);
            assert(trim_start(rest) == s@.skip(i as int));
        }
        let ghost t = s@.skip(i as int);
        let mut k: usize = i;
        while k < n && !cs[k].is_whitespace()
            invariant
                cs@ == s@,
                n == cs@.len(),
                i <= k <= n,
                forall|j: int| i <= j < k ==> !is_white(cs@[j]),
            decreases n - k,
        {
            k += 1;
        }
        proof {
            lemma_word_run(t);
            assert forall|j: int| 0 <= j < k - i implies !is_white(t[j]) by {
                assert(t[j] == cs@[i + j]);
            }
            assert(k < n ==> t[k - i] == cs@[k as int]);
            assert(word_run(t) == k - i);
        }
        if i < n {
            let piece = s.substring_char(i, k);
            out.push(piece);
            proof {
                assert(t.take(k - i) == piece@);
                assert(t.skip(k - i) == s@.skip(k as int));
                assert(slices(out@) == before.push(piece@));
                assert(before.push(piece@) + words(s@.skip(k as int)) == before + (seq![piece@]
                    + words(s@.skip(k as int))));
                assert(k > pos) by {
                    assert(!is_white(t[0]));
                }
            }
        } else {
            proof {
                assert(words(rest) == Seq::<Seq<char>>::empty());
                assert(trim_start(s@.skip(n as int)).len() == 0) by {
                    lemma_white_run(s@.skip(n as int));
                }
                assert(words(s@.skip(n as int)) == Seq::<Seq<char>>::empty());
            }
        }
        pos = k;
    }
    proof {
        lemma_white_run(s@.skip(pos as int));
        assert(words(s@.skip(pos as int)) == Seq::<Seq<char>>::empty());
        assert(slices(out@) + words(s@.skip(pos as int)) == slices(out@));
    }
    out
}

/// The pieces of `s` between the copies of `c`.
pub fn str_split<'a>(s: &'a str, c: char) -> (r: Vec<&'a str>)
    ensures
        slices(r@) == split(s@, c),
        r@.len() > 0,
{
    let cs = chars_of(s);
    let n = cs.len();
    let mut out: Vec<&'a str> = Vec::new();
    let mut pos: usize = 0;
    assert(s@.skip(0) == s@);
    assert(slices(out@) + split(s@, c) == split(s@, c));
    loop
        invariant
            cs@ == s@,
            n == cs@.len(),
            pos <= n,
            slices(out@) + split(s@.skip(pos as int), c) == split(s@, c),
        decreases n - pos,
    {
        let i = find_from(&cs, pos, c);
        let ghost rest = s@.skip(pos as int);
        let ghost before = slices(out@);
        let piece = s.substring_char(pos, i);
        out.push(piece);
        assert(slices(out@) == before.push(piece@));
        if i < n {
            proof {
                assert(rest.take(i - pos) == piece@);
                assert(rest.skip(i - pos + 1) == s@.skip(i + 1));
                assert(before.push(piece@) + split(s@.skip(i + 1), c) == before + (seq![piece@]
                    + split(s@.skip(i + 1), c)));
            }
            pos = i + 1;
        } else {
            proof {
                assert(piece@ == rest);
                assert(before.push(piece@) == before + seq![piece@]);
            }
            return out;
        }
    }
}

/// The strings of `list` with `sep` between neighbours.
pub fn join(list: &Vec<String>, sep: &str) -> (r: String)
    ensures
        r@ == joined(texts(list@), sep@),
{
    let mut out = String::new();
    let n = list.len();
    let mut i: usize = 0;
    let ghost all = texts(list@);
    assert(all.take(0) == Seq::<Seq<char>>::empty());
    while i < n
        invariant
            n == list@.len(),
            i <= n,
            all == texts(list@),
            out@ == joined(all.take(i as int), sep@),
        decreases n - i,
    {
        proof {
            assert(all.take(i + 1) == all.take(i as int).push(all[i as int]));
            lemma_joined_push(all.take(i as int), sep@, all[i as int]);
        }
        if i > 0 {
            out.append(sep);
        }
        out.append(list[i].as_str());
        i += 1;
    }
    assert(all.take(n as int) == all);
    out
}

/// A copy of a list of strings.
pub fn clone_strings(list: &Vec<String>) -> (r: Vec<String>)
    ensures
        texts(r@) == texts(list@),
        r@.len() == list@.len(),
{
    let r = list.clone();
    assert forall|i: int| 0 <= i < list@.len() implies texts(r@)[i] == texts(list@)[i] by {
        assert(cloned::<String>(list@[i], r@[i]));
    }
    assert(texts(r@) == texts(list@));
    r
}

/// One digit as a string.
fn digit_text(d: u64) -> (r: &'static str)
    requires
        d < 10,
    ensures
        r@ == seq![digit_char(d as int)],
{
    proof {
        reveal_strlit("0");
        reveal_strlit("1");
        reveal_strlit("2");
        reveal_strlit("3");
        reveal_strlit("4");
        reveal_strlit("5");
        reveal_strlit("6");
        reveal_strlit("7");
        reveal_strlit("8");
        reveal_strlit("9");
    }
    if d == 0 {
        "0"
    } else if d == 1 {
        "1"
    } else if d == 2 {
        "2"
    } else if d == 3 {
        "3"
    } else if d == 4 {
        "4"
    } else if d == 5 {
        "5"
    } else if d == 6 {
        "6"
    } else if d == 7 {
        "7"
    } else if d == 8 {
        "8"
    } else {
        "9"
    }
}

/// A number in decimal notation.
pub fn u64_text(n: u64) -> (r: String)
    ensures
        r@ == decimal(n as nat),
    decreases n,
{
    if n < 10 {
        digit_text(n).to_owned()
    } else {
        let head = u64_text(n / 10);
        let r = head.concat(digit_text(n % 10));
        assert(r@ == decimal((n / 10) as nat).push(digit_char((n % 10) as int)));
        r
    }
}

proof fn lemma_digits_value_prefix(s: Seq<char>, n: int)
    requires
        0 <= n <= s.len(),
    ensures
        digits_value(s.take(n)) <= digits_value(s),
    decreases s.len() - n,
{
    if n < s.len() {
        lemma_digits_value_prefix(s, n + 1);
        assert(s.take(n + 1).drop_last() == s.take(n));
    } else {
        assert(s.take(n) == s);
    }
}

/// Reads an unsigned number: an optional plus sign and decimal digits.
pub fn parse_u64(s: &str) -> (r: Option<u64>)
    ensures
        r == parsed_u64(s@),
{
    let cs = chars_of(s);
    let n = cs.len();
    let start: usize = if n > 0 && cs[0] == '+' {
        1
    } else {
        0
    };
    let ghost digits = s@.skip(start as int);
    assert(s@.skip(0) == s@);
    if start == n {
        return None;
    }
    let mut value: u64 = 0;
    let mut i: usize = start;
    assert(digits.take(0) == Seq::<char>::empty());
    while i < n
        invariant
            cs@ == s@,
            n == cs@.len(),
            start <= i <= n,
            start < n,
            digits == s@.skip(start as int),
            parsed_u64(s@) == unsigned_value(digits),
            forall|j: int| start <= j < i ==> is_digit(cs@[j]),
            value == digits_value(digits.take(i - start)),
        decreases n - i,
    {
        let c = cs[i];
        assert(digits[i - start] == c);
        if c < '0' || c > '9' {
            return None;
        }
        let d: u64 = (c as u32 - '0' as u32) as u64;
        proof {
            assert(digits.take(i - start + 1).drop_last() == digits.take(i - start));
            lemma_digits_value_prefix(digits, i - start + 1);
            assert(digits_value(digits.take(i - start + 1)) == value * 10 + d);
        }
        if value > (u64::MAX - d) / 10 {
            return None;
        }
        value = value * 10 + d;
        i += 1;
    }
    proof {
        assert(digits.take(digits.len() as int) == digits);
        assert forall|k: int| 0 <= k < digits.len() implies is_digit(digits[k]) by {
            assert(digits[k] == cs@[start + k]);
        }
    }
    Some(value)
}

/// Whether `a` stands before `b` in the order of their characters.
pub fn str_lt(a: &str, b: &str) -> (r: bool)
    ensures
        r == text_lt(a@, b@),
{
    let x = chars_of(a);
    let y = chars_of(b);
    let mut i: usize = 0;
    assert(a@.skip(0) == a@ && b@.skip(0) == b@);
    loop
        invariant
            x@ == a@,
            y@ == b@,
            i <= x@.len(),
            i <= y@.len(),
            text_lt(a@, b@) == text_lt(a@.skip(i as int), b@.skip(i as int)),
        decreases x@.len() - i,
    {
        if i >= y.len() {
            return false;
        }
        if i >= x.len() {
            return true;
        }
        if x[i] != y[i] {
            return x[i] < y[i];
        }
        proof {
            assert(a@.skip(i as int).skip(1) == a@.skip(i + 1));
            assert(b@.skip(i as int).skip(1) == b@.skip(i + 1));
        }
        i += 1;
    }
}

/// The text in lower case.
pub uninterp spec fn lowercase(s: Seq<char>) -> Seq<char>;

/// An ASCII character in lower case.
pub open spec fn ascii_lower(c: char) -> char {
    if 'A' <= c <= 'Z' {
        (c as u32 + 32) as char
    } else {
        c
    }
}

/// `str::to_lowercase`: the text in lower case by Unicode's rules, under the name
/// `lowercase`. Of ASCII text it changes the letters A to Z to a to z and nothing else.
#[verifier::external_body]
pub(crate) fn to_lowercase(s: &str) -> (r: String)
    ensures
        r@ == lowercase(s@),
        vstd::utf8::is_ascii_chars(s@) ==> r@ == s@.map_values(|c: char| ascii_lower(c)),
{
    s.to_lowercase()
}

/// Borrowed views of owned strings.
pub fn as_slices<'a>(list: &'a Vec<String>) -> (r: Vec<&'a str>)
    ensures
        slices(r@) == texts(list@),
{
    let mut r: Vec<&'a str> = Vec::new();
    let n = list.len();
    let mut i: usize = 0;
    while i < n
        invariant
            n == list@.len(),
            i <= n,
            slices(r@) == texts(list@).take(i as int),
        decreases n - i,
    {
        let ghost before = slices(r@);
        r.push(list[i].as_str());
        assert(slices(r@) == before.push(texts(list@)[i as int]));
        i += 1;
    }
    assert(texts(list@).take(n as int) == texts(list@));
    r
}

/// Owned copies of slices.
pub fn to_strings(list: &Vec<&str>) -> (r: Vec<String>)
    ensures
        texts(r@) == slices(list@),
{
    let mut r: Vec<String> = Vec::new();
    let n = list.len();
    let mut i: usize = 0;
    while i < n
        invariant
            n == list@.len(),
            i <= n,
            texts(r@) == slices(list@).take(i as int),
        decreases n - i,
    {
        let ghost before = texts(r@);
        r.push(list[i].to_owned());
        assert(texts(r@) == before.push(slices(list@)[i as int]));
        i += 1;
    }
    assert(slices(list@).take(n as int) == slices(list@));
    r
}

/// Whether a list of texts holds a text.
pub fn contains_string(list: &Vec<String>, s: &str) -> (r: bool)
    ensures
        r == texts(list@).contains(s@),
{
    let n = list.len();
    let mut i: usize = 0;
    while i < n
        invariant
            n == list@.len(),
            i <= n,
            forall|k: int| 0 <= k < i ==> #[trigger] texts(list@)[k] != s@,
        decreases n - i,
    {
        assert(texts(list@)[i as int] == list@[i as int]@);
        if str_eq(list[i].as_str(), s) {
            return true;
        }
        i += 1;
    }
    false
}

// ---------------------------------------------------------------------------
// Laws
// ---------------------------------------------------------------------------
/// Trimming takes white characters off both ends, all of them, and nothing else.
pub proof fn trimming_takes_white_off(s: &str, r: &str) -> (i: int)
    requires
        call_ensures(str_trim, (s,), r),
    ensures
        0 <= i,
        i + r@.len() <= s@.len(),
        s@.subrange(i, i + r@.len()) == r@,
        forall|j: int|
            0 <= j < i || i + r@.len() <= j < s@.len() ==> is_white(#[trigger] s@[j]),
        r@.len() > 0 ==> !is_white(r@[0]) && !is_white(r@.last()),
{
    let t = trim_start(s@);
    lemma_white_run(s@);
    lemma_trim_end(t);
    lemma_trim_ends(s@);
    let i = white_run(s@);
    let n = r@.len() as int;
    assert(s@.subrange(i, i + n) =~= t.take(n));
    assert forall|j: int| 0 <= j < i || i + n <= j < s@.len() implies is_white(
        #[trigger] s@[j],
    ) by {
        if j >= i + n {
            assert(t[j - i] == s@[j]);
        }
    }
    i
}

/// The white characters are those of Unicode: of ASCII, the space and what lies between the tab and
/// the carriage return.
pub proof fn white_characters(c: char)
    requires
        c <= '\u{7f}',
    ensures
        is_white(c) <==> c == ' ' || '\u{9}' <= c <= '\u{d}',
{
}

proof fn lemma_joined_front(list: Seq<Seq<char>>, sep: Seq<char>)
    requires
        list.len() >= 2,
    ensures
        joined(list, sep) == list[0] + sep + joined(list.skip(1), sep),
    decreases list.len(),
{
    let rest = list.skip(1);
    if list.len() == 2 {
        assert(list.drop_last().len() == 1 && list.drop_last()[0] == list[0]);
        assert(joined(list.drop_last(), sep) == list[0]);
        assert(rest.len() == 1 && rest[0] == list[1] && list.last() == list[1]);
        assert(joined(rest, sep) == list[1]);
    } else {
        lemma_joined_front(list.drop_last(), sep);
        assert(list.drop_last().skip(1) =~= rest.drop_last());
        assert(rest.last() == list.last());
        assert(joined(list, sep) =~= list[0] + sep + joined(rest, sep));
    }
}

proof fn lemma_split_joins(s: Seq<char>, c: char, i: int)
    ensures
        split(s, c).len() > 0,
        joined(split(s, c), seq![c]) == s,
        0 <= i < split(s, c).len() ==> !split(s, c)[i].contains(c),
    decreases s.len(),
{
    lemma_find(s, c);
    let at = find(s, c);
    if at < s.len() {
        let rest = s.skip(at + 1);
        lemma_split_joins(rest, c, i - 1);
        let all = split(s, c);
        assert(all.skip(1) =~= split(rest, c));
        lemma_joined_front(all, seq![c]);
        assert(s =~= s.take(at) + seq![c] + rest);
        if 0 < i < all.len() {
            assert(all[i] == split(rest, c)[i - 1]);
        }
    }
}

/// A text is the pieces it splits into, with the character that parts them between neighbours, and
/// no piece holds that character.
pub proof fn pieces_make_the_text(s: &str, c: char, r: Vec<&str>, i: int)
    requires
        call_ensures(str_split, (s, c), r),
    ensures
        r@.len() > 0,
        joined(slices(r@), seq![c]) == s@,
        0 <= i < r@.len() ==> !r@[i]@.contains(c),
{
    lemma_split_joins(s@, c, i);
    assert(slices(r@).len() == r@.len());
    if 0 <= i < r@.len() {
        assert(slices(r@)[i] == r@[i]@);
    }
}

proof fn lemma_lines_join(s: Seq<char>, i: int)
    ensures
        !s.contains('\r') ==> ({
            let all = joined(lines(s), seq!['\n']);
            all == s || all.push('\n') == s
        }),
        s.len() > 0 ==> lines(s).len() > 0,
        0 <= i < lines(s).len() ==> !lines(s)[i].contains('\n'),
    decreases s.len(),
{
    lemma_find(s, '\n');
    let at = find(s, '\n');
    if s.len() > 0 && at < s.len() {
        let rest = s.skip(at + 1);
        let first = without_return(s.take(at));
        lemma_lines_join(rest, i - 1);
        let all = lines(s);
        assert(all.skip(1) =~= lines(rest));
        assert(s =~= s.take(at) + seq!['\n'] + rest);
        if 0 < i < all.len() {
            assert(all[i] == lines(rest)[i - 1]);
        }
        if i == 0 && first.contains('\n') {
            let k = choose|k: int| 0 <= k < first.len() && first[k] == '\n';
            assert(s[k] == '\n');
        }
        if !s.contains('\r') {
            if at > 0 && s.take(at).last() == '\r' {
                assert(s[at - 1] == '\r');
            }
            assert(first == s.take(at));
            if rest.contains('\r') {
                let k = choose|k: int| 0 <= k < rest.len() && rest[k] == '\r';
                assert(s[at + 1 + k] == '\r');
            }
            if lines(rest).len() == 0 {
                assert(rest.len() == 0);
                assert(all =~= seq![first]);
                assert(joined(all, seq!['\n']).push('\n') =~= s);
            } else {
                lemma_joined_front(all, seq!['\n']);
                let told = joined(lines(rest), seq!['\n']);
                if told == rest {
                    assert(joined(all, seq!['\n']) =~= s);
                } else {
                    assert(joined(all, seq!['\n']).push('\n') =~= first + seq!['\n'] + told.push(
                        '\n',
                    ));
                }
            }
        }
    }
}

/// No line holds a newline, and the lines of a text without carriage returns, joined by newlines,
/// are the text, but for a newline at its very end.
pub proof fn lines_make_the_text(s: &str, r: Vec<&str>, i: int)
    requires
        call_ensures(str_lines, (s,), r),
    ensures
        !s@.contains('\r') ==> joined(slices(r@), seq!['\n']) == s@ || joined(
            slices(r@),
            seq!['\n'],
        ).push('\n') == s@,
        0 <= i < r@.len() ==> !r@[i]@.contains('\n'),
{
    lemma_lines_join(s@, i);
    assert(slices(r@).len() == r@.len());
    if 0 <= i < r@.len() {
        assert(slices(r@)[i] == r@[i]@);
    }
}

proof fn lemma_words(s: Seq<char>, i: int)
    ensures
        joined(words(s), Seq::empty()) == s.filter(|c: char| !is_white(c)),
        0 <= i < words(s).len() ==> words(s)[i].len() > 0 && forall|j: int|
            0 <= j < words(s)[i].len() ==> !is_white(#[trigger] words(s)[i][j]),
    decreases s.len(),
{
    let dark = |c: char| !is_white(c);
    let none = Seq::<char>::empty();
    lemma_white_run(s);
    let n = white_run(s);
    let t = trim_start(s);
    lemma_filter_parts(s.take(n), t);
    assert(s =~= s.take(n) + t);
    assert(s.take(n).filter(dark) =~= none) by {
        lemma_filter_all(s.take(n), false);
    }
    if t.len() == 0 {
        assert(t.filter(dark) =~= none) by {
            lemma_filter_all(t, false);
        }
    } else {
        lemma_word_run(t);
        let m = word_run(t);
        let word = t.take(m);
        let rest = t.skip(m);
        lemma_words(rest, i - 1);
        lemma_filter_parts(word, rest);
        lemma_filter_all(word, true);
        assert(t =~= word + rest);
        let all = words(s);
        assert(all.skip(1) =~= words(rest));
        if words(rest).len() > 0 {
            lemma_joined_front(all, none);
            assert(joined(all, none) =~= word + joined(words(rest), none));
        } else {
            assert(all =~= seq![word]);
            assert(joined(words(rest), none) == none);
            assert(word + rest.filter(dark) =~= word);
        }
        if 0 < i < all.len() {
            assert(all[i] == words(rest)[i - 1]);
        }
    }
}

proof fn lemma_filter_parts(a: Seq<char>, b: Seq<char>)
    ensures
        (a + b).filter(|c: char| !is_white(c)) == a.filter(|c: char| !is_white(c)) + b.filter(
            |c: char| !is_white(c),
        ),
{
    Seq::filter_distributes_over_add(a, b, |c: char| !is_white(c));
}

proof fn lemma_filter_all(s: Seq<char>, keep: bool)
    requires
        forall|j: int| 0 <= j < s.len() ==> is_white(#[trigger] s[j]) == !keep,
    ensures
        s.filter(|c: char| !is_white(c)) == if keep {
            s
        } else {
            Seq::empty()
        },
    decreases s.len(),
{
    reveal(Seq::filter);
    if s.len() > 0 {
        assert forall|j: int| 0 <= j < s.drop_last().len() implies is_white(
            #[trigger] s.drop_last()[j],
        ) == !keep by {
            assert(s.drop_last()[j] == s[j]);
        }
        lemma_filter_all(s.drop_last(), keep);
        assert(s =~= s.drop_last().push(s.last()));
    }
}

/// The words of a text hold everything in it but the white characters, in its order; none is empty
/// and none holds a white character.
pub proof fn words_hold_the_text(s: &str, r: Vec<&str>, i: int)
    requires
        call_ensures(str_words, (s,), r),
    ensures
        joined(slices(r@), Seq::empty()) == s@.filter(|c: char| !is_white(c)),
        0 <= i < r@.len() ==> r@[i]@.len() > 0 && forall|j: int|
            0 <= j < r@[i]@.len() ==> !is_white(#[trigger] r@[i]@[j]),
{
    lemma_words(s@, i);
    assert(slices(r@).len() == r@.len());
    if 0 <= i < r@.len() {
        assert(slices(r@)[i] == r@[i]@);
    }
}

proof fn lemma_decimal(n: nat)
    ensures
        decimal(n).len() > 0,
        forall|i: int| 0 <= i < decimal(n).len() ==> is_digit(#[trigger] decimal(n)[i]),
        digits_value(decimal(n)) == n,
    decreases n,
{
    let last = if n < 10 {
        n as int
    } else {
        (n % 10) as int
    };
    assert(0 <= last < 10);
    assert((('0' as u32) + last) <= '9' as u32);
    assert(digit_char(last) as u32 == ('0' as u32) + last);
    if n < 10 {
        assert(decimal(n).last() == digit_char(last));
        assert(decimal(n).drop_last().len() == 0);
        assert(digits_value(decimal(n).drop_last()) == 0);
    } else {
        lemma_decimal(n / 10);
        assert(decimal(n).drop_last() =~= decimal(n / 10));
        assert(decimal(n).last() == digit_char(last));
        assert forall|i: int| 0 <= i < decimal(n).len() implies is_digit(
            #[trigger] decimal(n)[i],
        ) by {
            if i < decimal(n / 10).len() {
                assert(decimal(n)[i] == decimal(n / 10)[i]);
            }
        }
    }
}

/// Every number reads back from its text, also behind a plus sign.
pub proof fn number_reads_back(n: u64, shown: String, s: &str, read: Option<u64>)
    requires
        call_ensures(u64_text, (n,), shown),
        s@ == shown@ || s@ == seq!['+'] + shown@,
        call_ensures(parse_u64, (s,), read),
    ensures
        read == Some(n),
{
    lemma_decimal(n as nat);
    assert(is_digit(decimal(n as nat)[0]));
    assert((seq!['+'] + shown@).skip(1) =~= shown@);
}

/// What is read as a number holds nothing but digits, but for a plus sign at its start.
pub proof fn only_digits_are_numbers(s: &str, read: Option<u64>, i: int)
    requires
        call_ensures(parse_u64, (s,), read),
        read is Some,
        0 <= i < s@.len(),
    ensures
        '0' <= s@[i] <= '9' || i == 0 && s@[0] == '+',
{
    if s@[0] == '+' && i > 0 {
        assert(s@.skip(1)[i - 1] == s@[i]);
        assert(is_digit(s@.skip(1)[i - 1]));
    } else if s@[0] != '+' {
        assert(is_digit(s@[i]));
    }
}

/// A text is cut at the first of a character, which neither half keeps; where the character does
/// not occur, it is not cut.
pub proof fn cut_at_the_first(s: &str, c: char, r: Option<(&str, &str)>)
    requires
        call_ensures(split_once, (s, c), r),
    ensures
        r is Some <==> s@.contains(c),
        r matches Some((a, b)) ==> s@ == a@.push(c) + b@ && !a@.contains(c),
{
    lemma_find(s@, c);
    let i = find(s@, c);
    if i < s@.len() {
        assert(s@[i] == c);
        assert(s@ =~= s@.take(i).push(c) + s@.skip(i + 1));
        if s@.take(i).contains(c) {
            let k = choose|k: int| 0 <= k < i && s@.take(i)[k] == c;
            assert(s@[k] == c);
        }
    } else if s@.contains(c) {
        let k = choose|k: int| 0 <= k < s@.len() && s@[k] == c;
    }
}

/// The position that is found is that of the last of a character.
pub proof fn last_one_is_found(s: &str, c: char, r: Option<usize>, j: int)
    requires
        call_ensures(str_rfind, (s, c), r),
    ensures
        r is Some <==> s@.contains(c),
        r matches Some(i) ==> i < s@.len() && s@[i as int] == c && (i < j < s@.len() ==> s@[j]
            != c),
{
    lemma_rfind(s@, c);
    if s@.contains(c) {
        let k = choose|k: int| 0 <= k < s@.len() && s@[k] == c;
        assert(s@[k] == c);
    }
}

/// Texts are ordered by the first character in which they differ, and a text comes before what it
/// is the beginning of.
pub proof fn order_goes_by_the_first_difference(a: &str, b: &str, r: bool, i: int)
    requires
        call_ensures(str_lt, (a, b), r),
        0 <= i <= a@.len(),
        i <= b@.len(),
        a@.take(i) == b@.take(i),
    ensures
        i < a@.len() && i < b@.len() && a@[i] != b@[i] ==> r == (a@[i] < b@[i]),
        i == a@.len() ==> r == (i < b@.len()),
        i == b@.len() ==> !r,
{
    lemma_order(a@, b@, i);
}

proof fn lemma_order(a: Seq<char>, b: Seq<char>, i: int)
    requires
        0 <= i <= a.len(),
        i <= b.len(),
        a.take(i) == b.take(i),
    ensures
        i < a.len() && i < b.len() && a[i] != b[i] ==> text_lt(a, b) == (a[i] < b[i]),
        i == a.len() ==> text_lt(a, b) == (i < b.len()),
        i == b.len() ==> !text_lt(a, b),
    decreases i,
{
    if i > 0 {
        assert(a.take(i)[0] == a[0] && b.take(i)[0] == b[0]);
        assert(a.skip(1).take(i - 1) =~= a.take(i).skip(1));
        assert(b.skip(1).take(i - 1) =~= b.take(i).skip(1));
        lemma_order(a.skip(1), b.skip(1), i - 1);
        if i < a.len() {
            assert(a.skip(1)[i - 1] == a[i]);
        }
        if i < b.len() {
            assert(b.skip(1)[i - 1] == b[i]);
        }
    }
}

/// A list with one more text joins to what the list joins to, the separator and that text; one text
/// alone joins to itself.
pub proof fn joining_goes_on(
    list: Vec<String>,
    sep: &str,
    r: String,
    longer: Vec<String>,
    next: Seq<char>,
    s: String,
)
    requires
        call_ensures(join, (&list, sep), r),
        call_ensures(join, (&longer, sep), s),
        texts(longer@) == texts(list@).push(next),
    ensures
        list@.len() == 0 ==> r@.len() == 0 && s@ == next,
        list@.len() > 0 ==> s@ == r@ + sep@ + next,
{
    assert(texts(list@).len() == list@.len());
    assert(texts(longer@).drop_last() =~= texts(list@));
}

/// What is trimmed off the start of a text are copies of the pattern, one after the other, as long as
/// there is one more.
pub proof fn copies_are_taken_off_the_start(s: &str, pat: &str, r: &str, t: &str, u: &str)
    requires
        pat@.len() > 0,
        call_ensures(trim_start_matches, (s, pat), r),
        t@ == pat@ + s@,
        call_ensures(trim_start_matches, (t, pat), u),
    ensures
        u@ == r@,
        !starts_with(r@, pat@),
        !starts_with(s@, pat@) ==> r@ == s@,
{
    assert(t@.subrange(0, pat@.len() as int) =~= pat@);
    assert(t@.skip(pat@.len() as int) =~= s@);
    lemma_no_prefix(s@, pat@);
}

proof fn lemma_no_prefix(s: Seq<char>, pat: Seq<char>)
    requires
        pat.len() > 0,
    ensures
        !starts_with(without_prefixes(s, pat), pat),
    decreases s.len(),
{
    if starts_with(s, pat) {
        lemma_no_prefix(s.skip(pat.len() as int), pat);
    }
}

/// What is trimmed off the end of a text are copies of the pattern, one after the other, as long as
/// there is one more.
pub proof fn copies_are_taken_off_the_end(s: &str, pat: &str, r: &str, t: &str, u: &str)
    requires
        pat@.len() > 0,
        call_ensures(trim_end_matches, (s, pat), r),
        t@ == s@ + pat@,
        call_ensures(trim_end_matches, (t, pat), u),
    ensures
        u@ == r@,
        !ends_with(r@, pat@),
        !ends_with(s@, pat@) ==> r@ == s@,
{
    let n = t@.len() as int;
    assert(t@.subrange(n - pat@.len(), n) =~= pat@);
    assert(t@.take(n - pat@.len()) =~= s@);
    lemma_no_suffix(s@, pat@);
}

proof fn lemma_no_suffix(s: Seq<char>, pat: Seq<char>)
    requires
        pat.len() > 0,
    ensures
        !ends_with(without_suffixes(s, pat), pat),
    decreases s.len(),
{
    if ends_with(s, pat) {
        lemma_no_suffix(s.take(s.len() - pat.len()), pat);
    }
}

/// A text holds a pattern exactly where it is something, the pattern and something.
pub proof fn held_patterns_are_found(s: &str, pat: &str, r: bool, p: Option<&str>)
    requires
        call_ensures(str_contains, (s, pat), r),
        call_ensures(strip_prefix, (s, pat), p),
    ensures
        r <==> exists|a: Seq<char>, b: Seq<char>| s@ == #[trigger] (a + pat@ + b),
        p matches Some(rest) ==> s@ == pat@ + rest@,
        p is None ==> forall|b: Seq<char>| s@ != #[trigger] (pat@ + b),
{
    if r {
        let i = choose|i: int| has_at(s@, i, pat@);
        let a = s@.take(i);
        let b = s@.skip(i + pat@.len());
        assert(s@ =~= a + pat@ + b);
    }
    if exists|a: Seq<char>, b: Seq<char>| s@ == #[trigger] (a + pat@ + b) {
        let (a, b) = choose|a: Seq<char>, b: Seq<char>| s@ == #[trigger] (a + pat@ + b);
        lemma_contains_middle(a, pat@, b);
    }
    if let Some(rest) = p {
        assert(s@ =~= pat@ + rest@);
    } else {
        assert forall|b: Seq<char>| s@ != #[trigger] (pat@ + b) by {
            if s@ == pat@ + b {
                assert(s@.subrange(0, pat@.len() as int) =~= pat@);
            }
        }
    }
}

/// Nothing is left of a text by trimming exactly where it holds white characters only.
pub proof fn lemma_blank(s: Seq<char>)
    ensures
        trim(s).len() > 0 <==> exists|i: int| 0 <= i < s.len() && !is_white(#[trigger] s[i]),
{
    lemma_white_run(s);
    let t = trim_start(s);
    lemma_trim_end(t);
    let n = white_run(s);
    if trim(s).len() > 0 {
        assert(t[trim(s).len() - 1] == trim(s).last());
        assert(s[n + trim(s).len() - 1] == trim(s).last());
    }
    if exists|i: int| 0 <= i < s.len() && !is_white(#[trigger] s[i]) {
        let i = choose|i: int| 0 <= i < s.len() && !is_white(#[trigger] s[i]);
        assert(i >= n);
        assert(t[i - n] == s[i]);
    }
}

proof fn lemma_regroup(a: Seq<char>, b: Seq<char>, c: Seq<char>, d: Seq<char>)
    ensures
        (a + b) + c + d == a + (b + c + d) + Seq::<char>::empty(),
        (a + b) + c + d == a + b + (c + d),
        a.len() == 0 ==> b + c + d == a + b + (c + d),
{
    assert((a + b) + c + d =~= a + (b + c + d) + Seq::<char>::empty());
    assert((a + b) + c + d =~= a + b + (c + d));
    if a.len() == 0 {
        assert(b + c + d =~= a + b + (c + d));
    }
}

/// Neighbours stand in a joined list with nothing but the separator between them.
pub proof fn lemma_neighbours_joined(list: Seq<Seq<char>>, sep: Seq<char>, i: int)
    requires
        0 <= i < list.len() - 1,
    ensures
        contains_text(joined(list, sep), list[i] + sep + list[i + 1]),
    decreases list.len(),
{
    let first = list.drop_last();
    let last = list.last();
    let pair = list[i] + sep + list[i + 1];
    let none = Seq::<char>::empty();
    assert(list =~= first.push(last));
    lemma_joined_push(first, sep, last);
    let front = joined(first, sep);
    if i + 1 < first.len() {
        lemma_neighbours_joined(first, sep, i);
        assert(first[i] == list[i] && first[i + 1] == list[i + 1]);
        lemma_regroup(none, front, sep, last);
        lemma_contains_inside(none, front, sep + last, pair);
    } else {
        let rest = first.drop_last();
        assert(first =~= rest.push(list[i]));
        assert(last == list[i + 1]);
        lemma_joined_push(rest, sep, list[i]);
        let before = if rest.len() == 0 {
            none
        } else {
            joined(rest, sep) + sep
        };
        assert(front =~= before + list[i]);
        lemma_regroup(before, list[i], sep, last);
        lemma_contains_middle(before, pair, none);
    }
}

/// The first line of a text ends at its first newline, and a carriage return right before that is
/// no part of it. The lines that follow are those of what stands behind the newline.
pub proof fn first_line_ends_at_the_first_newline(
    s: &str,
    first: Seq<char>,
    returns: bool,
    rest: &str,
    r: Vec<&str>,
    after: Vec<&str>,
    i: int,
)
    requires
        !first.contains('\n'),
        first.len() > 0 && !returns ==> first.last() != '\r',
        s@ == first + (if returns {
            seq!['\r', '\n']
        } else {
            seq!['\n']
        }) + rest@,
        call_ensures(str_lines, (s,), r),
        call_ensures(str_lines, (rest,), after),
    ensures
        r@.len() == after@.len() + 1,
        r@[0]@ == first,
        0 <= i < after@.len() ==> r@[i + 1]@ == after@[i]@,
{
    let line = if returns {
        first.push('\r')
    } else {
        first
    };
    let n = line.len() as int;
    lemma_find(s@, '\n');
    let at = find(s@, '\n');
    assert(s@ =~= line + seq!['\n'] + rest@);
    assert(s@[n] == '\n');
    if at < n {
        assert(s@[at] == line[at]);
        assert(at < first.len());
        assert(first.contains(first[at]));
    }
    assert(at == n);
    assert(s@.take(n) =~= line);
    assert(s@.skip(n + 1) =~= rest@);
    assert(without_return(line) =~= first);
    let all = slices(r@);
    let others = slices(after@);
    assert(all.len() == r@.len() && others.len() == after@.len());
    assert(all[0] == r@[0]@);
    if 0 <= i < after@.len() {
        assert(all[i + 1] == r@[i + 1]@);
        assert(others[i] == after@[i]@);
    }
}

/// What ends in two parts holds both together.
pub proof fn lemma_contains_last_two(head: Seq<char>, glue: Seq<char>, a: Seq<char>, b: Seq<char>)
    ensures
        contains_text(head + glue + a + b, a + b),
{
    let start = head + glue;
    let none = Seq::<char>::empty();
    lemma_regroup(start, a, b, none);
    assert(start + a + b + none =~= start + a + b);
    assert(a + b + none =~= a + b);
    lemma_contains_middle(start, a + b, none);
}

/// What stands in the middle part of a text stands in the text.
pub proof fn lemma_stands_inside(
    before: Seq<char>,
    mid: Seq<char>,
    after: Seq<char>,
    i: int,
    pat: Seq<char>,
)
    requires
        has_at(mid, i, pat) || (i == 0 && mid == pat),
    ensures
        has_at(before + mid + after, before.len() + i, pat),
{
    let whole = before + mid + after;
    let at = before.len() + i;
    assert(mid.subrange(0, mid.len() as int) =~= mid);
    assert(whole.subrange(at, at + pat.len()) =~= mid.subrange(i, i + pat.len()));
}

/// Two texts are the same exactly where they hold the same characters. A text starts with a pattern
/// where something follows it, and ends with one where something precedes it.
pub proof fn texts_are_held_against_each_other(
    s: &str,
    pat: &str,
    same: bool,
    starts: bool,
    ends: bool,
)
    requires
        call_ensures(str_eq, (s, pat), same),
        call_ensures(str_starts_with, (s, pat), starts),
        call_ensures(str_ends_with, (s, pat), ends),
    ensures
        same <==> s@ == pat@,
        starts <==> exists|b: Seq<char>| s@ == #[trigger] (pat@ + b),
        ends <==> exists|a: Seq<char>| s@ == #[trigger] (a + pat@),
{
    let n = pat@.len() as int;
    let m = s@.len() - n;
    if starts {
        assert(s@ =~= pat@ + s@.skip(n));
    }
    if exists|b: Seq<char>| s@ == #[trigger] (pat@ + b) {
        let b = choose|b: Seq<char>| s@ == #[trigger] (pat@ + b);
        assert(s@.subrange(0, n) =~= pat@);
    }
    if ends {
        assert(s@ =~= s@.take(m) + pat@);
    }
    if exists|a: Seq<char>| s@ == #[trigger] (a + pat@) {
        let a = choose|a: Seq<char>| s@ == #[trigger] (a + pat@);
        assert(s@.subrange(m, s@.len() as int) =~= pat@);
    }
}

/// What stands before a position and what stands from it on make the text.
pub proof fn halves_make_the_text(s: &str, at: usize, head: &str, tail: &str)
    requires
        at <= s@.len(),
        call_ensures(str_take, (s, at), head),
        call_ensures(str_skip, (s, at), tail),
    ensures
        s@ == head@ + tail@,
        head@.len() == at,
{
    assert(s@ =~= head@ + tail@);
}

/// Trimming the start takes white characters off there, all of them, and nothing else.
pub proof fn start_is_trimmed(s: &str, r: &str) -> (i: int)
    requires
        call_ensures(str_trim_start, (s,), r),
    ensures
        0 <= i <= s@.len(),
        r@ == s@.skip(i),
        forall|j: int| 0 <= j < i ==> is_white(#[trigger] s@[j]),
        r@.len() > 0 ==> !is_white(r@[0]),
{
    lemma_white_run(s@);
    white_run(s@)
}

/// A copied list holds the same texts in the same order, owned or borrowed.
pub proof fn copied_lists_hold_the_same(
    list: Vec<String>,
    copy: Vec<String>,
    borrowed: Vec<&str>,
    owned: Vec<String>,
    i: int,
)
    requires
        call_ensures(clone_strings, (&list,), copy),
        call_ensures(as_slices, (&list,), borrowed),
        call_ensures(to_strings, (&borrowed,), owned),
    ensures
        copy@.len() == list@.len(),
        borrowed@.len() == list@.len(),
        owned@.len() == list@.len(),
        0 <= i < list@.len() ==> copy@[i]@ == list@[i]@ && borrowed@[i]@ == list@[i]@
            && owned@[i]@ == list@[i]@,
{
    assert(texts(list@).len() == list@.len() && texts(copy@).len() == copy@.len());
    assert(slices(borrowed@).len() == borrowed@.len() && texts(owned@).len() == owned@.len());
    if 0 <= i < list@.len() {
        assert(texts(list@)[i] == list@[i]@ && texts(copy@)[i] == copy@[i]@);
        assert(slices(borrowed@)[i] == borrowed@[i]@ && texts(owned@)[i] == owned@[i]@);
    }
}

/// A list holds a text exactly where it stands at one of its positions.
pub proof fn listed_text_is_found(list: Vec<String>, s: &str, r: bool)
    requires
        call_ensures(contains_string, (&list, s), r),
    ensures
        r <==> exists|i: int| 0 <= i < list@.len() && (#[trigger] list@[i])@ == s@,
{
    let all = texts(list@);
    assert(all.len() == list@.len());
    if r {
        let i = all.index_of(s@);
        assert(all[i] == list@[i]@);
    }
    if exists|i: int| 0 <= i < list@.len() && (#[trigger] list@[i])@ == s@ {
        let i = choose|i: int| 0 <= i < list@.len() && (#[trigger] list@[i])@ == s@;
        assert(all[i] == s@);
    }
}

/// What stands before the last two parts of a text stands in it.
pub proof fn lemma_contains_third_last(x: Seq<char>, y: Seq<char>, c: Seq<char>, d: Seq<char>)
    ensures
        contains_text(x + y + c + d, y),
{
    lemma_regroup(x, y, c, d);
    lemma_contains_middle(x, y, c + d);
}

/// The end of the part before the last stands in a text together with the last.
pub proof fn lemma_contains_split_tail(
    s: Seq<char>,
    c: Seq<char>,
    start: Seq<char>,
    end: Seq<char>,
    d: Seq<char>,
)
    requires
        c == start + end,
    ensures
        contains_text(s + c + d, end + d),
{
    assert(s + (start + end) =~= s + start + end);
    lemma_contains_last_two(s, start, end, d);
}

} // verus!
