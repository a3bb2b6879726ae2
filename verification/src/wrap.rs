//! Breaking text into lines.
use crate::text;
use unicode_segmentation::UnicodeSegmentation;
use vstd::prelude::*;

verus! {

/// How wide text is on a screen.
pub trait VisualWidth {
    /// How many columns the text takes.
    spec fn columns(&self, s: Seq<char>) -> nat;

    /// How many columns the text takes.
    fn visual_width(&self, s: &str) -> (w: usize)
        ensures
            w == self.columns(s@),
    ;
}

/// One column for every character.
#[derive(Debug, Clone, Copy)]
pub struct CharColumns;

impl VisualWidth for CharColumns {
    open spec fn columns(&self, s: Seq<char>) -> nat {
        s.len()
    }

    fn visual_width(&self, s: &str) -> (w: usize) {
        s.unicode_len()
    }
}

/// The pieces of a text between its word boundaries.
pub uninterp spec fn word_bounds(s: Seq<char>) -> Seq<Seq<char>>;

/// `UnicodeSegmentation::split_word_bounds`: the pieces of a text between the word
/// boundaries of UAX #29, under the name `word_bounds`. One after the other they are the
/// text; where the boundaries lie is not stated.
#[verifier::external_body]
fn split_word_bounds<'a>(s: &'a str) -> (r: Vec<&'a str>)
    ensures
        text::slices(r@) == word_bounds(s@),
        text::joined(text::slices(r@), Seq::empty()) == s@,
{
    s.split_word_bounds().collect()
}

/// The lines so far, and the one that is being filled.
#[verifier::ext_equal]
pub struct Filling {
    pub lines: Seq<Seq<char>>,
    pub current: Seq<char>,
}

/// The lines after all words: a word that does not fit starts a line of its own, without its
/// leading white space.
pub open spec fn filled<W: VisualWidth>(w: &W, words: Seq<Seq<char>>, max_width: nat) -> Filling
    decreases words.len(),
{
    if words.len() == 0 {
        Filling { lines: Seq::empty(), current: Seq::empty() }
    } else {
        let before = filled(w, words.drop_last(), max_width);
        let word = words.last();
        if w.columns(before.current) + w.columns(word) > max_width {
            Filling {
                lines: before.lines.push(before.current),
                current: text::trim_start(word),
            }
        } else {
            Filling { lines: before.lines, current: before.current + word }
        }
    }
}

/// All lines, with the last one where it is not empty.
pub open spec fn all_lines(f: Filling) -> Seq<Seq<char>> {
    if f.current.len() > 0 {
        f.lines.push(f.current)
    } else {
        f.lines
    }
}

/// A text broken into lines between these words.
pub open spec fn wrapped_words<W: VisualWidth>(
    w: &W,
    words: Seq<Seq<char>>,
    max_width: nat,
) -> Seq<char> {
    text::joined(all_lines(filled(w, words, max_width)), "\n"@)
}

/// A text broken into lines.
pub open spec fn wrapped<W: VisualWidth>(w: &W, s: Seq<char>, max_width: nat) -> Seq<char> {
    if w.columns(s) <= max_width {
        s
    } else {
        wrapped_words(w, word_bounds(s), max_width)
    }
}

/// Breaks a text into lines between the given words.
pub fn wrap_words<W: VisualWidth>(w: &W, words: &Vec<&str>, max_width: usize) -> (r: String)
    ensures
        r@ == wrapped_words(w, text::slices(words@), max_width as nat),
{
    let mut lines: Vec<String> = Vec::new();
    let mut current = String::new();
    let n = words.len();
    let mut i: usize = 0;
    let ghost all = text::slices(words@);
    assert(all.take(0) =~= Seq::<Seq<char>>::empty());
    assert(text::texts(lines@) =~= Seq::<Seq<char>>::empty());
    assert(current@ =~= Seq::<char>::empty());
    while i < n
        invariant
            n == words@.len(),
            i <= n,
            all == text::slices(words@),
            text::texts(lines@) == filled(w, all.take(i as int), max_width as nat).lines,
            current@ == filled(w, all.take(i as int), max_width as nat).current,
        decreases n - i,
    {
        let word = words[i];
        proof {
            assert(all.take(i + 1).drop_last() == all.take(i as int));
            assert(all.take(i + 1).last() == word@);
        }
        let held = w.visual_width(current.as_str());
        let more = w.visual_width(word);
        if held > max_width || more > max_width - held {
            let ghost before = text::texts(lines@);
            lines.push(current.clone());
            assert(text::texts(lines@) == before.push(current@));
            current = text::str_trim_start(word).to_owned();
        } else {
            current = current.concat(word);
        }
        i += 1;
    }
    assert(all.take(n as int) == all);
    if !current.as_str().is_empty() {
        let ghost before = text::texts(lines@);
        let ghost last = current@;
        lines.push(current);
        assert(text::texts(lines@) == before.push(last));
    }
    text::join(&lines, "\n")
}

/// Breaks a text into lines at word boundaries. A text that fits is left as it is, and no
/// text loses more than white space.
pub fn wrap<W: VisualWidth>(w: &W, s: &str, max_width: usize) -> (r: String)
    ensures
        r@ == wrapped(w, s@, max_width as nat),
        dark(r@) == dark(s@),
{
    if w.visual_width(s) <= max_width {
        return s.to_owned();
    }
    let words = split_word_bounds(s);
    proof {
        wrapping_keeps_the_text(w, text::slices(words@), max_width as nat);
    }
    wrap_words(w, &words, max_width)
}

// ---------------------------------------------------------------------------
// Wrapping changes white space only
// ---------------------------------------------------------------------------
/// The characters that are not white.
pub open spec fn dark(s: Seq<char>) -> Seq<char> {
    s.filter(|c: char| !text::is_white(c))
}

/// The dark characters of a list of texts, one after the other.
pub open spec fn dark_of(list: Seq<Seq<char>>) -> Seq<char>
    decreases list.len(),
{
    if list.len() == 0 {
        Seq::empty()
    } else {
        dark_of(list.drop_last()) + dark(list.last())
    }
}

proof fn lemma_dark_concat(a: Seq<char>, b: Seq<char>)
    ensures
        dark(a + b) == dark(a) + dark(b),
{
    Seq::filter_distributes_over_add(a, b, |c: char| !text::is_white(c));
}

proof fn lemma_dark_white(c: char)
    requires
        text::is_white(c),
    ensures
        dark(seq![c]) == Seq::<char>::empty(),
{
    reveal(Seq::filter);
    let one = seq![c];
    assert(one.drop_last() =~= Seq::<char>::empty());
    assert(dark(Seq::<char>::empty()) =~= Seq::<char>::empty());
    assert(dark(one.drop_last()) =~= Seq::<char>::empty());
    assert(one.last() == c);
}

proof fn lemma_dark_white_run(s: Seq<char>)
    ensures
        0 <= text::white_run(s) <= s.len(),
        dark(s.skip(text::white_run(s))) == dark(s),
    decreases s.len(),
{
    if s.len() > 0 && text::is_white(s[0]) {
        let rest = s.skip(1);
        lemma_dark_white_run(rest);
        assert(rest.skip(text::white_run(rest)) == s.skip(text::white_run(s)));
        assert(s =~= seq![s[0]] + rest);
        lemma_dark_concat(seq![s[0]], rest);
        lemma_dark_white(s[0]);
        assert(dark(s) =~= dark(rest));
    } else {
        assert(s.skip(0) =~= s);
    }
}

proof fn lemma_dark_joined(list: Seq<Seq<char>>, sep: Seq<char>)
    requires
        dark(sep) == Seq::<char>::empty(),
    ensures
        dark(text::joined(list, sep)) == dark_of(list),
    decreases list.len(),
{
    reveal(Seq::filter);
    if list.len() == 0 {
        assert(dark(Seq::<char>::empty()) =~= Seq::<char>::empty());
    } else {
        let init = list.drop_last();
        lemma_dark_joined(init, sep);
        assert(init.push(list.last()) =~= list);
        text::lemma_joined_push(init, sep, list.last());
        if init.len() == 0 {
            assert(dark_of(init) =~= Seq::<char>::empty());
            assert(dark_of(list) =~= dark(list.last()));
        } else {
            let head = text::joined(init, sep);
            lemma_dark_concat(head + sep, list.last());
            lemma_dark_concat(head, sep);
            assert(dark(head) + Seq::<char>::empty() =~= dark(head));
        }
    }
}

proof fn lemma_dark_filled<W: VisualWidth>(w: &W, words: Seq<Seq<char>>, max_width: nat)
    ensures
        ({
            let f = filled(w, words, max_width);
            dark_of(f.lines) + dark(f.current) == dark_of(words)
        }),
    decreases words.len(),
{
    reveal(Seq::filter);
    if words.len() == 0 {
        assert(dark(Seq::<char>::empty()) =~= Seq::<char>::empty());
        let f = filled(w, words, max_width);
        assert(dark_of(f.lines) + dark(f.current) =~= Seq::<char>::empty());
    } else {
        let init = words.drop_last();
        let word = words.last();
        lemma_dark_filled(w, init, max_width);
        let before = filled(w, init, max_width);
        if w.columns(before.current) + w.columns(word) > max_width {
            lemma_dark_white_run(word);
            assert(before.lines.push(before.current).drop_last() =~= before.lines);
            assert(dark(text::trim_start(word)) == dark(word));
        } else {
            lemma_dark_concat(before.current, word);
            assert(dark_of(before.lines) + (dark(before.current) + dark(word)) =~= (dark_of(
                before.lines,
            ) + dark(before.current)) + dark(word));
        }
    }
}

/// Breaking a text into lines changes white space only: every other character stays, in its
/// order.
pub proof fn wrapping_keeps_the_text<W: VisualWidth>(
    w: &W,
    words: Seq<Seq<char>>,
    max_width: nat,
)
    ensures
        dark(wrapped_words(w, words, max_width)) == dark(text::joined(words, Seq::empty())),
{
    let f = filled(w, words, max_width);
    lemma_dark_filled(w, words, max_width);
    reveal(Seq::filter);
    reveal_strlit("\n");
    let newline = "\n"@;
    assert(newline =~= seq!['\n']);
    lemma_dark_white('\n');
    lemma_dark_joined(all_lines(f), newline);
    assert(dark(Seq::<char>::empty()) =~= Seq::<char>::empty());
    lemma_dark_joined(words, Seq::empty());
    if f.current.len() > 0 {
        assert(f.lines.push(f.current).drop_last() =~= f.lines);
    } else {
        assert(f.current =~= Seq::<char>::empty());
        assert(dark_of(f.lines) + Seq::<char>::empty() =~= dark_of(f.lines));
    }
}

// ---------------------------------------------------------------------------
// Lines fit
// ---------------------------------------------------------------------------
/// Two texts side by side take no more columns than they take apart, and no text takes none.
pub open spec fn adds_up<W: VisualWidth>(w: &W) -> bool {
    &&& w.columns(Seq::empty()) == 0
    &&& forall|a: Seq<char>, b: Seq<char>| #[trigger]
        w.columns(a + b) <= w.columns(a) + w.columns(b)
}

/// The line is narrow enough, or a single word that starts a line.
pub open spec fn fits<W: VisualWidth>(
    w: &W,
    words: Seq<Seq<char>>,
    max_width: nat,
    line: Seq<char>,
) -> bool {
    ||| w.columns(line) <= max_width
    ||| exists|k: int| 0 <= k < words.len() && line == text::trim_start(#[trigger] words[k])
}

proof fn lemma_filled_fits<W: VisualWidth>(w: &W, words: Seq<Seq<char>>, max_width: nat)
    requires
        adds_up(w),
    ensures
        fits(w, words, max_width, filled(w, words, max_width).current),
        forall|i: int|
            0 <= i < filled(w, words, max_width).lines.len() ==> fits(
                w,
                words,
                max_width,
                #[trigger] filled(w, words, max_width).lines[i],
            ),
    decreases words.len(),
{
    if words.len() > 0 {
        let shorter = words.drop_last();
        lemma_filled_fits(w, shorter, max_width);
        let before = filled(w, shorter, max_width);
        let now = filled(w, words, max_width);
        assert forall|line: Seq<char>| fits(w, shorter, max_width, line) implies fits(
            w,
            words,
            max_width,
            line,
        ) by {
            if w.columns(line) > max_width {
                let k = choose|k: int|
                    0 <= k < shorter.len() && line == text::trim_start(#[trigger] shorter[k]);
                assert(line == text::trim_start(words[k]));
            }
        }
        assert forall|i: int| 0 <= i < now.lines.len() implies fits(
            w,
            words,
            max_width,
            #[trigger] now.lines[i],
        ) by {
            if i < before.lines.len() {
                assert(now.lines[i] == before.lines[i]);
            } else {
                assert(now.lines[i] == before.current);
            }
        }
        assert(words[words.len() - 1] == words.last());
    }
}

/// No line of a text that was broken is wider than allowed, unless it is a single word.
pub proof fn broken_lines_fit<W: VisualWidth>(w: &W, words: Seq<Seq<char>>, max_width: nat, i: int)
    requires
        adds_up(w),
        0 <= i < all_lines(filled(w, words, max_width)).len(),
    ensures
        fits(w, words, max_width, all_lines(filled(w, words, max_width))[i]),
{
    lemma_filled_fits(w, words, max_width);
    let f = filled(w, words, max_width);
    if i < f.lines.len() {
        assert(all_lines(f)[i] == f.lines[i]);
    }
}

/// Characters that take a column each add up.
pub proof fn char_columns_add_up(w: &CharColumns)
    ensures
        adds_up(w),
{
}

/// A text that fits is left as it is; of every other only white space changes.
pub proof fn text_that_fits_stays<W: VisualWidth>(w: &W, s: &str, max_width: usize, r: String)
    requires
        call_ensures(wrap::<W>, (w, s, max_width), r),
    ensures
        w.columns(s@) <= max_width ==> r@ == s@,
        r@.filter(|c: char| !text::is_white(c)) == s@.filter(|c: char| !text::is_white(c)),
{
}

/// Lines are broken only where they have to be: as long as every word fits behind those before it,
/// the words make one line.
pub proof fn words_that_fit_make_one_line<W: VisualWidth>(
    w: &W,
    words: Vec<&str>,
    max_width: usize,
    r: String,
)
    requires
        call_ensures(wrap_words::<W>, (w, &words, max_width), r),
        forall|i: int|
            0 <= i < words@.len() ==> w.columns(
                text::joined(text::slices(words@).take(i), Seq::empty()),
            ) + w.columns((#[trigger] words@[i])@) <= max_width,
    ensures
        r@ == text::joined(text::slices(words@), Seq::empty()),
{
    let all = text::slices(words@);
    assert(all.len() == words@.len());
    assert forall|i: int| 0 <= i < all.len() implies w.columns(
        text::joined(all.take(i), Seq::empty()),
    ) + w.columns(#[trigger] all[i]) <= max_width by {
        assert(all[i] == words@[i]@);
    }
    lemma_one_line(w, all, max_width as nat, all.len() as int);
    assert(all.take(all.len() as int) =~= all);
    let f = filled(w, all, max_width as nat);
    let line = text::joined(all, Seq::empty());
    if line.len() > 0 {
        assert(all_lines(f) =~= seq![line]);
    } else {
        assert(all_lines(f) =~= Seq::<Seq<char>>::empty());
        assert(line =~= Seq::<char>::empty());
    }
}

proof fn lemma_one_line<W: VisualWidth>(w: &W, words: Seq<Seq<char>>, max_width: nat, n: int)
    requires
        0 <= n <= words.len(),
        forall|i: int|
            0 <= i < words.len() ==> w.columns(text::joined(words.take(i), Seq::empty()))
                + w.columns(#[trigger] words[i]) <= max_width,
    ensures
        filled(w, words.take(n), max_width).lines == Seq::<Seq<char>>::empty(),
        filled(w, words.take(n), max_width).current == text::joined(words.take(n), Seq::empty()),
    decreases n,
{
    let none = Seq::<char>::empty();
    if n > 0 {
        lemma_one_line(w, words, max_width, n - 1);
        let before = words.take(n - 1);
        assert(words.take(n).drop_last() =~= before);
        assert(words.take(n).last() == words[n - 1]);
        assert(words.take(n) =~= before.push(words[n - 1]));
        text::lemma_joined_push(before, none, words[n - 1]);
        assert(text::joined(before, none) + none =~= text::joined(before, none));
        if before.len() == 0 {
            assert(text::joined(before, none) + words[n - 1] =~= words[n - 1]);
        }
    }
}

} // verus!
