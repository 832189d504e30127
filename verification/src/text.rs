//! Word-level text handling: whitespace splitting, joining and case folding.
use vstd::prelude::*;
use vstd::string::*;

verus! {

/// Whether `c` has the Unicode `White_Space` property.
pub open spec fn is_space(c: char) -> bool {
    ||| ('\u{9}' <= c && c <= '\u{d}')
    ||| c == ' '
    ||| c == '\u{85}'
    ||| c == '\u{a0}'
    ||| c == '\u{1680}'
    ||| ('\u{2000}' <= c && c <= '\u{200a}')
    ||| c == '\u{2028}'
    ||| c == '\u{2029}'
    ||| c == '\u{202f}'
    ||| c == '\u{205f}'
    ||| c == '\u{3000}'
}

/// Splitting state after reading `s`: the words completed so far and the
/// word being read (empty right after a space).
pub open spec fn split_state(s: Seq<char>) -> (Seq<Seq<char>>, Seq<char>)
    decreases s.len(),
{
    if s.len() == 0 {
        (Seq::empty(), Seq::empty())
    } else {
        let (done, cur) = split_state(s.drop_last());
        let c = s.last();
        if is_space(c) {
            if cur.len() > 0 {
                (done.push(cur), Seq::empty())
            } else {
                (done, Seq::empty())
            }
        } else {
            (done, cur.push(c))
        }
    }
}

/// The words of `s`: its maximal runs of non-whitespace characters, in order.
pub open spec fn words(s: Seq<char>) -> Seq<Seq<char>> {
    let (done, cur) = split_state(s);
    if cur.len() > 0 {
        done.push(cur)
    } else {
        done
    }
}

/// The words of `ws` separated by single spaces.
pub open spec fn join_words(ws: Seq<Seq<char>>) -> Seq<char>
    decreases ws.len(),
{
    if ws.len() == 0 {
        Seq::empty()
    } else if ws.len() == 1 {
        ws[0]
    } else {
        join_words(ws.drop_last()) + seq![' '] + ws.last()
    }
}

/// A proper word: non-empty and free of whitespace.
pub open spec fn is_word(w: Seq<char>) -> bool {
    &&& w.len() > 0
    &&& forall|i: int| 0 <= i < w.len() ==> !is_space(#[trigger] w[i])
}

/// Text whose only whitespace characters are single spaces between two
/// non-whitespace characters.
pub open spec fn is_normalized(s: Seq<char>) -> bool {
    forall|i: int|
        0 <= i < s.len() && is_space(#[trigger] s[i]) ==> {
            &&& s[i] == ' '
            &&& 0 < i < s.len() - 1
            &&& !is_space(s[i - 1])
            &&& !is_space(s[i + 1])
        }
}

/// What `str::to_lowercase` returns for a string.
pub uninterp spec fn lowercase(s: Seq<char>) -> Seq<char>;

/// The lowercase form of each word.
pub open spec fn lowercase_all(ws: Seq<Seq<char>>) -> Seq<Seq<char>> {
    ws.map_values(|w: Seq<char>| lowercase(w))
}

/// Whether `c` is whitespace, as `char::is_whitespace` decides: the code
/// points with the Unicode `White_Space` property.
pub fn char_is_whitespace(c: char) -> (r: bool)
    ensures
        r == is_space(c),
{
    ('\u{9}' <= c && c <= '\u{d}') || c == ' ' || c == '\u{85}' || c == '\u{a0}' || c == '\u{1680}'
        || ('\u{2000}' <= c && c <= '\u{200a}') || c == '\u{2028}' || c == '\u{2029}' || c
        == '\u{202f}' || c == '\u{205f}' || c == '\u{3000}'
}

/// `String::push`: appends one character.
#[verifier::external_body]
pub(crate) fn push_char(s: &mut String, c: char)
    ensures
        final(s)@ == old(s)@.push(c),
{
    s.push(c)
}

/// An ASCII character in lowercase: `A` to `Z` become `a` to `z`, every
/// other character stays.
pub open spec fn ascii_lower(c: char) -> char {
    if 'A' <= c && c <= 'Z' {
        ((c as int) + 32) as char
    } else {
        c
    }
}

/// Whether every character of `s` is ASCII.
pub open spec fn all_ascii(s: Seq<char>) -> bool {
    forall|i: int| 0 <= i < s.len() ==> (#[trigger] s[i] as int) < 128
}

/// `str::to_lowercase`: the lowercase equivalent of the string under the
/// Unicode lowercase mapping. Its result is named `lowercase`; of the
/// mapping, only what it does to ASCII text is stated: each of `A` to `Z`
/// becomes the matching `a` to `z` and every other ASCII character stays,
/// one character for one. Beyond ASCII the mapping is left unstated.
#[verifier::external_body]
fn str_to_lowercase(s: &str) -> (r: String)
    ensures
        r@ == lowercase(s@),
        all_ascii(s@) ==> r@ == s@.map_values(|c: char| ascii_lower(c)),
{
    s.to_lowercase()
}

/// Whether two texts hold the same characters.
pub fn str_eq(a: &str, b: &str) -> (r: bool)
    ensures
        r == (a@ == b@),
{
    let x = chars_of(a);
    let y = chars_of(b);
    if x.len() != y.len() {
        return false;
    }
    let mut i: usize = 0;
    while i < x.len()
        invariant
            i <= x.len() == y.len(),
            x@ == a@,
            y@ == b@,
            forall|j: int| 0 <= j < i ==> x@[j] == y@[j],
        decreases x.len() - i,
    {
        if x[i] != y[i] {
            return false;
        }
        i = i + 1;
    }
    assert(x@ =~= y@);
    true
}

/// A fresh `String` holding the characters of `s`.
pub fn owned(s: &str) -> (r: String)
    ensures
        r@ == s@,
{
    String::from_str(s)
}

/// Splits `s` at whitespace into its words, as `str::split_whitespace` does.
pub fn split_words(s: &str) -> (ws: Vec<String>)
    ensures
        ws.deep_view() == words(s@),
{
    let mut done: Vec<String> = Vec::new();
    let mut cur = String::new();
    for c in it: s.chars()
        invariant
            it.seq() == s@,
            split_state(s@.take(it.index() as int)) == (done.deep_view(), cur@),
    {
        let ghost i = it.index() as int;
        assert(s@.take(i + 1).drop_last() =~= s@.take(i));
        assert(s@.take(i + 1).last() == c);
        if char_is_whitespace(c) {
            if !cur.as_str().is_empty() {
                let ghost old_done = done.deep_view();
                let w = cur;
                done.push(w);
                assert(done.deep_view() =~= old_done.push(w@));
                cur = String::new();
            } else {
                cur = String::new();
            }
        } else {
            push_char(&mut cur, c);
        }
    }
    assert(s@.take(s@.len() as int) =~= s@);
    if !cur.as_str().is_empty() {
        let ghost old_done = done.deep_view();
        let w = cur;
        done.push(w);
        assert(done.deep_view() =~= old_done.push(w@));
    }
    done
}

/// The words of `ws` from index `start` on, joined by single spaces, as
/// `[String]::join(" ")` does.
pub fn join_from(ws: &Vec<String>, start: usize) -> (r: String)
    requires
        start <= ws.len(),
    ensures
        r@ == join_words(ws.deep_view().skip(start as int)),
{
    let ghost all = ws.deep_view();
    let mut r = String::new();
    let mut i = start;
    assert(all.subrange(start as int, start as int) =~= Seq::<Seq<char>>::empty());
    while i < ws.len()
        invariant
            start <= i <= ws.len(),
            all == ws.deep_view(),
            r@ == join_words(all.subrange(start as int, i as int)),
        decreases ws.len() - i,
    {
        let ghost before = all.subrange(start as int, i as int);
        let ghost after = all.subrange(start as int, i + 1);
        assert(after.drop_last() =~= before);
        assert(after.last() == ws[i as int]@);
        if i > start {
            r.append(" ");
            proof {
                reveal_strlit(" ");
            }
        }
        r.append(ws[i].as_str());
        i = i + 1;
    }
    assert(all.subrange(start as int, ws.len() as int) =~= all.skip(start as int));
    r
}

/// The lowercase form of each word, as `str::to_lowercase` gives it.
pub fn lowercase_words(ws: &Vec<String>) -> (r: Vec<String>)
    ensures
        r.deep_view() == lowercase_all(ws.deep_view()),
        r.len() == ws.len(),
        forall|i: int|
            0 <= i < ws.len() && all_ascii(#[trigger] ws.deep_view()[i]) ==> lowercase(
                ws.deep_view()[i],
            ) == ws.deep_view()[i].map_values(|c: char| ascii_lower(c)),
{
    let mut r: Vec<String> = Vec::new();
    let mut i: usize = 0;
    while i < ws.len()
        invariant
            i <= ws.len(),
            r.deep_view() =~= lowercase_all(ws.deep_view().take(i as int)),
            r.len() == i,
            forall|j: int|
                0 <= j < i && all_ascii(#[trigger] ws.deep_view()[j]) ==> lowercase(
                    ws.deep_view()[j],
                ) == ws.deep_view()[j].map_values(|c: char| ascii_lower(c)),
        decreases ws.len() - i,
    {
        let l = str_to_lowercase(ws[i].as_str());
        let ghost before = r.deep_view();
        r.push(l);
        assert(r.deep_view() =~= before.push(l@));
        assert(ws.deep_view().take(i + 1) =~= ws.deep_view().take(i as int).push(ws[i as int]@));
        i = i + 1;
    }
    assert(ws.deep_view().take(ws.len() as int) =~= ws.deep_view());
    r
}

/// While splitting, every completed word is a proper word and the word
/// being read holds no whitespace.
proof fn lemma_split_state_words(s: Seq<char>)
    ensures
        forall|i: int| 0 <= i < split_state(s).0.len() ==> is_word(#[trigger] split_state(s).0[i]),
        forall|j: int| 0 <= j < split_state(s).1.len() ==> !is_space(#[trigger] split_state(s).1[j]),
    decreases s.len(),
{
    if s.len() > 0 {
        lemma_split_state_words(s.drop_last());
        let (done, cur) = split_state(s.drop_last());
        let c = s.last();
        if !is_space(c) {
            assert forall|j: int| 0 <= j < cur.push(c).len() implies !is_space(#[trigger] cur.push(c)[j]) by {
                if j < cur.len() {
                    assert(cur.push(c)[j] == cur[j]);
                }
            }
        } else if cur.len() > 0 {
            assert forall|i: int| 0 <= i < done.push(cur).len() implies is_word(#[trigger] done.push(cur)[i]) by {
                if i < done.len() {
                    assert(done.push(cur)[i] == done[i]);
                }
            }
        }
    }
}

/// Every word that splitting yields is non-empty and free of whitespace.
pub proof fn lemma_words_are_words(s: Seq<char>)
    ensures
        forall|i: int| 0 <= i < words(s).len() ==> is_word(#[trigger] words(s)[i]),
{
    lemma_split_state_words(s);
    let (done, cur) = split_state(s);
    if cur.len() > 0 {
        assert forall|i: int| 0 <= i < done.push(cur).len() implies is_word(#[trigger] done.push(cur)[i]) by {
            if i < done.len() {
                assert(done.push(cur)[i] == done[i]);
            }
        }
    }
}

/// Joining proper words yields normalized text that begins and ends with a
/// non-whitespace character (when there is at least one word).
pub proof fn lemma_join_normalized(ws: Seq<Seq<char>>)
    requires
        forall|i: int| 0 <= i < ws.len() ==> is_word(#[trigger] ws[i]),
    ensures
        is_normalized(join_words(ws)),
        ws.len() > 0 ==> join_words(ws).len() > 0,
        join_words(ws).len() > 0 ==> !is_space(join_words(ws)[0]) && !is_space(
            join_words(ws).last(),
        ),
    decreases ws.len(),
{
    if ws.len() == 1 {
        assert(is_word(ws[0]));
    } else if ws.len() > 1 {
        let init = ws.drop_last();
        assert forall|i: int| 0 <= i < init.len() implies is_word(#[trigger] init[i]) by {
            assert(init[i] == ws[i]);
        }
        lemma_join_normalized(init);
        let a = join_words(init);
        let w = ws.last();
        assert(is_word(w));
        let j = a + seq![' '] + w;
        assert(j == join_words(ws));
        assert forall|i: int| 0 <= i < j.len() && is_space(#[trigger] j[i]) implies {
            &&& j[i] == ' '
            &&& 0 < i < j.len() - 1
            &&& !is_space(j[i - 1])
            &&& !is_space(j[i + 1])
        } by {
            if i < a.len() {
                assert(j[i] == a[i]);
                assert(j[i - 1] == a[i - 1]);
                assert(j[i + 1] == a[i + 1]);
            } else if i == a.len() {
                assert(j[i - 1] == a.last());
                assert(j[i + 1] == w[0]);
            } else {
                assert(j[i] == w[i - a.len() - 1]);
            }
        }
        assert(j[0] == a[0]);
        assert(j.last() == w.last());
    }
}

/// Appending characters that are not whitespace extends the word being
/// read.
proof fn lemma_split_append_word_chars(s: Seq<char>, w: Seq<char>)
    requires
        forall|j: int| 0 <= j < w.len() ==> !is_space(#[trigger] w[j]),
    ensures
        split_state(s + w) == (split_state(s).0, split_state(s).1 + w),
    decreases w.len(),
{
    if w.len() == 0 {
        assert(s + w =~= s);
        assert(split_state(s).1 + w =~= split_state(s).1);
    } else {
        let w0 = w.drop_last();
        lemma_split_append_word_chars(s, w0);
        assert((s + w).drop_last() =~= s + w0);
        assert((s + w).last() == w.last());
        assert(split_state(s).1 + w0 + seq![w.last()] =~= split_state(s).1 + w);
        assert((split_state(s).1 + w0).push(w.last()) =~= split_state(s).1 + w);
    }
}

/// Appending text after a space appends its words.
proof fn lemma_split_after_space(s: Seq<char>, t: Seq<char>)
    ensures
        split_state(s.push(' ') + t) == (words(s) + split_state(t).0, split_state(t).1),
    decreases t.len(),
{
    if t.len() == 0 {
        assert(s.push(' ') + t =~= s.push(' '));
        assert(s.push(' ').drop_last() =~= s);
        assert(words(s) + Seq::<Seq<char>>::empty() =~= words(s));
    } else {
        let t0 = t.drop_last();
        lemma_split_after_space(s, t0);
        assert((s.push(' ') + t).drop_last() =~= s.push(' ') + t0);
        assert((s.push(' ') + t).last() == t.last());
        let (d0, c0) = split_state(t0);
        assert((words(s) + d0).push(c0) =~= words(s) + d0.push(c0));
    }
}

/// The words of two texts joined by a space are the words of the first
/// followed by the words of the second.
pub proof fn lemma_words_of_spaced_concat(s: Seq<char>, t: Seq<char>)
    ensures
        words(s.push(' ') + t) == words(s) + words(t),
{
    lemma_split_after_space(s, t);
    let (d, c) = split_state(t);
    if c.len() > 0 {
        assert((words(s) + d).push(c) =~= words(s) + d.push(c));
    }
}

/// Splitting the joined text of proper words gives the words back.
pub proof fn lemma_words_of_join(ws: Seq<Seq<char>>)
    requires
        forall|i: int| 0 <= i < ws.len() ==> is_word(#[trigger] ws[i]),
    ensures
        words(join_words(ws)) == ws,
    decreases ws.len(),
{
    if ws.len() == 0 {
        assert(words(Seq::<char>::empty()) =~= ws);
    } else if ws.len() == 1 {
        let w = ws[0];
        assert(is_word(w));
        lemma_split_append_word_chars(Seq::empty(), w);
        assert(Seq::<char>::empty() + w =~= w);
        assert(words(w) =~= seq![w]);
        assert(seq![w] =~= ws);
    } else {
        let init = ws.drop_last();
        assert forall|i: int| 0 <= i < init.len() implies is_word(#[trigger] init[i]) by {
            assert(init[i] == ws[i]);
        }
        lemma_words_of_join(init);
        let w = ws.last();
        assert(is_word(w));
        lemma_words_of_spaced_concat(join_words(init), w);
        lemma_split_append_word_chars(Seq::empty(), w);
        assert(Seq::<char>::empty() + w =~= w);
        assert(words(w) =~= seq![w]);
        assert(join_words(init).push(' ') + w =~= join_words(ws));
        assert(init + seq![w] =~= ws);
    }
}

/// Whether `a` comes before `b` in code-point order: the order of `str`
/// and `String` comparison, which for UTF-8 text is the order of the bytes.
pub open spec fn text_less(a: Seq<char>, b: Seq<char>) -> bool
    decreases a.len(),
{
    if a.len() == 0 {
        b.len() > 0
    } else if b.len() == 0 {
        false
    } else if a[0] != b[0] {
        (a[0] as int) < (b[0] as int)
    } else {
        text_less(a.drop_first(), b.drop_first())
    }
}

/// Text order is irreflexive and asymmetric.
pub proof fn lemma_text_less_asymmetric(a: Seq<char>, b: Seq<char>)
    ensures
        !(text_less(a, b) && text_less(b, a)),
        !text_less(a, a),
    decreases a.len(),
{
    if a.len() > 0 && b.len() > 0 && a[0] == b[0] {
        lemma_text_less_asymmetric(a.drop_first(), b.drop_first());
    }
    if a.len() > 0 {
        lemma_text_less_asymmetric(a.drop_first(), a.drop_first());
    }
}

/// Text order is total: of two different texts one comes first.
pub proof fn lemma_text_less_total(a: Seq<char>, b: Seq<char>)
    ensures
        a != b ==> text_less(a, b) || text_less(b, a),
    decreases a.len(),
{
    if a.len() > 0 && b.len() > 0 && a[0] == b[0] {
        lemma_text_less_total(a.drop_first(), b.drop_first());
        if a.drop_first() == b.drop_first() {
            assert(a =~= seq![a[0]] + a.drop_first());
            assert(b =~= seq![b[0]] + b.drop_first());
        }
    }
    if a.len() == 0 && b.len() == 0 {
        assert(a =~= b);
    }
}

/// Text order is transitive.
pub proof fn lemma_text_less_transitive(a: Seq<char>, b: Seq<char>, c: Seq<char>)
    requires
        text_less(a, b),
        text_less(b, c),
    ensures
        text_less(a, c),
    decreases a.len(),
{
    if a.len() > 0 && b.len() > 0 && c.len() > 0 && a[0] == b[0] && b[0] == c[0] {
        lemma_text_less_transitive(a.drop_first(), b.drop_first(), c.drop_first());
    }
}

/// Texts that differ within their first `n` characters are ordered as
/// those first `n` characters are.
pub proof fn lemma_text_less_by_prefix(a: Seq<char>, b: Seq<char>, n: int)
    requires
        0 <= n <= a.len(),
        n <= b.len(),
        a.take(n) != b.take(n),
    ensures
        text_less(a, b) == text_less(a.take(n), b.take(n)),
    decreases n,
{
    if n == 0 {
        assert(a.take(0) =~= b.take(0));
    } else {
        assert(a.take(n)[0] == a[0]);
        assert(b.take(n)[0] == b[0]);
        if a[0] == b[0] {
            let a1 = a.drop_first();
            let b1 = b.drop_first();
            assert(a.take(n).drop_first() =~= a1.take(n - 1));
            assert(b.take(n).drop_first() =~= b1.take(n - 1));
            if a1.take(n - 1) == b1.take(n - 1) {
                assert(a.take(n) =~= seq![a[0]] + a1.take(n - 1));
                assert(b.take(n) =~= seq![b[0]] + b1.take(n - 1));
            }
            lemma_text_less_by_prefix(a1, b1, n - 1);
        }
    }
}

/// Texts with a common beginning are ordered as what follows it.
pub proof fn lemma_text_less_common_prefix(p: Seq<char>, u: Seq<char>, v: Seq<char>)
    ensures
        text_less(p + u, p + v) == text_less(u, v),
    decreases p.len(),
{
    if p.len() > 0 {
        assert((p + u).drop_first() =~= p.drop_first() + u);
        assert((p + v).drop_first() =~= p.drop_first() + v);
        assert((p + u)[0] == p[0] && (p + v)[0] == p[0]);
        lemma_text_less_common_prefix(p.drop_first(), u, v);
    } else {
        assert(p + u =~= u);
        assert(p + v =~= v);
    }
}

/// Only whitespace separates words. The visible ASCII characters (`!` to
/// `~`: letters, digits, the apostrophe and every other punctuation mark),
/// the Latin-1 letters and signs from U+00A1 to U+00FF, and every character
/// past U+3000 are not whitespace; tab, line feed, vertical tab, form feed,
/// carriage return, space and no-break space are.
pub proof fn lemma_whitespace_characters(c: char)
    ensures
        '!' <= c && c <= '~' ==> !is_space(c),
        '\u{a1}' <= c && c <= '\u{ff}' ==> !is_space(c),
        c > '\u{3000}' ==> !is_space(c),
        c == '\t' || c == '\n' || c == '\u{b}' || c == '\u{c}' || c == '\r' || c == ' ' || c
            == '\u{a0}' ==> is_space(c),
{
}

/// A text without whitespace splits into nothing: it is read as one word
/// in progress.
proof fn lemma_split_state_of_word(s: Seq<char>)
    requires
        forall|i: int| 0 <= i < s.len() ==> !is_space(#[trigger] s[i]),
    ensures
        split_state(s) == (Seq::<Seq<char>>::empty(), s),
    decreases s.len(),
{
    if s.len() > 0 {
        let t = s.drop_last();
        assert forall|i: int| 0 <= i < t.len() implies !is_space(#[trigger] t[i]) by {
            assert(t[i] == s[i]);
        }
        lemma_split_state_of_word(t);
        assert(!is_space(s[s.len() - 1]));
        assert(t.push(s.last()) =~= s);
    }
}

/// A non-empty text without whitespace is a single word, kept whole: a
/// text of visible ASCII characters such as `don't` is never torn apart.
pub proof fn lemma_text_without_whitespace_is_one_word(s: Seq<char>)
    requires
        s.len() > 0,
        forall|i: int| 0 <= i < s.len() ==> !is_space(#[trigger] s[i]),
    ensures
        words(s) == seq![s],
{
    lemma_split_state_of_word(s);
    assert(Seq::<Seq<char>>::empty().push(s) =~= seq![s]);
}

/// Visible ASCII text is one word.
pub proof fn lemma_visible_ascii_is_one_word(s: Seq<char>)
    requires
        s.len() > 0,
        forall|i: int| 0 <= i < s.len() ==> '!' <= #[trigger] s[i] && s[i] <= '~',
    ensures
        words(s) == seq![s],
{
    assert forall|i: int| 0 <= i < s.len() implies !is_space(#[trigger] s[i]) by {
        lemma_whitespace_characters(s[i]);
    }
    lemma_text_without_whitespace_is_one_word(s);
}

/// The characters of `s`, one by one.
pub fn chars_of(s: &str) -> (r: Vec<char>)
    ensures
        r@ == s@,
{
    let mut r: Vec<char> = Vec::new();
    for c in it: s.chars()
        invariant
            it.seq() == s@,
            r@ == s@.take(it.index() as int),
    {
        let ghost i = it.index() as int;
        assert(s@.take(i + 1) =~= s@.take(i).push(c));
        r.push(c);
    }
    assert(s@.take(s@.len() as int) =~= s@);
    r
}

/// Whether `a` comes before `b` in code-point order.
pub fn less_than(a: &str, b: &str) -> (r: bool)
    ensures
        r == text_less(a@, b@),
{
    let x = chars_of(a);
    let y = chars_of(b);
    let mut i: usize = 0;
    assert(x@.skip(0) =~= x@);
    assert(y@.skip(0) =~= y@);
    while i < x.len() && i < y.len() && x[i] == y[i]
        invariant
            i <= x.len(),
            i <= y.len(),
            x@ == a@,
            y@ == b@,
            text_less(a@, b@) == text_less(x@.skip(i as int), y@.skip(i as int)),
        decreases x.len() - i,
    {
        assert(x@.skip(i as int).drop_first() =~= x@.skip(i + 1));
        assert(y@.skip(i as int).drop_first() =~= y@.skip(i + 1));
        i = i + 1;
    }
    if i == x.len() {
        i < y.len()
    } else if i == y.len() {
        false
    } else {
        assert(x@.skip(i as int)[0] == x[i as int]);
        assert(y@.skip(i as int)[0] == y[i as int]);
        x[i] < y[i]
    }
}

} // verus!
