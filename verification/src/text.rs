//! Character classes and small string utilities shared by the other modules.
//! Strings are handled as sequences of `char`, which is also how their views
//! are stated.
use vstd::prelude::*;

verus! {

/// Unicode `White_Space`, the set that `char::is_whitespace`, `str::trim`
/// and `str::split_whitespace` go by.
pub open spec fn is_ws(c: char) -> bool {
    ||| '\u{9}' <= c <= '\u{d}'
    ||| c == ' '
    ||| c == '\u{85}'
    ||| c == '\u{a0}'
    ||| c == '\u{1680}'
    ||| '\u{2000}' <= c <= '\u{200a}'
    ||| c == '\u{2028}'
    ||| c == '\u{2029}'
    ||| c == '\u{202f}'
    ||| c == '\u{205f}'
    ||| c == '\u{3000}'
}

/// The classes of characters that the lookup and language rules ask about.
#[derive(Clone, Copy, PartialEq, Eq, Structural)]
pub enum CharClass {
    /// CJK unified ideographs, U+4E00..=U+9FFF.
    Cjk,
    /// Hiragana and katakana, U+3040..=U+30FF.
    Kana,
    /// Kana, or Hangul syllables U+AC00..=U+D7AF.
    KanaOrHangul,
    /// ASCII letters.
    AsciiAlpha,
    /// Marks that end or split a sentence: `。 . ! ? ;`.
    SentenceMark,
}

pub open spec fn in_class(c: char, k: CharClass) -> bool {
    match k {
        CharClass::Cjk => '\u{4e00}' <= c <= '\u{9fff}',
        CharClass::Kana => '\u{3040}' <= c <= '\u{30ff}',
        CharClass::KanaOrHangul => ('\u{3040}' <= c <= '\u{30ff}') || ('\u{ac00}' <= c <= '\u{d7af}'),
        CharClass::AsciiAlpha => ('a' <= c <= 'z') || ('A' <= c <= 'Z'),
        CharClass::SentenceMark => c == '\u{3002}' || c == '.' || c == '!' || c == '?' || c == ';',
    }
}

/// Some character of `s` is in class `k`.
pub open spec fn has_class(s: Seq<char>, k: CharClass) -> bool {
    exists|i: int| 0 <= i < s.len() && in_class(#[trigger] s[i], k)
}

/// Number of characters of `s` in class `k`.
pub open spec fn count_class(s: Seq<char>, k: CharClass) -> nat
    decreases s.len(),
{
    if s.len() == 0 {
        0
    } else {
        count_class(s.drop_last(), k) + if in_class(s.last(), k) { 1nat } else { 0nat }
    }
}

/// Punctuation that a selected word often carries with it.
pub open spec fn is_punct(c: char) -> bool {
    ||| c == '.' || c == ',' || c == '!' || c == '?' || c == ';' || c == ':'
    ||| c == '\u{3002}'
    ||| c == '"' || c == '\''
    ||| c == '\u{201c}' || c == '\u{201d}' || c == '\u{2018}' || c == '\u{2019}'
    ||| c == '(' || c == ')' || c == '[' || c == ']'
}

/// The characters that a trim removes: whitespace, plus punctuation when
/// `punct` is set.
pub open spec fn strip_char(c: char, punct: bool) -> bool {
    is_ws(c) || (punct && is_punct(c))
}

pub open spec fn drop_lead(s: Seq<char>, punct: bool) -> Seq<char>
    decreases s.len(),
{
    if s.len() > 0 && strip_char(s[0], punct) {
        drop_lead(s.drop_first(), punct)
    } else {
        s
    }
}

pub open spec fn drop_trail(s: Seq<char>, punct: bool) -> Seq<char>
    decreases s.len(),
{
    if s.len() > 0 && strip_char(s.last(), punct) {
        drop_trail(s.drop_last(), punct)
    } else {
        s
    }
}

/// `s` without the leading and trailing characters that `strip_char` names:
/// `str::trim` when `punct` is false.
pub open spec fn trimmed(s: Seq<char>, punct: bool) -> Seq<char> {
    drop_trail(drop_lead(s, punct), punct)
}

/// Index `i` begins a maximal run of non-whitespace characters.
pub open spec fn word_start(s: Seq<char>, i: int) -> bool {
    !is_ws(s[i]) && (i == 0 || is_ws(s[i - 1]))
}

/// Number of word starts among the first `n` characters.
pub open spec fn words_in(s: Seq<char>, n: int) -> nat
    decreases n,
{
    if n <= 0 {
        0
    } else {
        words_in(s, n - 1) + if word_start(s, n - 1) { 1nat } else { 0nat }
    }
}

/// What `split_whitespace().count()` gives.
pub open spec fn word_count(s: Seq<char>) -> nat {
    words_in(s, s.len() as int)
}

/// `needle` occurs in `hay` at index `i`.
pub open spec fn occurs_at(hay: Seq<char>, needle: Seq<char>, i: int) -> bool {
    0 <= i && i + needle.len() <= hay.len() && hay.subrange(i, i + needle.len()) == needle
}

/// `needle` occurs somewhere in `hay` (the empty needle occurs everywhere).
pub open spec fn contains_seq(hay: Seq<char>, needle: Seq<char>) -> bool {
    exists|i: int| occurs_at(hay, needle, i)
}

/// What `str::to_lowercase` gives for a string: the full Unicode lowercase
/// mapping (a capital sigma at the end of a word becomes a final sigma, so
/// a character's image can depend on its neighbours).
pub uninterp spec fn lowercase_of(s: Seq<char>) -> Seq<char>;

pub fn is_whitespace(c: char) -> (b: bool)
    ensures
        b == is_ws(c),
{
    ('\u{9}' <= c && c <= '\u{d}') || c == ' ' || c == '\u{85}' || c == '\u{a0}' || c
        == '\u{1680}' || ('\u{2000}' <= c && c <= '\u{200a}') || c == '\u{2028}' || c
        == '\u{2029}' || c == '\u{202f}' || c == '\u{205f}' || c == '\u{3000}'
}

pub fn is_in_class(c: char, k: CharClass) -> (b: bool)
    ensures
        b == in_class(c, k),
{
    match k {
        CharClass::Cjk => '\u{4e00}' <= c && c <= '\u{9fff}',
        CharClass::Kana => '\u{3040}' <= c && c <= '\u{30ff}',
        CharClass::KanaOrHangul => ('\u{3040}' <= c && c <= '\u{30ff}') || ('\u{ac00}' <= c && c
            <= '\u{d7af}'),
        CharClass::AsciiAlpha => ('a' <= c && c <= 'z') || ('A' <= c && c <= 'Z'),
        CharClass::SentenceMark => c == '\u{3002}' || c == '.' || c == '!' || c == '?' || c
            == ';',
    }
}

fn is_strip_char(c: char, punct: bool) -> (b: bool)
    ensures
        b == strip_char(c, punct),
{
    is_whitespace(c) || (punct && (c == '.' || c == ',' || c == '!' || c == '?' || c == ';' || c
        == ':' || c == '\u{3002}' || c == '"' || c == '\'' || c == '\u{201c}' || c == '\u{201d}'
        || c == '\u{2018}' || c == '\u{2019}' || c == '(' || c == ')' || c == '[' || c == ']'))
}

/// The characters of `s`, in order.
pub(crate) fn chars_of(s: &str) -> (v: Vec<char>)
    ensures
        v@ == s@,
{
    let mut v: Vec<char> = Vec::new();
    for c in it: s.chars()
        invariant
            v.len() == it.index(),
            forall|i: int| 0 <= i < v.len() ==> v@[i] == it.seq()[i],
    {
        v.push(c);
    }
    assert(v@ =~= s@);
    v
}

/// `String::push`: appends `c`.
#[verifier::external_body]
fn push_char(s: &mut String, c: char)
    ensures
        final(s)@ == old(s)@.push(c),
{
    s.push(c);
}

/// The string made of the characters `v`.
pub(crate) fn string_of(v: &[char]) -> (s: String)
    ensures
        s@ == v@,
{
    let mut s = String::new();
    let mut i: usize = 0;
    while i < v.len()
        invariant
            i <= v@.len(),
            s@ == v@.take(i as int),
        decreases v@.len() - i,
    {
        push_char(&mut s, v[i]);
        assert(v@.take(i + 1) =~= v@.take(i as int).push(v@[i as int]));
        i = i + 1;
    }
    assert(v@.take(v@.len() as int) =~= v@);
    s
}

/// Appends the characters of `tail` to `out`.
pub fn push_all(out: &mut Vec<char>, tail: &Vec<char>)
    ensures
        final(out)@ == old(out)@ + tail@,
{
    let ghost head = out@;
    let mut i: usize = 0;
    while i < tail.len()
        invariant
            i <= tail@.len(),
            out@ =~= head + tail@.subrange(0, i as int),
        decreases tail@.len() - i,
    {
        out.push(tail[i]);
        i = i + 1;
        assert(out@ =~= head + tail@.subrange(0, i as int));
    }
    assert(tail@.subrange(0, tail@.len() as int) =~= tail@);
}

/// `str::to_lowercase`.
#[verifier::external_body]
pub(crate) fn lowercase(s: &str) -> (r: String)
    ensures
        r@ == lowercase_of(s@),
{
    s.to_lowercase()
}

/// Whether some character of `v` is in class `k`.
pub fn any_in_class(v: &Vec<char>, k: CharClass) -> (b: bool)
    ensures
        b == has_class(v@, k),
{
    let mut i: usize = 0;
    while i < v.len()
        invariant
            i <= v@.len(),
            forall|j: int| 0 <= j < i ==> !in_class(#[trigger] v@[j], k),
        decreases v@.len() - i,
    {
        if is_in_class(v[i], k) {
            assert(in_class(v@[i as int], k));
            return true;
        }
        i = i + 1;
    }
    false
}

/// How many characters of `v` are in class `k`.
pub fn count_in_class(v: &Vec<char>, k: CharClass) -> (n: usize)
    ensures
        n == count_class(v@, k),
{
    let mut i: usize = 0;
    let mut n: usize = 0;
    while i < v.len()
        invariant
            i <= v@.len(),
            n == count_class(v@.subrange(0, i as int), k),
            n <= i,
        decreases v@.len() - i,
    {
        assert(v@.subrange(0, i + 1).drop_last() =~= v@.subrange(0, i as int));
        if is_in_class(v[i], k) {
            n = n + 1;
        }
        i = i + 1;
    }
    assert(v@.subrange(0, v@.len() as int) =~= v@);
    n
}

proof fn lemma_drop_lead_step(s: Seq<char>, i: int, punct: bool)
    requires
        0 <= i < s.len(),
        strip_char(s[i], punct),
    ensures
        drop_lead(s.subrange(i, s.len() as int), punct) == drop_lead(
            s.subrange(i + 1, s.len() as int),
            punct,
        ),
{
    assert(s.subrange(i, s.len() as int).drop_first() =~= s.subrange(i + 1, s.len() as int));
}

proof fn lemma_drop_trail_step(s: Seq<char>, j: int, punct: bool)
    requires
        0 < j <= s.len(),
        strip_char(s[j - 1], punct),
    ensures
        drop_trail(s.subrange(0, j), punct) == drop_trail(s.subrange(0, j - 1), punct),
{
    assert(s.subrange(0, j).drop_last() =~= s.subrange(0, j - 1));
}

/// `v` with leading and trailing whitespace removed, and also the
/// punctuation of `is_punct` when `punct` is set.
pub fn trim_chars(v: &Vec<char>, punct: bool) -> (r: Vec<char>)
    ensures
        r@ == trimmed(v@, punct),
{
    let n = v.len();
    let mut a: usize = 0;
    assert(v@.subrange(0, n as int) =~= v@);
    while a < n && is_strip_char(v[a], punct)
        invariant
            n == v@.len(),
            a <= n,
            drop_lead(v@, punct) == drop_lead(v@.subrange(a as int, n as int), punct),
        decreases n - a,
    {
        proof {
            lemma_drop_lead_step(v@, a as int, punct);
        }
        a = a + 1;
    }
    assert(drop_lead(v@, punct) == v@.subrange(a as int, n as int));
    let ghost t = v@.subrange(a as int, n as int);
    assert(t.subrange(0, n - a) =~= t);
    let mut b: usize = n;
    while b > a && is_strip_char(v[b - 1], punct)
        invariant
            n == v@.len(),
            a <= b <= n,
            t == v@.subrange(a as int, n as int),
            drop_trail(t, punct) == drop_trail(t.subrange(0, b - a), punct),
        decreases b - a,
    {
        proof {
            assert(t[b - a - 1] == v@[b - 1]);
            lemma_drop_trail_step(t, (b - a) as int, punct);
        }
        b = b - 1;
    }
    assert(t.subrange(0, b - a) =~= v@.subrange(a as int, b as int));
    let mut r: Vec<char> = Vec::new();
    let mut k: usize = a;
    while k < b
        invariant
            a <= k <= b <= n,
            n == v@.len(),
            r@ == v@.subrange(a as int, k as int),
        decreases b - k,
    {
        r.push(v[k]);
        assert(v@.subrange(a as int, k + 1) =~= v@.subrange(a as int, k as int).push(v@[k as int]));
        k = k + 1;
    }
    r
}

/// `s.trim()`, as an owned string.
pub fn trim_str(s: &str) -> (r: String)
    ensures
        r@ == trimmed(s@, false),
{
    let v = chars_of(s);
    let t = trim_chars(&v, false);
    string_of(t.as_slice())
}

/// Number of whitespace-separated words, as `split_whitespace().count()`.
pub fn count_words(v: &Vec<char>) -> (n: usize)
    ensures
        n == word_count(v@),
{
    let mut i: usize = 0;
    let mut n: usize = 0;
    while i < v.len()
        invariant
            i <= v@.len(),
            n == words_in(v@, i as int),
            n <= i,
        decreases v@.len() - i,
    {
        let c = v[i];
        if !is_whitespace(c) && (i == 0 || is_whitespace(v[i - 1])) {
            n = n + 1;
        }
        i = i + 1;
    }
    n
}

/// Whether `needle` occurs in `hay` at index `i`.
pub fn matches_at(hay: &Vec<char>, needle: &Vec<char>, i: usize) -> (b: bool)
    requires
        i + needle@.len() <= hay@.len(),
    ensures
        b == occurs_at(hay@, needle@, i as int),
{
    let mut k: usize = 0;
    while k < needle.len()
        invariant
            i + needle@.len() <= hay@.len(),
            hay@.len() == hay.len(),
            k <= needle@.len(),
            forall|j: int| 0 <= j < k ==> hay@[i + j] == needle@[j],
        decreases needle@.len() - k,
    {
        if hay[i + k] != needle[k] {
            assert(hay@.subrange(i as int, i + needle@.len())[k as int] != needle@[k as int]);
            return false;
        }
        k = k + 1;
    }
    assert(hay@.subrange(i as int, i + needle@.len()) =~= needle@);
    true
}

/// Whether `needle` occurs in `hay`, as `str::contains`.
pub fn contains_chars(hay: &Vec<char>, needle: &Vec<char>) -> (b: bool)
    ensures
        b == contains_seq(hay@, needle@),
{
    if needle.len() > hay.len() {
        return false;
    }
    let last = hay.len() - needle.len();
    let mut i: usize = 0;
    loop
        invariant
            i <= last,
            last + needle@.len() == hay@.len(),
            forall|j: int| 0 <= j < i ==> !occurs_at(hay@, needle@, j),
        decreases last - i,
    {
        if matches_at(hay, needle, i) {
            return true;
        }
        if i == last {
            assert forall|j: int| !occurs_at(hay@, needle@, j) by {
                if 0 <= j && j + needle@.len() <= hay@.len() {
                    assert(j <= last);
                }
            }
            return false;
        }
        i = i + 1;
    }
}

} // verus!
