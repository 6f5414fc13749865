//! The vocabulary notebook: deciding whether a translation was a word
//! lookup, and the rules that combine meanings and escape cells for export.
use vstd::prelude::*;
use crate::text::{
    any_in_class, chars_of, contains_chars, contains_seq, count_words, has_class, occurs_at, string_of,
    trim_chars, trimmed, word_count, CharClass,
};

verus! {

/// Looks like an English word or phrase: 1 to 40 characters, at most three
/// words, some ASCII letter, no Han, kana or Hangul, and no sentence mark.
pub open spec fn latin_word_spec(s: Seq<char>) -> bool {
    if s.len() == 0 || s.len() > 40 || word_count(s) > 3 {
        false
    } else {
        &&& has_class(s, CharClass::AsciiAlpha)
        &&& !has_class(s, CharClass::Cjk)
        &&& !has_class(s, CharClass::KanaOrHangul)
        &&& !has_class(s, CharClass::SentenceMark)
    }
}

/// The (word, meaning) pair recorded when `src` came back as `res`, if that
/// was a lookup. An English word translated into Chinese records the
/// word with the translation as meaning; a short Chinese word (at most eight
/// characters, no kana or Hangul) translated into English records the
/// English side with the Chinese as meaning. Punctuation around either side
/// is dropped first.
pub open spec fn candidate_spec(src: Seq<char>, res: Seq<char>) -> Option<(Seq<char>, Seq<char>)> {
    let s = trimmed(src, true);
    let r = trimmed(res, true);
    if s.len() == 0 || r.len() == 0 {
        None
    } else if latin_word_spec(s) && has_class(r, CharClass::Cjk) {
        Some((s, r))
    } else if has_class(s, CharClass::Cjk) && !has_class(s, CharClass::KanaOrHangul) && s.len()
        <= 8 && latin_word_spec(r) {
        Some((r, s))
    } else {
        None
    }
}

/// The meaning after `new` is added to `old`: `new` alone when `old` is
/// empty; `old` unchanged when it already contains `new` or is longer than
/// sixty characters; otherwise the two joined by `;`.
pub open spec fn merged_meaning(old: Seq<char>, new: Seq<char>) -> Seq<char> {
    if old.len() == 0 {
        new
    } else if contains_seq(old, new) || old.len() > 60 {
        old
    } else {
        old + seq![';'] + new
    }
}

/// `s` with every double quote doubled.
pub open spec fn quotes_doubled(s: Seq<char>) -> Seq<char>
    decreases s.len(),
{
    if s.len() == 0 {
        Seq::empty()
    } else {
        quotes_doubled(s.drop_last()) + if s.last() == '"' {
            seq!['"', '"']
        } else {
            seq![s.last()]
        }
    }
}

/// A CSV cell: `s` in double quotes, inner quotes doubled.
pub open spec fn csv_cell_spec(s: Seq<char>) -> Seq<char> {
    seq!['"'] + quotes_doubled(s) + seq!['"']
}

/// `s` without surrounding whitespace and punctuation.
pub fn trim_punct(s: &str) -> (r: String)
    ensures
        r@ == trimmed(s@, true),
{
    let v = chars_of(s);
    let t = trim_chars(&v, true);
    string_of(t.as_slice())
}

/// Whether `s` holds a CJK ideograph.
pub fn has_cjk(s: &str) -> (b: bool)
    ensures
        b == has_class(s@, CharClass::Cjk),
{
    any_in_class(&chars_of(s), CharClass::Cjk)
}

/// Whether `s` holds kana or Hangul.
pub fn has_kana_or_hangul(s: &str) -> (b: bool)
    ensures
        b == has_class(s@, CharClass::KanaOrHangul),
{
    any_in_class(&chars_of(s), CharClass::KanaOrHangul)
}

fn latin_word_chars(v: &Vec<char>) -> (b: bool)
    ensures
        b == latin_word_spec(v@),
{
    let n = v.len();
    if n == 0 || n > 40 || count_words(v) > 3 {
        return false;
    }
    any_in_class(v, CharClass::AsciiAlpha) && !any_in_class(v, CharClass::Cjk) && !any_in_class(
        v,
        CharClass::KanaOrHangul,
    ) && !any_in_class(v, CharClass::SentenceMark)
}

/// Whether `s` looks like an English word or short phrase.
pub fn latin_word_like(s: &str) -> (b: bool)
    ensures
        b == latin_word_spec(s@),
{
    latin_word_chars(&chars_of(s))
}

/// If translating `src` into `res` was a word lookup, the word to learn and
/// its meaning.
pub fn vocab_candidate(src: &str, res: &str) -> (r: Option<(String, String)>)
    ensures
        match r {
            None => candidate_spec(src@, res@) is None,
            Some((w, m)) => candidate_spec(src@, res@) == Some((w@, m@)),
        },
{
    let s = trim_chars(&chars_of(src), true);
    let r = trim_chars(&chars_of(res), true);
    if s.len() == 0 || r.len() == 0 {
        return None;
    }
    if latin_word_chars(&s) && any_in_class(&r, CharClass::Cjk) {
        return Some((string_of(s.as_slice()), string_of(r.as_slice())));
    }
    if any_in_class(&s, CharClass::Cjk) && !any_in_class(&s, CharClass::KanaOrHangul) && s.len()
        <= 8 && latin_word_chars(&r) {
        return Some((string_of(r.as_slice()), string_of(s.as_slice())));
    }
    None
}

/// Adds `new` to the meanings in `old`, without repeating one and without
/// letting the text grow past about sixty characters.
pub fn merge_meaning(old: &str, new: &str) -> (r: String)
    ensures
        r@ == merged_meaning(old@, new@),
{
    let o = chars_of(old);
    let n = chars_of(new);
    if o.len() == 0 {
        return string_of(n.as_slice());
    }
    if contains_chars(&o, &n) || o.len() > 60 {
        return string_of(o.as_slice());
    }
    let mut out = o.clone();
    out.push(';');
    let mut i: usize = 0;
    while i < n.len()
        invariant
            i <= n@.len(),
            out@ == o@ + seq![';'] + n@.subrange(0, i as int),
        decreases n@.len() - i,
    {
        out.push(n[i]);
        assert(n@.subrange(0, i + 1) =~= n@.subrange(0, i as int).push(n@[i as int]));
        i = i + 1;
    }
    assert(n@.subrange(0, n@.len() as int) =~= n@);
    string_of(out.as_slice())
}

/// Adding the same meaning a second time changes nothing: the first merge
/// already holds it (or left a text too long to grow).
pub proof fn lemma_merge_meaning_idempotent(old: Seq<char>, new: Seq<char>)
    ensures
        merged_meaning(merged_meaning(old, new), new) == merged_meaning(old, new),
{
    let m = merged_meaning(old, new);
    if old.len() == 0 {
        assert(occurs_at(new, new, 0)) by {
            assert(new.subrange(0, new.len() as int) =~= new);
        }
    } else if !(contains_seq(old, new) || old.len() > 60) {
        let at: int = old.len() as int + 1;
        assert(occurs_at(m, new, at)) by {
            assert(m.subrange(at, at + new.len()) =~= new);
        }
    }
}

/// Meanings do not grow without bound: when every added meaning has at most
/// `limit` characters, a meaning that starts within `61 + limit` characters
/// stays within them, however many are merged in.
pub proof fn lemma_merge_meaning_bounded(old: Seq<char>, new: Seq<char>, limit: nat)
    requires
        old.len() <= 61 + limit,
        new.len() <= limit,
    ensures
        merged_meaning(old, new).len() <= 61 + limit,
{
}

/// One CSV cell: the text in double quotes, inner quotes doubled.
pub fn csv_cell(s: &str) -> (r: String)
    ensures
        r@ == csv_cell_spec(s@),
{
    let v = chars_of(s);
    let mut out: Vec<char> = Vec::new();
    out.push('"');
    let mut i: usize = 0;
    while i < v.len()
        invariant
            i <= v@.len(),
            out@ == seq!['"'] + quotes_doubled(v@.subrange(0, i as int)),
        decreases v@.len() - i,
    {
        assert(v@.subrange(0, i + 1).drop_last() =~= v@.subrange(0, i as int));
        let c = v[i];
        out.push(c);
        if c == '"' {
            out.push('"');
        }
        i = i + 1;
        assert(out@ =~= seq!['"'] + quotes_doubled(v@.subrange(0, i as int)));
    }
    out.push('"');
    assert(v@.subrange(0, v@.len() as int) =~= v@);
    string_of(out.as_slice())
}

} // verus!
