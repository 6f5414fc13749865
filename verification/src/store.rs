//! The notebook itself: entries with lookup counts and a Leitner-box review
//! schedule, and the operations the app performs on them.
use vstd::prelude::*;
use crate::text::{lowercase, lowercase_of, trim_str, trimmed};
use crate::vocab::{latin_word_like, latin_word_spec, candidate_spec, csv_cell, csv_cell_spec, merge_meaning, merged_meaning, vocab_candidate};
use crate::order::{is_index_perm, lemma_sorted_perm_unique};
use crate::dates::{civil_from_days, date_fits, date_text, day_number, decimal, decimal_string, fits_date, fmt_date};

verus! {

/// Milliseconds in a day.
pub const DAY_MS: i64 = 86_400_000;

/// Delay after forgetting a word: ten minutes.
pub const RETRY_MS: i64 = 600_000;

/// Highest Leitner level.
pub const MAX_LEVEL: u8 = 6;

/// One word of the notebook.
pub struct VocabEntry {
    pub id: u64,
    /// The word to learn (English).
    pub word: String,
    /// Its Chinese meaning.
    pub meaning: String,
    pub phonetic: String,
    /// Part of speech, such as n. / v. / adj.
    pub pos: String,
    pub example: String,
    pub example_zh: String,
    /// How often it was looked up.
    pub count: u32,
    /// Millisecond timestamps.
    pub first_at: i64,
    pub last_at: i64,
    /// Leitner level, 0 to 6: the higher, the longer the pause between reviews.
    pub level: u8,
    /// When it is next due (millisecond timestamp).
    pub next_review: i64,
    pub mastered: bool,
    /// How often it was reviewed.
    pub reviews: u32,
}

/// What an entry holds, with its texts as character sequences.
pub struct EntryView {
    pub id: u64,
    pub word: Seq<char>,
    pub meaning: Seq<char>,
    pub phonetic: Seq<char>,
    pub pos: Seq<char>,
    pub example: Seq<char>,
    pub example_zh: Seq<char>,
    pub count: u32,
    pub first_at: i64,
    pub last_at: i64,
    pub level: u8,
    pub next_review: i64,
    pub mastered: bool,
    pub reviews: u32,
}

impl View for VocabEntry {
    type V = EntryView;

    open spec fn view(&self) -> EntryView {
        EntryView {
            id: self.id,
            word: self.word@,
            meaning: self.meaning@,
            phonetic: self.phonetic@,
            pos: self.pos@,
            example: self.example@,
            example_zh: self.example_zh@,
            count: self.count,
            first_at: self.first_at,
            last_at: self.last_at,
            level: self.level,
            next_review: self.next_review,
            mastered: self.mastered,
            reviews: self.reviews,
        }
    }
}

/// A word that the model picked out of a text.
pub struct ExtractedWord {
    pub word: String,
    pub meaning: String,
    pub pos: String,
    pub phonetic: String,
}

pub struct ExtractedView {
    pub word: Seq<char>,
    pub meaning: Seq<char>,
    pub pos: Seq<char>,
    pub phonetic: Seq<char>,
}

impl View for ExtractedWord {
    type V = ExtractedView;

    open spec fn view(&self) -> ExtractedView {
        ExtractedView {
            word: self.word@,
            meaning: self.meaning@,
            pos: self.pos@,
            phonetic: self.phonetic@,
        }
    }
}

/// The answer to "record this translation".
pub struct RecordResult {
    /// The translation counted as a lookup and was recorded.
    pub recorded: bool,
    pub is_new: bool,
    pub count: u32,
    pub word: String,
}

/// The fields with which the model completes a new entry, as it sent them.
pub struct Enrichment {
    pub phonetic: String,
    pub pos: String,
    pub meaning: String,
    pub example: String,
    pub example_zh: String,
}

/// The notebook: its entries in the order they were added.
pub struct VocabState {
    entries: Vec<VocabEntry>,
}

/// The key under which a word is found: its lowercase form.
pub open spec fn key_of(e: EntryView) -> Seq<char> {
    lowercase_of(e.word)
}

/// Index of the first entry at or after `i` whose key is `key`.
pub open spec fn find_key_from(es: Seq<EntryView>, key: Seq<char>, i: int) -> Option<int>
    decreases es.len() - i,
{
    if i < 0 || i >= es.len() {
        None
    } else if key_of(es[i]) == key {
        Some(i)
    } else {
        find_key_from(es, key, i + 1)
    }
}

/// Index of the first entry whose key is `key`.
pub open spec fn find_key(es: Seq<EntryView>, key: Seq<char>) -> Option<int> {
    find_key_from(es, key, 0)
}

/// Index of the first entry at or after `i` with this id.
pub open spec fn find_id_from(es: Seq<EntryView>, id: u64, i: int) -> Option<int>
    decreases es.len() - i,
{
    if i < 0 || i >= es.len() {
        None
    } else if es[i].id == id {
        Some(i)
    } else {
        find_id_from(es, id, i + 1)
    }
}

/// Index of the first entry with this id.
pub open spec fn find_id(es: Seq<EntryView>, id: u64) -> Option<int> {
    find_id_from(es, id, 0)
}

/// The largest id in use, 0 for an empty notebook.
pub open spec fn max_id(es: Seq<EntryView>) -> u64
    decreases es.len(),
{
    if es.len() == 0 {
        0
    } else {
        let m = max_id(es.drop_last());
        if es.last().id > m {
            es.last().id
        } else {
            m
        }
    }
}

/// A new entry, looked up once at `now`, due for review at once.
pub open spec fn fresh_entry(
    id: u64,
    word: Seq<char>,
    meaning: Seq<char>,
    phonetic: Seq<char>,
    pos: Seq<char>,
    now: i64,
) -> EntryView {
    EntryView {
        id,
        word,
        meaning,
        phonetic,
        pos,
        example: Seq::empty(),
        example_zh: Seq::empty(),
        count: 1,
        first_at: now,
        last_at: now,
        level: 0,
        next_review: now,
        mastered: false,
        reviews: 0,
    }
}

/// `e` looked up once more at `now`, with `meaning` merged into its meaning.
pub open spec fn looked_up_again(e: EntryView, meaning: Seq<char>, now: i64) -> EntryView {
    EntryView { count: (e.count + 1) as u32, last_at: now, meaning: merged_meaning(e.meaning, meaning), ..e }
}

/// The entries after the lookup of `word` with `meaning` at `now`.
pub open spec fn recorded_entries(es: Seq<EntryView>, word: Seq<char>, meaning: Seq<char>, now: i64) -> Seq<EntryView> {
    match find_key(es, lowercase_of(word)) {
        Some(i) => es.update(i, looked_up_again(es[i], meaning, now)),
        None => es.push(fresh_entry((max_id(es) + 1) as u64, word, meaning, Seq::empty(), Seq::empty(), now)),
    }
}

/// Recording `word` stays within the counters' range.
pub open spec fn record_fits(es: Seq<EntryView>, word: Seq<char>) -> bool {
    match find_key(es, lowercase_of(word)) {
        Some(i) => es[i].count < u32::MAX,
        None => max_id(es) < u64::MAX,
    }
}

/// The entries without those with this id, in order.
pub open spec fn without_id(es: Seq<EntryView>, id: u64) -> Seq<EntryView>
    decreases es.len(),
{
    if es.len() == 0 {
        Seq::empty()
    } else {
        let r = without_id(es.drop_last(), id);
        if es.last().id == id {
            r
        } else {
            r.push(es.last())
        }
    }
}

/// `e` marked as mastered or not; un-mastering starts it over at level 0,
/// due at `now`.
pub open spec fn with_mastered(e: EntryView, mastered: bool, now: i64) -> EntryView {
    if mastered {
        EntryView { mastered: true, ..e }
    } else {
        EntryView { mastered: false, level: 0, next_review: now, ..e }
    }
}

/// Days to wait after a correct answer at each level.
pub open spec fn interval_days_spec(level: int) -> int {
    if level <= 0 {
        0
    } else if level == 1 {
        1
    } else if level == 2 {
        2
    } else if level == 3 {
        4
    } else if level == 4 {
        7
    } else if level == 5 {
        15
    } else {
        30
    }
}

/// The level after an answer.
pub open spec fn level_after(level: u8, remembered: bool) -> u8 {
    if !remembered {
        0
    } else if level >= 6 {
        level
    } else {
        (level + 1) as u8
    }
}

/// How long after `now` the word is due again after an answer.
pub open spec fn review_delay(level: u8, remembered: bool) -> int {
    if remembered {
        interval_days_spec(level_after(level, true) as int) * DAY_MS
    } else {
        RETRY_MS as int
    }
}

/// `e` after one review at `now`: remembering moves it one level up (at the
/// top level it becomes mastered) and schedules it after that level's
/// interval; forgetting sends it back to level 0, due in ten minutes.
pub open spec fn reviewed(e: EntryView, remembered: bool, now: i64) -> EntryView {
    EntryView {
        reviews: (e.reviews + 1) as u32,
        level: level_after(e.level, remembered),
        mastered: if remembered && e.level >= 6 { true } else { e.mastered },
        next_review: (now + review_delay(e.level, remembered)) as i64,
        ..e
    }
}

/// A review of `e` at `now` stays within the counters' range and the
/// table of intervals.
pub open spec fn review_fits(e: EntryView, remembered: bool, now: i64) -> bool {
    &&& e.reviews < u32::MAX
    &&& remembered ==> e.level <= 6
    &&& now + review_delay(e.level, remembered) <= i64::MAX
}

/// `e` completed with the model's fields (already trimmed); its meaning is
/// replaced only by a non-empty one.
pub open spec fn enriched(e: EntryView, phonetic: Seq<char>, pos: Seq<char>, meaning: Seq<char>, example: Seq<char>, example_zh: Seq<char>) -> EntryView {
    EntryView {
        phonetic,
        pos,
        example,
        example_zh,
        meaning: if meaning.len() > 0 { meaning } else { e.meaning },
        ..e
    }
}

/// Enriching sets the phonetic, part of speech, example and its Chinese
/// translation to exactly what was given, takes a non-empty meaning and
/// keeps the old one otherwise, and leaves the id, word, counts, dates and
/// review state as they were.
pub proof fn lemma_enriched_fields(e: EntryView, phonetic: Seq<char>, pos: Seq<char>, meaning: Seq<char>, example: Seq<char>, example_zh: Seq<char>)
    ensures
        ({
            let r = enriched(e, phonetic, pos, meaning, example, example_zh);
            &&& r.phonetic == phonetic
            &&& r.pos == pos
            &&& r.example == example
            &&& r.example_zh == example_zh
            &&& meaning.len() > 0 ==> r.meaning == meaning
            &&& meaning.len() == 0 ==> r.meaning == e.meaning
            &&& r.id == e.id && r.word == e.word && r.count == e.count
            &&& r.first_at == e.first_at && r.last_at == e.last_at
            &&& r.level == e.level && r.next_review == e.next_review
            &&& r.mastered == e.mastered && r.reviews == e.reviews
        }),
{
}

/// Every id occurs once.
pub open spec fn ids_distinct(es: Seq<EntryView>) -> bool {
    forall|i: int, j: int| 0 <= i < es.len() && 0 <= j < es.len() && i != j ==> es[i].id != es[j].id
}

/// Every level is within the table of intervals.
pub open spec fn levels_ok(es: Seq<EntryView>) -> bool {
    forall|i: int| 0 <= i < es.len() ==> es[i].level <= 6
}

pub open spec fn record_view(recorded: bool, is_new: bool, count: u32, word: Seq<char>) -> (bool, bool, u32, Seq<char>) {
    (recorded, is_new, count, word)
}

/// `e` met again among extracted words at `now`: counted once more, and
/// given `meaning` if it had none.
pub open spec fn counted_again(e: EntryView, meaning: Seq<char>, now: i64) -> EntryView {
    EntryView {
        count: (e.count + 1) as u32,
        last_at: now,
        meaning: if e.meaning.len() == 0 { meaning } else { e.meaning },
        ..e
    }
}

/// The entries after adding one extracted word, and whether it was new. The
/// word is trimmed first; an empty word is skipped.
pub open spec fn add_one(es: Seq<EntryView>, w: ExtractedView, now: i64) -> (Seq<EntryView>, nat) {
    let word = trimmed(w.word, false);
    if word.len() == 0 {
        (es, 0)
    } else {
        match find_key(es, lowercase_of(word)) {
            Some(i) => (es.update(i, counted_again(es[i], w.meaning, now)), 0),
            None => (
                es.push(fresh_entry((max_id(es) + 1) as u64, word, w.meaning, w.phonetic, w.pos, now)),
                1,
            ),
        }
    }
}

pub open spec fn add_one_fits(es: Seq<EntryView>, w: ExtractedView) -> bool {
    let word = trimmed(w.word, false);
    word.len() == 0 || record_fits(es, word)
}

/// The entries after adding the extracted words one after another, and how
/// many of them were new.
pub open spec fn add_all(es: Seq<EntryView>, ws: Seq<ExtractedView>, now: i64) -> (Seq<EntryView>, nat)
    decreases ws.len(),
{
    if ws.len() == 0 {
        (es, 0)
    } else {
        let (a, n) = add_all(es, ws.drop_last(), now);
        let (b, m) = add_one(a, ws.last(), now);
        (b, n + m)
    }
}

/// Adding an extracted word: a word (trimmed) not in the notebook yet, in
/// any letter case, is appended as a new entry with the next id, carrying
/// the extracted meaning, part of speech and phonetic, looked up once at
/// `now` and due at once; a word already there only counts once more, keeps
/// its fields and takes the meaning only if it had none; a blank word
/// changes nothing. (Within the counters' range.)
pub proof fn lemma_add_one_entries(es: Seq<EntryView>, w: ExtractedView, now: i64)
    requires
        add_one_fits(es, w),
    ensures
        ({
            let word = trimmed(w.word, false);
            let (after, n) = add_one(es, w, now);
            if word.len() == 0 {
                after == es && n == 0
            } else {
                match find_key(es, lowercase_of(word)) {
                    None => {
                        &&& n == 1
                        &&& after.len() == es.len() + 1
                        &&& after.take(es.len() as int) == es
                        &&& after.last().id == max_id(es) + 1
                        &&& after.last().word == word
                        &&& after.last().meaning == w.meaning
                        &&& after.last().pos == w.pos
                        &&& after.last().phonetic == w.phonetic
                        &&& after.last().example.len() == 0 && after.last().example_zh.len() == 0
                        &&& after.last().count == 1
                        &&& after.last().first_at == now && after.last().last_at == now
                        &&& after.last().next_review == now && after.last().level == 0
                        &&& !after.last().mastered && after.last().reviews == 0
                    },
                    Some(i) => {
                        &&& n == 0
                        &&& after.len() == es.len()
                        &&& forall|k: int| 0 <= k < es.len() && k != i ==> after[k] == es[k]
                        &&& after[i].count == es[i].count + 1
                        &&& after[i].last_at == now
                        &&& after[i].meaning == (if es[i].meaning.len() == 0 { w.meaning } else { es[i].meaning })
                        &&& after[i].word == es[i].word && after[i].id == es[i].id
                        &&& after[i].phonetic == es[i].phonetic && after[i].pos == es[i].pos
                    },
                }
            }
        }),
{
    let word = trimmed(w.word, false);
    if word.len() > 0 {
        lemma_find_key_bounds(es, lowercase_of(word), 0);
        match find_key(es, lowercase_of(word)) {
            None => {
                let e = fresh_entry((max_id(es) + 1) as u64, word, w.meaning, w.phonetic, w.pos, now);
                let after = add_one(es, w, now).0;
                assert(after == es.push(e));
                assert(after.take(es.len() as int) =~= es);
                assert(after.last() == e);
            },
            Some(i) => {
                let after = add_one(es, w, now).0;
                assert(after == es.update(i, counted_again(es[i], w.meaning, now)));
            },
        }
    }
}

/// Adding the words one after another stays within the counters' range.
pub open spec fn add_all_fits(es: Seq<EntryView>, ws: Seq<ExtractedView>, now: i64) -> bool
    decreases ws.len(),
{
    ws.len() == 0 || (add_all_fits(es, ws.drop_last(), now) && add_one_fits(
        add_all(es, ws.drop_last(), now).0,
        ws.last(),
    ))
}

proof fn lemma_add_all_prefix(es: Seq<EntryView>, ws: Seq<ExtractedView>, now: i64, i: int)
    requires
        0 <= i <= ws.len(),
    ensures
        add_all_fits(es, ws, now) ==> add_all_fits(es, ws.take(i), now),
        add_all(es, ws.take(i), now).1 <= add_all(es, ws, now).1,
    decreases ws.len(),
{
    if i == ws.len() {
        assert(ws.take(i) =~= ws);
    } else {
        assert(ws.take(i) =~= ws.drop_last().take(i));
        lemma_add_all_prefix(es, ws.drop_last(), now, i);
    }
}

/// What a recorded lookup writes: a new word becomes an entry holding the
/// word and the meaning as looked up, with the next id, looked up once at
/// `now`, at level 0 and due at once; a known word keeps its word, id and
/// review state, counts once more, is stamped `now`, and has the new
/// meaning merged into its own. (Within the counters' range.)
pub proof fn lemma_record_entry_fields(es: Seq<EntryView>, word: Seq<char>, meaning: Seq<char>, now: i64)
    requires
        record_fits(es, word),
    ensures
        ({
            let after = recorded_entries(es, word, meaning, now);
            match find_key(es, lowercase_of(word)) {
                None => {
                    &&& after.len() == es.len() + 1
                    &&& after.take(es.len() as int) == es
                    &&& after.last().id == max_id(es) + 1
                    &&& after.last().word == word
                    &&& after.last().meaning == meaning
                    &&& after.last().phonetic.len() == 0 && after.last().pos.len() == 0
                    &&& after.last().example.len() == 0 && after.last().example_zh.len() == 0
                    &&& after.last().count == 1
                    &&& after.last().first_at == now && after.last().last_at == now
                    &&& after.last().next_review == now && after.last().level == 0
                    &&& !after.last().mastered && after.last().reviews == 0
                },
                Some(i) => {
                    &&& after.len() == es.len()
                    &&& forall|k: int| 0 <= k < es.len() && k != i ==> after[k] == es[k]
                    &&& after[i].count == es[i].count + 1
                    &&& after[i].last_at == now
                    &&& after[i].first_at == es[i].first_at
                    &&& after[i].meaning == merged_meaning(es[i].meaning, meaning)
                    &&& after[i].word == es[i].word && after[i].id == es[i].id
                    &&& after[i].level == es[i].level && after[i].next_review == es[i].next_review
                    &&& after[i].mastered == es[i].mastered && after[i].reviews == es[i].reviews
                    &&& after[i].phonetic == es[i].phonetic && after[i].pos == es[i].pos
                    &&& after[i].example == es[i].example && after[i].example_zh == es[i].example_zh
                },
            }
        }),
{
    lemma_find_key_bounds(es, lowercase_of(word), 0);
    match find_key(es, lowercase_of(word)) {
        None => {
            let after = recorded_entries(es, word, meaning, now);
            assert(after.take(es.len() as int) =~= es);
        },
        Some(i) => {},
    }
}

/// Recording a lookup keeps every id unique: a known word keeps its entry,
/// and a new word gets an id above all ids in use.
pub proof fn lemma_record_keeps_ids_distinct(es: Seq<EntryView>, word: Seq<char>, meaning: Seq<char>, now: i64)
    requires
        ids_distinct(es),
        record_fits(es, word),
    ensures
        ids_distinct(recorded_entries(es, word, meaning, now)),
{
    lemma_find_key_bounds(es, lowercase_of(word), 0);
    match find_key(es, lowercase_of(word)) {
        Some(i) => lemma_update_keeps_ids_distinct(es, i, looked_up_again(es[i], meaning, now)),
        None => lemma_push_fresh_keeps_ids_distinct(
            es,
            fresh_entry((max_id(es) + 1) as u64, word, meaning, Seq::empty(), Seq::empty(), now),
        ),
    }
}

proof fn lemma_update_keeps_ids_distinct(es: Seq<EntryView>, i: int, e: EntryView)
    requires
        ids_distinct(es),
        0 <= i < es.len(),
        e.id == es[i].id,
    ensures
        ids_distinct(es.update(i, e)),
{
    let after = es.update(i, e);
    assert forall|a: int, b: int| 0 <= a < after.len() && 0 <= b < after.len() && a != b implies after[a].id != after[b].id by {
        assert(after[a].id == es[a].id);
        assert(after[b].id == es[b].id);
    }
}

proof fn lemma_push_fresh_keeps_ids_distinct(es: Seq<EntryView>, e: EntryView)
    requires
        ids_distinct(es),
        max_id(es) < u64::MAX,
        e.id == max_id(es) + 1,
    ensures
        ids_distinct(es.push(e)),
{
    lemma_max_id(es);
    let after = es.push(e);
    assert forall|a: int, b: int| 0 <= a < after.len() && 0 <= b < after.len() && a != b implies after[a].id != after[b].id by {
        if a < es.len() && b < es.len() {
            assert(after[a] == es[a]);
            assert(after[b] == es[b]);
        } else if a < es.len() {
            assert(after[a] == es[a]);
        } else if b < es.len() {
            assert(after[b] == es[b]);
        }
    }
}

/// After a lookup is recorded, the word is found under its lowercase key:
/// at its old place with its count raised by one, or at the end as a new
/// entry with count 1. Nothing else changes.
pub proof fn lemma_record_then_find(es: Seq<EntryView>, word: Seq<char>, meaning: Seq<char>, now: i64)
    requires
        record_fits(es, word),
    ensures
        ({
            let after = recorded_entries(es, word, meaning, now);
            match find_key(es, lowercase_of(word)) {
                Some(i) => {
                    &&& find_key(after, lowercase_of(word)) == Some(i)
                    &&& after[i].count == es[i].count + 1
                    &&& after.len() == es.len()
                    &&& forall|k: int| 0 <= k < es.len() && k != i ==> after[k] == es[k]
                },
                None => {
                    &&& find_key(after, lowercase_of(word)) == Some(es.len() as int)
                    &&& after[es.len() as int].count == 1
                    &&& after[es.len() as int].word == word
                    &&& after.len() == es.len() + 1
                    &&& forall|k: int| 0 <= k < es.len() ==> after[k] == es[k]
                },
            }
        }),
{
    let key = lowercase_of(word);
    let after = recorded_entries(es, word, meaning, now);
    lemma_find_key_bounds(es, key, 0);
    match find_key(es, key) {
        Some(i) => {
            assert forall|k: int| 0 <= k < i implies key_of(#[trigger] after[k]) != key by {
                assert(after[k] == es[k]);
            }
            lemma_find_key_prefix(after, key, i);
        },
        None => {
            assert forall|k: int| 0 <= k < es.len() implies key_of(#[trigger] after[k]) != key by {
                assert(after[k] == es[k]);
            }
            lemma_find_key_prefix(after, key, es.len() as int);
        },
    }
}

/// When no entry before `i` has key `key` and entry `i` has it, the first
/// match is `i`.
proof fn lemma_find_key_prefix(es: Seq<EntryView>, key: Seq<char>, i: int)
    requires
        0 <= i < es.len(),
        key_of(es[i]) == key,
        forall|k: int| 0 <= k < i ==> key_of(#[trigger] es[k]) != key,
    ensures
        find_key(es, key) == Some(i),
{
    lemma_find_key_from_prefix(es, key, i, 0);
}

proof fn lemma_find_key_from_prefix(es: Seq<EntryView>, key: Seq<char>, i: int, j: int)
    requires
        0 <= j <= i < es.len(),
        key_of(es[i]) == key,
        forall|k: int| 0 <= k < i ==> key_of(#[trigger] es[k]) != key,
    ensures
        find_key_from(es, key, j) == Some(i),
    decreases i - j,
{
    if j < i {
        assert(key_of(es[j]) != key);
        lemma_find_key_from_prefix(es, key, i, j + 1);
    }
}

/// Adding extracted words keeps every id unique.
pub proof fn lemma_add_all_keeps_ids_distinct(es: Seq<EntryView>, ws: Seq<ExtractedView>, now: i64)
    requires
        ids_distinct(es),
        add_all_fits(es, ws, now),
    ensures
        ids_distinct(add_all(es, ws, now).0),
    decreases ws.len(),
{
    if ws.len() > 0 {
        lemma_add_all_keeps_ids_distinct(es, ws.drop_last(), now);
        let a = add_all(es, ws.drop_last(), now).0;
        let w = ws.last();
        let word = trimmed(w.word, false);
        if word.len() > 0 {
            lemma_find_key_bounds(a, lowercase_of(word), 0);
            match find_key(a, lowercase_of(word)) {
                Some(i) => lemma_update_keeps_ids_distinct(a, i, counted_again(a[i], w.meaning, now)),
                None => lemma_push_fresh_keeps_ids_distinct(
                    a,
                    fresh_entry((max_id(a) + 1) as u64, word, w.meaning, w.phonetic, w.pos, now),
                ),
            }
        }
    }
}

/// No two entries hold the same word, letter case aside.
pub open spec fn words_distinct(es: Seq<EntryView>) -> bool {
    forall|i: int, j: int| 0 <= i < es.len() && 0 <= j < es.len() && i != j ==> key_of(es[i]) != key_of(es[j])
}

proof fn lemma_update_keeps_words_distinct(es: Seq<EntryView>, i: int, e: EntryView)
    requires
        words_distinct(es),
        0 <= i < es.len(),
        e.word == es[i].word,
    ensures
        words_distinct(es.update(i, e)),
{
    let after = es.update(i, e);
    assert forall|a: int, b: int| 0 <= a < after.len() && 0 <= b < after.len() && a != b implies key_of(after[a]) != key_of(after[b]) by {
        assert(key_of(after[a]) == key_of(es[a]));
        assert(key_of(after[b]) == key_of(es[b]));
    }
}

proof fn lemma_push_new_word_keeps_words_distinct(es: Seq<EntryView>, e: EntryView)
    requires
        words_distinct(es),
        find_key(es, key_of(e)) is None,
    ensures
        words_distinct(es.push(e)),
{
    lemma_find_key_bounds(es, key_of(e), 0);
    let after = es.push(e);
    assert forall|a: int, b: int| 0 <= a < after.len() && 0 <= b < after.len() && a != b implies key_of(after[a]) != key_of(after[b]) by {
        if a < es.len() {
            assert(after[a] == es[a]);
        }
        if b < es.len() {
            assert(after[b] == es[b]);
        }
    }
}

/// Words stay unique regardless of letter case: looking a word up again,
/// in any case, counts the entry that holds it, and only a word not yet in
/// the notebook gets a new entry.
pub proof fn lemma_record_keeps_words_distinct(es: Seq<EntryView>, word: Seq<char>, meaning: Seq<char>, now: i64)
    requires
        words_distinct(es),
    ensures
        words_distinct(recorded_entries(es, word, meaning, now)),
{
    lemma_find_key_bounds(es, lowercase_of(word), 0);
    match find_key(es, lowercase_of(word)) {
        Some(i) => lemma_update_keeps_words_distinct(es, i, looked_up_again(es[i], meaning, now)),
        None => lemma_push_new_word_keeps_words_distinct(
            es,
            fresh_entry((max_id(es) + 1) as u64, word, meaning, Seq::empty(), Seq::empty(), now),
        ),
    }
}

/// Adding extracted words keeps words unique regardless of letter case.
pub proof fn lemma_add_all_keeps_words_distinct(es: Seq<EntryView>, ws: Seq<ExtractedView>, now: i64)
    requires
        words_distinct(es),
    ensures
        words_distinct(add_all(es, ws, now).0),
    decreases ws.len(),
{
    if ws.len() > 0 {
        lemma_add_all_keeps_words_distinct(es, ws.drop_last(), now);
        let a = add_all(es, ws.drop_last(), now).0;
        let w = ws.last();
        let word = trimmed(w.word, false);
        if word.len() > 0 {
            lemma_find_key_bounds(a, lowercase_of(word), 0);
            match find_key(a, lowercase_of(word)) {
                Some(i) => lemma_update_keeps_words_distinct(a, i, counted_again(a[i], w.meaning, now)),
                None => lemma_push_new_word_keeps_words_distinct(
                    a,
                    fresh_entry((max_id(a) + 1) as u64, word, w.meaning, w.phonetic, w.pos, now),
                ),
            }
        }
    }
}

/// Deleting an id leaves no entry with it and keeps every other entry.
pub proof fn lemma_delete_removes_only_that_id(es: Seq<EntryView>, id: u64)
    ensures
        forall|k: int| 0 <= k < without_id(es, id).len() ==> (#[trigger] without_id(es, id)[k]).id != id,
        forall|k: int| 0 <= k < es.len() && (#[trigger] es[k]).id != id ==> without_id(es, id).contains(es[k]),
        forall|k: int| 0 <= k < without_id(es, id).len() ==> es.contains(#[trigger] without_id(es, id)[k]),
    decreases es.len(),
{
    if es.len() > 0 {
        let r = without_id(es.drop_last(), id);
        lemma_delete_removes_only_that_id(es.drop_last(), id);
        assert forall|k: int| 0 <= k < es.len() && (#[trigger] es[k]).id != id implies without_id(es, id).contains(es[k]) by {
            if k < es.len() - 1 {
                assert(es.drop_last()[k] == es[k]);
                let j = choose|j: int| 0 <= j < r.len() && r[j] == es[k];
                if es.last().id != id {
                    assert(r.push(es.last())[j] == es[k]);
                }
            } else {
                assert(r.push(es.last())[r.len() as int] == es[k]);
            }
        }
        assert forall|k: int| 0 <= k < without_id(es, id).len() implies es.contains(#[trigger] without_id(es, id)[k]) by {
            if k < r.len() {
                assert(without_id(es, id)[k] == r[k]);
                let j = choose|j: int| 0 <= j < es.drop_last().len() && es.drop_last()[j] == r[k];
                assert(es[j] == r[k]);
            } else {
                assert(es[es.len() - 1] == without_id(es, id)[k]);
            }
        }
    }
}

/// Deleting keeps every id unique.
pub proof fn lemma_delete_keeps_ids_distinct(es: Seq<EntryView>, id: u64)
    requires
        ids_distinct(es),
    ensures
        ids_distinct(without_id(es, id)),
    decreases es.len(),
{
    if es.len() > 0 {
        lemma_delete_keeps_ids_distinct(es.drop_last(), id);
        lemma_delete_removes_only_that_id(es.drop_last(), id);
        let r = without_id(es.drop_last(), id);
        if es.last().id != id {
            assert forall|k: int| 0 <= k < r.len() implies (#[trigger] r[k]).id != es.last().id by {
                let j = choose|j: int| 0 <= j < es.drop_last().len() && es.drop_last()[j] == r[k];
                assert(es[j] == r[k]);
            }
        }
    }
}

/// Deleting keeps words unique regardless of letter case.
pub proof fn lemma_delete_keeps_words_distinct(es: Seq<EntryView>, id: u64)
    requires
        words_distinct(es),
    ensures
        words_distinct(without_id(es, id)),
    decreases es.len(),
{
    if es.len() > 0 {
        lemma_delete_keeps_words_distinct(es.drop_last(), id);
        lemma_delete_removes_only_that_id(es.drop_last(), id);
        let r = without_id(es.drop_last(), id);
        if es.last().id != id {
            assert forall|k: int| 0 <= k < r.len() implies key_of(#[trigger] r[k]) != key_of(es.last()) by {
                let j = choose|j: int| 0 <= j < es.drop_last().len() && es.drop_last()[j] == r[k];
                assert(es[j] == r[k]);
            }
            let after = r.push(es.last());
            assert forall|a: int, b: int| 0 <= a < after.len() && 0 <= b < after.len() && a != b implies key_of(after[a]) != key_of(after[b]) by {
                if a < r.len() {
                    assert(after[a] == r[a]);
                }
                if b < r.len() {
                    assert(after[b] == r[b]);
                }
            }
        }
    }
}

/// A review keeps every level within the table, changes only the reviewed
/// entry, and keeps its id.
pub proof fn lemma_review_keeps_levels_ok(es: Seq<EntryView>, i: int, remembered: bool, now: i64)
    requires
        levels_ok(es),
        0 <= i < es.len(),
    ensures
        levels_ok(es.update(i, reviewed(es[i], remembered, now))),
        reviewed(es[i], remembered, now).id == es[i].id,
{
}

/// Marking a word mastered or not keeps every level within the table.
pub proof fn lemma_set_mastered_keeps_levels_ok(es: Seq<EntryView>, i: int, mastered: bool, now: i64)
    requires
        levels_ok(es),
        0 <= i < es.len(),
    ensures
        levels_ok(es.update(i, with_mastered(es[i], mastered, now))),
{
}

/// Recording a lookup keeps every level within the table.
pub proof fn lemma_record_keeps_levels_ok(es: Seq<EntryView>, word: Seq<char>, meaning: Seq<char>, now: i64)
    requires
        levels_ok(es),
    ensures
        levels_ok(recorded_entries(es, word, meaning, now)),
{
    lemma_find_key_bounds(es, lowercase_of(word), 0);
}

/// Remembering a word postpones it at least as long as at any lower level,
/// and strictly longer below the top level; forgetting always brings it back
/// in ten minutes at level 0.
pub proof fn lemma_schedule_grows(a: u8, b: u8)
    requires
        a <= b <= 6,
    ensures
        review_delay(a, true) <= review_delay(b, true),
        a < b ==> review_delay(a, true) < review_delay(b, true) || b == 6 && a == 5,
        level_after(a, false) == 0,
        review_delay(a, false) == RETRY_MS,
{
}

/// The Leitner boxes: a word remembered at level 0, 1, 2, 3, 4, 5 or 6
/// comes back after 1, 2, 4, 7, 15, 30 or 30 days (one day being 86,400,000
/// ms), a word forgotten after ten minutes (600,000 ms).
pub proof fn lemma_review_intervals()
    ensures
        review_delay(0, true) == 86_400_000,
        review_delay(1, true) == 2 * 86_400_000,
        review_delay(2, true) == 4 * 86_400_000,
        review_delay(3, true) == 7 * 86_400_000,
        review_delay(4, true) == 15 * 86_400_000,
        review_delay(5, true) == 30 * 86_400_000,
        review_delay(6, true) == 30 * 86_400_000,
        forall|l: u8| review_delay(l, false) == 600_000,
{
}

/// In the export, entry `a` comes before entry `b`: more lookups first, then
/// the more recent lookup, then the order of the notebook.
pub open spec fn ranks_before(es: Seq<EntryView>, a: int, b: int) -> bool {
    ||| es[a].count > es[b].count
    ||| es[a].count == es[b].count && es[a].last_at > es[b].last_at
    ||| es[a].count == es[b].count && es[a].last_at == es[b].last_at && a < b
}

/// `p` lists the indices of `es` in export order.
pub open spec fn is_export_order(es: Seq<EntryView>, p: Seq<usize>) -> bool {
    &&& p.len() == es.len()
    &&& forall|i: int| 0 <= i < p.len() ==> (#[trigger] p[i]) < es.len()
    &&& forall|i: int, j: int| 0 <= i < j < p.len() ==> ranks_before(es, #[trigger] p[i] as int, #[trigger] p[j] as int)
}

/// The first line of the export, with a byte-order mark for spreadsheets.
pub open spec fn csv_header() -> Seq<char> {
    "\u{feff}单词,音标,词性,释义,例句,例句翻译,查询次数,首次查询,最近查询,状态\n"@
}

pub open spec fn status_text(mastered: bool) -> Seq<char> {
    if mastered {
        "已掌握"@
    } else {
        "学习中"@
    }
}

/// One line of the export for `e`, dates local to `tz_offset_min`.
pub open spec fn csv_row(e: EntryView, tz_offset_min: i64) -> Seq<char> {
    csv_cell_spec(e.word) + seq![','] + csv_cell_spec(e.phonetic) + seq![','] + csv_cell_spec(e.pos)
        + seq![','] + csv_cell_spec(e.meaning) + seq![','] + csv_cell_spec(e.example) + seq![',']
        + csv_cell_spec(e.example_zh) + seq![','] + decimal(e.count as nat) + seq![','] + date_text(
        civil_from_days(day_number(e.first_at, tz_offset_min)),
    ) + seq![','] + date_text(civil_from_days(day_number(e.last_at, tz_offset_min))) + seq![',']
        + status_text(e.mastered) + seq!['\n']
}

/// An export row starts with the word's cell and ends with the date of the
/// entry's first lookup, then the date of its last lookup, then its status,
/// as the header's last columns 首次查询 (first lookup), 最近查询 (last
/// lookup) and 状态 (status) announce.
pub proof fn lemma_export_row_columns(e: EntryView, tz_offset_min: i64)
    ensures
        exists|head: Seq<char>|
            csv_row(e, tz_offset_min) == csv_cell_spec(e.word) + seq![','] + head
                + date_text(civil_from_days(day_number(e.first_at, tz_offset_min))) + seq![',']
                + date_text(civil_from_days(day_number(e.last_at, tz_offset_min))) + seq![',']
                + (if e.mastered { "已掌握"@ } else { "学习中"@ }) + seq!['\n'],
{
    let head = csv_cell_spec(e.phonetic) + seq![','] + csv_cell_spec(e.pos) + seq![','] + csv_cell_spec(e.meaning)
        + seq![','] + csv_cell_spec(e.example) + seq![','] + csv_cell_spec(e.example_zh) + seq![',']
        + decimal(e.count as nat) + seq![','];
    let rest = date_text(civil_from_days(day_number(e.first_at, tz_offset_min))) + seq![',']
        + date_text(civil_from_days(day_number(e.last_at, tz_offset_min))) + seq![',']
        + (if e.mastered { "已掌握"@ } else { "学习中"@ }) + seq!['\n'];
    assert(csv_row(e, tz_offset_min) =~= csv_cell_spec(e.word) + seq![','] + head + rest);
}

/// The lines for the entries at indices `p`, in that order.
pub open spec fn csv_rows(es: Seq<EntryView>, p: Seq<usize>, tz_offset_min: i64) -> Seq<char>
    decreases p.len(),
{
    if p.len() == 0 {
        Seq::empty()
    } else {
        csv_rows(es, p.drop_last(), tz_offset_min) + csv_row(es[p.last() as int], tz_offset_min)
    }
}

/// Every date of the notebook can be written at this offset.
pub open spec fn dates_fit(es: Seq<EntryView>, tz_offset_min: i64) -> bool {
    forall|i: int| 0 <= i < es.len() ==> #[trigger] entry_dates_fit(es[i], tz_offset_min)
}

/// Both dates of `e` can be written at this offset.
pub open spec fn entry_dates_fit(e: EntryView, tz_offset_min: i64) -> bool {
    date_fits(e.first_at, tz_offset_min) && date_fits(e.last_at, tz_offset_min)
}

/// The export order is unique: any two lists that meet `is_export_order`
/// for the same notebook are the same list, so the export text is fixed.
pub proof fn lemma_export_order_unique(es: Seq<EntryView>, p: Seq<usize>, q: Seq<usize>)
    requires
        is_export_order(es, p),
        is_export_order(es, q),
    ensures
        p == q,
{
    let lt = |a: int, b: int| ranks_before(es, a, b);
    assert(is_index_perm(p, es.len())) by {
        assert forall|i: int, j: int| 0 <= i < j < p.len() implies #[trigger] p[i] != #[trigger] p[j] by {
            assert(ranks_before(es, p[i] as int, p[j] as int));
        }
    }
    assert(is_index_perm(q, es.len())) by {
        assert forall|i: int, j: int| 0 <= i < j < q.len() implies #[trigger] q[i] != #[trigger] q[j] by {
            assert(ranks_before(es, q[i] as int, q[j] as int));
        }
    }
    lemma_sorted_perm_unique(lt, es.len(), p, q);
}

/// Adding extracted words keeps every level within the table (new words
/// start at level 0).
pub proof fn lemma_add_all_keeps_levels_ok(es: Seq<EntryView>, ws: Seq<ExtractedView>, now: i64)
    requires
        levels_ok(es),
    ensures
        levels_ok(add_all(es, ws, now).0),
    decreases ws.len(),
{
    if ws.len() > 0 {
        lemma_add_all_keeps_levels_ok(es, ws.drop_last(), now);
        let a = add_all(es, ws.drop_last(), now).0;
        let word = trimmed(ws.last().word, false);
        lemma_find_key_bounds(a, lowercase_of(word), 0);
    }
}

/// Deleting keeps every level within the table.
pub proof fn lemma_delete_keeps_levels_ok(es: Seq<EntryView>, id: u64)
    requires
        levels_ok(es),
    ensures
        levels_ok(without_id(es, id)),
{
    lemma_delete_removes_only_that_id(es, id);
    assert forall|k: int| 0 <= k < without_id(es, id).len() implies (#[trigger] without_id(es, id)[k]).level <= 6 by {
        let j = choose|j: int| 0 <= j < es.len() && es[j] == without_id(es, id)[k];
    }
}

impl RecordResult {
    pub open spec fn view(&self) -> (bool, bool, u32, Seq<char>) {
        (self.recorded, self.is_new, self.count, self.word@)
    }
}

impl View for VocabState {
    type V = Seq<EntryView>;

    closed spec fn view(&self) -> Seq<EntryView> {
        self.entries@.map_values(|e: VocabEntry| e@)
    }
}

proof fn lemma_find_key_step(es: Seq<EntryView>, key: Seq<char>, i: int)
    requires
        0 <= i < es.len(),
        key_of(es[i]) != key,
    ensures
        find_key_from(es, key, i) == find_key_from(es, key, i + 1),
{
}

proof fn lemma_find_key_found(es: Seq<EntryView>, key: Seq<char>, i: int)
    requires
        0 <= i < es.len(),
        key_of(es[i]) == key,
    ensures
        find_key_from(es, key, i) == Some(i),
{
}

/// The search by key from `i` finds the first entry at or after `i` with
/// that key, or reports that none has it.
pub proof fn lemma_find_key_bounds(es: Seq<EntryView>, key: Seq<char>, i: int)
    requires
        0 <= i,
    ensures
        find_key_from(es, key, i) matches Some(j) ==> i <= j < es.len() && key_of(es[j]) == key
            && forall|k: int| i <= k < j ==> key_of(#[trigger] es[k]) != key,
        find_key_from(es, key, i) is None ==> forall|k: int|
            i <= k < es.len() ==> key_of(#[trigger] es[k]) != key,
    decreases es.len() - i,
{
    if 0 <= i < es.len() && key_of(es[i]) != key {
        lemma_find_key_bounds(es, key, i + 1);
    }
}

/// The search by id from `i` finds the first entry at or after `i` with
/// that id, or reports that none has it.
pub proof fn lemma_find_id_bounds(es: Seq<EntryView>, id: u64, i: int)
    requires
        0 <= i,
    ensures
        find_id_from(es, id, i) matches Some(j) ==> i <= j < es.len() && es[j].id == id
            && forall|k: int| i <= k < j ==> (#[trigger] es[k]).id != id,
        find_id_from(es, id, i) is None ==> forall|k: int|
            i <= k < es.len() ==> (#[trigger] es[k]).id != id,
    decreases es.len() - i,
{
    if 0 <= i < es.len() && es[i].id != id {
        lemma_find_id_bounds(es, id, i + 1);
    }
}

/// No id in use is above `max_id`.
pub proof fn lemma_max_id(es: Seq<EntryView>)
    ensures
        forall|i: int| 0 <= i < es.len() ==> (#[trigger] es[i]).id <= max_id(es),
    decreases es.len(),
{
    if es.len() > 0 {
        lemma_max_id(es.drop_last());
        assert forall|i: int| 0 <= i < es.len() implies (#[trigger] es[i]).id <= max_id(es) by {
            if i < es.len() - 1 {
                assert(es[i] == es.drop_last()[i]);
            }
        }
    }
}

/// The notebook `before` became `after` by recording the translation of
/// `src` into `res` at `now`, answering `out` and, for a new word, its id.
pub open spec fn recorded_as(
    before: Seq<EntryView>,
    src: Seq<char>,
    res: Seq<char>,
    now: i64,
    after: Seq<EntryView>,
    out: (bool, bool, u32, Seq<char>),
    new_id: Option<u64>,
) -> bool {
    match candidate_spec(src, res) {
        None => {
            &&& after == before
            &&& out == (false, false, 0u32, Seq::<char>::empty())
            &&& new_id is None
        },
        Some((w, m)) => {
            &&& after == recorded_entries(before, w, m, now)
            &&& match find_key(before, lowercase_of(w)) {
                Some(i) => {
                    &&& out == (true, false, (before[i].count + 1) as u32, before[i].word)
                    &&& new_id is None
                },
                None => {
                    &&& out == (true, true, 1u32, w)
                    &&& new_id == Some((max_id(before) + 1) as u64)
                },
            }
        },
    }
}

/// Recording the translation of `src` into `res` stays within the
/// counters' range.
pub open spec fn record_allowed(es: Seq<EntryView>, src: Seq<char>, res: Seq<char>) -> bool {
    candidate_spec(src, res) matches Some((w, m)) ==> record_fits(es, w)
}

impl VocabState {
    /// An empty notebook.
    pub fn new() -> (s: Self)
        ensures
            s@ == Seq::<EntryView>::empty(),
    {
        let s = VocabState { entries: Vec::new() };
        assert(s@ =~= Seq::<EntryView>::empty());
        s
    }

    /// The notebook holding `entries`, as they were stored.
    pub fn from_entries(entries: Vec<VocabEntry>) -> (s: Self)
        ensures
            s@ == entries@.map_values(|e: VocabEntry| e@),
    {
        VocabState { entries }
    }

    /// The entries, in order.
    pub fn entries(&self) -> (r: &Vec<VocabEntry>)
        ensures
            r@.map_values(|e: VocabEntry| e@) == self@,
    {
        &self.entries
    }

    /// Index of the first entry whose lowercase word is `key`.
    fn position_of_key(&self, key: &String) -> (r: Option<usize>)
        ensures
            r matches Some(i) ==> find_key(self@, key@) == Some(i as int),
            r is None ==> find_key(self@, key@) is None,
    {
        let mut i: usize = 0;
        while i < self.entries.len()
            invariant
                i <= self@.len(),
                self@.len() == self.entries@.len(),
                find_key(self@, key@) == find_key_from(self@, key@, i as int),
            decreases self@.len() - i,
        {
            let k = lowercase(self.entries[i].word.as_str());
            assert(self@[i as int] == self.entries@[i as int]@);
            if k == *key {
                proof {
                    lemma_find_key_found(self@, key@, i as int);
                }
                return Some(i);
            }
            proof {
                lemma_find_key_step(self@, key@, i as int);
            }
            i = i + 1;
        }
        None
    }

    /// Index of the first entry with this id.
    fn position_of_id(&self, id: u64) -> (r: Option<usize>)
        ensures
            r matches Some(i) ==> find_id(self@, id) == Some(i as int),
            r is None ==> find_id(self@, id) is None,
    {
        let mut i: usize = 0;
        while i < self.entries.len()
            invariant
                i <= self@.len(),
                self@.len() == self.entries@.len(),
                find_id(self@, id) == find_id_from(self@, id, i as int),
            decreases self@.len() - i,
        {
            assert(self@[i as int] == self.entries@[i as int]@);
            if self.entries[i].id == id {
                return Some(i);
            }
            i = i + 1;
        }
        None
    }

    /// The largest id in use, 0 when empty.
    fn largest_id(&self) -> (m: u64)
        ensures
            m == max_id(self@),
    {
        let mut i: usize = 0;
        let mut m: u64 = 0;
        while i < self.entries.len()
            invariant
                i <= self@.len(),
                self@.len() == self.entries@.len(),
                m == max_id(self@.subrange(0, i as int)),
            decreases self@.len() - i,
        {
            assert(self@.subrange(0, i + 1).drop_last() =~= self@.subrange(0, i as int));
            assert(self@[i as int] == self.entries@[i as int]@);
            if self.entries[i].id > m {
                m = self.entries[i].id;
            }
            i = i + 1;
        }
        assert(self@.subrange(0, self@.len() as int) =~= self@);
        m
    }

    /// Records the translation of `src` into `res` when it was a word
    /// lookup: a word already in the notebook (compared in lowercase) is
    /// counted once more and its meaning merged; a new word gets the next id.
    /// Returns the answer for the caller and, for a new word, its id.
    pub fn record(&mut self, src: &str, res: &str, now: i64) -> (out: (RecordResult, Option<u64>))
        requires
            candidate_spec(src@, res@) matches Some((w, m)) ==> record_fits(old(self)@, w),
        ensures
            recorded_as(old(self)@, src@, res@, now, final(self)@, out.0@, out.1),
    {
        match vocab_candidate(src, res) {
            None => {
                let r = RecordResult { recorded: false, is_new: false, count: 0, word: String::new() };
                (r, None)
            },
            Some((word, meaning)) => {
                let key = lowercase(word.as_str());
                match self.position_of_key(&key) {
                    Some(i) => {
                        proof {
                            lemma_find_key_bounds(self@, key@, 0);
                        }
                        let merged = merge_meaning(self.entries[i].meaning.as_str(), meaning.as_str());
                        let count = self.entries[i].count + 1;
                        self.entries[i].count = count;
                        self.entries[i].last_at = now;
                        self.entries[i].meaning = merged;
                        let r = RecordResult { recorded: true, is_new: false, count, word: self.entries[i].word.clone() };
                        proof {
                            assert(self@ =~= recorded_entries(old(self)@, word@, meaning@, now));
                        }
                        (r, None)
                    },
                    None => {
                        let id = self.largest_id() + 1;
                        let e = VocabEntry {
                            id,
                            word: word.clone(),
                            meaning,
                            phonetic: String::new(),
                            pos: String::new(),
                            example: String::new(),
                            example_zh: String::new(),
                            count: 1,
                            first_at: now,
                            last_at: now,
                            level: 0,
                            next_review: now,
                            mastered: false,
                            reviews: 0,
                        };
                        self.entries.push(e);
                        proof {
                            assert(self@ =~= recorded_entries(old(self)@, word@, meaning@, now));
                        }
                        let r = RecordResult { recorded: true, is_new: true, count: 1, word };
                        (r, Some(id))
                    },
                }
            },
        }
    }

    /// Removes every entry with this id.
    pub fn delete(&mut self, id: u64)
        ensures
            final(self)@ == without_id(old(self)@, id),
    {
        let ghost old_v = self@;
        let ghost mut k: int = 0;
        let mut i: usize = 0;
        assert(old_v.take(0) =~= Seq::<EntryView>::empty());
        assert(old_v.skip(0) =~= old_v);
        assert(self@ =~= without_id(old_v.take(0), id) + old_v.skip(0));
        while i < self.entries.len()
            invariant
                0 <= k <= old_v.len(),
                self@.len() == self.entries@.len(),
                self@ == without_id(old_v.take(k), id) + old_v.skip(k),
                i == without_id(old_v.take(k), id).len(),
            decreases old_v.len() - k,
        {
            let ghost pre = without_id(old_v.take(k), id);
            assert(old_v.take(k + 1).drop_last() =~= old_v.take(k));
            assert(old_v.take(k + 1).last() == old_v[k]);
            assert(self@[i as int] == old_v.skip(k)[0]);
            assert(self@[i as int] == self.entries@[i as int]@);
            if self.entries[i].id == id {
                let ghost prev = self@;
                let ghost prev_entries = self.entries@;
                self.entries.remove(i);
                proof {
                    assert(self.entries@ == prev_entries.remove(i as int));
                    assert(self@ =~= prev.remove(i as int));
                    assert(prev.remove(i as int) =~= pre + old_v.skip(k + 1));
                    assert(self@ =~= pre + old_v.skip(k + 1));
                    k = k + 1;
                }
            } else {
                proof {
                    assert(self@ =~= pre.push(old_v[k]) + old_v.skip(k + 1));
                    k = k + 1;
                }
                i = i + 1;
            }
        }
        proof {
            assert(old_v.take(k) =~= old_v);
            assert(self@ =~= without_id(old_v, id));
        }
    }

    /// Marks the first entry with this id as mastered or not; taking the
    /// mark away starts the word over at level 0, due at `now`.
    pub fn set_mastered(&mut self, id: u64, mastered: bool, now: i64)
        ensures
            match find_id(old(self)@, id) {
                Some(i) => final(self)@ == old(self)@.update(i, with_mastered(old(self)@[i], mastered, now)),
                None => final(self)@ == old(self)@,
            },
    {
        match self.position_of_id(id) {
            Some(i) => {
                proof {
                    lemma_find_id_bounds(self@, id, 0);
                }
                self.entries[i].mastered = mastered;
                if !mastered {
                    self.entries[i].level = 0;
                    self.entries[i].next_review = now;
                }
                proof {
                    assert(self@ =~= old(self)@.update(i as int, with_mastered(old(self)@[i as int], mastered, now)));
                }
            },
            None => {},
        }
    }

    /// Reviews the first entry with this id at `now`.
    pub fn review(&mut self, id: u64, remembered: bool, now: i64)
        requires
            find_id(old(self)@, id) matches Some(i) ==> review_fits(old(self)@[i], remembered, now),
        ensures
            match find_id(old(self)@, id) {
                Some(i) => final(self)@ == old(self)@.update(i, reviewed(old(self)@[i], remembered, now)),
                None => final(self)@ == old(self)@,
            },
    {
        match self.position_of_id(id) {
            Some(i) => {
                proof {
                    lemma_find_id_bounds(self@, id, 0);
                    assert(self@[i as int] == self.entries@[i as int]@);
                }
                self.entries[i].reviews = self.entries[i].reviews + 1;
                if remembered {
                    if self.entries[i].level >= MAX_LEVEL {
                        self.entries[i].mastered = true;
                    } else {
                        self.entries[i].level = self.entries[i].level + 1;
                    }
                    let days = interval_days(self.entries[i].level);
                    self.entries[i].next_review = now + days * DAY_MS;
                } else {
                    self.entries[i].level = 0;
                    self.entries[i].next_review = now + RETRY_MS;
                }
                proof {
                    assert(self@ =~= old(self)@.update(i as int, reviewed(old(self)@[i as int], remembered, now)));
                }
            },
            None => {},
        }
    }

    /// The word and meaning of the first entry with this id.
    pub fn word_and_meaning(&self, id: u64) -> (r: Option<(String, String)>)
        ensures
            match find_id(self@, id) {
                Some(i) => r matches Some((w, m)) && w@ == self@[i].word && m@ == self@[i].meaning,
                None => r is None,
            },
    {
        match self.position_of_id(id) {
            Some(i) => {
                proof {
                    lemma_find_id_bounds(self@, id, 0);
                    assert(self@[i as int] == self.entries@[i as int]@);
                }
                Some((self.entries[i].word.clone(), self.entries[i].meaning.clone()))
            },
            None => None,
        }
    }

    /// Completes the first entry with this id with the model's fields, each
    /// trimmed; an empty meaning leaves the old one.
    pub fn enrich(&mut self, id: u64, fields: &Enrichment)
        ensures
            match find_id(old(self)@, id) {
                Some(i) => final(self)@ == old(self)@.update(
                    i,
                    enriched(
                        old(self)@[i],
                        trimmed(fields.phonetic@, false),
                        trimmed(fields.pos@, false),
                        trimmed(fields.meaning@, false),
                        trimmed(fields.example@, false),
                        trimmed(fields.example_zh@, false),
                    ),
                ),
                None => final(self)@ == old(self)@,
            },
    {
        match self.position_of_id(id) {
            Some(i) => {
                proof {
                    lemma_find_id_bounds(self@, id, 0);
                }
                self.entries[i].phonetic = trim_str(fields.phonetic.as_str());
                self.entries[i].pos = trim_str(fields.pos.as_str());
                self.entries[i].example = trim_str(fields.example.as_str());
                self.entries[i].example_zh = trim_str(fields.example_zh.as_str());
                let m = trim_str(fields.meaning.as_str());
                if !m.as_str().is_empty() {
                    self.entries[i].meaning = m;
                }
                proof {
                    assert(self@ =~= old(self)@.update(
                        i as int,
                        enriched(
                            old(self)@[i as int],
                            trimmed(fields.phonetic@, false),
                            trimmed(fields.pos@, false),
                            trimmed(fields.meaning@, false),
                            trimmed(fields.example@, false),
                            trimmed(fields.example_zh@, false),
                        ),
                    ));
                }
            },
            None => {},
        }
    }

    /// Adds one extracted word (see `add_one`); true when it was new.
    fn add_word(&mut self, w: &ExtractedWord, now: i64) -> (added: bool)
        requires
            add_one_fits(old(self)@, w@),
        ensures
            (final(self)@, if added { 1nat } else { 0nat }) == add_one(old(self)@, w@, now),
    {
        let word = trim_str(w.word.as_str());
        if word.as_str().is_empty() {
            return false;
        }
        let key = lowercase(word.as_str());
        match self.position_of_key(&key) {
            Some(j) => {
                proof {
                    lemma_find_key_bounds(self@, key@, 0);
                }
                let ghost before = self@;
                self.entries[j].count = self.entries[j].count + 1;
                self.entries[j].last_at = now;
                if self.entries[j].meaning.as_str().is_empty() {
                    self.entries[j].meaning = w.meaning.clone();
                }
                proof {
                    assert(self@ =~= before.update(j as int, counted_again(before[j as int], w.meaning@, now)));
                }
                false
            },
            None => {
                let ghost before = self@;
                let id = self.largest_id() + 1;
                let e = VocabEntry {
                    id,
                    word,
                    meaning: w.meaning.clone(),
                    phonetic: w.phonetic.clone(),
                    pos: w.pos.clone(),
                    example: String::new(),
                    example_zh: String::new(),
                    count: 1,
                    first_at: now,
                    last_at: now,
                    level: 0,
                    next_review: now,
                    mastered: false,
                    reviews: 0,
                };
                self.entries.push(e);
                proof {
                    assert(self@ =~= before.push(fresh_entry(id, trimmed(w.word@, false), w.meaning@, w.phonetic@, w.pos@, now)));
                }
                true
            },
        }
    }

    /// Whether adding `w` stays within the counters' range.
    fn word_fits(&self, w: &ExtractedWord) -> (b: bool)
        ensures
            b == add_one_fits(self@, w@),
    {
        let word = trim_str(w.word.as_str());
        if word.as_str().is_empty() {
            return true;
        }
        self.key_fits(&lowercase(word.as_str()))
    }

    /// Whether recording the word with lowercase form `key` stays within the
    /// counters' range.
    fn key_fits(&self, key: &String) -> (b: bool)
        ensures
            b == (match find_key(self@, key@) {
                Some(i) => self@[i].count < u32::MAX,
                None => max_id(self@) < u64::MAX,
            }),
    {
        match self.position_of_key(key) {
            Some(j) => {
                proof {
                    lemma_find_key_bounds(self@, key@, 0);
                    assert(self@[j as int] == self.entries@[j as int]@);
                }
                self.entries[j].count < u32::MAX
            },
            None => self.largest_id() < u64::MAX,
        }
    }

    /// A copy of the notebook.
    fn duplicate(&self) -> (r: VocabState)
        ensures
            r@ == self@,
    {
        let mut out: Vec<VocabEntry> = Vec::new();
        let mut i: usize = 0;
        while i < self.entries.len()
            invariant
                i <= self@.len(),
                self@.len() == self.entries@.len(),
                out@.map_values(|e: VocabEntry| e@) =~= self@.take(i as int),
            decreases self@.len() - i,
        {
            let e = &self.entries[i];
            let c = VocabEntry {
                id: e.id,
                word: e.word.clone(),
                meaning: e.meaning.clone(),
                phonetic: e.phonetic.clone(),
                pos: e.pos.clone(),
                example: e.example.clone(),
                example_zh: e.example_zh.clone(),
                count: e.count,
                first_at: e.first_at,
                last_at: e.last_at,
                level: e.level,
                next_review: e.next_review,
                mastered: e.mastered,
                reviews: e.reviews,
            };
            let ghost prev = out@;
            proof {
                assert(c@ == self@[i as int]);
            }
            out.push(c);
            proof {
                assert(out@.map_values(|e: VocabEntry| e@) =~= prev.map_values(|e: VocabEntry| e@).push(c@));
                assert(self@.take(i + 1) =~= self@.take(i as int).push(self@[i as int]));
            }
            i = i + 1;
        }
        proof {
            assert(self@.take(self@.len() as int) =~= self@);
        }
        VocabState { entries: out }
    }

    /// Whether `add_many(words, now)` stays within the counters' range,
    /// found by a dry run on a copy of the notebook.
    pub fn add_room(&self, words: &Vec<ExtractedWord>, now: i64) -> (b: bool)
        ensures
            b == (add_all_fits(self@, words@.map_values(|w: ExtractedWord| w@), now)
                && add_all(self@, words@.map_values(|w: ExtractedWord| w@), now).1 <= u32::MAX),
    {
        let ghost ws = words@.map_values(|w: ExtractedWord| w@);
        let mut scratch = self.duplicate();
        let mut added: u32 = 0;
        let mut i: usize = 0;
        assert(ws.take(0) =~= Seq::<ExtractedView>::empty());
        while i < words.len()
            invariant
                ws == words@.map_values(|w: ExtractedWord| w@),
                i <= ws.len(),
                add_all_fits(self@, ws.take(i as int), now),
                (scratch@, added as nat) == add_all(self@, ws.take(i as int), now),
            decreases ws.len() - i,
        {
            proof {
                lemma_add_all_prefix(self@, ws, now, i + 1);
                assert(ws.take(i + 1).drop_last() =~= ws.take(i as int));
                assert(ws.take(i + 1).last() == words@[i as int]@);
            }
            if !scratch.word_fits(&words[i]) {
                return false;
            }
            if scratch.add_word(&words[i], now) {
                if added == u32::MAX {
                    return false;
                }
                added = added + 1;
            }
            i = i + 1;
        }
        proof {
            assert(ws.take(ws.len() as int) =~= ws);
        }
        true
    }

    /// `record`, when it stays within the counters' range; `None`, with the
    /// notebook unchanged, when a count or the next id would overflow. Ids
    /// stay unique, and so do words regardless of letter case.
    pub fn try_record(&mut self, src: &str, res: &str, now: i64) -> (out: Option<(RecordResult, Option<u64>)>)
        ensures
            out is Some <==> record_allowed(old(self)@, src@, res@),
            out matches Some(o) ==> recorded_as(old(self)@, src@, res@, now, final(self)@, o.0@, o.1),
            out is None ==> final(self)@ == old(self)@,
            ids_distinct(old(self)@) ==> ids_distinct(final(self)@),
            words_distinct(old(self)@) ==> words_distinct(final(self)@),
    {
        if !self.record_room(src, res) {
            return None;
        }
        let ghost before = self@;
        let out = self.record(src, res, now);
        proof {
            match candidate_spec(src@, res@) {
                Some((w, m)) => {
                    if ids_distinct(before) {
                        lemma_record_keeps_ids_distinct(before, w, m, now);
                    }
                    if words_distinct(before) {
                        lemma_record_keeps_words_distinct(before, w, m, now);
                    }
                },
                None => {},
            }
        }
        Some(out)
    }

    /// `add_many`, when it stays within the counters' range; `None`, with
    /// the notebook unchanged, when a count, an id or the number added
    /// would overflow. Ids stay unique, and so do words regardless of
    /// letter case.
    pub fn try_add_many(&mut self, words: Vec<ExtractedWord>, now: i64) -> (added: Option<u32>)
        ensures
            added is Some <==> (add_all_fits(old(self)@, words@.map_values(|w: ExtractedWord| w@), now)
                && add_all(old(self)@, words@.map_values(|w: ExtractedWord| w@), now).1 <= u32::MAX),
            added matches Some(n) ==> (final(self)@, n as nat) == add_all(old(self)@, words@.map_values(|w: ExtractedWord| w@), now),
            added is None ==> final(self)@ == old(self)@,
            ids_distinct(old(self)@) ==> ids_distinct(final(self)@),
            words_distinct(old(self)@) ==> words_distinct(final(self)@),
    {
        if !self.add_room(&words, now) {
            return None;
        }
        let ghost before = self@;
        let ghost ws = words@.map_values(|w: ExtractedWord| w@);
        let n = self.add_many(words, now);
        proof {
            if ids_distinct(before) {
                lemma_add_all_keeps_ids_distinct(before, ws, now);
            }
            if words_distinct(before) {
                lemma_add_all_keeps_words_distinct(before, ws, now);
            }
        }
        Some(n)
    }

    /// Whether `record(src, res, now)` stays within the counters' range.
    pub fn record_room(&self, src: &str, res: &str) -> (b: bool)
        ensures
            b == (candidate_spec(src@, res@) matches Some((w, m)) ==> record_fits(self@, w)),
    {
        match vocab_candidate(src, res) {
            None => true,
            Some((word, _meaning)) => self.key_fits(&lowercase(word.as_str())),
        }
    }

    /// Whether `review(id, remembered, now)` stays within the counters'
    /// range and the table of intervals.
    pub fn review_room(&self, id: u64, remembered: bool, now: i64) -> (b: bool)
        ensures
            b == (find_id(self@, id) matches Some(i) ==> review_fits(self@[i], remembered, now)),
    {
        match self.position_of_id(id) {
            None => true,
            Some(i) => {
                proof {
                    lemma_find_id_bounds(self@, id, 0);
                    assert(self@[i as int] == self.entries@[i as int]@);
                }
                let e = &self.entries[i];
                if e.reviews == u32::MAX {
                    return false;
                }
                if !remembered {
                    return now.checked_add(RETRY_MS).is_some();
                }
                if e.level > MAX_LEVEL {
                    return false;
                }
                let next: u8 = if e.level >= MAX_LEVEL { e.level } else { e.level + 1 };
                let delay: i64 = interval_days(next) * DAY_MS;
                now.checked_add(delay).is_some()
            },
        }
    }

    /// Whether every date of the notebook can be written at this offset.
    pub fn dates_ok(&self, tz_offset_min: i64) -> (b: bool)
        ensures
            b == dates_fit(self@, tz_offset_min),
    {
        let mut i: usize = 0;
        while i < self.entries.len()
            invariant
                i <= self@.len(),
                self@.len() == self.entries@.len(),
                forall|k: int| 0 <= k < i ==> #[trigger] entry_dates_fit(self@[k], tz_offset_min),
            decreases self@.len() - i,
        {
            assert(self@[i as int] == self.entries@[i as int]@);
            if !fits_date(self.entries[i].first_at, tz_offset_min) || !fits_date(self.entries[i].last_at, tz_offset_min) {
                proof {
                    let k = i as int;
                    assert(!entry_dates_fit(self@[k], tz_offset_min));
                }
                return false;
            }
            i = i + 1;
        }
        true
    }

    /// Adds extracted words to the notebook: a word already there (compared
    /// in lowercase) is counted once more and gets the meaning if it had
    /// none; a new word gets the next id. Returns how many were new.
    pub fn add_many(&mut self, words: Vec<ExtractedWord>, now: i64) -> (added: u32)
        requires
            add_all_fits(old(self)@, words@.map_values(|w: ExtractedWord| w@), now),
            add_all(old(self)@, words@.map_values(|w: ExtractedWord| w@), now).1 <= u32::MAX,
        ensures
            (final(self)@, added as nat) == add_all(old(self)@, words@.map_values(|w: ExtractedWord| w@), now),
    {
        let ghost ws = words@.map_values(|w: ExtractedWord| w@);
        let ghost old_v = self@;
        let mut added: u32 = 0;
        let mut i: usize = 0;
        assert(ws.take(0) =~= Seq::<ExtractedView>::empty());
        while i < words.len()
            invariant
                ws == words@.map_values(|w: ExtractedWord| w@),
                i <= ws.len(),
                add_all_fits(old_v, ws, now),
                add_all(old_v, ws, now).1 <= u32::MAX,
                (self@, added as nat) == add_all(old_v, ws.take(i as int), now),
            decreases ws.len() - i,
        {
            proof {
                lemma_add_all_prefix(old_v, ws, now, i + 1);
                assert(ws.take(i + 1).drop_last() =~= ws.take(i as int));
                assert(ws.take(i + 1).last() == words@[i as int]@);
            }
            if self.add_word(&words[i], now) {
                added = added + 1;
            }
            i = i + 1;
        }
        proof {
            assert(ws.take(ws.len() as int) =~= ws);
        }
        added
    }

    /// Whether entry `a` comes before entry `b` in the export.
    fn export_before(&self, a: usize, b: usize) -> (r: bool)
        requires
            a < self@.len(),
            b < self@.len(),
        ensures
            r == ranks_before(self@, a as int, b as int),
    {
        proof {
            assert(self@[a as int] == self.entries@[a as int]@);
            assert(self@[b as int] == self.entries@[b as int]@);
        }
        let ea = &self.entries[a];
        let eb = &self.entries[b];
        ea.count > eb.count || (ea.count == eb.count && ea.last_at > eb.last_at) || (ea.count
            == eb.count && ea.last_at == eb.last_at && a < b)
    }

    /// The indices of the entries in export order: by lookups, most first,
    /// then by last lookup, most recent first; ties keep the notebook's order.
    pub fn export_order(&self) -> (p: Vec<usize>)
        ensures
            is_export_order(self@, p@),
    {
        let n = self.entries.len();
        let mut p: Vec<usize> = Vec::new();
        let mut k: usize = 0;
        while k < n
            invariant
                n == self@.len(),
                k <= n,
                p@.len() == k,
                forall|i: int| 0 <= i < p@.len() ==> (#[trigger] p@[i]) < k,
                forall|i: int, j: int| 0 <= i < j < p@.len() ==> ranks_before(self@, #[trigger] p@[i] as int, #[trigger] p@[j] as int),
            decreases n - k,
        {
            let mut pos: usize = 0;
            while pos < p.len() && !self.export_before(k, p[pos])
                invariant
                    n == self@.len(),
                    k < n,
                    pos <= p@.len(),
                    forall|i: int| 0 <= i < p@.len() ==> (#[trigger] p@[i]) < k,
                    forall|i: int| 0 <= i < pos ==> !ranks_before(self@, k as int, #[trigger] p@[i] as int),
                decreases p@.len() - pos,
            {
                pos = pos + 1;
            }
            let ghost old_p = p@;
            p.insert(pos, k);
            proof {
                assert forall|i: int, j: int| 0 <= i < j < p@.len() implies ranks_before(self@, #[trigger] p@[i] as int, #[trigger] p@[j] as int) by {
                    if j < pos {
                        assert(p@[i] == old_p[i] && p@[j] == old_p[j]);
                    } else if j == pos {
                        assert(p@[i] == old_p[i]);
                        assert(!ranks_before(self@, k as int, old_p[i] as int));
                    } else if i == pos {
                        assert(p@[j] == old_p[j - 1]);
                        assert(ranks_before(self@, k as int, old_p[pos as int] as int));
                        if j - 1 > pos {
                            assert(ranks_before(self@, old_p[pos as int] as int, old_p[j - 1] as int));
                        }
                    } else if i < pos {
                        assert(p@[i] == old_p[i] && p@[j] == old_p[j - 1]);
                    } else {
                        assert(p@[i] == old_p[i - 1] && p@[j] == old_p[j - 1]);
                    }
                }
            }
            k = k + 1;
        }
        p
    }

    #[verifier::rlimit(40)]
    #[verifier::spinoff_prover]
    /// The notebook as CSV text: a header line, then one line per entry in
    /// export order, dates local to `tz_offset_min`. An empty notebook is
    /// refused.
    pub fn export_csv(&self, tz_offset_min: i64) -> (r: Result<String, String>)
        requires
            dates_fit(self@, tz_offset_min),
        ensures
            self@.len() == 0 ==> (r matches Err(e) && e@ == "生词本还是空的"@),
            self@.len() > 0 ==> (r matches Ok(text) && exists|p: Seq<usize>|
                is_export_order(self@, p) && text@ == csv_header() + csv_rows(self@, p, tz_offset_min)),
    {
        if self.entries.len() == 0 {
            return Err(String::from_str("生词本还是空的"));
        }
        let p = self.export_order();
        let mut out = String::from_str("\u{feff}单词,音标,词性,释义,例句,例句翻译,查询次数,首次查询,最近查询,状态\n");
        let mut i: usize = 0;
        while i < p.len()
            invariant
                i <= p@.len(),
                forall|j: int| 0 <= j < p@.len() ==> (#[trigger] p@[j]) < self@.len(),
                dates_fit(self@, tz_offset_min),
                self@.len() == self.entries@.len(),
                out@ == csv_header() + csv_rows(self@, p@.take(i as int), tz_offset_min),
            decreases p@.len() - i,
        {
            let k = p[i];
            proof {
                assert(p@[i as int] < self@.len());
                assert(self@[k as int] == self.entries@[k as int]@);
                assert(entry_dates_fit(self@[k as int], tz_offset_min));
                let q = p@.take(i + 1);
                assert(q.drop_last() =~= p@.take(i as int));
                assert(q.last() == k);
                assert(csv_rows(self@, q, tz_offset_min) == csv_rows(self@, p@.take(i as int), tz_offset_min) + csv_row(self@[k as int], tz_offset_min));
            }
            let line = csv_line(&self.entries[k], tz_offset_min);
            out.append(line.as_str());
            proof {
                assert(out@ =~= csv_header() + csv_rows(self@, p@.take(i + 1), tz_offset_min));
            }
            i = i + 1;
        }
        proof {
            assert(p@.take(p@.len() as int) =~= p@);
        }
        Ok(out)
    }
}

/// The export line of one entry.
fn csv_line(e: &VocabEntry, tz_offset_min: i64) -> (r: String)
    requires
        date_fits(e.first_at, tz_offset_min),
        date_fits(e.last_at, tz_offset_min),
    ensures
        r@ == csv_row(e@, tz_offset_min),
{
    let mut out = csv_cell(e.word.as_str());
    out.append(",");
    out.append(csv_cell(e.phonetic.as_str()).as_str());
    out.append(",");
    out.append(csv_cell(e.pos.as_str()).as_str());
    out.append(",");
    out.append(csv_cell(e.meaning.as_str()).as_str());
    out.append(",");
    out.append(csv_cell(e.example.as_str()).as_str());
    out.append(",");
    out.append(csv_cell(e.example_zh.as_str()).as_str());
    out.append(",");
    out.append(decimal_string(e.count as u64).as_str());
    out.append(",");
    out.append(fmt_date(e.first_at, tz_offset_min).as_str());
    out.append(",");
    out.append(fmt_date(e.last_at, tz_offset_min).as_str());
    out.append(",");
    if e.mastered {
        out.append("已掌握");
    } else {
        out.append("学习中");
    }
    out.append("\n");
    proof {
        reveal_strlit(",");
        reveal_strlit("\n");
        assert(out@ =~= csv_row(e@, tz_offset_min));
    }
    out
}

/// The extracted words worth keeping: those whose trimmed word looks like
/// an English word or phrase, in order.
pub open spec fn worth_keeping(ws: Seq<ExtractedView>) -> Seq<ExtractedView>
    decreases ws.len(),
{
    if ws.len() == 0 {
        Seq::empty()
    } else {
        let r = worth_keeping(ws.drop_last());
        if latin_word_spec(trimmed(ws.last().word, false)) {
            r.push(ws.last())
        } else {
            r
        }
    }
}

/// The first eight words worth keeping, as offered to the user.
pub open spec fn selected_words(ws: Seq<ExtractedView>) -> Seq<ExtractedView> {
    let k = worth_keeping(ws);
    if k.len() <= 8 {
        k
    } else {
        k.take(8)
    }
}

proof fn lemma_keeping_grows(ws: Seq<ExtractedView>, i: int)
    requires
        0 <= i <= ws.len(),
    ensures
        worth_keeping(ws.take(i)).len() <= worth_keeping(ws).len(),
        forall|k: int| 0 <= k < worth_keeping(ws.take(i)).len() ==> #[trigger] worth_keeping(ws)[k] == worth_keeping(ws.take(i))[k],
    decreases ws.len() - i,
{
    if i < ws.len() {
        lemma_keeping_grows(ws, i + 1);
        assert(ws.take(i + 1).drop_last() =~= ws.take(i));
    } else {
        assert(ws.take(i) =~= ws);
    }
}

/// Keeps, of the words the model picked out, the first eight whose trimmed
/// word looks like an English word or phrase.
pub fn select_extracted(words: Vec<ExtractedWord>) -> (r: Vec<ExtractedWord>)
    ensures
        r@.map_values(|w: ExtractedWord| w@) == selected_words(words@.map_values(|w: ExtractedWord| w@)),
{
    let ghost ws = words@.map_values(|w: ExtractedWord| w@);
    let mut out: Vec<ExtractedWord> = Vec::new();
    let mut i: usize = 0;
    while i < words.len() && out.len() < 8
        invariant
            ws == words@.map_values(|w: ExtractedWord| w@),
            i <= ws.len(),
            out@.len() <= 8,
            out@.map_values(|w: ExtractedWord| w@) == worth_keeping(ws.take(i as int)),
        decreases ws.len() - i,
    {
        proof {
            assert(ws.take(i + 1).drop_last() =~= ws.take(i as int));
            assert(ws.take(i + 1).last() == words@[i as int]@);
        }
        let w = &words[i];
        let ghost before = out@.map_values(|w: ExtractedWord| w@);
        if latin_word_like(trim_str(w.word.as_str()).as_str()) {
            out.push(ExtractedWord {
                word: w.word.clone(),
                meaning: w.meaning.clone(),
                pos: w.pos.clone(),
                phonetic: w.phonetic.clone(),
            });
            proof {
                assert(out@.map_values(|w: ExtractedWord| w@) =~= before.push(ws[i as int]));
            }
        }
        i = i + 1;
    }
    proof {
        if out@.len() == 8 {
            lemma_keeping_grows(ws, i as int);
            assert(worth_keeping(ws).take(8) =~= worth_keeping(ws.take(i as int)));
        } else {
            assert(ws.take(i as int) =~= ws);
        }
    }
    out
}

/// Days to wait after a correct answer at `level`.
pub fn interval_days(level: u8) -> (d: i64)
    ensures
        d == interval_days_spec(level as int),
{
    match level {
        0 => 0,
        1 => 1,
        2 => 2,
        3 => 4,
        4 => 7,
        5 => 15,
        _ => 30,
    }
}

} // verus!
