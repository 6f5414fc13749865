//! Custom desktop-pet skins: which ids are safe to use as file names, the
//! checks on an uploaded skin, and the order of the skin list. Reading and
//! writing the skin files is the app's.
use vstd::prelude::*;
use vstd::utf8::encode_utf8;
use crate::text::{chars_of, string_of, trim_chars, trimmed};
use crate::settings::first_chars;
use crate::order::{is_index_perm, lemma_sorted_perm_unique};
use crate::dates::{decimal, decimal_chars};

verus! {

/// Most frames of a skin.
pub const MAX_FRAMES: usize = 16;

/// Longest frame (a PNG data URL), in bytes.
pub const MAX_FRAME_LEN: usize = 2_000_000;

pub open spec fn is_ascii_alnum(c: char) -> bool {
    ('0' <= c <= '9') || ('a' <= c <= 'z') || ('A' <= c <= 'Z')
}

/// An id goes into a file path, so it is 1 to 32 ASCII letters and digits:
/// no "../" can escape the skins' folder.
pub open spec fn valid_id_spec(id: Seq<char>) -> bool {
    0 < id.len() <= 32 && forall|i: int| 0 <= i < id.len() ==> is_ascii_alnum(#[trigger] id[i])
}

/// Whether `id` can name a skin.
pub fn valid_id(id: &str) -> (b: bool)
    ensures
        b == valid_id_spec(id@),
{
    let v = chars_of(id);
    if v.len() == 0 || v.len() > 32 {
        return false;
    }
    let mut i: usize = 0;
    while i < v.len()
        invariant
            v@ == id@,
            i <= v@.len(),
            forall|j: int| 0 <= j < i ==> is_ascii_alnum(#[trigger] v@[j]),
        decreases v@.len() - i,
    {
        let c = v[i];
        if !(('0' <= c && c <= '9') || ('a' <= c && c <= 'z') || ('A' <= c && c <= 'Z')) {
            assert(!is_ascii_alnum(v@[i as int]));
            return false;
        }
        i = i + 1;
    }
    true
}

/// A valid id holds no path separator and no dot, so a file named after it
/// stays in the skins' folder.
pub proof fn lemma_valid_id_stays_in_folder(id: Seq<char>)
    requires
        valid_id_spec(id),
    ensures
        forall|i: int| 0 <= i < id.len() ==> #[trigger] id[i] != '/' && id[i] != '\\' && id[i] != '.' && id[i] != ':',
{
}

/// The active skin named by the contents of its marker file: the trimmed
/// text, when it is a valid id.
pub fn active_from_text(text: &str) -> (r: Option<String>)
    ensures
        match r {
            Some(id) => valid_id_spec(trimmed(text@, false)) && id@ == trimmed(text@, false),
            None => !valid_id_spec(trimmed(text@, false)),
        },
{
    let t = string_of(trim_chars(&chars_of(text), false).as_slice());
    if valid_id(t.as_str()) {
        Some(t)
    } else {
        None
    }
}

/// A skin's display name: trimmed and cut to twenty characters; an empty
/// name becomes "我的形象".
pub open spec fn pet_name_spec(name: Seq<char>) -> Seq<char> {
    let n = first_chars(trimmed(name, false), 20);
    if n.len() == 0 {
        "我的形象"@
    } else {
        n
    }
}

/// The display name of an uploaded skin.
pub fn pet_name(name: &str) -> (r: String)
    ensures
        r@ == pet_name_spec(name@),
{
    let t = trim_chars(&chars_of(name), false);
    let mut n: Vec<char> = Vec::new();
    let mut i: usize = 0;
    while i < t.len() && i < 20
        invariant
            i <= t@.len(),
            i <= 20,
            n@ == t@.take(i as int),
        decreases t@.len() - i,
    {
        n.push(t[i]);
        assert(t@.take(i + 1) =~= t@.take(i as int).push(t@[i as int]));
        i = i + 1;
    }
    proof {
        if t@.len() <= 20 {
            assert(t@.take(i as int) =~= t@);
        }
    }
    if n.len() == 0 {
        String::from_str("我的形象")
    } else {
        string_of(n.as_slice())
    }
}

/// How every frame must begin.
pub open spec fn png_prefix() -> Seq<char> {
    "data:image/png;base64,"@
}

/// A frame is a PNG data URL of at most 2,000,000 bytes.
pub open spec fn frame_ok(f: Seq<char>) -> bool {
    f.len() >= png_prefix().len() && f.subrange(0, png_prefix().len() as int) == png_prefix()
        && encode_utf8(f).len() <= MAX_FRAME_LEN
}

/// The checks on an uploaded skin's frames, with the message for each
/// refusal.
pub open spec fn frames_check(frames: Seq<Seq<char>>) -> Result<(), Seq<char>> {
    if frames.len() == 0 || frames.len() > MAX_FRAMES {
        Err("帧数需要在 1 到 16 之间"@)
    } else if exists|i: int| 0 <= i < frames.len() && !frame_ok(#[trigger] frames[i]) {
        Err("图片格式不对或太大"@)
    } else {
        Ok(())
    }
}

fn starts_with_png(f: &str) -> (b: bool)
    ensures
        b == (f@.len() >= png_prefix().len() && f@.subrange(0, png_prefix().len() as int) == png_prefix()),
{
    let v = chars_of(f);
    let p = chars_of("data:image/png;base64,");
    proof {
        reveal_strlit("data:image/png;base64,");
    }
    if v.len() < p.len() {
        return false;
    }
    let mut i: usize = 0;
    while i < p.len()
        invariant
            v@ == f@,
            p@ == png_prefix(),
            p@.len() <= v@.len(),
            i <= p@.len(),
            forall|j: int| 0 <= j < i ==> v@[j] == p@[j],
        decreases p@.len() - i,
    {
        if v[i] != p[i] {
            assert(v@.subrange(0, p@.len() as int)[i as int] != p@[i as int]);
            return false;
        }
        i = i + 1;
    }
    assert(v@.subrange(0, p@.len() as int) =~= p@);
    true
}

/// Checks the frames of an uploaded skin: 1 to 16 frames, each a PNG data
/// URL of at most 2,000,000 bytes.
pub fn check_frames(frames: &Vec<String>) -> (r: Result<(), String>)
    ensures
        match r {
            Ok(()) => frames_check(frames@.map_values(|f: String| f@)) == Ok::<(), Seq<char>>(()),
            Err(e) => frames_check(frames@.map_values(|f: String| f@)) == Err::<(), Seq<char>>(e@),
        },
{
    let ghost fs = frames@.map_values(|f: String| f@);
    if frames.len() == 0 || frames.len() > MAX_FRAMES {
        return Err(String::from_str("帧数需要在 1 到 16 之间"));
    }
    let mut i: usize = 0;
    while i < frames.len()
        invariant
            fs == frames@.map_values(|f: String| f@),
            1 <= fs.len() <= MAX_FRAMES,
            i <= fs.len(),
            forall|j: int| 0 <= j < i ==> frame_ok(#[trigger] fs[j]),
        decreases fs.len() - i,
    {
        let f = frames[i].as_str();
        assert(f@ == fs[i as int]);
        let starts = starts_with_png(f);
        let n = f.as_bytes().len();
        assert(n == encode_utf8(f@).len());
        if !starts || n > MAX_FRAME_LEN {
            assert(!frame_ok(fs[i as int]));
            assert(exists|j: int| 0 <= j < fs.len() && !frame_ok(#[trigger] fs[j]));
            return Err(String::from_str("图片格式不对或太大"));
        }
        i = i + 1;
    }
    Ok(())
}

/// The id of a skin saved at `ms` milliseconds: "p" and the decimal digits.
pub fn pet_id(ms: u64) -> (r: String)
    ensures
        r@ == seq!['p'] + decimal(ms as nat),
{
    let d = decimal_chars(ms);
    let mut v: Vec<char> = Vec::new();
    v.push('p');
    let mut i: usize = 0;
    while i < d.len()
        invariant
            i <= d@.len(),
            v@ == seq!['p'] + d@.take(i as int),
        decreases d@.len() - i,
    {
        v.push(d[i]);
        assert(d@.take(i + 1) =~= d@.take(i as int).push(d@[i as int]));
        assert(v@ =~= seq!['p'] + d@.take(i + 1));
        i = i + 1;
    }
    assert(d@.take(d@.len() as int) =~= d@);
    string_of(v.as_slice())
}

/// Refuses an id that cannot name a skin.
pub fn check_pet_id(id: &str) -> (r: Result<(), String>)
    ensures
        r is Ok <==> valid_id_spec(id@),
        r matches Err(e) ==> e@ == "无效的形象"@,
{
    if valid_id(id) {
        Ok(())
    } else {
        Err(String::from_str("无效的形象"))
    }
}


/// Code-point (and so UTF-8 byte) lexicographic order, as `String::cmp`.
pub open spec fn lex_lt(a: Seq<char>, b: Seq<char>) -> bool
    decreases a.len(),
{
    if a.len() == 0 {
        b.len() > 0
    } else if b.len() == 0 {
        false
    } else if a[0] != b[0] {
        a[0] < b[0]
    } else {
        lex_lt(a.drop_first(), b.drop_first())
    }
}

/// The order is transitive.
pub proof fn lemma_lex_lt_transitive(a: Seq<char>, b: Seq<char>, c: Seq<char>)
    requires
        lex_lt(a, b),
        lex_lt(b, c),
    ensures
        lex_lt(a, c),
    decreases a.len(),
{
    if a.len() > 0 && b.len() > 0 && c.len() > 0 && a[0] == b[0] && b[0] == c[0] {
        lemma_lex_lt_transitive(a.drop_first(), b.drop_first(), c.drop_first());
    }
}

/// The order is total, asymmetric and irreflexive.
pub proof fn lemma_lex_lt_total(a: Seq<char>, b: Seq<char>)
    ensures
        a == b || lex_lt(a, b) || lex_lt(b, a),
        !(lex_lt(a, b) && lex_lt(b, a)),
        !lex_lt(a, a),
    decreases a.len(),
{
    if a.len() > 0 && b.len() > 0 {
        lemma_lex_lt_total(a.drop_first(), b.drop_first());
        if a[0] == b[0] && a.drop_first() == b.drop_first() && a.len() == b.len() {
            assert forall|i: int| 0 <= i < a.len() implies a[i] == b[i] by {
                if i > 0 {
                    assert(a[i] == a.drop_first()[i - 1]);
                    assert(b[i] == b.drop_first()[i - 1]);
                }
            }
            assert(a =~= b);
        }
    } else if a.len() > 0 {
        lemma_lex_lt_total(a.drop_first(), a.drop_first());
    } else if b.len() > 0 {
        assert(a =~= Seq::<char>::empty());
    }
    if a.len() > 0 {
        lemma_lex_lt_total(a.drop_first(), a.drop_first());
    }
}

/// The skin list order is unique: any two lists that meet `is_pet_order`
/// for the same skins are the same list.
pub proof fn lemma_pet_order_unique(ids: Seq<Seq<char>>, p: Seq<usize>, q: Seq<usize>)
    requires
        is_pet_order(ids, p),
        is_pet_order(ids, q),
    ensures
        p == q,
{
    let lt = |a: int, b: int| pet_before(ids, a, b);
    assert forall|a: int, b: int| #![trigger lt(a, b), lt(b, a)] lt(a, b) implies !lt(b, a) by {
        lemma_lex_lt_total(ids[a], ids[b]);
    }
    assert(is_index_perm(p, ids.len())) by {
        assert forall|i: int, j: int| 0 <= i < j < p.len() implies #[trigger] p[i] != #[trigger] p[j] by {
            assert(pet_before(ids, p[i] as int, p[j] as int));
            lemma_lex_lt_total(ids[p[i] as int], ids[p[j] as int]);
        }
    }
    assert(is_index_perm(q, ids.len())) by {
        assert forall|i: int, j: int| 0 <= i < j < q.len() implies #[trigger] q[i] != #[trigger] q[j] by {
            assert(pet_before(ids, q[i] as int, q[j] as int));
            lemma_lex_lt_total(ids[q[i] as int], ids[q[j] as int]);
        }
    }
    lemma_sorted_perm_unique(lt, ids.len(), p, q);
}

/// An uploaded skin as read back from its file (its frame rate aside).
pub struct PetRecord {
    pub id: String,
    pub name: String,
    /// PNG data URLs, all of one size.
    pub frames: Vec<String>,
}

/// What the skin list shows of a skin.
pub struct PetSummary {
    pub id: String,
    pub name: String,
    pub frame_count: usize,
    /// The first frame.
    pub thumb: String,
}

/// A skin as the list sees it: id, name, frames.
pub open spec fn record_view(r: PetRecord) -> (Seq<char>, Seq<char>, Seq<Seq<char>>) {
    (r.id@, r.name@, r.frames@.map_values(|f: String| f@))
}

pub open spec fn pet_ids(pets: Seq<PetRecord>) -> Seq<Seq<char>> {
    pets.map_values(|q: PetRecord| q.id@)
}

pub open spec fn pet_records(pets: Seq<PetRecord>) -> Seq<(Seq<char>, Seq<char>, Seq<Seq<char>>)> {
    pets.map_values(|q: PetRecord| record_view(q))
}

/// The length of `id` in UTF-8 bytes, as `str::len` counts it.
pub open spec fn byte_len(id: Seq<char>) -> nat {
    encode_utf8(id).len()
}

/// In the skin list, skin `a` comes before skin `b`: ids longer in bytes
/// first, then the greater id (ids are "p" and a timestamp, so the newest
/// comes first), then the order in which they were read.
pub open spec fn pet_before(ids: Seq<Seq<char>>, a: int, b: int) -> bool {
    ||| byte_len(ids[a]) > byte_len(ids[b])
    ||| byte_len(ids[a]) == byte_len(ids[b]) && lex_lt(ids[b], ids[a])
    ||| ids[a] == ids[b] && a < b
}

/// `p` lists the indices of the skins in list order.
pub open spec fn is_pet_order(ids: Seq<Seq<char>>, p: Seq<usize>) -> bool {
    &&& p.len() == ids.len()
    &&& forall|i: int| 0 <= i < p.len() ==> (#[trigger] p[i]) < ids.len()
    &&& forall|i: int, j: int| 0 <= i < j < p.len() ==> pet_before(ids, #[trigger] p[i] as int, #[trigger] p[j] as int)
}

/// The summaries of the skins at indices `p`, in that order, leaving out
/// skins without frames.
pub open spec fn summaries_of(pets: Seq<(Seq<char>, Seq<char>, Seq<Seq<char>>)>, p: Seq<usize>) -> Seq<(Seq<char>, Seq<char>, nat, Seq<char>)>
    decreases p.len(),
{
    if p.len() == 0 {
        Seq::empty()
    } else {
        let r = summaries_of(pets, p.drop_last());
        let q = pets[p.last() as int];
        if q.2.len() > 0 {
            r.push((q.0, q.1, q.2.len(), q.2[0]))
        } else {
            r
        }
    }
}

pub open spec fn summary_view(s: PetSummary) -> (Seq<char>, Seq<char>, nat, Seq<char>) {
    (s.id@, s.name@, s.frame_count as nat, s.thumb@)
}

proof fn lemma_pet_before_order(ids: Seq<Seq<char>>, a: int, b: int, c: int)
    requires
        0 <= a < ids.len(),
        0 <= b < ids.len(),
        0 <= c < ids.len(),
    ensures
        pet_before(ids, a, b) && pet_before(ids, b, c) ==> pet_before(ids, a, c),
        a != b ==> pet_before(ids, a, b) || pet_before(ids, b, a),
{
    lemma_lex_lt_total(ids[a], ids[b]);
    lemma_lex_lt_total(ids[b], ids[c]);
    lemma_lex_lt_total(ids[a], ids[c]);
    if lex_lt(ids[c], ids[b]) && lex_lt(ids[b], ids[a]) {
        lemma_lex_lt_transitive(ids[c], ids[b], ids[a]);
    }
}

fn id_lt(a: &Vec<char>, b: &Vec<char>) -> (r: bool)
    ensures
        r == lex_lt(a@, b@),
{
    let mut i: usize = 0;
    assert(a@.skip(0) =~= a@);
    assert(b@.skip(0) =~= b@);
    while i < a.len() && i < b.len() && a[i] == b[i]
        invariant
            i <= a@.len(),
            i <= b@.len(),
            lex_lt(a@, b@) == lex_lt(a@.skip(i as int), b@.skip(i as int)),
        decreases a@.len() - i,
    {
        proof {
            assert(a@.skip(i as int).drop_first() =~= a@.skip(i + 1));
            assert(b@.skip(i as int).drop_first() =~= b@.skip(i + 1));
        }
        i = i + 1;
    }
    if i == a.len() {
        i < b.len()
    } else if i == b.len() {
        false
    } else {
        a[i] < b[i]
    }
}

/// The skin list: skins with frames, the id longest in bytes and then
/// greatest first (newest first), each with its name, frame count and first
/// frame.
pub fn summarize_pets(pets: &Vec<PetRecord>) -> (r: Vec<PetSummary>)
    ensures
        exists|p: Seq<usize>|
            #[trigger] is_pet_order(pet_ids(pets@), p) && r@.map_values(|s: PetSummary| summary_view(s))
                == summaries_of(pet_records(pets@), p),
{
    let ghost ids = pets@.map_values(|q: PetRecord| q.id@);
    let mut keys: Vec<Vec<char>> = Vec::new();
    let mut lens: Vec<usize> = Vec::new();
    let mut k: usize = 0;
    while k < pets.len()
        invariant
            k <= pets@.len(),
            ids == pets@.map_values(|q: PetRecord| q.id@),
            keys@.len() == k,
            lens@.len() == k,
            forall|i: int| 0 <= i < k ==> (#[trigger] keys@[i])@ == ids[i],
            forall|i: int| 0 <= i < k ==> (#[trigger] lens@[i]) == byte_len(ids[i]),
        decreases pets@.len() - k,
    {
        keys.push(chars_of(pets[k].id.as_str()));
        lens.push(pets[k].id.as_str().as_bytes().len());
        k = k + 1;
    }
    let n = pets.len();
    let mut p: Vec<usize> = Vec::new();
    let mut k: usize = 0;
    while k < n
        invariant
            n == pets@.len(),
            n == ids.len(),
            keys@.len() == n,
            lens@.len() == n,
            forall|i: int| 0 <= i < n ==> (#[trigger] keys@[i])@ == ids[i],
            forall|i: int| 0 <= i < n ==> (#[trigger] lens@[i]) == byte_len(ids[i]),
            k <= n,
            p@.len() == k,
            forall|i: int| 0 <= i < p@.len() ==> (#[trigger] p@[i]) < k,
            forall|i: int, j: int| 0 <= i < j < p@.len() ==> pet_before(ids, #[trigger] p@[i] as int, #[trigger] p@[j] as int),
        decreases n - k,
    {
        let mut pos: usize = 0;
        loop
            invariant
                n == ids.len(),
                keys@.len() == n,
                lens@.len() == n,
                forall|i: int| 0 <= i < n ==> (#[trigger] keys@[i])@ == ids[i],
                forall|i: int| 0 <= i < n ==> (#[trigger] lens@[i]) == byte_len(ids[i]),
                k < n,
                pos <= p@.len(),
                forall|i: int| 0 <= i < p@.len() ==> (#[trigger] p@[i]) < k,
                forall|i: int| 0 <= i < pos ==> !pet_before(ids, k as int, #[trigger] p@[i] as int),
            ensures
                pos <= p@.len(),
                forall|i: int| 0 <= i < pos ==> !pet_before(ids, k as int, #[trigger] p@[i] as int),
                pos < p@.len() ==> pet_before(ids, k as int, p@[pos as int] as int),
            decreases p@.len() - pos,
        {
            if pos == p.len() {
                break;
            }
            let q = p[pos];
            let ka = &keys[k];
            let kb = &keys[q];
            let la = lens[k];
            let lb = lens[q];
            let before = la > lb || (la == lb && id_lt(kb, ka)) || (la == lb && !id_lt(kb, ka)
                && !id_lt(ka, kb) && k < q);
            proof {
                lemma_lex_lt_total(ids[k as int], ids[q as int]);
                assert(before == pet_before(ids, k as int, q as int));
            }
            if before {
                break;
            }
            pos = pos + 1;
        }
        let ghost old_p = p@;
        p.insert(pos, k);
        proof {
            assert forall|i: int, j: int| 0 <= i < j < p@.len() implies pet_before(ids, #[trigger] p@[i] as int, #[trigger] p@[j] as int) by {
                if j < pos {
                    assert(p@[i] == old_p[i] && p@[j] == old_p[j]);
                } else if j == pos {
                    assert(p@[i] == old_p[i]);
                    lemma_pet_before_order(ids, old_p[i] as int, k as int, k as int);
                } else if i == pos {
                    assert(p@[j] == old_p[j - 1]);
                    if j - 1 > pos {
                        lemma_pet_before_order(ids, k as int, old_p[pos as int] as int, old_p[j - 1] as int);
                    }
                } else if i < pos {
                    assert(p@[i] == old_p[i] && p@[j] == old_p[j - 1]);
                } else {
                    assert(p@[i] == old_p[i - 1] && p@[j] == old_p[j - 1]);
                }
            }
        }
        k = k + 1;
    }
    let ghost recs = pets@.map_values(|q: PetRecord| record_view(q));
    let mut out: Vec<PetSummary> = Vec::new();
    let mut i: usize = 0;
    while i < p.len()
        invariant
            n == pets@.len(),
            recs == pets@.map_values(|q: PetRecord| record_view(q)),
            p@.len() == n,
            forall|j: int| 0 <= j < p@.len() ==> (#[trigger] p@[j]) < n,
            i <= p@.len(),
            out@.map_values(|s: PetSummary| summary_view(s)) == summaries_of(recs, p@.take(i as int)),
        decreases p@.len() - i,
    {
        let q = p[i];
        proof {
            assert(p@.take(i + 1).drop_last() =~= p@.take(i as int));
            assert(p@.take(i + 1).last() == q);
            assert(recs[q as int] == record_view(pets@[q as int]));
        }
        let rec = &pets[q];
        let ghost before = out@.map_values(|s: PetSummary| summary_view(s));
        if rec.frames.len() > 0 {
            let s = PetSummary {
                id: rec.id.clone(),
                name: rec.name.clone(),
                frame_count: rec.frames.len(),
                thumb: rec.frames[0].clone(),
            };
            out.push(s);
            proof {
                assert(out@.map_values(|s: PetSummary| summary_view(s)) =~= before.push(summary_view(s)));
            }
        }
        i = i + 1;
    }
    proof {
        assert(p@.take(p@.len() as int) =~= p@);
        assert(ids == pet_ids(pets@));
        assert(recs == pet_records(pets@));
        assert(is_pet_order(pet_ids(pets@), p@));
    }
    out
}

} // verus!
