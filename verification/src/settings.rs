//! The app's settings: defaults, the tables of target languages and
//! translation domains, and the checks applied before settings are saved.
use vstd::prelude::*;
use crate::text::{chars_of, string_of, trim_chars, trimmed};

verus! {

/// Whether `s` and the literal `lit` hold the same characters.
pub fn same_text(s: &str, lit: &str) -> (same: bool)
    ensures
        same == (s@ == lit@),
{
    let x = chars_of(s);
    let y = chars_of(lit);
    if x.len() != y.len() {
        return false;
    }
    let mut i: usize = 0;
    while i < x.len()
        invariant
            x@.len() == y@.len(),
            x@ == s@,
            y@ == lit@,
            i <= x@.len(),
            forall|j: int| 0 <= j < i ==> x@[j] == y@[j],
        decreases x@.len() - i,
    {
        if x[i] != y[i] {
            assert(x@[i as int] != y@[i as int]);
            return false;
        }
        i = i + 1;
    }
    assert(x@ =~= y@);
    true
}

pub open spec fn is_digit(c: char) -> bool {
    '0' <= c <= '9'
}

/// The value of a two-digit field.
pub open spec fn two_char_value(a: char, b: char) -> Option<int> {
    if is_digit(a) && is_digit(b) {
        Some(10 * (a as int - 48) + (b as int - 48))
    } else {
        None
    }
}

/// A reminder time "HH:MM": two ASCII digits, a colon, two ASCII digits;
/// the hour below 24 and the minute below 60.
pub open spec fn hhmm_ok(s: Seq<char>) -> bool {
    &&& s.len() == 5
    &&& s[2] == ':'
    &&& two_char_value(s[0], s[1]) matches Some(h) && h < 24
    &&& two_char_value(s[3], s[4]) matches Some(m) && m < 60
}

fn two_char_value_exec(a: char, b: char) -> (r: Option<u32>)
    ensures
        r matches Some(v) ==> two_char_value(a, b) == Some(v as int),
        r is None ==> two_char_value(a, b) is None,
{
    if '0' <= a && a <= '9' && '0' <= b && b <= '9' {
        Some(10 * (a as u32 - 48) + (b as u32 - 48))
    } else {
        None
    }
}

/// Whether `s` is a valid reminder time "HH:MM".
pub fn valid_hhmm(s: &str) -> (b: bool)
    ensures
        b == hhmm_ok(s@),
{
    let v = chars_of(s);
    if v.len() != 5 || v[2] != ':' {
        return false;
    }
    let h = two_char_value_exec(v[0], v[1]);
    let m = two_char_value_exec(v[3], v[4]);
    match (h, m) {
        (Some(h), Some(m)) => h < 24 && m < 60,
        _ => false,
    }
}

/// The default reminder time.
pub fn default_reminder_time() -> (r: String)
    ensures
        r@ == "21:00"@,
{
    String::from_str("21:00")
}

pub fn default_true() -> (b: bool)
    ensures
        b,
{
    true
}

/// "auto": Chinese is translated into English, everything else into Chinese.
pub fn default_target_lang() -> (r: String)
    ensures
        r@ == "auto"@,
{
    String::from_str("auto")
}

pub fn default_domain() -> (r: String)
    ensures
        r@ == "general"@,
{
    String::from_str("general")
}

pub fn default_model() -> (r: String)
    ensures
        r@ == "deepseek-chat"@,
{
    String::from_str("deepseek-chat")
}

pub fn default_toggle_shortcut() -> (r: String)
    ensures
        r@ == "Alt+Q"@,
{
    String::from_str("Alt+Q")
}

pub fn default_quick_shortcut() -> (r: String)
    ensures
        r@ == "Alt+C"@,
{
    String::from_str("Alt+C")
}

/// The language name written into the prompt for a language code; "auto"
/// and unknown codes have none.
pub open spec fn lang_name_spec(code: Seq<char>) -> Option<Seq<char>> {
    if code == "zh"@ {
        Some("Simplified Chinese"@)
    } else if code == "en"@ {
        Some("English"@)
    } else if code == "ja"@ {
        Some("Japanese"@)
    } else if code == "ko"@ {
        Some("Korean"@)
    } else if code == "fr"@ {
        Some("French"@)
    } else if code == "de"@ {
        Some("German"@)
    } else if code == "es"@ {
        Some("Spanish"@)
    } else if code == "ru"@ {
        Some("Russian"@)
    } else {
        None
    }
}

/// Each language code is written into the prompt as the English name of
/// that language, "auto" has no name, and no two codes share a name.
pub proof fn lemma_language_names(c1: Seq<char>, c2: Seq<char>)
    ensures
        lang_name_spec("zh"@) == Some("Simplified Chinese"@),
        lang_name_spec("en"@) == Some("English"@),
        lang_name_spec("ja"@) == Some("Japanese"@),
        lang_name_spec("ko"@) == Some("Korean"@),
        lang_name_spec("fr"@) == Some("French"@),
        lang_name_spec("de"@) == Some("German"@),
        lang_name_spec("es"@) == Some("Spanish"@),
        lang_name_spec("ru"@) == Some("Russian"@),
        lang_name_spec("auto"@) is None,
        lang_name_spec(c1) is Some && lang_name_spec(c1) == lang_name_spec(c2) ==> c1 == c2,
{
    reveal_strlit("zh");
    reveal_strlit("en");
    reveal_strlit("ja");
    reveal_strlit("ko");
    reveal_strlit("fr");
    reveal_strlit("de");
    reveal_strlit("es");
    reveal_strlit("ru");
    reveal_strlit("auto");
    reveal_strlit("Simplified Chinese");
    reveal_strlit("English");
    reveal_strlit("Japanese");
    reveal_strlit("Korean");
    reveal_strlit("French");
    reveal_strlit("German");
    reveal_strlit("Spanish");
    reveal_strlit("Russian");
    assert("zh"@[0] == 'z' && "en"@[0] == 'e' && "ja"@[0] == 'j' && "ko"@[0] == 'k');
    assert("fr"@[0] == 'f' && "de"@[0] == 'd' && "es"@[0] == 'e' && "ru"@[0] == 'r');
    assert("en"@[1] == 'n' && "es"@[1] == 's' && "auto"@.len() == 4);
    assert("Simplified Chinese"@[0] == 'S' && "English"@[0] == 'E' && "Japanese"@[0] == 'J');
    assert("Korean"@[0] == 'K' && "French"@[0] == 'F' && "German"@[0] == 'G');
    assert("Spanish"@[1] == 'p' && "Russian"@[0] == 'R' && "Simplified Chinese"@[1] == 'i');
}

/// The language name for a language code.
pub fn lang_name(code: &str) -> (r: Option<&'static str>)
    ensures
        r matches Some(n) ==> lang_name_spec(code@) == Some(n@),
        r is None ==> lang_name_spec(code@) is None,
{
    if same_text(code, "zh") {
        Some("Simplified Chinese")
    } else if same_text(code, "en") {
        Some("English")
    } else if same_text(code, "ja") {
        Some("Japanese")
    } else if same_text(code, "ko") {
        Some("Korean")
    } else if same_text(code, "fr") {
        Some("French")
    } else if same_text(code, "de") {
        Some("German")
    } else if same_text(code, "es") {
        Some("Spanish")
    } else if same_text(code, "ru") {
        Some("Russian")
    } else {
        None
    }
}

/// The instruction added to the prompt for a translation domain; "general"
/// and unknown domains have none.
pub open spec fn domain_hint_spec(code: Seq<char>) -> Option<Seq<char>> {
    if code == "tech"@ {
        Some("Software, IT and engineering. Use standard technical terminology (e.g. driver = 驱动程序, thread = 线程); keep code, identifiers, API names, commands and file paths untranslated."@)
    } else if code == "medical"@ {
        Some("Medicine and healthcare. Use standard, accurate medical terminology; do not paraphrase drug, disease or anatomy terms."@)
    } else if code == "legal"@ {
        Some("Law and contracts. Use precise legal terminology and a formal register; keep the exact legal meaning of clauses."@)
    } else if code == "business"@ {
        Some("Business, finance and economics. Use standard business and finance terminology."@)
    } else if code == "academic"@ {
        Some("Academic and scientific writing. Use a formal academic register and the standard terminology of the field."@)
    } else if code == "daily"@ {
        Some("Everyday conversation. Use natural, colloquial, idiomatic phrasing rather than a literal word-for-word translation."@)
    } else {
        None
    }
}

/// Exactly the six named domains add an instruction to the prompt, each its
/// own: "general" and any other code add none, and no two domains share one.
pub proof fn lemma_domain_hints(c1: Seq<char>, c2: Seq<char>)
    ensures
        domain_hint_spec(c1) is Some <==> (c1 == "tech"@ || c1 == "medical"@ || c1 == "legal"@
            || c1 == "business"@ || c1 == "academic"@ || c1 == "daily"@),
        domain_hint_spec("general"@) is None,
        domain_hint_spec(c1) is Some && domain_hint_spec(c1) == domain_hint_spec(c2) ==> c1 == c2,
{
    reveal_strlit("tech");
    reveal_strlit("medical");
    reveal_strlit("legal");
    reveal_strlit("business");
    reveal_strlit("academic");
    reveal_strlit("daily");
    reveal_strlit("general");
    assert("tech"@[0] == 't' && "medical"@[0] == 'm' && "legal"@[0] == 'l' && "business"@[0] == 'b');
    assert("academic"@[0] == 'a' && "daily"@[0] == 'd' && "general"@[0] == 'g');
    let h1 = "Software, IT and engineering. Use standard technical terminology (e.g. driver = 驱动程序, thread = 线程); keep code, identifiers, API names, commands and file paths untranslated."@;
    let h2 = "Medicine and healthcare. Use standard, accurate medical terminology; do not paraphrase drug, disease or anatomy terms."@;
    let h3 = "Law and contracts. Use precise legal terminology and a formal register; keep the exact legal meaning of clauses."@;
    let h4 = "Business, finance and economics. Use standard business and finance terminology."@;
    let h5 = "Academic and scientific writing. Use a formal academic register and the standard terminology of the field."@;
    let h6 = "Everyday conversation. Use natural, colloquial, idiomatic phrasing rather than a literal word-for-word translation."@;
    reveal_strlit("Software, IT and engineering. Use standard technical terminology (e.g. driver = 驱动程序, thread = 线程); keep code, identifiers, API names, commands and file paths untranslated.");
    reveal_strlit("Medicine and healthcare. Use standard, accurate medical terminology; do not paraphrase drug, disease or anatomy terms.");
    reveal_strlit("Law and contracts. Use precise legal terminology and a formal register; keep the exact legal meaning of clauses.");
    reveal_strlit("Business, finance and economics. Use standard business and finance terminology.");
    reveal_strlit("Academic and scientific writing. Use a formal academic register and the standard terminology of the field.");
    reveal_strlit("Everyday conversation. Use natural, colloquial, idiomatic phrasing rather than a literal word-for-word translation.");
    assert(h1[0] == 'S' && h2[0] == 'M' && h3[0] == 'L' && h4[0] == 'B' && h5[0] == 'A' && h6[0] == 'E');
}

/// The prompt instruction for a translation domain.
pub fn domain_hint(code: &str) -> (r: Option<&'static str>)
    ensures
        r matches Some(n) ==> domain_hint_spec(code@) == Some(n@),
        r is None ==> domain_hint_spec(code@) is None,
{
    if same_text(code, "tech") {
        Some("Software, IT and engineering. Use standard technical terminology (e.g. driver = 驱动程序, thread = 线程); keep code, identifiers, API names, commands and file paths untranslated.")
    } else if same_text(code, "medical") {
        Some("Medicine and healthcare. Use standard, accurate medical terminology; do not paraphrase drug, disease or anatomy terms.")
    } else if same_text(code, "legal") {
        Some("Law and contracts. Use precise legal terminology and a formal register; keep the exact legal meaning of clauses.")
    } else if same_text(code, "business") {
        Some("Business, finance and economics. Use standard business and finance terminology.")
    } else if same_text(code, "academic") {
        Some("Academic and scientific writing. Use a formal academic register and the standard terminology of the field.")
    } else if same_text(code, "daily") {
        Some("Everyday conversation. Use natural, colloquial, idiomatic phrasing rather than a literal word-for-word translation.")
    } else {
        None
    }
}

/// `lang` may be chosen as target language: "auto" or a known code.
/// Otherwise the refusal names it.
pub fn check_target_lang(lang: &str) -> (r: Result<(), String>)
    ensures
        r is Ok <==> (lang@ == "auto"@ || lang_name_spec(lang@) is Some),
        r matches Err(e) ==> e@ == "不支持的语言: "@ + lang@,
{
    if same_text(lang, "auto") || lang_name(lang).is_some() {
        Ok(())
    } else {
        let mut e = String::from_str("不支持的语言: ");
        e.append(lang);
        Err(e)
    }
}

/// `domain` may be chosen: "general" or a known domain. Otherwise the
/// refusal names it.
pub fn check_domain(domain: &str) -> (r: Result<(), String>)
    ensures
        r is Ok <==> (domain@ == "general"@ || domain_hint_spec(domain@) is Some),
        r matches Err(e) ==> e@ == "不支持的领域: "@ + domain@,
{
    if same_text(domain, "general") || domain_hint(domain).is_some() {
        Ok(())
    } else {
        let mut e = String::from_str("不支持的领域: ");
        e.append(domain);
        Err(e)
    }
}


/// A term that must be translated in a fixed way.
pub struct GlossaryEntry {
    pub src: String,
    pub dst: String,
}

impl View for GlossaryEntry {
    type V = (Seq<char>, Seq<char>);

    open spec fn view(&self) -> (Seq<char>, Seq<char>) {
        (self.src@, self.dst@)
    }
}

/// The settings that the user edits.
pub struct Settings {
    pub api_key: String,
    pub toggle_shortcut: String,
    pub quick_translate_shortcut: String,
    /// "auto", or a code that `lang_name` knows.
    pub target_lang: String,
    pub model: String,
    /// "general", or a domain that `domain_hint` knows.
    pub domain: String,
    /// A single tap on Ctrl translates the selection.
    pub ctrl_tap_translate: bool,
    pub glossary: Vec<GlossaryEntry>,
    /// A daily reminder to review words.
    pub reminder_enabled: bool,
    pub reminder_time: String,
}

impl Default for Settings {
    /// The factory settings.
    fn default() -> (s: Settings)
        ensures
            s.api_key@ == Seq::<char>::empty(),
            s.toggle_shortcut@ == "Alt+Q"@,
            s.quick_translate_shortcut@ == "Alt+C"@,
            s.target_lang@ == "auto"@,
            s.model@ == "deepseek-chat"@,
            s.domain@ == "general"@,
            s.ctrl_tap_translate,
            s.glossary@.len() == 0,
            s.reminder_enabled,
            s.reminder_time@ == "21:00"@,
    {
        Settings {
            api_key: String::new(),
            toggle_shortcut: default_toggle_shortcut(),
            quick_translate_shortcut: default_quick_shortcut(),
            target_lang: default_target_lang(),
            model: default_model(),
            domain: default_domain(),
            ctrl_tap_translate: true,
            glossary: Vec::new(),
            reminder_enabled: true,
            reminder_time: default_reminder_time(),
        }
    }
}

/// At most the first `n` characters of `s`.
pub open spec fn first_chars(s: Seq<char>, n: nat) -> Seq<char> {
    if s.len() <= n {
        s
    } else {
        s.take(n as int)
    }
}

/// A glossary line as it is kept: both sides trimmed and cut to sixty
/// characters.
pub open spec fn cleaned_term(g: (Seq<char>, Seq<char>)) -> (Seq<char>, Seq<char>) {
    (first_chars(trimmed(g.0, false), 60), first_chars(trimmed(g.1, false), 60))
}

/// The cleaned lines of `gs` whose two sides are both non-empty, in order.
pub open spec fn kept_terms(gs: Seq<(Seq<char>, Seq<char>)>) -> Seq<(Seq<char>, Seq<char>)>
    decreases gs.len(),
{
    if gs.len() == 0 {
        Seq::empty()
    } else {
        let r = kept_terms(gs.drop_last());
        let c = cleaned_term(gs.last());
        if c.0.len() > 0 && c.1.len() > 0 {
            r.push(c)
        } else {
            r
        }
    }
}

/// The glossary as it is saved: cleaned, empty lines dropped, at most 100.
pub open spec fn cleaned_glossary(gs: Seq<(Seq<char>, Seq<char>)>) -> Seq<(Seq<char>, Seq<char>)> {
    let k = kept_terms(gs);
    if k.len() <= 100 {
        k
    } else {
        k.take(100)
    }
}

/// A saved glossary holds at most 100 terms, each the cleaned form of one of
/// the lines given, with a non-empty source and a non-empty target of at
/// most sixty characters each.
pub proof fn lemma_saved_terms_are_whole(gs: Seq<(Seq<char>, Seq<char>)>)
    ensures
        cleaned_glossary(gs).len() <= 100,
        forall|k: int| 0 <= k < cleaned_glossary(gs).len() ==> {
            let t = #[trigger] cleaned_glossary(gs)[k];
            &&& 0 < t.0.len() <= 60
            &&& 0 < t.1.len() <= 60
            &&& exists|j: int| 0 <= j < gs.len() && cleaned_term(gs[j]) == t
        },
{
    lemma_kept_terms_whole(gs);
}

proof fn lemma_kept_terms_whole(gs: Seq<(Seq<char>, Seq<char>)>)
    ensures
        forall|k: int| 0 <= k < kept_terms(gs).len() ==> {
            let t = #[trigger] kept_terms(gs)[k];
            &&& 0 < t.0.len() <= 60
            &&& 0 < t.1.len() <= 60
            &&& exists|j: int| 0 <= j < gs.len() && cleaned_term(gs[j]) == t
        },
    decreases gs.len(),
{
    if gs.len() > 0 {
        let pre = gs.drop_last();
        lemma_kept_terms_whole(pre);
        let r = kept_terms(pre);
        assert forall|k: int| 0 <= k < kept_terms(gs).len() implies {
            let t = #[trigger] kept_terms(gs)[k];
            &&& 0 < t.0.len() <= 60
            &&& 0 < t.1.len() <= 60
            &&& exists|j: int| 0 <= j < gs.len() && cleaned_term(gs[j]) == t
        } by {
            if k < r.len() {
                assert(kept_terms(gs)[k] == r[k]);
                let j = choose|j: int| 0 <= j < pre.len() && cleaned_term(pre[j]) == r[k];
                assert(gs[j] == pre[j]);
            } else {
                let last = gs.len() - 1;
                assert(kept_terms(gs)[k] == cleaned_term(gs[last]));
            }
        }
    }
}

pub open spec fn ascii_lower(c: char) -> char {
    if 'A' <= c <= 'Z' {
        (c as int + 32) as char
    } else {
        c
    }
}

/// `str::eq_ignore_ascii_case`: equal up to the case of ASCII letters.
pub open spec fn eq_ignore_ascii_case(a: Seq<char>, b: Seq<char>) -> bool {
    a.len() == b.len() && forall|i: int| 0 <= i < a.len() ==> ascii_lower(#[trigger] a[i]) == ascii_lower(b[i])
}

pub open spec fn glossary_view(gs: Seq<GlossaryEntry>) -> Seq<(Seq<char>, Seq<char>)> {
    gs.map_values(|g: GlossaryEntry| g@)
}

fn first_chars_exec(v: Vec<char>, n: usize) -> (r: Vec<char>)
    ensures
        r@ == first_chars(v@, n as nat),
{
    if v.len() <= n {
        return v;
    }
    let mut r: Vec<char> = Vec::new();
    let mut i: usize = 0;
    while i < n
        invariant
            i <= n < v@.len(),
            r@ == v@.take(i as int),
        decreases n - i,
    {
        r.push(v[i]);
        assert(v@.take(i + 1) =~= v@.take(i as int).push(v@[i as int]));
        i = i + 1;
    }
    r
}

fn clean_term(g: &GlossaryEntry) -> (r: GlossaryEntry)
    ensures
        r@ == cleaned_term(g@),
{
    let src = first_chars_exec(trim_chars(&chars_of(g.src.as_str()), false), 60);
    let dst = first_chars_exec(trim_chars(&chars_of(g.dst.as_str()), false), 60);
    GlossaryEntry { src: string_of(src.as_slice()), dst: string_of(dst.as_slice()) }
}

/// The glossary cleaned for saving: both sides trimmed and cut to sixty
/// characters, lines with an empty side dropped, at most 100 lines kept.
pub fn clean_glossary(gs: &Vec<GlossaryEntry>) -> (r: Vec<GlossaryEntry>)
    ensures
        glossary_view(r@) == cleaned_glossary(glossary_view(gs@)),
{
    let ghost g = glossary_view(gs@);
    let mut out: Vec<GlossaryEntry> = Vec::new();
    let mut i: usize = 0;
    while i < gs.len() && out.len() < 100
        invariant
            g == glossary_view(gs@),
            i <= gs@.len(),
            out@.len() <= 100,
            glossary_view(out@) == kept_terms(g.take(i as int)),
        decreases gs@.len() - i,
    {
        let c = clean_term(&gs[i]);
        proof {
            assert(g.take(i + 1).drop_last() =~= g.take(i as int));
            assert(g.take(i + 1).last() == gs@[i as int]@);
        }
        let ghost before = glossary_view(out@);
        if !c.src.as_str().is_empty() && !c.dst.as_str().is_empty() {
            out.push(c);
            proof {
                assert(glossary_view(out@) =~= before.push(c@));
            }
        }
        i = i + 1;
    }
    proof {
        if out@.len() == 100 {
            lemma_kept_terms_grow(g, i as int);
            assert(kept_terms(g.take(i as int)).len() == 100);
            assert(kept_terms(g).take(100) =~= kept_terms(g.take(i as int)));
        } else {
            assert(g.take(i as int) =~= g);
        }
    }
    out
}

/// Cleaning more lines only adds terms at the end.
proof fn lemma_kept_terms_grow(g: Seq<(Seq<char>, Seq<char>)>, i: int)
    requires
        0 <= i <= g.len(),
    ensures
        kept_terms(g.take(i)).len() <= kept_terms(g).len(),
        forall|k: int| 0 <= k < kept_terms(g.take(i)).len() ==> #[trigger] kept_terms(g)[k] == kept_terms(g.take(i))[k],
    decreases g.len() - i,
{
    if i < g.len() {
        lemma_kept_terms_grow(g, i + 1);
        assert(g.take(i + 1).drop_last() =~= g.take(i));
    } else {
        assert(g.take(i) =~= g);
    }
}

fn ascii_lower_exec(c: char) -> (r: char)
    ensures
        r == ascii_lower(c),
{
    if 'A' <= c && c <= 'Z' {
        ((c as u32) + 32) as u8 as char
    } else {
        c
    }
}

fn same_ignoring_ascii_case(a: &str, b: &str) -> (r: bool)
    ensures
        r == eq_ignore_ascii_case(a@, b@),
{
    let x = chars_of(a);
    let y = chars_of(b);
    if x.len() != y.len() {
        return false;
    }
    let mut i: usize = 0;
    while i < x.len()
        invariant
            x@ == a@,
            y@ == b@,
            x@.len() == y@.len(),
            i <= x@.len(),
            forall|j: int| 0 <= j < i ==> ascii_lower(#[trigger] x@[j]) == ascii_lower(y@[j]),
        decreases x@.len() - i,
    {
        if ascii_lower_exec(x[i]) != ascii_lower_exec(y[i]) {
            return false;
        }
        i = i + 1;
    }
    true
}

/// The settings as they are saved: the key and both shortcuts trimmed, a
/// blank model replaced by the default, the glossary cleaned, an invalid
/// reminder time replaced by the default. Refused when a shortcut is empty
/// or both shortcuts are the same (ignoring ASCII case).
pub fn sanitize_settings(s: Settings) -> (r: Result<Settings, String>)
    ensures
        ({
            let toggle = trimmed(s.toggle_shortcut@, false);
            let quick = trimmed(s.quick_translate_shortcut@, false);
            if toggle.len() == 0 || quick.len() == 0 {
                r matches Err(e) && e@ == "快捷键不能为空"@
            } else if eq_ignore_ascii_case(toggle, quick) {
                r matches Err(e) && e@ == "两个快捷键不能相同"@
            } else {
                r matches Ok(out) && {
                    &&& out.api_key@ == trimmed(s.api_key@, false)
                    &&& out.toggle_shortcut@ == toggle
                    &&& out.quick_translate_shortcut@ == quick
                    &&& out.model@ == if trimmed(s.model@, false).len() == 0 {
                        "deepseek-chat"@
                    } else {
                        s.model@
                    }
                    &&& glossary_view(out.glossary@) == cleaned_glossary(glossary_view(s.glossary@))
                    &&& out.reminder_time@ == if hhmm_ok(s.reminder_time@) {
                        s.reminder_time@
                    } else {
                        "21:00"@
                    }
                    &&& out.target_lang@ == s.target_lang@
                    &&& out.domain@ == s.domain@
                    &&& out.ctrl_tap_translate == s.ctrl_tap_translate
                    &&& out.reminder_enabled == s.reminder_enabled
                }
            }
        }),
        r matches Ok(out) ==> hhmm_ok(out.reminder_time@),
{
    proof {
        reveal_strlit("21:00");
    }
    let api_key = string_of(trim_chars(&chars_of(s.api_key.as_str()), false).as_slice());
    let toggle = string_of(trim_chars(&chars_of(s.toggle_shortcut.as_str()), false).as_slice());
    let quick = string_of(
        trim_chars(&chars_of(s.quick_translate_shortcut.as_str()), false).as_slice(),
    );
    let model_blank = trim_chars(&chars_of(s.model.as_str()), false).len() == 0;
    let model = if model_blank {
        default_model()
    } else {
        s.model
    };
    let glossary = clean_glossary(&s.glossary);
    let reminder_time = if valid_hhmm(s.reminder_time.as_str()) {
        s.reminder_time
    } else {
        default_reminder_time()
    };
    if toggle.as_str().is_empty() || quick.as_str().is_empty() {
        return Err(String::from_str("快捷键不能为空"));
    }
    if same_ignoring_ascii_case(toggle.as_str(), quick.as_str()) {
        return Err(String::from_str("两个快捷键不能相同"));
    }
    Ok(Settings {
        api_key,
        toggle_shortcut: toggle,
        quick_translate_shortcut: quick,
        target_lang: s.target_lang,
        model,
        domain: s.domain,
        ctrl_tap_translate: s.ctrl_tap_translate,
        glossary,
        reminder_enabled: s.reminder_enabled,
        reminder_time,
    })
}

/// What saving settings does once the new shortcuts were tried.
#[derive(Debug, PartialEq, Eq)]
pub enum SaveStep {
    /// They are in place: write the settings file.
    Write,
    /// They could not be registered: register the old shortcuts again (so
    /// that the user is not left with none) and fail with this message.
    RestoreOld(String),
}

/// The step after registering the new shortcuts; `registered` is the
/// registration's outcome, with the shortcut plugin's error text.
pub fn after_registration(registered: Result<(), String>) -> (r: SaveStep)
    ensures
        match registered {
            Ok(()) => r == SaveStep::Write,
            Err(e) => r matches SaveStep::RestoreOld(m) && m@ == "快捷键无法注册(格式不对或已被其他程序占用): "@ + e@,
        },
{
    match registered {
        Ok(()) => SaveStep::Write,
        Err(e) => {
            let mut m = String::from_str("快捷键无法注册(格式不对或已被其他程序占用): ");
            m.append(e.as_str());
            SaveStep::RestoreOld(m)
        },
    }
}

} // verus!
