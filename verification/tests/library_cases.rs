use quick_translate::capture::{Capture, Poll};
use quick_translate::dates::{decimal_string, fits_date, fmt_date};
use quick_translate::logfile::{clock_stamp, epoch_stamp, last_lines, needs_rotation};
use quick_translate::diagnostics::{
    diagnostics_report, frontend_log_line, has_text, monitor_line, parse_windows_version, settings_line,
};
use quick_translate::input::{
    exe_name, popup_position, react, rect_contains, skip_foreground, toggle_hides, InputEvent, Reaction, TapState,
};
use quick_translate::pets::{active_from_text, check_frames, check_pet_id, pet_id, pet_name, summarize_pets, PetRecord};
use quick_translate::secret::{from_hex, open, seal, sealed_cipher, to_hex};
use quick_translate::settings::{
    after_registration, check_domain, check_target_lang, sanitize_settings, valid_hhmm, GlossaryEntry, SaveStep, Settings,
};
use quick_translate::store::{select_extracted, Enrichment, ExtractedWord, VocabEntry, VocabState};
use quick_translate::translate::{
    build_translation, chat_content, chat_status_failure, check_words_reply, finish_translation, network_failure,
    parse_enrichment, translation_needed,
    status_failure,
};
use quick_translate::vocab::{has_cjk, has_kana_or_hangul, latin_word_like, merge_meaning, trim_punct};

fn entry(id: u64, word: &str, count: u32, last_at: i64) -> VocabEntry {
    VocabEntry {
        id,
        word: word.to_string(),
        meaning: String::new(),
        phonetic: String::new(),
        pos: String::new(),
        example: String::new(),
        example_zh: String::new(),
        count,
        first_at: 0,
        last_at,
        level: 0,
        next_review: 0,
        mastered: false,
        reviews: 0,
    }
}

fn extracted(word: &str, meaning: &str) -> ExtractedWord {
    ExtractedWord { word: word.to_string(), meaning: meaning.to_string(), pos: "n.".to_string(), phonetic: String::new() }
}

#[test]
fn record_counts_a_word_again_ignoring_case() {
    let mut s = VocabState::new();
    let (r, id) = s.record("Resilient", "有韧性的", 1000);
    assert!(r.recorded && r.is_new && r.count == 1 && r.word == "Resilient");
    assert_eq!(id, Some(1));
    let (r, id) = s.record("resilient!", "能恢复的", 2000);
    assert!(r.recorded && !r.is_new);
    assert_eq!(r.count, 2);
    assert_eq!(r.word, "Resilient");
    assert_eq!(id, None);
    let e = &s.entries()[0];
    assert_eq!(e.meaning, "有韧性的;能恢复的");
    assert_eq!((e.first_at, e.last_at), (1000, 2000));
    assert_eq!(s.entries().len(), 1);
}

#[test]
fn record_ignores_sentences() {
    let mut s = VocabState::new();
    let (r, id) = s.record("The company implemented a strategy.", "公司实施了战略。", 5);
    assert!(!r.recorded && !r.is_new && r.count == 0 && r.word.is_empty());
    assert_eq!(id, None);
    assert!(s.entries().is_empty());
}

#[test]
fn new_ids_follow_the_largest() {
    let mut s = VocabState::from_entries(vec![entry(7, "alpha", 1, 0), entry(3, "beta", 1, 0)]);
    let (_, id) = s.record("gamma", "伽马", 9);
    assert_eq!(id, Some(8));
    let ids: Vec<u64> = s.entries().iter().map(|e| e.id).collect();
    assert_eq!(ids, vec![7, 3, 8]);
}

#[test]
fn delete_removes_every_entry_with_the_id() {
    let mut s = VocabState::from_entries(vec![entry(1, "a", 1, 0), entry(2, "b", 1, 0), entry(1, "c", 1, 0)]);
    s.delete(1);
    let words: Vec<&str> = s.entries().iter().map(|e| e.word.as_str()).collect();
    assert_eq!(words, vec!["b"]);
    s.delete(42);
    assert_eq!(s.entries().len(), 1);
}

#[test]
fn review_climbs_the_boxes_and_masters_at_the_top() {
    let day = 86_400_000i64;
    let mut s = VocabState::from_entries(vec![entry(1, "word", 1, 0)]);
    s.review(1, true, 0);
    assert_eq!((s.entries()[0].level, s.entries()[0].next_review), (1, day));
    let expected = [2, 4, 7, 15, 30];
    for (k, days) in expected.iter().enumerate() {
        s.review(1, true, 0);
        assert_eq!(s.entries()[0].level as usize, k + 2);
        assert_eq!(s.entries()[0].next_review, days * day);
    }
    assert!(!s.entries()[0].mastered);
    s.review(1, true, 100);
    assert!(s.entries()[0].mastered);
    assert_eq!(s.entries()[0].level, 6);
    assert_eq!(s.entries()[0].next_review, 100 + 30 * day);
    assert_eq!(s.entries()[0].reviews, 7);
}

#[test]
fn forgetting_resets_to_level_zero_for_ten_minutes() {
    let mut s = VocabState::from_entries(vec![entry(1, "word", 1, 0)]);
    s.review(1, true, 0);
    s.review(1, true, 0);
    s.review(1, false, 5_000);
    assert_eq!(s.entries()[0].level, 0);
    assert_eq!(s.entries()[0].next_review, 605_000);
    assert_eq!(s.entries()[0].reviews, 3);
}

#[test]
fn unmastering_starts_over() {
    let mut s = VocabState::from_entries(vec![entry(1, "word", 1, 0)]);
    s.review(1, true, 0);
    s.set_mastered(1, true, 50);
    assert!(s.entries()[0].mastered);
    assert_eq!(s.entries()[0].level, 1);
    s.set_mastered(1, false, 70);
    assert!(!s.entries()[0].mastered);
    assert_eq!((s.entries()[0].level, s.entries()[0].next_review), (0, 70));
}

#[test]
fn add_many_counts_new_words_and_fills_missing_meanings() {
    let mut s = VocabState::from_entries(vec![entry(4, "Strategy", 2, 0)]);
    let added = s.add_many(
        vec![extracted(" strategy ", "战略"), extracted("implement", "实施"), extracted("   ", "空")],
        77,
    );
    assert_eq!(added, 1);
    let e = &s.entries()[0];
    assert_eq!((e.count, e.last_at, e.meaning.as_str()), (3, 77, "战略"));
    let n = &s.entries()[1];
    assert_eq!((n.id, n.word.as_str(), n.meaning.as_str(), n.pos.as_str(), n.count), (5, "implement", "实施", "n.", 1));
}

#[test]
fn enrich_trims_fields_and_keeps_meaning_when_empty() {
    let mut s = VocabState::from_entries(vec![entry(1, "word", 1, 0)]);
    s.entries();
    let f = Enrichment {
        phonetic: " /wɜːd/ ".to_string(),
        pos: "n.".to_string(),
        meaning: "  ".to_string(),
        example: " A word. ".to_string(),
        example_zh: "一个词。".to_string(),
    };
    let mut s2 = VocabState::from_entries(vec![VocabEntry { meaning: "词".to_string(), ..entry(1, "word", 1, 0) }]);
    s2.enrich(1, &f);
    let e = &s2.entries()[0];
    assert_eq!((e.phonetic.as_str(), e.example.as_str(), e.meaning.as_str()), ("/wɜːd/", "A word.", "词"));
    assert_eq!(s.word_and_meaning(1), Some(("word".to_string(), String::new())));
    assert_eq!(s.word_and_meaning(2), None);
}

#[test]
fn export_sorts_by_count_then_recency_then_order() {
    let s = VocabState::from_entries(vec![
        entry(1, "a", 1, 10),
        entry(2, "b", 3, 5),
        entry(3, "c", 1, 20),
        entry(4, "d", 1, 10),
    ]);
    let order = s.export_order();
    assert_eq!(order, vec![1, 2, 0, 3]);
    let csv = s.export_csv(0).unwrap();
    let lines: Vec<&str> = csv.lines().collect();
    assert_eq!(lines.len(), 5);
    assert!(lines[0].starts_with("\u{feff}单词,"));
    assert_eq!(lines[1], "\"b\",\"\",\"\",\"\",\"\",\"\",3,1970-01-01,1970-01-01,学习中");
    assert!(lines[2].starts_with("\"c\""));
    assert!(lines[3].starts_with("\"a\""));
    assert!(lines[4].starts_with("\"d\""));
}

#[test]
fn export_of_an_empty_notebook_is_refused() {
    assert_eq!(VocabState::new().export_csv(480), Err("生词本还是空的".to_string()));
}

#[test]
fn extracted_words_are_filtered_and_capped() {
    let mut words = vec![extracted("这是中文", "x"), extracted("not. a word", "x")];
    for w in ["one", "two", "three", "four", "five", "six", "seven", "eight", "nine"] {
        words.push(extracted(w, "x"));
    }
    let kept: Vec<String> = select_extracted(words).into_iter().map(|w| w.word).collect();
    assert_eq!(kept, vec!["one", "two", "three", "four", "five", "six", "seven", "eight"]);
}

#[test]
fn lookup_helpers() {
    assert_eq!(trim_punct("  “hello,” "), "hello");
    assert!(has_cjk("a汉b"));
    assert!(!has_cjk("abc"));
    assert!(has_kana_or_hangul("カタカナ"));
    assert!(latin_word_like("take off"));
    assert!(!latin_word_like("one two three four"));
    assert!(!latin_word_like("12345"));
}

#[test]
fn dates_and_numbers() {
    assert_eq!(fmt_date(-1, 0), "1970-01-01");
    assert_eq!(fmt_date(-1000, 0), "1969-12-31");
    assert_eq!(fmt_date(951_782_400_000, 0), "2000-02-29");
    assert_eq!(fmt_date(-62_135_596_800_000, 0), "0001-01-01");
    assert_eq!(fmt_date(-62_198_755_200_000, 0), "-001-01-01");
    assert_eq!(decimal_string(0), "0");
    assert_eq!(decimal_string(4_294_967_295), "4294967295");
}

#[test]
fn hex_reads_either_case_and_a_plus_sign() {
    assert_eq!(from_hex("0aFF"), Some(vec![10, 255]));
    assert_eq!(from_hex("+a"), Some(vec![10]));
    assert_eq!(from_hex("é0"), None);
    assert_eq!(to_hex(&[]), "");
    assert_eq!(to_hex(&[171, 205]), "abcd");
}

#[test]
fn sealing_without_protection_keeps_the_key() {
    assert_eq!(seal("sk-1", None), "sk-1");
    assert_eq!(seal("", Some(vec![1])), "");
    assert_eq!(open(&seal("sk-1", None), None), "sk-1");
    assert_eq!(sealed_cipher("sk-1"), None);
    assert_eq!(sealed_cipher("dpapi:zz"), None);
    assert_eq!(open("dpapi:00", None), "");
    assert_eq!(open("dpapi:00", Some(vec![0xff, 0xfe])), "");
}

#[test]
fn reminder_and_shortcuts_are_sanitized() {
    let mut s = Settings::default();
    s.api_key = "  key  ".to_string();
    s.model = "   ".to_string();
    s.reminder_time = "25:00".to_string();
    s.glossary = vec![
        GlossaryEntry { src: " Acme ".to_string(), dst: " 艾克米 ".to_string() },
        GlossaryEntry { src: "   ".to_string(), dst: "x".to_string() },
    ];
    let out = sanitize_settings(s).ok().unwrap();
    assert_eq!(out.api_key, "key");
    assert_eq!(out.model, "deepseek-chat");
    assert_eq!(out.reminder_time, "21:00");
    assert_eq!(out.glossary.len(), 1);
    assert_eq!((out.glossary[0].src.as_str(), out.glossary[0].dst.as_str()), ("Acme", "艾克米"));

    let mut same = Settings::default();
    same.quick_translate_shortcut = " alt+q ".to_string();
    assert_eq!(sanitize_settings(same).err(), Some("两个快捷键不能相同".to_string()));
    let mut empty = Settings::default();
    empty.toggle_shortcut = "  ".to_string();
    assert_eq!(sanitize_settings(empty).err(), Some("快捷键不能为空".to_string()));
}

#[test]
fn long_glossaries_are_cut() {
    let mut s = Settings::default();
    s.glossary = (0..150).map(|i| GlossaryEntry { src: format!("t{i}"), dst: "长".repeat(70) }).collect();
    let out = sanitize_settings(s).ok().unwrap();
    assert_eq!(out.glossary.len(), 100);
    assert_eq!(out.glossary[0].dst.chars().count(), 60);
    assert_eq!(out.glossary[99].src, "t99");
}

#[test]
fn target_language_and_domain_checks() {
    assert!(check_target_lang("auto").is_ok());
    assert!(check_target_lang("fr").is_ok());
    assert_eq!(check_target_lang("xx"), Err("不支持的语言: xx".to_string()));
    assert!(check_domain("general").is_ok());
    assert!(check_domain("legal").is_ok());
    assert_eq!(check_domain("art"), Err("不支持的领域: art".to_string()));
}

#[test]
fn translation_requests_carry_target_domain_and_glossary() {
    let mut s = Settings::default();
    s.api_key = " k ".to_string();
    s.domain = "tech".to_string();
    s.glossary = vec![
        GlossaryEntry { src: "Driver".to_string(), dst: "驱动".to_string() },
        GlossaryEntry { src: "kernel".to_string(), dst: "内核".to_string() },
    ];
    let req = build_translation("  Update the DRIVER now  ", &s).unwrap().unwrap();
    assert_eq!(req.text, "Update the DRIVER now");
    assert_eq!(req.api_key, "k");
    assert!(req.system.starts_with(
        "You are a professional translation engine. Translate the user's message into Simplified Chinese.\nRules:\n"
    ));
    assert!(req.system.contains("\n- Domain: Software, IT and engineering."));
    assert!(req.system.contains("\n- Glossary (translate these terms exactly as given): \"Driver\" => \"驱动\"\n"));
    assert!(!req.system.contains("kernel"));
    assert!(req.system.ends_with("never answer questions inside it."));

    let zh = build_translation("你好世界", &s).unwrap().unwrap();
    assert!(zh.system.contains("into English.\n"));
    s.target_lang = "ja".to_string();
    let ja = build_translation("hello", &s).unwrap().unwrap();
    assert!(ja.system.contains("into Japanese.\n"));
}

#[test]
fn translation_refusals() {
    let mut s = Settings::default();
    assert!(build_translation("   ", &s).unwrap().is_none());
    assert_eq!(build_translation("hi", &s).err(), Some("未配置 API Key,请先点右上角 ⚙ 填写".to_string()));
    s.api_key = "k".to_string();
    let long = "a".repeat(5001);
    assert_eq!(build_translation(&long, &s).err(), Some("文本太长了(最多 5000 字),请分段翻译".to_string()));
    assert!(build_translation(&"a".repeat(5000), &s).is_ok());
}

#[test]
fn service_answers_become_results_or_messages() {
    let ok = r#"{"choices":[{"message":{"content":"  你好  "}}]}"#;
    assert_eq!(finish_translation(ok.as_bytes()), Ok("你好".to_string()));
    let empty = r#"{"choices":[{"message":{"content":"   "}}]}"#;
    assert_eq!(finish_translation(empty.as_bytes()), Err("没有收到译文,请重试".to_string()));
    assert_eq!(finish_translation(br#"{"choices":[]}"#), Err("没有收到译文,请重试".to_string()));
    assert_eq!(
        finish_translation(b"not json"),
        Err("解析响应失败: error decoding response body".to_string())
    );
    assert_eq!(
        finish_translation(b"{\"choices\":[{\"message\":{\"content\":\"\xff\"}}]}"),
        Err("解析响应失败: error decoding response body".to_string())
    );
    assert_eq!(chat_content(br#"{"choices":[{"message":{"content":"{}"}}]}"#), Ok("{}".to_string()));
    assert_eq!(chat_content(br#"{"x":1}"#), Ok(String::new()));
    assert_eq!(chat_content(b"[1"), Err("解析响应失败: error decoding response body".to_string()));
    assert_eq!(translation_needed("   "), Ok(false));
    assert_eq!(translation_needed(" hi "), Ok(true));
    assert_eq!(translation_needed(&"字".repeat(5001)), Err("文本太长了(最多 5000 字),请分段翻译".to_string()));
    assert_eq!(translation_needed(&"字".repeat(5000)), Ok(true));
}

#[test]
fn failure_messages() {
    assert_eq!(status_failure(401, "401 Unauthorized", ""), "API Key 无效或已失效,请在设置里检查");
    assert_eq!(status_failure(402, "402 Payment Required", ""), "DeepSeek 账户余额不足,请充值后再试");
    assert_eq!(status_failure(429, "429 Too Many Requests", ""), "请求太频繁了,请稍等几秒再试");
    assert_eq!(
        status_failure(503, "503 Service Unavailable", "x"),
        "DeepSeek 服务暂时不可用(503 Service Unavailable),请稍后重试"
    );
    assert_eq!(status_failure(400, "400 Bad Request", "bad"), "翻译请求失败 (400 Bad Request): bad");
    assert_eq!(chat_status_failure(500, "500 Internal Server Error"), "请求失败 (500 Internal Server Error)");
    assert_eq!(network_failure(true, true, "x"), "请求超时,请检查网络后重试");
    assert_eq!(network_failure(false, true, "x"), "无法连接 DeepSeek,请检查网络或代理");
    assert_eq!(network_failure(false, false, "boom"), "网络请求失败: boom");
}

#[test]
fn enrichment_fields_are_read_from_the_models_json() {
    let f = parse_enrichment(r#"{"phonetic":"/x/","pos":"n.","meaning":"词","example":"Ex.","example_zh":"例。","extra":1}"#)
        .ok()
        .unwrap();
    assert_eq!((f.phonetic.as_str(), f.pos.as_str(), f.meaning.as_str()), ("/x/", "n.", "词"));
    let g = parse_enrichment(r#"{"pos":3}"#).ok().unwrap();
    assert_eq!((g.phonetic.as_str(), g.pos.as_str()), ("", ""));
    assert_eq!(parse_enrichment("nope").err(), Some("返回内容不是有效的 JSON,请重试".to_string()));
}

#[test]
fn single_ctrl_tap_is_recognised() {
    let s = TapState::start();
    let (s, e) = s.on_key(0xA2, false, false, 100);
    assert_eq!(e, None);
    let (s, e) = s.on_key(0xA2, false, false, 150);
    assert_eq!(e, None);
    let (s, e) = s.on_key(0xA2, true, false, 500);
    assert_eq!(e, Some(InputEvent::CtrlTap));
    let (s, _) = s.on_key(0xA3, false, false, 1000);
    let (s, e) = s.on_key(0xA3, true, false, 1451);
    assert_eq!(e, None);
    let (s, _) = s.on_key(0xA2, false, false, 2000);
    let (s, e) = s.on_key(0x43, false, false, 2010);
    assert_eq!(e, None);
    let (s, e) = s.on_key(0xA2, true, false, 2050);
    assert_eq!(e, None);
    let (s, _) = s.on_key(0xA2, false, false, 3000);
    let (s, click) = s.on_click(5, 6);
    assert_eq!(click, InputEvent::Click { x: 5, y: 6 });
    let (s, e) = s.on_key(0xA2, true, false, 3010);
    assert_eq!(e, None);
    let (s, e) = s.on_key(0x1B, false, false, 4000);
    assert_eq!(e, Some(InputEvent::Esc));
    let (_, e) = s.on_key(0x1B, false, true, 4001);
    assert_eq!(e, None);
}

#[test]
fn popup_stays_on_the_screen() {
    assert_eq!(popup_position(100, 100, 340, 220, 10, None), (98, 104));
    let area = Some((0, 0, 1920, 1040));
    assert_eq!(popup_position(1900, 1000, 340, 220, 10, area), (1580, 770));
    assert_eq!(popup_position(-50, 5, 340, 220, 10, area), (0, 9));
    assert!(rect_contains(10, 10, 0, 0, 20, 20));
    assert!(!rect_contains(20, 10, 0, 0, 20, 20));
}

#[test]
fn foreground_rules() {
    assert_eq!(exe_name("C:\\Windows\\EXPLORER.EXE"), "explorer.exe");
    assert_eq!(exe_name("notepad.exe"), "notepad.exe");
    assert!(skip_foreground(10, 20, "explorer.exe"));
    assert!(skip_foreground(20, 20, "notepad.exe"));
    assert!(!skip_foreground(10, 20, "notepad.exe"));
}

#[test]
fn pet_skins() {
    assert_eq!(active_from_text(" p123 \n"), Some("p123".to_string()));
    assert_eq!(active_from_text("../x"), None);
    assert_eq!(pet_name("   "), "我的形象");
    assert_eq!(pet_name(&"猫".repeat(25)), "猫".repeat(20));
    assert_eq!(pet_id(1789876650140), "p1789876650140");
    assert_eq!(check_pet_id("a/b"), Err("无效的形象".to_string()));
    assert_eq!(check_frames(&vec![]), Err("帧数需要在 1 到 16 之间".to_string()));
    assert_eq!(check_frames(&vec!["data:image/png;base64,AAAA".to_string(); 17]), Err("帧数需要在 1 到 16 之间".to_string()));
    assert_eq!(check_frames(&vec!["data:image/jpeg;base64,AAAA".to_string()]), Err("图片格式不对或太大".to_string()));
    assert_eq!(check_frames(&vec![format!("data:image/png;base64,{}", "A".repeat(2_000_000))]), Err("图片格式不对或太大".to_string()));
    assert_eq!(check_frames(&vec!["data:image/png;base64,AAAA".to_string(); 16]), Ok(()));
}

#[test]
fn pet_list_is_newest_first_without_empty_skins() {
    let pets = vec![
        PetRecord { id: "p900".to_string(), name: "a".to_string(), frames: vec!["f1".to_string(), "f2".to_string()] },
        PetRecord { id: "p1000".to_string(), name: "b".to_string(), frames: vec!["g".to_string()] },
        PetRecord { id: "p950".to_string(), name: "c".to_string(), frames: vec![] },
        PetRecord { id: "p901".to_string(), name: "d".to_string(), frames: vec!["h".to_string()] },
    ];
    let list = summarize_pets(&pets);
    let ids: Vec<&str> = list.iter().map(|p| p.id.as_str()).collect();
    assert_eq!(ids, vec!["p1000", "p901", "p900"]);
    assert_eq!((list[2].frame_count, list[2].thumb.as_str()), (2, "f1"));
}

#[test]
fn diagnostics_lines() {
    let mut st = Settings::default();
    st.api_key = "secret".to_string();
    let line = settings_line(&st);
    assert_eq!(
        line,
        "设置: API Key 已填写 | 显示快捷键 Alt+Q | 划词快捷键 Alt+C | 单击Ctrl划词 开 | 目标语言 auto | 领域 general | 术语 0 条 | 提醒 开 21:00\n"
    );
    assert!(!line.contains("secret"));
    let (err, msg) = frontend_log_line("error", &"x".repeat(600));
    assert!(err);
    assert_eq!(msg.chars().count(), "[前端] ".chars().count() + 500);
    assert!(!frontend_log_line("warn", "m").0);
    assert!(has_text(" a "));
    assert!(!has_text(" \n\t"));
    assert_eq!(parse_windows_version("1.2 3.4.5"), "3.4.5");
    assert_eq!(parse_windows_version("v1.2.3"), "1.2.3");
}

#[test]
fn shortcut_capture_takes_the_first_non_blank_read() {
    let mut c = Capture::for_shortcut();
    assert!(c.clears_first(true));
    assert!(!c.clears_first(false));
    assert_eq!(c.pause_ms(), 40);
    assert!(c.wants_read(7));
    assert_eq!(c.on_poll(0, None), Poll::Again);
    assert_eq!(c.on_poll(0, Some("  \n".to_string())), Poll::Again);
    assert_eq!(c.on_poll(0, Some(" hello ".to_string())), Poll::Found(" hello ".to_string()));
    assert!(c.restores_backup(false));
    assert!(c.focus_popup());
}

#[test]
fn shortcut_capture_gives_up_after_twenty_polls() {
    let mut c = Capture::for_shortcut();
    for _ in 0..19 {
        assert_eq!(c.on_poll(0, None), Poll::Again);
    }
    assert_eq!(c.on_poll(0, Some(String::new())), Poll::Nothing);
    assert_eq!(c.polls_left, 0);
}

#[test]
fn ctrl_tap_capture_waits_for_the_clipboard_to_change() {
    let mut c = Capture::for_ctrl_tap(41);
    assert!(!c.clears_first(true));
    assert_eq!(c.pause_ms(), 30);
    assert!(!c.wants_read(41));
    assert!(c.wants_read(42));
    assert_eq!(c.on_poll(41, Some("old text".to_string())), Poll::Again);
    assert_eq!(c.on_poll(42, Some("word".to_string())), Poll::Found("word".to_string()));
    assert!(!c.restores_backup(false));
    assert!(c.restores_backup(true));
    assert!(!c.focus_popup());
    let mut d = Capture::for_ctrl_tap(5);
    for _ in 0..13 {
        assert_eq!(d.on_poll(5, None), Poll::Again);
    }
    assert_eq!(d.on_poll(5, None), Poll::Nothing);
}

#[test]
fn log_rotation_and_stamps() {
    assert!(!needs_rotation(1_000_000));
    assert!(needs_rotation(1_000_001));
    assert_eq!(clock_stamp(2024, 3, 9, 7, 5, 0), "2024-03-09 07:05:00");
    assert_eq!(epoch_stamp(1700000000), "t+1700000000");
}

#[test]
fn log_tail_keeps_the_last_lines() {
    assert_eq!(last_lines("", 10), "");
    assert_eq!(last_lines("a\nb\nc\n", 2), "b\nc");
    assert_eq!(last_lines("a\r\nb\r\nc", 5), "a\nb\nc");
    assert_eq!(last_lines("a\n\nb", 2), "\nb");
    assert_eq!(last_lines("a\nb", 0), "");
    assert_eq!(last_lines("x\r", 1), "x\r");
}

#[test]
fn diagnostics_report_puts_the_parts_together() {
    assert_eq!(monitor_line(2, 1920, 1080, 150), "显示器2: 1920x1080 缩放150%\n");
    let st = Settings::default();
    let report = diagnostics_report(
        "1.2.0",
        Some("10.0.19045".to_string()),
        &vec![(2560, 1440, 125), (1920, 1080, 100)],
        &st,
        true,
        "a\nb",
    );
    assert_eq!(
        report,
        "软件版本: 1.2.0\n系统: Windows 10.0.19045\n显示器1: 2560x1440 缩放125%\n显示器2: 1920x1080 缩放100%\n\
设置: API Key 未填写 | 显示快捷键 Alt+Q | 划词快捷键 Alt+C | 单击Ctrl划词 开 | 目标语言 auto | 领域 general | 术语 0 条 | 提醒 开 21:00\n\
开机自启: true\n\n--- 最近日志 ---\na\nb"
    );
    let bare = diagnostics_report("0.1.0", None, &vec![], &st, false, "");
    assert!(bare.starts_with("软件版本: 0.1.0\n设置: "));
    assert!(bare.ends_with("开机自启: false\n\n--- 最近日志 ---\n"));
}

#[test]
fn merging_a_meaning_twice_changes_nothing() {
    let once = merge_meaning("有韧性的", "能恢复的");
    assert_eq!(merge_meaning(&once, "能恢复的"), once);
    let first = merge_meaning("", "快");
    assert_eq!(merge_meaning(&first, "快"), first);
    let long = "长".repeat(61);
    assert_eq!(merge_meaning(&merge_meaning(&long, "新"), "新"), long);
    let mut m = String::new();
    for k in 0..30 {
        m = merge_meaning(&m, &format!("义{k}"));
        assert!(m.chars().count() <= 61 + 3);
    }
}

#[test]
fn room_checks_match_the_counters() {
    let full = VocabState::from_entries(vec![entry(1, "hello", u32::MAX, 0), entry(u64::MAX - 1, "tea", 3, 0)]);
    assert!(!full.record_room("hello", "你好"));
    assert!(full.record_room("world", "世界"));
    assert!(full.record_room("The company implemented a strategy.", "公司实施了战略。"));
    assert!(!full.add_room(&vec![extracted("Hello", "你好")], 0));
    assert!(full.add_room(&vec![extracted("world", "世界")], 0));
    assert!(!full.add_room(&vec![extracted("world", "世界"), extracted("sky", "天空")], 0));
    assert!(full.add_room(&vec![extracted("  ", "")], 0));

    let mut e = entry(5, "late", 1, 0);
    e.reviews = u32::MAX;
    let mut f = entry(6, "high", 1, 0);
    f.level = 7;
    let g = entry(7, "soon", 1, 0);
    let s = VocabState::from_entries(vec![e, f, g]);
    assert!(!s.review_room(5, false, 0));
    assert!(!s.review_room(6, true, 0));
    assert!(s.review_room(6, false, 0));
    assert!(s.review_room(7, true, 0));
    assert!(!s.review_room(7, false, i64::MAX));
    assert!(s.review_room(99, true, i64::MAX));

    assert!(s.dates_ok(480));
    assert!(!s.dates_ok(i64::MAX));
    assert!(fits_date(1_709_222_400_000, 480));
    assert!(!fits_date(0, i64::MIN));
    assert!(fits_date(i64::MAX, 1));
    assert!(!fits_date(i64::MAX, i64::MAX / 60));
}

#[test]
fn input_events_decide_what_happens_to_the_popup() {
    let click = InputEvent::Click { x: 5, y: 5 };
    assert_eq!(react(click, true, false, true), Reaction::HidePopup);
    assert_eq!(react(click, true, true, true), Reaction::Ignore);
    assert_eq!(react(click, false, false, true), Reaction::Ignore);
    assert_eq!(react(InputEvent::Esc, true, false, false), Reaction::HidePopup);
    assert_eq!(react(InputEvent::Esc, false, false, true), Reaction::Ignore);
    assert_eq!(react(InputEvent::CtrlTap, false, false, true), Reaction::TranslateSelection);
    assert_eq!(react(InputEvent::CtrlTap, true, false, false), Reaction::Ignore);
    assert!(toggle_hides(true, true));
    assert!(!toggle_hides(true, false));
    assert!(!toggle_hides(false, true));
}

#[test]
fn pet_ids_are_ordered_by_their_length_in_bytes() {
    let skin = |id: &str| PetRecord { id: id.to_string(), name: "n".to_string(), frames: vec!["f".to_string()] };
    let list = summarize_pets(&vec![skin("ab"), skin("é"), skin("b"), skin("ab")]);
    let ids: Vec<&str> = list.iter().map(|p| p.id.as_str()).collect();
    assert_eq!(ids, vec!["é", "ab", "ab", "b"]);
}

#[test]
fn reminder_times_need_two_digits_on_each_side() {
    assert!(valid_hhmm("09:05"));
    assert!(!valid_hhmm("+9:00"));
    assert!(!valid_hhmm("09:+5"));
    assert!(!valid_hhmm("-1:00"));
}

#[test]
fn failed_shortcut_registration_restores_the_old_ones() {
    assert_eq!(after_registration(Ok(())), SaveStep::Write);
    assert_eq!(
        after_registration(Err("bad key".to_string())),
        SaveStep::RestoreOld("快捷键无法注册(格式不对或已被其他程序占用): bad key".to_string())
    );
}

#[test]
fn answers_are_read_by_index_into_the_choices_array() {
    let keyed = r#"{"choices":{"0":{"message":{"content":"x"}}}}"#;
    assert_eq!(finish_translation(keyed.as_bytes()), Err("没有收到译文,请重试".to_string()));
    assert_eq!(chat_content(keyed.as_bytes()), Ok(String::new()));
    let second = r#"{"choices":[{"message":{}},{"message":{"content":"y"}}]}"#;
    assert_eq!(finish_translation(second.as_bytes()), Err("没有收到译文,请重试".to_string()));
}

#[test]
fn words_reply_must_be_json() {
    assert_eq!(check_words_reply(r#"{"words":[]}"#), Ok(()));
    assert_eq!(check_words_reply(r#"{"other":1}"#), Ok(()));
    assert_eq!(check_words_reply("words: none"), Err("返回内容不是有效的 JSON,请重试".to_string()));
}

#[test]
fn checked_record_and_add_refuse_overflow_and_keep_words_unique() {
    let mut full = VocabState::from_entries(vec![entry(1, "hello", u32::MAX, 0)]);
    assert!(full.try_record("Hello", "你好", 5).is_none());
    assert_eq!(full.entries()[0].count, u32::MAX);
    assert!(full.try_add_many(vec![extracted("HELLO", "你好")], 5).is_none());
    assert_eq!(full.entries().len(), 1);

    let mut s = VocabState::new();
    let (r, id) = s.try_record("Tea", "茶", 1).unwrap();
    assert!(r.is_new && id == Some(1));
    let (r, id) = s.try_record("tea", "茶", 2).unwrap();
    assert!(!r.is_new && r.count == 2 && id.is_none());
    assert_eq!(s.try_add_many(vec![extracted("TEA", "茶"), extracted("cup", "杯")], 3), Some(1));
    let words: Vec<&str> = s.entries().iter().map(|e| e.word.as_str()).collect();
    assert_eq!(words, vec!["Tea", "cup"]);
    assert_eq!(s.entries()[0].count, 3);
}
