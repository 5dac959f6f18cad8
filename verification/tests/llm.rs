use speakagent::llm::{
    beautify_max_tokens, cloud_config, cloud_http_error, cloud_test_reply, clean_output, ctx_size, disables_thinking,
    display_name, is_ready, is_stream_done, out_lang, plan_generation, prepare_transcript, server_args, split_chunks,
    map_outcome, sse_data, strip_num_prefix, BeautifyDoc, GenPlan, Lang, ResultKind,
};

#[test]
fn result_kinds_round_trip() {
    for k in [ResultKind::Summary, ResultKind::Business, ResultKind::Interview, ResultKind::Todo] {
        assert_eq!(ResultKind::parse(k.as_str()), Some(k));
    }
    assert_eq!(ResultKind::parse("business"), Some(ResultKind::Business));
    assert_eq!(ResultKind::parse("digest"), None);
}

#[test]
fn output_language() {
    assert_eq!(out_lang(Some("en")), Lang::En);
    assert_eq!(out_lang(Some("ru")), Lang::Ru);
    assert_eq!(out_lang(None), Lang::Ru);
}

#[test]
fn chunks_follow_lines_and_cut_long_ones() {
    assert_eq!(split_chunks("a\nb\nc", 3), vec!["a\nb".to_string(), "c".to_string()]);
    assert_eq!(split_chunks("abcdefg", 3), vec!["abc".to_string(), "def".to_string(), "g".to_string()]);
    assert_eq!(split_chunks("  \nxy", 3), vec!["xy".to_string()]);
    assert!(split_chunks("", 5).is_empty());
}

#[test]
fn speaker_names_go_into_the_transcript() {
    let t = "Speaker2 [0:00:13]: привет\nSpeaker1 [0:00:20]: да";
    assert_eq!(
        prepare_transcript(t, "{\"2\": \"  Иван \"}"),
        "Иван [0:00:13]: привет\nSpeaker1 [0:00:20]: да"
    );
    assert_eq!(prepare_transcript(t, "not json"), t);
    assert_eq!(prepare_transcript(t, "{\"2\": \"   \"}"), t);
}

#[test]
fn replies_are_cleaned() {
    assert_eq!(clean_output("<think>hm</think>\n```markdown\nИтог\n```"), "Итог");
    assert_eq!(clean_output("  просто текст "), "просто текст");
    assert_eq!(display_name("  «Планёрка»  "), "Планёрка");
    assert_eq!(display_name("\"Итоги\""), "Итоги");
    assert_eq!(cloud_test_reply("  ok  "), "ok");
}

#[test]
fn budgets() {
    assert_eq!(beautify_max_tokens(1000), 700);
    assert_eq!(beautify_max_tokens(10), 64);
    assert_eq!(beautify_max_tokens(100_000), 3072);
    assert_eq!(ctx_size(Some(8 * 1024 * 1024 * 1024), 0), 16384);
    assert_eq!(ctx_size(Some(4 * 1024 * 1024 * 1024), 64_000_000_000), 8192);
    assert_eq!(ctx_size(None, 16_000_000_000), 16384);
    assert_eq!(ctx_size(None, 8_000_000_000), 8192);
    assert!(disables_thinking("llm-qwen3-17b"));
    assert!(!disables_thinking("llm-qwen3-4b"));
}

#[test]
fn cloud_settings_with_defaults() {
    assert!(cloud_config(Some("local"), Some("k"), None, None).is_none());
    assert!(cloud_config(Some("cloud"), Some("  "), None, None).is_none());
    let (u, m, k) = cloud_config(Some("cloud"), Some("key"), Some(" "), None).unwrap();
    assert_eq!(u, "https://openrouter.ai/api/v1");
    assert_eq!(m, "openai/gpt-4o-mini");
    assert_eq!(k, "key");
    assert!(is_ready(false, true));
    assert!(!is_ready(false, false));
}

#[test]
fn cloud_errors_and_stream_lines() {
    assert_eq!(cloud_http_error(401, "bad"), "cloud provider: HTTP 401 — check the token. bad");
    assert_eq!(cloud_http_error(500, "x"), "cloud provider: HTTP 500. x");
    assert_eq!(sse_data("data: {x}").as_deref(), Some("{x}"));
    assert_eq!(sse_data(": ping"), None);
    assert!(is_stream_done("[DONE]"));
}

#[test]
fn server_arguments() {
    let a = server_args("m.gguf", 8080, 8192, 4, false);
    assert_eq!(
        a,
        vec![
            "-m", "m.gguf", "--host", "127.0.0.1", "--port", "8080", "-c", "8192", "-t", "4", "--cache-type-k", "q8_0",
            "--no-webui", "--device", "none",
        ]
    );
    assert_eq!(server_args("m.gguf", 1, 2, 3, true).len(), 13);
}

#[test]
fn short_transcripts_go_in_one_pass() {
    assert!(matches!(plan_generation("короткая", None, 100), GenPlan::SinglePass(t) if t == "короткая"));
    match plan_generation("0123456789", Some("дайджест"), 5) {
        GenPlan::FromDigest(d) => assert_eq!(d, "дайдж"),
        _ => panic!("expected the digest"),
    }
    match plan_generation("строка один\nстрока два", None, 5) {
        GenPlan::MapReduce(cs) => assert_eq!(cs, vec!["строка один\nстрока два".to_string()]),
        _ => panic!("expected map-reduce"),
    }
}

#[test]
fn cleanup_keeps_prefixes_and_rejects_bad_replies() {
    let raw = "Speaker1 [0:00:01]: привет мир\nSpeaker2 [0:00:05]: как дела";
    let mut doc = BeautifyDoc::parse(raw);
    assert_eq!(doc.batch_count(), 1);
    assert_eq!(doc.batch_prompt(0), "1. привет мир\n2. как дела");
    doc.apply_reply(0, "Только одна строка");
    assert_eq!(doc.render(), raw);
    doc.apply_reply(0, "1. Привет, мир!\n2. Как дела?");
    assert_eq!(doc.render(), "Speaker1 [0:00:01]: Привет, мир!\nSpeaker2 [0:00:05]: Как дела?");
}

fn strip(s: &str) -> String {
    strip_num_prefix(&s.chars().collect::<Vec<char>>()).into_iter().collect()
}

#[test]
fn reply_line_numbers_stripped() {
    assert_eq!(strip("  3. Привет"), "Привет");
    assert_eq!(strip("12) ok"), "ok");
    assert_eq!(strip("7:x"), "x");
    assert_eq!(strip("4\tz"), "z");
    assert_eq!(strip("5 - five"), "five");
    // A line without a leading number is returned as it is.
    assert_eq!(strip("2024 год"), "2024 год");
    assert_eq!(strip(" hello "), " hello ");
}

#[test]
fn map_step_outcomes() {
    assert_eq!(map_outcome("текст", Ok("итог".to_string())), Ok("итог".to_string()));
    assert_eq!(map_outcome("текст", Err("cancelled".to_string())), Err("cancelled".to_string()));
    assert_eq!(map_outcome("текст", Err("summary helper: timeout".to_string())), Ok("текст".to_string()));
    let long: String = "я".repeat(5000);
    let r = map_outcome(&long, Err("x".to_string())).unwrap();
    assert_eq!(r.chars().count(), 1400);
    assert!(long.starts_with(&r));
}
