use speakagent::asr::{
    blind_windows, clamp_segment, finalize_word_ends, join_text, parallel_plan, push_words, samples_to_ms,
    segment_words, too_short, Engine, Word, CHUNK_SAMPLES,
};
use speakagent::collect::Reorder;

fn toks(v: &[&str]) -> Vec<String> {
    v.iter().map(|s| s.to_string()).collect()
}

fn texts(out: &[Word]) -> Vec<&str> {
    out.iter().map(|w| w.text.as_str()).collect()
}

fn word(text: &str, start: u32, end: u32) -> Word {
    Word { text: text.to_string(), start, end }
}

// Times are milliseconds: token i at i * 100 ms, offset 10 s.
#[test]
fn splits_on_leading_space_tokens() {
    let t = toks(&[
        " Д", "о", "б", "ро", "е", " у", "т", "ро", ",", " ко", "л", "ле", "ги", ".",
    ]);
    let times: Vec<u32> = (0..t.len()).map(|i| i as u32 * 100).collect();
    let mut out = Vec::new();
    push_words(&t, &times, 10_000, &mut out);
    assert_eq!(texts(&out), ["Доброе", "утро,", "коллеги."]);
    assert_eq!(out[1].start, 10_500);
    assert_eq!(out[1].end, 10_800);
}

#[test]
fn splits_on_standalone_space_and_raw_bpe_marker() {
    let t = toks(&["▁на", "ш", "у", " ", "е", "же", "\u{2581}", "в", "с"]);
    let times: Vec<u32> = (0..t.len()).map(|i| i as u32 * 1000).collect();
    let mut out = Vec::new();
    push_words(&t, &times, 0, &mut out);
    assert_eq!(texts(&out), ["нашу", "еже", "вс"]);
    assert_eq!(out[1].start, 4000);
    assert_eq!(out[2].start, 7000);
}

#[test]
fn push_words_appends_after_existing_words() {
    let mut out = vec![word("раз", 0, 10)];
    push_words(&toks(&[" два"]), &vec![5], 100, &mut out);
    assert_eq!(texts(&out), ["раз", "два"]);
    assert_eq!((out[1].start, out[1].end), (105, 105));
}

#[test]
fn push_words_stops_at_the_shorter_list() {
    let mut out = Vec::new();
    push_words(&toks(&[" а", " б", " в"]), &vec![0, 10], 0, &mut out);
    assert_eq!(texts(&out), ["а", "б"]);
}

#[test]
fn finalize_gives_words_a_minimum_width() {
    let mut ws = vec![word("a", 100, 100), word("b", 200, 400), word("c", 500, 549)];
    finalize_word_ends(&mut ws);
    assert_eq!(ws[0].end, 150);
    assert_eq!(ws[1].end, 400);
    assert_eq!(ws[2].end, 550);
}

#[test]
fn join_text_joins_with_spaces() {
    let ws = vec![word("Доброе", 0, 1), word("утро", 2, 3)];
    assert_eq!(join_text(&ws), "Доброе утро");
    assert_eq!(join_text(&Vec::new()), "");
}

#[test]
fn segment_without_times_is_one_word() {
    let mut out = Vec::new();
    segment_words(&Vec::new(), &Vec::new(), "  привет мир ", 2000, 1500, &mut out);
    assert_eq!(texts(&out), ["привет мир"]);
    assert_eq!((out[0].start, out[0].end), (2000, 3500));
    let mut none = Vec::new();
    segment_words(&Vec::new(), &Vec::new(), "   ", 0, 10, &mut none);
    assert!(none.is_empty());
}

#[test]
fn segment_with_times_uses_tokens() {
    let mut out = Vec::new();
    segment_words(&toks(&[" да", " нет"]), &vec![0, 300], "ignored", 1000, 500, &mut out);
    assert_eq!(texts(&out), ["да", "нет"]);
    assert_eq!(out[1].start, 1300);
}

#[test]
fn blind_windows_cover_the_input() {
    let w = blind_windows(2 * CHUNK_SAMPLES + 5);
    assert_eq!(w.len(), 3);
    assert_eq!((w[0].idx, w[0].start, w[0].len), (0, 0, CHUNK_SAMPLES));
    assert_eq!((w[2].idx, w[2].start, w[2].len), (2, 2 * CHUNK_SAMPLES, 5));
    assert!(blind_windows(0).is_empty());
}

#[test]
fn clamp_segment_keeps_it_inside() {
    let s = clamp_segment(3, -5, 100, 50);
    assert_eq!((s.idx, s.start, s.len), (3, 0, 50));
    let s = clamp_segment(1, 40, 100, 50);
    assert_eq!((s.start, s.len), (40, 10));
    let s = clamp_segment(1, 70, 5, 50);
    assert_eq!((s.start, s.len), (50, 0));
}

#[test]
fn parallel_plan_by_engine() {
    assert_eq!(parallel_plan(Engine::NemoCtc, 6, 6), (1, 6));
    assert_eq!(parallel_plan(Engine::Transducer, 12, 12), (1, 8));
    assert_eq!(parallel_plan(Engine::Whisper, 12, 12), (12, 1));
    assert_eq!(parallel_plan(Engine::NemoCtc, 1, 4), (4, 1));
}

#[test]
fn short_chunks_and_times() {
    assert!(too_short(3199));
    assert!(!too_short(3200));
    assert_eq!(samples_to_ms(16_000), 1000);
    assert_eq!(samples_to_ms(15), 0);
}

#[test]
fn reorder_hands_on_in_segment_order() {
    let mut r: Reorder<&str> = Reorder::new();
    assert!(r.push(2, "c").is_empty());
    assert!(r.push(1, "b").is_empty());
    assert_eq!(r.push(0, "a"), vec!["a", "b", "c"]);
    assert_eq!(r.push(3, "d"), vec!["d"]);
    assert!(r.push(5, "f").is_empty());
    assert_eq!(r.push(4, "e"), vec!["e", "f"]);
}

#[test]
fn assembled_words_keep_every_token_text() {
    let t = toks(&[" при", "вет", " ", "\u{2581}ми", "р", "  !"]);
    let times: Vec<u32> = vec![0, 10, 20, 30, 40, 50, 60];
    let mut out = Vec::new();
    push_words(&t, &times, 0, &mut out);
    let joined: String = out.iter().map(|w| w.text.as_str()).collect();
    assert_eq!(joined, "приветмир!");
    assert!(out.iter().all(|w| !w.text.is_empty()));
    assert_eq!(texts(&out), ["привет", "мир", "!"]);
}
