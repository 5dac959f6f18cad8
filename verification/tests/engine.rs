use speakagent::audio::file_info;
use speakagent::decode::{
    decode_error, decode_order, duration_fields, extension, ffmpeg_args, ffmpeg_candidates, file_name,
    prefers_ffmpeg, DecodeOrder,
};
use speakagent::dictation::{Mic, Preroll, StartStep};
use speakagent::gpu::{adapter, best_gpu, detect_gpus, should_offload, vulkan_available, vulkan_dll_path, GpuInfo};
use speakagent::hw::{asr_workers, logical_cores, ort_threads, perf_cores, physical_cores};
use speakagent::keys::{key_name, mac_key, mod_name, vk_name, win_key, MacEvent, WM_KEYDOWN, WM_KEYUP, WM_SYSKEYDOWN};
use speakagent::models::Platform;
use speakagent::pdf::{layout, PdfBlock, PdfItem};
use speakagent::punct::{
    apply, capitalize_first, ends_sentence, labels_from_config, labels_from_pairs, mark, word_labels, merge_labels, restore, windows, LOWER_O,
};

fn gpu(name: &str, gb: u64) -> GpuInfo {
    GpuInfo { name: name.to_string(), vram_bytes: gb << 30 }
}

#[test]
fn gpu_choice() {
    assert!(detect_gpus().is_empty());
    assert!(!vulkan_available());
    let a = adapter("NVIDIA RTX\0\0\0", false, 8 << 30).unwrap();
    assert_eq!(a.name, "NVIDIA RTX");
    assert!(adapter("Microsoft Basic Render Driver", true, 0).is_none());
    assert_eq!(vulkan_dll_path(None), "C:\\Windows\\System32\\vulkan-1.dll");
    assert_eq!(vulkan_dll_path(Some("D:\\Win\\")), "D:\\Win\\System32\\vulkan-1.dll");

    let gpus = vec![gpu("Intel UHD", 1), gpu("RTX A", 8), gpu("RTX B", 8), gpu("GTX", 4)];
    assert_eq!(best_gpu(Platform::Windows, &gpus, None).unwrap().name, "RTX B");
    assert!(best_gpu(Platform::Windows, &Vec::new(), None).is_none());
    let metal = gpu("Apple M2", 16);
    assert_eq!(best_gpu(Platform::MacArm, &gpus, Some(metal)).unwrap().name, "Apple M2");
    assert_eq!(should_offload(Platform::Windows, true, &gpus, 0).unwrap().name, "RTX B");
    assert!(should_offload(Platform::Windows, false, &gpus, 0).is_none());
    let small = vec![gpu("Intel UHD", 1), gpu("MX", 2)];
    assert!(should_offload(Platform::Windows, true, &small, 0).is_none());
    let m = should_offload(Platform::MacArm, false, &Vec::new(), 12 << 30).unwrap();
    assert_eq!(m.name, "Apple Silicon");
    assert_eq!(m.vram_bytes, 12 << 30);
    assert!(should_offload(Platform::MacIntel, true, &gpus, 0).is_none());
    assert!(should_offload(Platform::Linux, true, &gpus, 0).is_none());
}

#[test]
fn thread_counts() {
    assert_eq!(physical_cores(Some(6), 12), 6);
    assert_eq!(physical_cores(Some(0), 12), 12);
    assert_eq!(physical_cores(None, 12), 12);
    assert_eq!(logical_cores(None), 4);
    assert_eq!(logical_cores(Some(24)), 24);
    assert_eq!(ort_threads(Platform::MacArm, 10, Some(4)), 4);
    assert_eq!(ort_threads(Platform::Windows, 10, Some(4)), 10);
    assert_eq!(ort_threads(Platform::Linux, 32, None), 16);
    assert_eq!(ort_threads(Platform::Linux, 0, None), 1);
    assert_eq!(asr_workers(0), 1);
    assert_eq!(asr_workers(8), 8);
    assert_eq!(asr_workers(40), 16);
    assert_eq!(perf_cores(0, 6), Some(6));
    assert_eq!(perf_cores(-1, 6), None);
    assert_eq!(perf_cores(0, 0), None);
}

#[test]
fn punctuation_windows() {
    assert!(windows(0).is_empty());
    let w = windows(300);
    let v: Vec<(usize, usize, usize, usize)> = w.iter().map(|w| (w.start, w.end, w.emit_lo, w.emit_hi)).collect();
    assert_eq!(v, [(0, 160, 0, 136), (112, 272, 24, 136), (224, 300, 24, 76)]);
    let w = windows(100);
    assert_eq!(w.len(), 1);
    assert_eq!((w[0].start, w[0].end, w[0].emit_lo, w[0].emit_hi), (0, 100, 0, 100));
}

#[test]
fn punctuation_merge_covers_every_word() {
    let n = 300;
    let w = windows(n);
    let inferred: Vec<Vec<usize>> = w.iter().enumerate().map(|(k, w)| vec![k; w.end - w.start]).collect();
    let labels = merge_labels(n, &w, &inferred);
    assert_eq!(labels.len(), n);
    assert!(labels.iter().all(|&l| l != LOWER_O));
    assert_eq!(labels[0], 0);
    assert_eq!(labels[135], 0);
    assert_eq!(labels[136], 1);
    assert_eq!(labels[247], 1);
    assert_eq!(labels[248], 2);
    assert_eq!(labels[299], 2);
    let short = vec![vec![5usize; 10], vec![], vec![]];
    let labels = merge_labels(n, &w, &short);
    assert_eq!(labels[3], 5);
    assert_eq!(labels[10], LOWER_O);
}

#[test]
fn punctuation_labels() {
    assert_eq!(mark("PERIOD"), ".");
    assert_eq!(mark("TIRE"), " —");
    assert_eq!(mark("QUESTIONVOSKL"), "?!");
    assert_eq!(mark("O"), "");
    assert_eq!(capitalize_first("привет"), "Привет");
    assert_eq!(capitalize_first(""), "");
    assert_eq!(apply("нато", "UPPER_TOTAL_COMMA"), "НАТО,");
    assert_eq!(apply("москва", "UPPER_PERIOD"), "Москва.");
    assert_eq!(apply("да", "LOWER_QUESTION"), "да?");
    assert_eq!(apply("да", "LOWER_O"), "да");
    assert!(ends_sentence("конец."));
    assert!(ends_sentence("да…"));
    assert!(!ends_sentence("запятая,"));
    assert!(!ends_sentence(""));
}

#[test]
fn punctuation_restore() {
    let id2label: Vec<String> = ["LOWER_O", "LOWER_PERIOD", "UPPER_O", "LOWER_COMMA"].iter().map(|s| s.to_string()).collect();
    let words: Vec<String> = ["привет", "мир", "как", "дела", "иван"].iter().map(|s| s.to_string()).collect();
    let labels = vec![3, 1, 0, 0, 2];
    let out = restore(&words, &labels, &id2label);
    assert_eq!(out, ["Привет,", "мир.", "Как", "дела", "Иван"]);
    let out = restore(&words[..1].to_vec(), &vec![99], &id2label);
    assert_eq!(out, ["Привет"]);
}

#[test]
fn punctuation_label_table() {
    let pairs: Vec<(String, Option<String>)> = vec![
        ("1".to_string(), Some("B".to_string())),
        ("0".to_string(), Some("A".to_string())),
        ("7".to_string(), None),
    ];
    assert_eq!(labels_from_pairs(&pairs), Some(vec!["A".to_string(), "B".to_string(), "".to_string()]));
    let bad = vec![("x".to_string(), Some("A".to_string()))];
    assert_eq!(labels_from_pairs(&bad), None);
    let not_text = vec![("0".to_string(), None)];
    assert_eq!(labels_from_pairs(&not_text), None);
}

#[test]
fn punctuation_word_takes_first_subtoken_label() {
    // [CLS] при ##вет мир [SEP] — and a token of a word past the window.
    let ids = vec![None, Some(0), Some(0), Some(1), Some(5), None];
    let labels = vec![9, 4, 7, 2, 8, 9];
    assert_eq!(word_labels(3, &ids, &labels), vec![4, 2, LOWER_O]);
    assert_eq!(word_labels(0, &ids, &labels), Vec::<usize>::new());
    assert_eq!(word_labels(2, &vec![], &vec![]), vec![LOWER_O, LOWER_O]);
}

#[test]
fn punctuation_labels_from_config_json() {
    let cfg = br#"{"architectures": ["BertForTokenClassification"], "id2label": {"0": "O", "1": "LOWER_PERIOD", "2": "UPPER_COMMA"}}"#;
    assert_eq!(
        labels_from_config(cfg),
        Some(vec!["O".to_string(), "LOWER_PERIOD".to_string(), "UPPER_COMMA".to_string()])
    );
    // A key past the end of the table is skipped.
    let sparse = br#"{"id2label": {"5": "X", "1": "B", "0": "A"}}"#;
    assert_eq!(labels_from_config(sparse), Some(vec!["A".to_string(), "B".to_string(), "".to_string()]));
    assert_eq!(labels_from_config(br#"{"id2label": {"0": 3}}"#), None);
    assert_eq!(labels_from_config(br#"{"id2label": {"zero": "O"}}"#), None);
    assert_eq!(labels_from_config(br#"{"labels": []}"#), None);
    assert_eq!(labels_from_config(b"not json"), None);
}

#[test]
fn paths_and_extensions() {
    assert_eq!(file_name("/a/b/c.mp3", Platform::Linux).as_deref(), Some("c.mp3"));
    assert_eq!(file_name("C:\\x\\y.wav", Platform::Windows).as_deref(), Some("y.wav"));
    assert_eq!(file_name("C:\\x\\y.wav", Platform::Linux).as_deref(), Some("C:\\x\\y.wav"));
    assert_eq!(file_name("/a/b/", Platform::Linux).as_deref(), Some("b"));
    assert_eq!(file_name("/a/..", Platform::Linux), None);
    assert_eq!(file_name("/", Platform::Linux), None);
    assert_eq!(extension("/a/b.MP4", Platform::Linux).as_deref(), Some("MP4"));
    assert_eq!(extension("/a/.hidden", Platform::Linux), None);
    assert_eq!(extension("/a/noext", Platform::Linux), None);
    assert_eq!(extension("/a/x.tar.gz", Platform::Linux).as_deref(), Some("gz"));
}

#[test]
fn decoder_order() {
    assert!(prefers_ffmpeg("/v/call.M4A", Platform::Linux));
    assert!(!prefers_ffmpeg("/v/call.wav", Platform::Linux));
    assert_eq!(decode_order("/v/a.mp4", Platform::Linux, true), DecodeOrder::FfmpegFirst);
    assert_eq!(decode_order("/v/a.mp4", Platform::Linux, false), DecodeOrder::SymphoniaOnly);
    assert_eq!(decode_order("/v/a.ogg", Platform::Linux, true), DecodeOrder::SymphoniaFirst);
    assert_eq!(
        decode_error("ffmpeg", "exit 1", "symphonia", "no track"),
        "failed to decode (ffmpeg: exit 1; symphonia: no track)"
    );
}

#[test]
fn ffmpeg_invocation() {
    assert_eq!(
        ffmpeg_args("/a.mp4", None),
        ["-v", "error", "-i", "/a.mp4", "-ac", "1", "-ar", "16000", "-f", "f32le", "pipe:1"]
    );
    assert_eq!(
        ffmpeg_args("/a.mp4", Some("30")),
        ["-v", "error", "-i", "/a.mp4", "-ac", "1", "-ar", "16000", "-f", "f32le", "-t", "30", "pipe:1"]
    );
    let c = ffmpeg_candidates(&vec!["/app".to_string()], Platform::MacArm);
    assert_eq!(
        c,
        [
            "/app/ffmpeg",
            "/app/bin/ffmpeg",
            "/app/resources/bin/ffmpeg",
            "/opt/homebrew/bin/ffmpeg",
            "/usr/local/bin/ffmpeg"
        ]
    );
    let c = ffmpeg_candidates(&vec!["C:\\App".to_string()], Platform::Windows);
    assert_eq!(c, ["C:\\App\\ffmpeg.exe", "C:\\App\\bin\\ffmpeg.exe", "C:\\App\\resources\\bin\\ffmpeg.exe"]);
}

#[test]
fn ffmpeg_duration_report() {
    let report = "Input #0, mov,mp4\n  Duration: 00:02:03.45, start: 0.000000, bitrate: 128 kb/s\n";
    assert_eq!(
        duration_fields(report),
        Some(("00".to_string(), "02".to_string(), "03.45".to_string()))
    );
    assert_eq!(duration_fields("no duration here"), None);
    assert_eq!(duration_fields("Duration: N/A, bitrate: N/A"), None);
}

#[test]
fn file_info_name_and_size() {
    let f = file_info("/home/u/rec.m4a", Platform::Linux, 2048, "2 KB".to_string());
    assert_eq!(f.name, "rec.m4a");
    assert_eq!(f.size_bytes, 2048);
    assert_eq!(f.size_human, "2 KB");
    assert_eq!(file_info("/", Platform::Linux, 0, "0 B".to_string()).name, "");
}

#[test]
fn preroll_keeps_the_last_samples() {
    let mut p: Preroll<f32> = Preroll::new(3);
    p.feed(&[1.0, 2.0]);
    p.feed(&[3.0, 4.0, 5.0]);
    p.arm();
    p.feed(&[6.0]);
    assert_eq!(p.disarm(), vec![3.0, 4.0, 5.0, 6.0]);
    p.feed(&[7.0]);
    p.arm();
    assert_eq!(p.disarm(), vec![5.0, 6.0, 7.0]);
    p.clear_ring();
    p.arm();
    assert!(p.disarm().is_empty());
    let mut all: Preroll<i16> = Preroll::new(0);
    all.feed(&[1, 2, 3, 4]);
    all.arm();
    assert_eq!(all.disarm(), vec![1, 2, 3, 4]);
}

#[test]
fn warm_microphone() {
    let mut m = Mic::new();
    assert!(!m.is_recording());
    assert_eq!(m.start(""), StartStep::OpenStream);
    assert!(m.opened("", Ok(()), 1_000).is_ok());
    assert!(m.is_recording());
    m.stop(2_000);
    assert!(!m.is_recording());
    assert_eq!(m.start(""), StartStep::Arm);
    m.arm(3_000);
    m.stop(4_000);
    assert_eq!(m.start("USB"), StartStep::OpenStream);
    assert_eq!(m.opened("USB", Err("busy".to_string()), 5_000), Err("busy".to_string()));
    assert!(!m.stream_open);
    assert!(m.opened("USB", Ok(()), 6_000).is_ok());
    m.stop(6_000);
    assert!(!m.tick(66_000));
    assert!(m.tick(66_001));
    assert!(!m.stream_open);
    assert_eq!(m.device, "");
}

#[test]
fn recording_starts_with_the_preroll() {
    let mut m = Mic::new();
    let mut p: Preroll<i16> = Preroll::new(3);
    p.feed(&[1, 2, 3, 4, 5]);
    assert_eq!(m.start("USB"), StartStep::OpenStream);
    assert_eq!(m.arm_recording(&mut p, "USB", Err("микрофон не найден".to_string()), 10), Err("микрофон не найден".to_string()));
    assert!(!m.is_recording());
    assert!(!m.stream_open);
    p.feed(&[6]);
    assert!(m.arm_recording(&mut p, "USB", Ok(()), 20).is_ok());
    assert!(m.is_recording());
    p.feed(&[7]);
    assert_eq!(p.disarm(), vec![4, 5, 6, 7]);
    m.stop(30);
    assert_eq!(m.start("USB"), StartStep::Arm);
    assert!(m.arm_recording(&mut p, "USB", Ok(()), 40).is_ok());
    assert_eq!(p.disarm(), vec![5, 6, 7]);
}

#[test]
fn key_names() {
    assert_eq!(key_name(49), Some("Space"));
    assert_eq!(key_name(10), None);
    assert_eq!(mod_name(60), Some(("ShiftRight", 0x4)));
    assert_eq!(mac_key(MacEvent::KeyDown, 0, 0), Some(("KeyA", true)));
    assert_eq!(mac_key(MacEvent::KeyUp, 0, 0), Some(("KeyA", false)));
    assert_eq!(mac_key(MacEvent::FlagsChanged, 60, 0x4), Some(("ShiftRight", true)));
    assert_eq!(mac_key(MacEvent::FlagsChanged, 60, 0x2), Some(("ShiftRight", false)));
    assert_eq!(mac_key(MacEvent::Other, 0, 0), None);
    assert_eq!(vk_name(0x10, 0x36, 0), Some("ShiftRight"));
    assert_eq!(vk_name(0x10, 0x2A, 0), Some("ShiftLeft"));
    assert_eq!(vk_name(0x11, 0, 1), Some("ControlRight"));
    assert_eq!(vk_name(0x12, 0, 0), Some("Alt"));
    assert_eq!(vk_name(0xFF, 0, 0), None);
    assert_eq!(win_key(0, WM_KEYDOWN, 0x20, 0, 0), Some(("Space", true)));
    assert_eq!(win_key(0, WM_SYSKEYDOWN, 0x12, 0, 1), Some(("AltGr", true)));
    assert_eq!(win_key(0, WM_KEYUP, 0x41, 0, 0), Some(("KeyA", false)));
    assert_eq!(win_key(-1, WM_KEYDOWN, 0x41, 0, 0), None);
    assert_eq!(win_key(0, 0x0200, 0x41, 0, 0), None);
}

#[test]
fn pdf_layout() {
    let blocks = vec![
        PdfBlock { heading: Some("Speaker1".to_string()), time: Some("00:05".to_string()), body: "Привет".to_string() },
        PdfBlock { heading: Some("Speaker2".to_string()), time: None, body: "Да".to_string() },
        PdfBlock { heading: None, time: Some("ignored".to_string()), body: "Абзац".to_string() },
    ];
    let items = layout("Встреча", &blocks);
    assert_eq!(items.len(), 6);
    assert!(matches!(&items[0], PdfItem::Title(t) if t == "Встреча"));
    assert!(matches!(&items[1], PdfItem::Heading(h, Some(t)) if h == "Speaker1" && t == "   00:05"));
    assert!(matches!(&items[2], PdfItem::Body(b) if b == "Привет"));
    assert!(matches!(&items[3], PdfItem::Heading(h, None) if h == "Speaker2"));
    assert!(matches!(&items[5], PdfItem::Body(b) if b == "Абзац"));
}

#[test]
fn preroll_same_in_pieces_or_at_once() {
    let data: Vec<i32> = (0..10).collect();
    let mut a: Preroll<i32> = Preroll::new(4);
    a.feed(&data[..3]);
    a.feed(&data[3..7]);
    a.feed(&data[7..]);
    a.arm();
    let mut b: Preroll<i32> = Preroll::new(4);
    b.feed(&data);
    b.arm();
    assert_eq!(a.disarm(), b.disarm());
}
