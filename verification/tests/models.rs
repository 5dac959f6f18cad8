use speakagent::asr::Engine;
use speakagent::models::{
    active_asr_files, active_id, active_llm_id, asr_files, base_name, catalog, diarization, dict_asr_files,
    dict_asr_id, ffmpeg, is_ffmpeg_entry, is_installed, join, keep_llama_file, known_paths, list, list_asr,
    list_llm, llama_needs_gpu_upgrade, llama_server, llm_files, missing_core, missing_llm, needs_ru_punct,
    normalize_entry, part_file_name, punct, resolve, set_active, set_active_llm, set_dict_asr, strong_machine,
    tool_exe, trim_suffixes, vad, Disk, Format, Platform, GIGAAM_MODEL, GIGAAM_TOKENS, VULKAN_BACKEND,
};
use speakagent::store::Store;

fn disk(platform: Platform, data: &[&str]) -> Disk {
    Disk {
        platform,
        models_dir: "/data/models".to_string(),
        bundled_dir: None,
        dev_dir: None,
        in_data: data.iter().map(|s| s.to_string()).collect(),
        in_bundled: Vec::new(),
        in_dev: Vec::new(),
    }
}

#[test]
fn catalog_order_and_entries() {
    let c = catalog();
    let ids: Vec<&str> = c.iter().map(|s| s.id).collect();
    assert_eq!(
        ids,
        [
            "gigaam",
            "diar-seg",
            "diar-emb",
            "vad",
            "punct-ru",
            "ffmpeg",
            "llama",
            "parakeet",
            "whisper-small",
            "whisper-turbo",
            "llm-qwen3-4b",
            "llm-qwen3-17b"
        ]
    );
    assert_eq!(c[4].files.len(), 3);
    assert_eq!(c[4].format, Format::FileSet);
    assert_eq!(c[0].size_mb, 160);
    assert!(c[0].required);
    assert!(!c[7].required);
}

#[test]
fn check_path_url_and_format_per_platform() {
    let c = catalog();
    let ff = &c[5];
    assert_eq!(ff.check_path(Platform::Windows), "bin/ffmpeg.exe");
    assert_eq!(ff.check_path(Platform::MacArm), "bin/ffmpeg");
    assert_eq!(
        ff.url_os(Platform::MacArm),
        "https://ffmpeg.martin-riedl.de/redirect/latest/macos/arm64/release/ffmpeg.zip"
    );
    assert_eq!(
        ff.url_os(Platform::MacIntel),
        "https://ffmpeg.martin-riedl.de/redirect/latest/macos/amd64/release/ffmpeg.zip"
    );
    assert_eq!(ff.url_os(Platform::Windows), "https://www.gyan.dev/ffmpeg/builds/ffmpeg-release-essentials.zip");
    let llama = &c[6];
    assert_eq!(
        llama.url_os(Platform::MacArm),
        "https://github.com/ggml-org/llama.cpp/releases/download/b9957/llama-b9957-bin-macos-arm64.tar.gz"
    );
    assert_eq!(llama.format_os(Platform::MacArm), Format::TarGzDir);
    assert_eq!(llama.format_os(Platform::Windows), Format::ZipDir);
    assert_eq!(llama.check_path(Platform::Linux), "bin/llama/llama-server");
}

#[test]
fn tool_names_and_suffixes() {
    assert_eq!(tool_exe("ffmpeg", Platform::Windows), "ffmpeg.exe");
    assert_eq!(tool_exe("ffmpeg", Platform::Linux), "ffmpeg");
    assert_eq!(trim_suffixes("a.exe.exe", ".exe"), "a");
    assert_eq!(trim_suffixes("a.exe", ""), "a.exe");
    assert_eq!(trim_suffixes("abc", ".exe"), "abc");
}

#[test]
fn join_inserts_one_separator() {
    assert_eq!(join("C:\\m", "a/b", Platform::Windows), "C:\\m\\a/b");
    assert_eq!(join("C:\\m\\", "x", Platform::Windows), "C:\\m\\x");
    assert_eq!(join("/m", "x", Platform::Linux), "/m/x");
    assert_eq!(join("/m/", "x", Platform::Linux), "/m/x");
    assert_eq!(join("", "x", Platform::Linux), "x");
}

#[test]
fn resolve_prefers_data_then_bundled_then_dev() {
    let mut d = disk(Platform::Linux, &["a"]);
    d.bundled_dir = Some("/opt/b".to_string());
    d.in_bundled = vec!["a".to_string(), "b".to_string()];
    d.dev_dir = Some("/dev".to_string());
    d.in_dev = vec!["b".to_string(), "c".to_string()];
    assert_eq!(resolve(&d, "a").as_deref(), Some("/data/models/a"));
    assert_eq!(resolve(&d, "b").as_deref(), Some("/opt/b/b"));
    assert_eq!(resolve(&d, "c").as_deref(), Some("/dev/c"));
    assert_eq!(resolve(&d, "z"), None);
}

#[test]
fn missing_core_on_empty_disk() {
    let d = disk(Platform::Windows, &[]);
    assert_eq!(missing_core(&d), ["diar-seg", "diar-emb", "vad", "ffmpeg"]);
}

#[test]
fn bundled_model_is_installed_and_not_missing() {
    let mut d = disk(Platform::Windows, &["silero_vad.onnx", "bin/ffmpeg.exe"]);
    d.bundled_dir = Some("C:\\app\\models".to_string());
    d.in_bundled = vec![
        "sherpa-onnx-pyannote-segmentation-3-0/model.onnx".to_string(),
        "3dspeaker_speech_campplus_sv_zh_en_16k-common_advanced.onnx".to_string(),
    ];
    assert!(missing_core(&d).is_empty());
    let c = catalog();
    assert!(is_installed(&c[1], &d));
    assert!(!is_installed(&c[0], &d));
}

#[test]
fn list_marks_installed() {
    let d = disk(Platform::Linux, &[GIGAAM_MODEL, "bin/ffmpeg"]);
    let all = list(&d);
    assert_eq!(all.len(), 12);
    assert!(all[0].installed);
    assert_eq!(all[0].name, "Русский (GigaAM)");
    assert!(all[5].installed);
    assert!(!all[3].installed);
    let asr: Vec<String> = list_asr(&d).into_iter().map(|m| m.id).collect();
    assert_eq!(asr, ["gigaam", "parakeet", "whisper-small", "whisper-turbo"]);
    let llm: Vec<String> = list_llm(&d).into_iter().map(|m| m.id).collect();
    assert_eq!(llm, ["llm-qwen3-4b", "llm-qwen3-17b"]);
}

#[test]
fn active_model_defaults_and_choice() {
    let mut st = Store::new();
    assert_eq!(active_id(&st), "gigaam");
    assert!(set_active(&mut st, "parakeet").is_ok());
    assert_eq!(active_id(&st), "parakeet");
    assert_eq!(set_active(&mut st, "llm-qwen3-4b"), Err("not a language model".to_string()));
    assert_eq!(set_active(&mut st, "nope"), Err("not a language model".to_string()));
    assert_eq!(active_id(&st), "parakeet");
    assert_eq!(dict_asr_id(&st), "parakeet");
    assert!(set_dict_asr(&mut st, "whisper-small").is_ok());
    assert_eq!(dict_asr_id(&st), "whisper-small");
    assert!(set_dict_asr(&mut st, "").is_ok());
    assert_eq!(dict_asr_id(&st), "parakeet");
    assert!(set_dict_asr(&mut st, "vad").is_err());
}

#[test]
fn asr_files_resolve_all_parts() {
    let d = disk(Platform::Linux, &[GIGAAM_MODEL, GIGAAM_TOKENS]);
    let f = asr_files("gigaam", &d).unwrap();
    assert_eq!(f.engine, Engine::NemoCtc);
    assert_eq!(f.model, format!("/data/models/{GIGAAM_MODEL}"));
    assert_eq!(f.tokens, format!("/data/models/{GIGAAM_TOKENS}"));
    assert_eq!(f.decoder, "");
    assert_eq!(f.language, "");
    assert!(asr_files("parakeet", &d).is_none());
    assert!(asr_files("unknown", &d).is_none());
    let w = disk(
        Platform::Linux,
        &[
            "sherpa-onnx-whisper-small/small-encoder.int8.onnx",
            "sherpa-onnx-whisper-small/small-decoder.int8.onnx",
            "sherpa-onnx-whisper-small/small-tokens.txt",
        ],
    );
    let f = asr_files("whisper-small", &w).unwrap();
    assert_eq!(f.engine, Engine::Whisper);
    assert_eq!(f.language, "ru");
}

#[test]
fn active_files_fall_back_to_gigaam() {
    let d = disk(Platform::Linux, &[GIGAAM_MODEL, GIGAAM_TOKENS]);
    let mut st = Store::new();
    set_active(&mut st, "parakeet").unwrap();
    set_dict_asr(&mut st, "whisper-turbo").unwrap();
    assert_eq!(active_asr_files(&st, &d).unwrap().engine, Engine::NemoCtc);
    assert_eq!(dict_asr_files(&st, &d).unwrap().engine, Engine::NemoCtc);
    let empty = disk(Platform::Linux, &[]);
    assert!(active_asr_files(&st, &empty).is_none());
}

#[test]
fn diarization_prefers_new_embedding() {
    let seg = "sherpa-onnx-pyannote-segmentation-3-0/model.onnx";
    let new = "3dspeaker_speech_campplus_sv_zh_en_16k-common_advanced.onnx";
    let old = "3dspeaker_speech_campplus_sv_zh-cn_16k-common.onnx";
    let d = disk(Platform::Linux, &[seg, old]);
    assert_eq!(diarization(&d), Some((format!("/data/models/{seg}"), format!("/data/models/{old}"))));
    let d = disk(Platform::Linux, &[seg, old, new]);
    assert_eq!(diarization(&d), Some((format!("/data/models/{seg}"), format!("/data/models/{new}"))));
    let d = disk(Platform::Linux, &[old]);
    assert_eq!(diarization(&d), None);
}

#[test]
fn tools_resolve_in_data_only() {
    let d = disk(Platform::Windows, &["bin/ffmpeg.exe", "bin/llama/llama-server.exe", "silero_vad.onnx"]);
    let mut dw = d;
    dw.models_dir = "C:\\m".to_string();
    assert_eq!(ffmpeg(&dw).as_deref(), Some("C:\\m\\bin\\ffmpeg.exe"));
    assert_eq!(llama_server(&dw).as_deref(), Some("C:\\m\\bin\\llama\\llama-server.exe"));
    assert_eq!(vad(&dw).as_deref(), Some("C:\\m\\silero_vad.onnx"));
    assert_eq!(punct(&dw), None);
    let mut b = disk(Platform::Linux, &[]);
    b.bundled_dir = Some("/b".to_string());
    b.in_bundled = vec!["bin/ffmpeg".to_string()];
    assert_eq!(ffmpeg(&b), None);
}

#[test]
fn strong_machine_rules() {
    assert!(strong_machine(true, 0, None));
    assert!(strong_machine(false, 16_000_000_000, Some(8)));
    assert!(!strong_machine(false, 16_000_000_000, Some(4)));
    assert!(!strong_machine(false, 16_000_000_000, None));
    assert!(!strong_machine(false, 8_000_000_000, Some(8)));
    assert!(strong_machine(false, 12_000_000_000, Some(5)));
}

#[test]
fn llm_choice_and_missing_parts() {
    let mut st = Store::new();
    assert_eq!(active_llm_id(&st, true), "llm-qwen3-4b");
    assert_eq!(active_llm_id(&st, false), "llm-qwen3-17b");
    let d = disk(Platform::Windows, &[]);
    assert_eq!(missing_llm(&st, &d, false, true), ["llama", "llm-qwen3-4b"]);
    assert_eq!(set_active_llm(&mut st, "gigaam"), Err("not a summary model".to_string()));
    set_active_llm(&mut st, "llm-qwen3-17b").unwrap();
    assert_eq!(active_llm_id(&st, true), "llm-qwen3-17b");
    let d = disk(Platform::Windows, &["bin/llama/llama-server.exe", "llm/Qwen3-1.7B-Q4_K_M.gguf"]);
    assert!(missing_llm(&st, &d, false, true).is_empty());
    assert_eq!(missing_llm(&st, &d, true, true), ["llama"]);
    assert!(llama_needs_gpu_upgrade(&d, true));
    assert!(!llama_needs_gpu_upgrade(&d, false));
    let f = llm_files(&st, &d, true).unwrap();
    assert_eq!(f.1, "/data/models\\llm/Qwen3-1.7B-Q4_K_M.gguf");
    let d2 = disk(Platform::Windows, &["bin/llama/llama-server.exe", VULKAN_BACKEND]);
    assert!(!llama_needs_gpu_upgrade(&d2, true));
    assert!(llm_files(&st, &d2, true).is_none());
}

#[test]
fn archive_entries() {
    assert_eq!(part_file_name("gigaam"), ".gigaam.part");
    assert_eq!(normalize_entry("a\\b\\c"), "a/b/c");
    assert_eq!(base_name("a/b/c.txt"), "c.txt");
    assert_eq!(base_name("a/b/"), "");
    assert_eq!(base_name("plain"), "plain");
    assert!(is_ffmpeg_entry("ffmpeg-7.1-essentials_build\\bin\\ffmpeg.exe", Platform::Windows));
    assert!(!is_ffmpeg_entry("ffmpeg-7.1-essentials_build/bin/ffprobe.exe", Platform::Windows));
    assert!(is_ffmpeg_entry("ffmpeg", Platform::MacArm));
    assert!(!is_ffmpeg_entry("ffmpeg.exe", Platform::MacArm));
    assert!(keep_llama_file("llama-server.exe", Platform::Windows));
    assert!(keep_llama_file("ggml-vulkan.dll", Platform::Windows));
    assert!(keep_llama_file("libllama.dylib", Platform::MacArm));
    assert!(keep_llama_file("LICENSE", Platform::MacArm));
    assert!(!keep_llama_file("llama-cli.exe", Platform::Windows));
    assert!(!keep_llama_file("llama-server.exe", Platform::MacArm));
}

#[test]
fn known_paths_cover_every_file() {
    let w = known_paths(Platform::Windows);
    assert_eq!(w.len(), 25);
    assert_eq!(w[0], GIGAAM_MODEL);
    assert_eq!(w[5], "bin/ffmpeg.exe");
    assert_eq!(w[22], "bin/ffmpeg.exe");
    assert_eq!(w[23], "bin/llama/llama-server.exe");
    assert_eq!(w[24], VULKAN_BACKEND);
    let m = known_paths(Platform::MacArm);
    assert_eq!(m[5], "bin/ffmpeg");
    assert_eq!(m[23], "bin/llama/llama-server");
}

#[test]
fn ru_punct_only_for_legacy_model() {
    assert!(needs_ru_punct("gigaam-v2"));
    assert!(!needs_ru_punct("gigaam"));
}
