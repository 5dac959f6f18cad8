use speakagent::chat::LocalServer;
use speakagent::control::{
    accept_display_name, app_info, cloud_settings, device_base, device_id, device_seed, dictated_text,
    dictation_config, dictation_entry, generation_input, dictation_id, dictation_step, display_name_allowed, fnv1a, get_bool, hex16, is_toggle,
    llm_backend, llm_export_prompt, mcp_config, mcp_port_setting, mcp_start, mcp_started, mcp_status, mcp_token,
    mcp_url, on_trigger_down, on_trigger_up, open_url_allowed, parse_trigger, parse_u16, parse_usize,
    permission_anchor, privacy_settings_url, save_result_text, set_cloud_config, set_dictation_config,
    set_llm_backend, set_mcp_config, speaker_count, tray_status_text, Chord, ChordEvent, DictAction,
    DictationConfig, McpConfig, MCP_DEFAULT_PORT,
};
use speakagent::mcp::{McpServer, McpStart};
use speakagent::store::Store;

#[test]
fn fnv1a_known_values() {
    assert_eq!(fnv1a(""), 0xcbf29ce484222325);
    assert_eq!(fnv1a("a"), 0xaf63dc4c8601ec8c);
    assert_eq!(hex16(0xaf63dc4c8601ec8c), "AF63DC4C8601EC8C");
    assert_eq!(hex16(0x2a), "000000000000002A");
}

#[test]
fn device_fingerprint_is_grouped_hex() {
    let seed = device_seed("  abc \n");
    assert_eq!(seed, "speakagent:abc");
    assert_eq!(device_id(&seed), "B938-710C-CADF-3438");
    assert_eq!(device_id("speakagent:abc"), device_id("speakagent:abc"));
}

#[test]
fn device_base_prefers_machine_id() {
    assert_eq!(device_base(Some("m-1"), Some("f")).as_deref(), Some("m-1"));
    assert_eq!(device_base(Some("  "), Some("f")).as_deref(), Some("f"));
    assert_eq!(device_base(None, Some("f")).as_deref(), Some("f"));
    assert_eq!(device_base(None, None), None);
}

#[test]
fn app_info_names_the_app() {
    let a = app_info("0.9.1");
    assert_eq!(a.name, "SpeakAgent");
    assert_eq!(a.version, "0.9.1");
}

#[test]
fn bool_settings_default_and_zero() {
    let mut st = Store::new();
    assert!(get_bool(&st, "dict_sound", true));
    assert!(!get_bool(&st, "dict_sound", false));
    st.set_setting("dict_sound", "0").unwrap();
    assert!(!get_bool(&st, "dict_sound", true));
    st.set_setting("dict_sound", "yes").unwrap();
    assert!(get_bool(&st, "dict_sound", false));
}

#[test]
fn dictation_config_defaults_and_round_trip() {
    let mut st = Store::new();
    let c = dictation_config(&st);
    assert_eq!(c.hotkey, "ShiftRight");
    assert_eq!(c.mode, "hold");
    assert!(c.autopaste && c.sound);
    assert_eq!(c.input_device, "");
    assert_eq!(c.model, "");
    let new = DictationConfig {
        hotkey: "ControlLeft+Space".into(),
        mode: "toggle".into(),
        autopaste: false,
        sound: true,
        input_device: "USB".into(),
        model: "whisper-small".into(),
        lang: "en".into(),
    };
    assert!(set_dictation_config(&mut st, &new).is_ok());
    let c = dictation_config(&st);
    assert_eq!(c.hotkey, "ControlLeft+Space");
    assert_eq!(c.mode, "toggle");
    assert!(!c.autopaste);
    assert_eq!(c.model, "whisper-small");
    assert_eq!(c.lang, "en");
    assert!(is_toggle(&st));
    let bad = DictationConfig { model: "llm-qwen3-4b".into(), lang: "ru".into(), ..new };
    assert_eq!(set_dictation_config(&mut st, &bad), Err("not a language model".to_string()));
    assert_eq!(dictation_config(&st).lang, "en");
}

#[test]
fn llm_backend_choice() {
    let mut st = Store::new();
    let mut server = LocalServer::new();
    assert_eq!(llm_backend(&st), "local");
    assert_eq!(set_llm_backend(&mut st, &mut server, "gpu"), Err("неизвестный режим".to_string()));
    assert_eq!(set_llm_backend(&mut st, &mut server, "cloud"), Ok(false));
    assert_eq!(llm_backend(&st), "cloud");
    assert_eq!(set_llm_backend(&mut st, &mut server, "local"), Ok(false));
    assert_eq!(llm_backend(&st), "local");
}

#[test]
fn cloud_config_defaults_and_trimmed() {
    let mut st = Store::new();
    let c = cloud_settings(&st);
    assert_eq!(c.url, "https://openrouter.ai/api/v1");
    assert_eq!(c.model, "openai/gpt-4o-mini");
    assert_eq!(c.key, "");
    set_cloud_config(&mut st, " https://x/v1 ", "m ", " k").unwrap();
    let c = cloud_settings(&st);
    assert_eq!(c.url, "https://x/v1");
    assert_eq!(c.model, "m");
    assert_eq!(c.key, "k");
}

#[test]
fn trigger_parsing() {
    assert_eq!(parse_trigger("ControlLeft + Space"), ["ControlLeft", "Space"]);
    assert_eq!(parse_trigger("ShiftRight"), ["ShiftRight"]);
    assert_eq!(parse_trigger("++A+ +"), ["A"]);
    assert!(parse_trigger("").is_empty());
}

#[test]
fn chord_reports_press_and_release_once() {
    let trigger = parse_trigger("ControlLeft+Space");
    let mut c = Chord::new();
    assert_eq!(c.key("ControlLeft", true, &trigger), ChordEvent::Nothing);
    assert_eq!(c.key("Space", true, &trigger), ChordEvent::Pressed);
    assert_eq!(c.key("Space", true, &trigger), ChordEvent::Nothing);
    assert_eq!(c.key("KeyA", true, &trigger), ChordEvent::Nothing);
    assert_eq!(c.key("Space", false, &trigger), ChordEvent::Released);
    assert_eq!(c.key("ControlLeft", false, &trigger), ChordEvent::Nothing);
    let none: Vec<String> = Vec::new();
    assert_eq!(c.key("Space", true, &none), ChordEvent::Nothing);
}

#[test]
fn dictation_actions() {
    assert_eq!(on_trigger_down(true, true), DictAction::Finish);
    assert_eq!(on_trigger_down(true, false), DictAction::Begin);
    assert_eq!(on_trigger_down(false, true), DictAction::Begin);
    assert_eq!(on_trigger_up(true), DictAction::Nothing);
    assert_eq!(on_trigger_up(false), DictAction::Finish);
    assert_eq!(dictation_step(DictAction::Begin, true), DictAction::Nothing);
    assert_eq!(dictation_step(DictAction::Begin, false), DictAction::Begin);
    assert_eq!(dictation_step(DictAction::Finish, false), DictAction::Nothing);
    assert_eq!(dictation_step(DictAction::Finish, true), DictAction::Finish);
}

#[test]
fn dictation_texts() {
    assert_eq!(dictated_text("  привет  ").as_deref(), Some("привет"));
    assert_eq!(dictated_text(" \n "), None);
    assert_eq!(dictation_id(1700000000123), "dict-1700000000123");
    assert_eq!(speaker_count(Some(3)), 3);
    assert_eq!(speaker_count(Some(-2)), 0);
    assert_eq!(speaker_count(None), 0);
}

#[test]
fn export_prompt_errors_and_layout() {
    assert_eq!(llm_export_prompt("poem", None, None), Err("неизвестный тип итога".to_string()));
    assert_eq!(llm_export_prompt("todo", None, None), Err("запись не найдена".to_string()));
    let p = llm_export_prompt("todo", Some("en"), Some(("hello", "{}"))).unwrap();
    assert!(p.starts_with("You are an assistant that extracts"));
    assert!(p.ends_with("\n\n---\n\nРасшифровка:\n\nhello"));
}

#[test]
fn display_name_checks() {
    assert_eq!(display_name_allowed(false), Err("помощник не запущен".to_string()));
    assert!(display_name_allowed(true).is_ok());
    assert_eq!(accept_display_name("Планёрка".to_string()), Ok("Планёрка".to_string()));
    assert_eq!(accept_display_name("   ".to_string()), Err("название не получилось".to_string()));
    assert!(accept_display_name("x".repeat(81)).is_err());
    assert!(accept_display_name("x".repeat(80)).is_ok());
}

#[test]
fn saved_result_text_is_read_back() {
    let mut st = Store::new();
    save_result_text(&mut st, "j1", "todo", "- [x] a", "qwen", 5).unwrap();
    let r = st.results_for("j1").unwrap();
    assert_eq!(r.len(), 1);
    assert_eq!(r[0].text, "- [x] a");
    assert_eq!(r[0].model, "qwen");
    assert_eq!(r[0].created_at, 5);
}

#[test]
fn only_http_links_open() {
    assert!(open_url_allowed("https://example.org").is_ok());
    assert!(open_url_allowed("http://example.org").is_ok());
    assert_eq!(open_url_allowed("file:///etc/passwd"), Err("недопустимый адрес".to_string()));
}

#[test]
fn number_parsing() {
    assert_eq!(parse_u16("8722"), Some(8722));
    assert_eq!(parse_u16("+80"), Some(80));
    assert_eq!(parse_u16("65535"), Some(65535));
    assert_eq!(parse_u16("65536"), None);
    assert_eq!(parse_u16(""), None);
    assert_eq!(parse_u16("+"), None);
    assert_eq!(parse_u16("-1"), None);
    assert_eq!(parse_u16("1a"), None);
    assert_eq!(parse_usize("007"), Some(7));
    assert_eq!(parse_usize("99999999999999999999999"), None);
    assert_eq!(parse_usize(" 1"), None);
}

#[test]
fn mcp_settings_and_status() {
    let mut st = Store::new();
    let mut server = McpServer::new();
    assert_eq!(mcp_port_setting(&st), MCP_DEFAULT_PORT);
    st.set_setting("mcp_port", "bogus").unwrap();
    assert_eq!(mcp_port_setting(&st), 8722);
    assert_eq!(mcp_token(&st), None);
    assert_eq!(mcp_url(8722), "http://127.0.0.1:8722/mcp");
    let s = mcp_status(&server, &st);
    assert!(!s.running);
    assert_eq!(s.port, 8722);
    assert_eq!(s.url, "http://127.0.0.1:8722/mcp");
    assert!(!s.has_token);
    assert_eq!(s.tools.len(), 8);

    let c = McpConfig { enabled: true, port: 9000, token: "tok".into(), autostart: true };
    let plan = set_mcp_config(&mut st, &mut server, &c);
    assert!(!plan.stopped);
    assert_eq!(plan.bind, Some((9000, Some("tok".to_string()))));
    assert_eq!(mcp_port_setting(&st), 9000);
    assert_eq!(mcp_token(&st).as_deref(), Some("tok"));
    let cfg = mcp_config(&server, &st);
    assert!(!cfg.enabled);
    assert!(cfg.autostart);
    assert_eq!(cfg.token, "tok");

    match mcp_start(&st, &server) {
        McpStart::Bind { port, token } => {
            assert_eq!(port, 9000);
            assert_eq!(token.as_deref(), Some("tok"));
        },
        McpStart::Running(_) => panic!("server is not running"),
    }
    mcp_started(&mut st, &mut server, 9001);
    assert!(server.is_running());
    assert_eq!(mcp_port_setting(&st), 9001);
    let s = mcp_status(&server, &st);
    assert!(s.running);
    assert_eq!(s.port, 9001);
    assert!(matches!(mcp_start(&st, &server), McpStart::Running(9001)));

    let off = McpConfig { enabled: false, port: 9001, token: "".into(), autostart: false };
    let plan = set_mcp_config(&mut st, &mut server, &off);
    assert!(plan.stopped);
    assert_eq!(plan.bind, None);
    assert!(!server.is_running());
    assert_eq!(mcp_token(&st), None);
}

#[test]
fn tray_and_permissions() {
    assert_eq!(tray_status_text(true, Some(1)), "● Идёт запись диктовки");
    assert_eq!(tray_status_text(false, Some(8722)), "MCP-сервер: вкл :8722");
    assert_eq!(tray_status_text(false, None), "Готов");
    assert_eq!(permission_anchor("accessibility"), Ok("Privacy_Accessibility"));
    assert_eq!(permission_anchor("input-monitoring"), Ok("Privacy_ListenEvent"));
    assert_eq!(permission_anchor("camera"), Err("неизвестное разрешение".to_string()));
    assert_eq!(
        privacy_settings_url("Privacy_Accessibility"),
        "x-apple.systempreferences:com.apple.preference.security?Privacy_Accessibility"
    );
}

#[test]
fn dictation_entry_from_settings() {
    let mut st = Store::new();
    assert!(dictation_entry(&st, "  \n ", 5, 16_000).is_none());
    let d = dictation_entry(&st, " Привет. ", 1_700_000_000_000, 24_000).unwrap();
    assert_eq!(d.id, "dict-1700000000000");
    assert_eq!(d.text, "Привет.");
    assert_eq!(d.created_at, 1_700_000_000_000);
    assert_eq!(d.duration_ms, Some(1500));
    assert_eq!(d.model, "gigaam");
    assert_eq!(d.lang, "");
    st.set_setting("dict_asr", "parakeet").unwrap();
    st.set_setting("dict_lang", "en").unwrap();
    let d = dictation_entry(&st, "hi", 1, 0).unwrap();
    assert_eq!(d.model, "parakeet");
    assert_eq!(d.lang, "en");
    assert_eq!(d.duration_ms, Some(0));
}

#[test]
fn generation_input_checks_in_order() {
    assert_eq!(generation_input("poem", None).unwrap_err(), "неизвестный тип итога");
    assert_eq!(generation_input("todo", None).unwrap_err(), "запись не найдена в истории");
    assert_eq!(generation_input("todo", Some((" \n", "{}"))).unwrap_err(), "в записи нет текста");
    let (k, t) = generation_input("business", Some(("Speaker1 [0:00:01]: привет", "{\"1\": \"Иван\"}"))).unwrap();
    assert_eq!(k, speakagent::llm::ResultKind::Business);
    assert_eq!(t, "Иван [0:00:01]: привет");
}
