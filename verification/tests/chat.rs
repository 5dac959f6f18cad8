use speakagent::chat::{
    cloud_endpoint, cloud_reply, cloud_test, display_name_input, idle_expired, retry_after, spawn_error, stream_line,
    wait_step, LocalServer, ServerStep, StreamLine, WaitStep, NOT_INSTALLED,
};

#[test]
fn server_is_reused_only_for_the_same_model() {
    let mut s = LocalServer::new();
    assert!(!s.is_warm());
    assert!(matches!(s.ensure_step(true, "m", true), Ok(ServerStep::Spawn { kill_old: false })));
    s.started(8080, "m");
    assert!(s.is_warm());
    assert_eq!(s.running_port(), Some(8080));
    assert!(matches!(s.ensure_step(true, "m", true), Ok(ServerStep::Reuse(8080))));
    assert!(matches!(s.ensure_step(true, "m", false), Ok(ServerStep::Spawn { kill_old: true })));
    assert!(!s.is_warm());
    s.started(9000, "m");
    assert!(matches!(s.ensure_step(true, "other", true), Ok(ServerStep::Spawn { kill_old: true })));
    s.started(9001, "other");
    assert!(s.shutdown());
    assert!(!s.shutdown());
}

#[test]
fn server_needs_the_model_installed() {
    let mut s = LocalServer::new();
    match s.ensure_step(false, "m", true) {
        Err(e) => assert_eq!(e, "The summary model is not installed. Download it in Settings."),
        Ok(_) => panic!("started without the model"),
    }
    assert_eq!(NOT_INSTALLED, "The summary model is not installed. Download it in Settings.");
    s.started(8080, "m");
    assert!(s.ensure_step(false, "m", true).is_err());
    assert_eq!(s.running_port(), Some(8080));
}

#[test]
fn waiting_for_the_server() {
    assert!(matches!(wait_step(true, None, 999_999, false), WaitStep::Ready));
    assert!(matches!(wait_step(false, None, 1000, false), WaitStep::Wait));
    match wait_step(false, None, 120_001, false) {
        WaitStep::TimedOut(e) => assert_eq!(e, "the summary helper did not respond within 2 minutes"),
        _ => panic!("expected a timeout"),
    }
    match wait_step(false, Some((Some(1), "exit status: 1")), 10, false) {
        WaitStep::Exited(e) => {
            assert_eq!(e, "the summary helper failed to start (exit status: 1). Details: llama-server.log in the data folder")
        },
        _ => panic!("expected an exit"),
    }
    assert!(spawn_error(true, Some(-1073741515), "x").contains("vc_redist.x64.exe"));
    assert!(!spawn_error(false, Some(-1073741515), "x").contains("vc_redist"));
}

#[test]
fn idling_and_retries() {
    assert!(idle_expired(1000, 700));
    assert!(!idle_expired(999, 700));
    assert!(!idle_expired(5, 10));
    assert_eq!(retry_after(0, "cancelled").as_deref(), Some("cancelled"));
    assert_eq!(retry_after(0, "boom"), None);
    assert_eq!(retry_after(1, "boom"), None);
    assert_eq!(retry_after(2, "boom").as_deref(), Some("boom"));
}

#[test]
fn cloud_probe_needs_a_token() {
    assert_eq!(cloud_test("u", "m", "  ").err().as_deref(), Some("provide a token"));
    let p = cloud_test("u", "m", "k").ok().unwrap();
    assert_eq!((p.url.as_str(), p.model.as_str(), p.key.as_str(), p.max_tokens), ("u", "m", "k", 8));
    assert_eq!(p.user, "Ответь одним словом: ок");
    assert_eq!(cloud_endpoint("https://x/v1//"), "https://x/v1/chat/completions");
    assert_eq!(cloud_endpoint("https://x/v1"), "https://x/v1/chat/completions");
}

#[test]
fn cloud_replies_are_read_and_cleaned() {
    let raw = "{\"choices\":[{\"message\":{\"content\":\"  <think>a</think> Итог \"}}]}";
    assert_eq!(cloud_reply(raw).unwrap(), "Итог");
    assert!(cloud_reply("not json").is_err());
    assert_eq!(cloud_reply("{\"choices\":[]}").err().as_deref(), Some("the cloud returned an empty response"));
}

#[test]
fn stream_lines_are_read() {
    match stream_line("data: {\"choices\":[{\"delta\":{\"content\":\"При\"}}]}") {
        StreamLine::Token(t) => assert_eq!(t, "При"),
        _ => panic!("expected a token"),
    }
    assert!(matches!(stream_line("data: [DONE]"), StreamLine::Done));
    assert!(matches!(stream_line(": keep-alive"), StreamLine::Skip));
    assert!(matches!(stream_line("data: {}"), StreamLine::Skip));
}

#[test]
fn title_input_is_cut() {
    let long: String = std::iter::repeat('я').take(2500).collect();
    assert_eq!(display_name_input(&long).chars().count(), 2000);
    assert_eq!(display_name_input("коротко"), "коротко");
}
