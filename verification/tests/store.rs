use speakagent::store::{JobResult, Store, StoredDictation, StoredJob};

fn job(id: &str, created_at: i64) -> StoredJob {
    StoredJob {
        id: id.to_string(),
        name: "тест".into(),
        path: "p".into(),
        diarize: true,
        status: "done".into(),
        text: "привет".into(),
        error: "".into(),
        created_at,
        speakers: "{}".into(),
        duration_ms: Some(42_000),
    }
}

fn result(job_id: &str, kind: &str, text: &str, created_at: i64) -> JobResult {
    JobResult {
        job_id: job_id.into(),
        kind: kind.into(),
        text: text.into(),
        model: "m".into(),
        created_at,
    }
}

#[test]
fn save_list_delete_roundtrip() {
    let mut store = Store::new();
    let id = "test_selfcheck_9271".to_string();
    let j = job(&id, 123);
    store.save(&j).unwrap();
    let found = store.list().unwrap().into_iter().find(|x| x.id == id).unwrap();
    assert_eq!(found.text, "привет");
    assert!(found.diarize);
    store.delete(&id).unwrap();
    assert!(store.list().unwrap().into_iter().all(|x| x.id != id));
}

#[test]
fn settings_read_back_and_replace() {
    let mut store = Store::new();
    assert_eq!(store.get_setting("ui_lang"), None);
    store.set_setting("ui_lang", "en").unwrap();
    assert_eq!(store.get_setting("ui_lang").as_deref(), Some("en"));
    store.set_setting("ui_lang", "ru").unwrap();
    assert_eq!(store.get_setting("ui_lang").as_deref(), Some("ru"));
}

#[test]
fn list_is_newest_first_and_save_replaces() {
    let mut store = Store::new();
    store.save(&job("a", 10)).unwrap();
    store.save(&job("b", 30)).unwrap();
    store.save(&job("c", 20)).unwrap();
    let ids: Vec<String> = store.list().unwrap().into_iter().map(|j| j.id).collect();
    assert_eq!(ids, ["b", "c", "a"]);
    let mut changed = job("a", 40);
    changed.text = "новый".into();
    store.save(&changed).unwrap();
    let all = store.list().unwrap();
    assert_eq!(all.len(), 3);
    assert_eq!(all[0].id, "a");
    assert_eq!(store.get("a").unwrap().text, "новый");
    assert!(store.get("zzz").is_none());
}

#[test]
fn results_hide_the_digest_and_come_oldest_first() {
    let mut store = Store::new();
    store.save(&job("j", 1)).unwrap();
    store.save_result(&result("j", "todo", "t", 50)).unwrap();
    store.save_result(&result("j", "summary", "s", 20)).unwrap();
    store.save_result(&result("j", "digest", "d", 10)).unwrap();
    store.save_result(&result("other", "summary", "x", 5)).unwrap();
    let kinds: Vec<String> = store.results_for("j").unwrap().into_iter().map(|r| r.kind).collect();
    assert_eq!(kinds, ["summary", "todo"]);
    assert_eq!(store.digest_for("j").as_deref(), Some("d"));
    assert_eq!(store.digest_for("other"), None);
    store.save_result(&result("j", "summary", "s2", 60)).unwrap();
    let rs = store.results_for("j").unwrap();
    assert_eq!(rs.len(), 2);
    assert_eq!(rs[1].text, "s2");
}

#[test]
fn delete_cascades_to_results_only_of_that_job() {
    let mut store = Store::new();
    store.save(&job("j", 1)).unwrap();
    store.save(&job("k", 2)).unwrap();
    store.save_result(&result("j", "summary", "s", 1)).unwrap();
    store.save_result(&result("j", "digest", "d", 1)).unwrap();
    store.save_result(&result("k", "todo", "t", 1)).unwrap();
    store.set_setting("ui_lang", "en").unwrap();
    store.delete("j").unwrap();
    assert!(store.get("j").is_none());
    assert!(store.results_for("j").unwrap().is_empty());
    assert_eq!(store.digest_for("j"), None);
    assert_eq!(store.results_for("k").unwrap().len(), 1);
    assert!(store.get("k").is_some());
    assert_eq!(store.get_setting("ui_lang").as_deref(), Some("en"));
}

#[test]
fn clear_keeps_settings() {
    let mut store = Store::new();
    store.save(&job("j", 1)).unwrap();
    store.save_result(&result("j", "summary", "s", 1)).unwrap();
    store.set_setting("active_asr", "parakeet").unwrap();
    store.clear().unwrap();
    assert!(store.list().unwrap().is_empty());
    assert!(store.results_for("j").unwrap().is_empty());
    assert_eq!(store.get_setting("active_asr").as_deref(), Some("parakeet"));
}

fn dictation(id: &str, created_at: i64) -> StoredDictation {
    StoredDictation {
        id: id.into(),
        text: "текст".into(),
        created_at,
        duration_ms: Some(1500),
        model: "gigaam".into(),
        lang: "".into(),
    }
}

#[test]
fn dictations_newest_first_and_separate_from_jobs() {
    let mut store = Store::new();
    store.save(&job("j", 1)).unwrap();
    store.save_dictation(&dictation("dict-1", 1)).unwrap();
    store.save_dictation(&dictation("dict-3", 3)).unwrap();
    store.save_dictation(&dictation("dict-2", 2)).unwrap();
    let ids: Vec<String> = store.list_dictations().unwrap().into_iter().map(|d| d.id).collect();
    assert_eq!(ids, ["dict-3", "dict-2", "dict-1"]);
    let mut again = dictation("dict-2", 2);
    again.text = "новый".into();
    store.save_dictation(&again).unwrap();
    let all = store.list_dictations().unwrap();
    assert_eq!(all.len(), 3);
    assert_eq!(all[1].text, "новый");
    store.delete_dictation("dict-3").unwrap();
    assert_eq!(store.list_dictations().unwrap().len(), 2);
    store.clear().unwrap();
    assert_eq!(store.list_dictations().unwrap().len(), 2);
    store.clear_dictations().unwrap();
    assert!(store.list_dictations().unwrap().is_empty());
    store.save(&job("k", 2)).unwrap();
    assert_eq!(store.list().unwrap().len(), 1);
}
