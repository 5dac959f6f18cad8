use speakagent::asr::Word;
use speakagent::diarize::{assign_speaker, cluster_count, force_single, prepare_segments, words_to_replicas, Segment};

fn w(text: &str, start: u32, end: u32) -> Word {
    Word { text: text.to_string(), start, end }
}

fn seg(start: u32, end: u32, speaker: i32) -> Segment {
    Segment { start, end, speaker }
}

#[test]
fn no_words_no_replicas() {
    assert_eq!(words_to_replicas(&Vec::new(), &vec![seg(0, 1000, 0)]), "");
}

#[test]
fn two_speakers_numbered_by_first_appearance() {
    let segs = vec![seg(0, 3000, 5), seg(3000, 6000, 2)];
    let words = vec![
        w("Привет", 0, 500),
        w("как", 600, 900),
        w("дела", 1000, 1500),
        w("Хорошо", 3500, 4200),
        w("спасибо", 4300, 5000),
    ];
    assert_eq!(
        words_to_replicas(&words, &segs),
        "Speaker1 [0:00:00]: Привет как дела\nSpeaker2 [0:00:03]: Хорошо спасибо"
    );
}

#[test]
fn a_dominant_speaker_takes_everything() {
    let segs = vec![seg(0, 10_000, 0), seg(10_000, 10_500, 1)];
    let words = vec![w("раз", 100, 400), w("два", 10_100, 10_400)];
    assert_eq!(words_to_replicas(&words, &segs), "Speaker1 [0:00:00]: раз два");
}

#[test]
fn short_islands_are_absorbed() {
    let segs = vec![seg(0, 5000, 0), seg(5000, 5800, 1), seg(5800, 12_000, 0), seg(20_000, 30_000, 1)];
    let words = vec![
        w("раз", 1000, 1500),
        w("два", 5200, 5600),
        w("три", 6500, 7000),
        w("четыре", 21_000, 21_500),
    ];
    assert_eq!(
        words_to_replicas(&words, &segs),
        "Speaker1 [0:00:01]: раз два три\nSpeaker2 [0:00:21]: четыре"
    );
}

#[test]
fn collar_and_sorting() {
    let d = prepare_segments(&vec![seg(5000, 6000, 1), seg(100, 900, 0)]);
    assert_eq!(d.len(), 2);
    assert_eq!((d[0].start, d[0].end, d[0].speaker), (0, 1100, 0));
    assert_eq!((d[1].start, d[1].end, d[1].speaker), (4800, 6200, 1));
    assert!(!force_single(&d));
}

#[test]
fn speaker_by_overlap_else_nearest() {
    let d = prepare_segments(&vec![seg(1000, 2000, 0), seg(5000, 6000, 1)]);
    assert_eq!(assign_speaker(1200, 1500, &d), 0);
    assert_eq!(assign_speaker(5500, 5600, &d), 1);
    // no overlap: the nearest segment by the word's middle
    assert_eq!(assign_speaker(4000, 4200, &d), 1);
    assert_eq!(assign_speaker(2600, 2700, &d), 0);
}

#[test]
fn cluster_count_when_known() {
    assert_eq!(cluster_count(3), 3);
    assert_eq!(cluster_count(0), -1);
    assert_eq!(cluster_count(-2), -1);
}
