use ghostwhisper::transcribe::{
    clip_length, collapse_repeats, collapse_with_keys, is_marker, split_sentences, thread_count,
    transcript, whisper_language, MIN_CLIP_SAMPLES, WHISPER_RATE,
};

fn strings(v: &[&str]) -> Vec<String> {
    v.iter().map(|s| s.to_string()).collect()
}

#[test]
fn markers_are_recognised() {
    assert!(is_marker("[BLANK_AUDIO]"));
    assert!(is_marker("(silence)"));
    assert!(is_marker("*music*"));
    assert!(is_marker("[]"));
    assert!(is_marker("**"));
    assert!(!is_marker("*"));
    assert!(!is_marker("["));
    assert!(!is_marker(""));
    assert!(!is_marker("Hello [there]"));
    assert!(!is_marker("[open"));
    assert!(!is_marker("(mixed]"));
}

#[test]
fn sentences_split_at_closing_punctuation() {
    assert_eq!(split_sentences("No. No."), strings(&["No.", " No."]));
    assert_eq!(split_sentences("Wait... what?! ok"), strings(&["Wait...", " what?!", " ok"]));
    assert_eq!(split_sentences("v1.2 is out. "), strings(&["v1.2 is out."]));
    assert_eq!(split_sentences(""), Vec::<String>::new());
    assert_eq!(split_sentences("   "), Vec::<String>::new());
    assert_eq!(split_sentences("a.\tb!\nc?"), strings(&["a.", "\tb!", "\nc?"]));
}

#[test]
fn collapse_keeps_two_copies() {
    assert_eq!(
        collapse_repeats("Thank you. Thank you. Thank you. Thank you. Thank you."),
        "Thank you. Thank you."
    );
    assert_eq!(collapse_repeats("No. No."), "No. No.");
    assert_eq!(collapse_repeats("Hello there. How are you?"), "Hello there. How are you?");
}

#[test]
fn collapse_compares_lower_cased() {
    assert_eq!(collapse_repeats("Thank you. THANK YOU. thank you. Bye."), "Thank you. THANK YOU. Bye.");
}

#[test]
fn collapse_restarts_after_a_different_sentence() {
    assert_eq!(collapse_repeats("A. A. A. B. A. A. A."), "A. A. B. A. A.");
}

#[test]
fn collapse_trims() {
    assert_eq!(collapse_repeats("  Hi.  "), "Hi.");
    assert_eq!(collapse_repeats(""), "");
}

#[test]
fn collapse_with_given_keys() {
    let parts = strings(&["One.", " Two.", " Three.", " Four."]);
    let keys = strings(&["x", "x", "x", "y"]);
    assert_eq!(collapse_with_keys(&parts, &keys), "One. Two. Four.");
    let keys = strings(&["x", "y", "x", "y"]);
    assert_eq!(collapse_with_keys(&parts, &keys), "One. Two. Three. Four.");
}

#[test]
fn transcript_drops_markers_and_repeats() {
    let pieces = strings(&[" Hello.", " [BLANK_AUDIO]", " Thank you.", " Thank you.", " Thank you."]);
    assert_eq!(transcript(&pieces), "Hello. Thank you. Thank you.");
    let only_markers = strings(&[" (silence)", "*music*"]);
    assert_eq!(transcript(&only_markers), "");
    assert_eq!(transcript(&Vec::new()), "");
}

#[test]
fn language_auto_means_detect() {
    assert_eq!(whisper_language("auto"), None);
    assert_eq!(whisper_language("en"), Some("en".to_string()));
    assert_eq!(whisper_language("Auto"), Some("Auto".to_string()));
}

#[test]
fn clips_are_padded_to_whisper_minimum() {
    assert_eq!(MIN_CLIP_SAMPLES, WHISPER_RATE as usize * 6 / 5);
    assert_eq!(clip_length(0), None);
    assert_eq!(clip_length(1), Some(19_200));
    assert_eq!(clip_length(19_199), Some(19_200));
    assert_eq!(clip_length(19_200), Some(19_200));
    assert_eq!(clip_length(48_000), Some(48_000));
}

#[test]
fn inference_threads() {
    assert_eq!(thread_count(None), 4);
    assert_eq!(thread_count(Some(8)), 8);
    assert_eq!(thread_count(Some(16)), 16);
    assert_eq!(thread_count(Some(64)), 16);
}

#[test]
fn collapsing_twice_is_collapsing_once() {
    for t in [
        "Thank you. Thank you. Thank you. Thank you.",
        "  A. A. A. B. A. A. A. tail  ",
        "No. No.",
        "",
        "x",
        "Wait... what?! what?! what?! ok ",
    ] {
        let once = collapse_repeats(t);
        assert_eq!(collapse_repeats(&once), once, "{t:?}");
    }
}
