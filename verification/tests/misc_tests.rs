use ghostwhisper::audio::{floor_index, frame_count, speech_frames, FRAME};
use ghostwhisper::cli::{parse_args, Command};

fn args(v: &[&str]) -> Vec<String> {
    v.iter().map(|s| s.to_string()).collect()
}

#[test]
fn frames_cover_the_recording() {
    assert_eq!(FRAME, 320);
    assert_eq!(frame_count(0), 0);
    assert_eq!(frame_count(1), 1);
    assert_eq!(frame_count(320), 1);
    assert_eq!(frame_count(321), 2);
    assert_eq!(floor_index(10), 2);
    assert_eq!(floor_index(4), 0);
}

#[test]
fn a_click_is_not_speech() {
    let mut loud = vec![false; 200];
    for i in 100..110 {
        loud[i] = true;
    }
    assert!(speech_frames(&loud).is_empty());
    assert!(speech_frames(&Vec::new()).is_empty());
}

#[test]
fn silence_is_trimmed_with_padding() {
    let mut loud = vec![false; 200];
    for i in 50..70 {
        loud[i] = true;
    }
    let kept = speech_frames(&loud);
    assert_eq!(kept, (35..85).collect::<Vec<usize>>());
}

#[test]
fn padding_stops_at_the_edges() {
    let mut loud = vec![false; 30];
    for i in 5..25 {
        loud[i] = true;
    }
    assert_eq!(speech_frames(&loud), (0..30).collect::<Vec<usize>>());
}

#[test]
fn long_pauses_are_cut_to_a_second() {
    let mut loud = vec![false; 300];
    for i in 20..40 {
        loud[i] = true;
    }
    for i in 200..220 {
        loud[i] = true;
    }
    let kept = speech_frames(&loud);
    let mut expected: Vec<usize> = (5..40).collect();
    expected.extend(40..90);
    expected.extend(200..235);
    assert_eq!(kept, expected);
}

#[test]
fn command_line() {
    assert_eq!(parse_args(&args(&[])), Command::Run { ignored: None });
    assert_eq!(parse_args(&args(&["--toggle"])), Command::Toggle);
    assert_eq!(parse_args(&args(&["--type", "some", "words"])), Command::Type("some words".to_string()));
    assert_eq!(parse_args(&args(&["--type"])), Command::Type(String::new()));
    assert_eq!(
        parse_args(&args(&["--verbose", "x"])),
        Command::Run { ignored: Some("--verbose".to_string()) }
    );
}
