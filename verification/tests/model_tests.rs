use ghostwhisper::model::{
    ensure, join, model_url, models_dir, parse_content_length, path_for, ChunkReport, Ensure,
    Progress, BASE_URL,
};
use std::path::Path;

#[test]
fn join_matches_std_path() {
    let cases = [
        ("", "ghostwhisper"),
        ("/home/u", "x"),
        ("/home/u/", "x"),
        ("rel", "a/b"),
        ("/data", "/abs/model.bin"),
        ("a", ""),
        ("/", "x"),
    ];
    for (base, part) in cases {
        let expected = Path::new(base).join(part).to_string_lossy().into_owned();
        assert_eq!(join(base, part), expected, "{base:?} + {part:?}");
    }
}

#[test]
fn models_dir_prefers_xdg() {
    assert_eq!(
        models_dir(Some("/x/share".to_string()), Some("/home/u".to_string())),
        "/x/share/ghostwhisper/models"
    );
    assert_eq!(models_dir(None, Some("/home/u".to_string())), "/home/u/.local/share/ghostwhisper/models");
    assert_eq!(models_dir(None, None), "./ghostwhisper/models");
    assert_eq!(models_dir(Some(String::new()), None), "ghostwhisper/models");
}

#[test]
fn model_paths_and_urls() {
    assert_eq!(path_for("/m", "ggml-base.en.bin"), "/m/ggml-base.en.bin");
    assert_eq!(
        model_url("ggml-base.en.bin"),
        "https://huggingface.co/ggerganov/whisper.cpp/resolve/main/ggml-base.en.bin"
    );
    assert!(model_url("x").starts_with(BASE_URL));
}

#[test]
fn ensure_plans_a_download_into_a_part_file() {
    assert_eq!(ensure("/m", "ggml-base.en.bin", true), Ensure::Ready("/m/ggml-base.en.bin".to_string()));
    assert_eq!(
        ensure("/m", "ggml-base.en.bin", false),
        Ensure::Fetch {
            url: "https://huggingface.co/ggerganov/whisper.cpp/resolve/main/ggml-base.en.bin".to_string(),
            part: "/m/ggml-base.en.bin.part".to_string(),
            path: "/m/ggml-base.en.bin".to_string(),
        }
    );
    match ensure("/m", "model", false) {
        Ensure::Fetch { part, .. } => assert_eq!(part, "/m/model.part"),
        other => panic!("unexpected {other:?}"),
    }
}

#[test]
fn content_length_parses_like_std() {
    for s in [
        "0", "1", "42", "+7", "", "+", "-1", " 5", "5 ", "1e3", "18446744073709551615",
        "18446744073709551616", "99999999999999999999", "007", "+0",
    ] {
        assert_eq!(parse_content_length(s), s.parse::<u64>().ok(), "{s:?}");
    }
}

#[test]
fn progress_reports_each_tenth_once() {
    let mut p = Progress::new(Some(1000));
    assert_eq!(p.advance(50), ChunkReport { percent: Some(5), log: false });
    assert_eq!(p.advance(60), ChunkReport { percent: Some(11), log: true });
    assert_eq!(p.last_logged, 11);
    assert_eq!(p.advance(50), ChunkReport { percent: Some(16), log: false });
    assert_eq!(p.advance(840), ChunkReport { percent: Some(100), log: true });
    assert_eq!(p.done, 1000);
    assert_eq!(p.finish("m.bin"), Ok(()));
}

#[test]
fn percent_never_goes_down() {
    let mut p = Progress::new(Some(3));
    let mut last = 0;
    for _ in 0..3 {
        let pct = p.advance(1).percent.unwrap();
        assert!(pct >= last);
        last = pct;
    }
    assert_eq!(last, 100);
}

#[test]
fn progress_without_size() {
    let mut p = Progress::new(None);
    assert_eq!(p.advance(10), ChunkReport { percent: None, log: false });
    let mut z = Progress::new(Some(0));
    assert_eq!(z.advance(10), ChunkReport { percent: None, log: false });
    assert_eq!(p.finish("m.bin"), Ok(()));
}

#[test]
fn progress_caps_at_hundred() {
    let mut p = Progress::new(Some(10));
    assert_eq!(p.advance(25), ChunkReport { percent: Some(100), log: true });
}

#[test]
fn download_ending_early_is_an_error() {
    let mut p = Progress::new(Some(1000));
    p.advance(400);
    assert_eq!(p.finish("ggml-base.en.bin"), Err("download of ggml-base.en.bin ended early: 400 of 1000 bytes".to_string()));
}
