use ghostwhisper::config::{default_model, Config};
use ghostwhisper::panel::{text_to_type, Effect, Icon, Line, Message, PanelState};

fn config(model: &str) -> Config {
    Config { model: model.to_string(), language: "en".to_string() }
}

fn idle(model: &str) -> PanelState {
    PanelState {
        config: config(model),
        listening: false,
        transcribing: false,
        downloading: false,
        offer_pending: false,
        popup_open: false,
        keyboard_ready: true,
        progress: 0,
        last_dictation_ms: None,
    }
}

#[test]
fn default_config() {
    let c = Config::default();
    assert_eq!(c.model, "ggml-base.en.bin");
    assert_eq!(c.language, "en");
    assert_eq!(default_model(true), "ggml-large-v3-turbo.bin");
    assert_eq!(default_model(false), "ggml-base.en.bin");
}

#[test]
fn start_with_model_and_keyboard() {
    let (s, effects) = PanelState::new(config("m.bin"), true, Ok(()));
    assert!(effects.is_empty());
    assert!(!s.listening && !s.transcribing && !s.downloading);
    assert_eq!(s.icon(), Icon::Idle);
}

#[test]
fn start_without_model_offers_it() {
    let (s, effects) = PanelState::new(config("m.bin"), false, Err("no uinput".to_string()));
    assert!(!s.downloading);
    assert!(s.offer_pending);
    assert!(s.popup_open);
    assert!(!s.keyboard_ready);
    assert_eq!(
        effects,
        vec![
            Effect::Log(Line::NoKeyboard("no uinput".to_string())),
            Effect::Notify(Line::KeyboardSetup),
            Effect::Notify(Line::DownloadOffered("m.bin".to_string())),
            Effect::Log(Line::ModelMissing("m.bin".to_string())),
            Effect::OfferDownload { model: "m.bin".to_string() },
        ]
    );
    assert_eq!(s.icon(), Icon::Idle);
}

#[test]
fn download_starts_only_when_accepted() {
    let (mut s, _) = PanelState::new(config("m.bin"), false, Ok(()));
    assert_eq!(
        s.update(Message::DownloadAccepted),
        vec![
            Effect::Notify(Line::DownloadStarted("m.bin".to_string())),
            Effect::Download { model: "m.bin".to_string() },
        ]
    );
    assert!(s.downloading);
    assert!(!s.offer_pending);
    assert_eq!(s.icon(), Icon::Downloading);
    // a second press does nothing while the download runs
    assert!(s.update(Message::DownloadAccepted).is_empty());
    assert!(s.update(Message::DownloadProgress(37)).is_empty());
    assert_eq!(s.progress, 37);
    assert_eq!(s.status()[0], "Downloading the model: 37%");
    // accepting with nothing offered does nothing
    let mut t = idle("m.bin");
    assert!(t.update(Message::DownloadAccepted).is_empty());
    assert!(!t.downloading);
}

#[test]
fn hotkey_dictation_round_trip() {
    let mut s = idle("m.bin");
    assert_eq!(s.update(Message::ToggleListening { typing: true }), vec![Effect::StartRecording]);
    assert!(!s.listening);
    assert_eq!(
        s.update(Message::RecordingStarted(Ok(()))),
        vec![Effect::Log(Line::Listening)]
    );
    assert!(s.listening);
    assert_eq!(s.icon(), Icon::Recording);
    assert_eq!(
        s.update(Message::ToggleListening { typing: true }),
        vec![Effect::StopRecording { typing: true }]
    );
    assert!(!s.listening);
    let effects = s.update(Message::RecordingStopped {
        typing: true,
        captured: Ok(()),
        model_on_disk: true,
        progress: 0,
    });
    assert_eq!(
        effects,
        vec![Effect::Transcribe { model: "m.bin".to_string(), language: "en".to_string(), typing: true }]
    );
    assert!(s.transcribing);
    assert_eq!(s.icon(), Icon::Transcribing);
    assert_eq!(
        s.update(Message::Transcribed { result: Ok("hello".to_string()), millis: 1234 }),
        vec![Effect::Print("hello".to_string())]
    );
    assert!(!s.transcribing);
    assert_eq!(s.icon(), Icon::Idle);
    assert_eq!(s.last_dictation_ms, Some(1234));
    assert_eq!(s.status()[4], "Last dictation took 1234 ms");
}

#[test]
fn clip_dropped_while_downloading() {
    let mut s = idle("m.bin");
    s.downloading = true;
    s.listening = true;
    s.update(Message::ToggleListening { typing: false });
    let effects = s.update(Message::RecordingStopped {
        typing: false,
        captured: Ok(()),
        model_on_disk: false,
        progress: 42,
    });
    assert_eq!(
        effects,
        vec![Effect::Log(Line::StillDownloading(42)), Effect::Notify(Line::StillDownloading(42))]
    );
    assert!(!s.transcribing);
    assert_eq!(
        Line::StillDownloading(42).text(),
        "Still downloading the speech model (42%). Try again in a bit."
    );
}

#[test]
fn clip_dropped_and_model_offered() {
    let mut s = idle("m.bin");
    let effects = s.update(Message::RecordingStopped {
        typing: true,
        captured: Ok(()),
        model_on_disk: false,
        progress: 0,
    });
    assert_eq!(
        effects,
        vec![
            Effect::Log(Line::NotDownloaded),
            Effect::Notify(Line::NotDownloaded),
            Effect::Log(Line::ModelMissing("m.bin".to_string())),
            Effect::OfferDownload { model: "m.bin".to_string() },
        ]
    );
    assert!(!s.downloading);
    assert!(s.offer_pending);
}

#[test]
fn stop_failure_is_logged_only() {
    let mut s = idle("m.bin");
    let effects = s.update(Message::RecordingStopped {
        typing: true,
        captured: Err("capture thread died".to_string()),
        model_on_disk: true,
        progress: 0,
    });
    assert_eq!(effects, vec![Effect::Log(Line::Error("capture thread died".to_string()))]);
    assert!(!s.transcribing);
}

#[test]
fn recording_failure_is_notified() {
    let mut s = idle("m.bin");
    let effects = s.update(Message::RecordingStarted(Err("no default input device".to_string())));
    assert_eq!(
        effects,
        vec![
            Effect::Log(Line::Error("no default input device".to_string())),
            Effect::Notify(Line::CantRecord("no default input device".to_string())),
        ]
    );
    assert!(!s.listening);
    assert_eq!(
        Line::CantRecord("no default input device".to_string()).text(),
        "Can't record: no default input device"
    );
}

#[test]
fn model_ready_and_failed() {
    let mut s = idle("m.bin");
    s.downloading = true;
    assert_eq!(s.update(Message::ModelReady(Ok(()))), vec![Effect::Notify(Line::ModelReady)]);
    assert!(!s.downloading);
    assert_eq!(s.progress, 100);
    s.downloading = true;
    let effects = s.update(Message::ModelReady(Err("timeout".to_string())));
    assert_eq!(
        effects,
        vec![
            Effect::Log(Line::Error("timeout".to_string())),
            Effect::Notify(Line::DownloadFailed("timeout".to_string())),
        ]
    );
    assert!(!s.downloading);
    assert!(s.offer_pending);
    assert_eq!(
        Line::DownloadFailed("timeout".to_string()).text(),
        "Couldn't download the speech model: timeout. Try again from the panel."
    );
}

#[test]
fn no_second_download_while_one_runs() {
    let mut s = idle("a.bin");
    s.downloading = true;
    let effects = s.update(Message::UpdateConfig { config: config("b.bin"), model_on_disk: false });
    assert!(effects.is_empty());
    assert_eq!(s.config.model, "b.bin");
    assert!(s.downloading);
}

#[test]
fn config_change_offers_a_missing_model() {
    let mut s = idle("a.bin");
    let effects = s.update(Message::UpdateConfig { config: config("b.bin"), model_on_disk: false });
    assert_eq!(
        effects,
        vec![
            Effect::Notify(Line::DownloadOffered("b.bin".to_string())),
            Effect::Log(Line::ModelMissing("b.bin".to_string())),
            Effect::OfferDownload { model: "b.bin".to_string() },
        ]
    );
    assert!(!s.downloading);
    assert!(s.offer_pending);
    let present = s.update(Message::UpdateConfig { config: config("c.bin"), model_on_disk: true });
    assert!(present.is_empty());
    assert!(!s.offer_pending);
    let mut t = idle("a.bin");
    let same = t.update(Message::UpdateConfig { config: config("a.bin"), model_on_disk: false });
    assert!(same.is_empty());
    assert!(!t.offer_pending);
}

#[test]
fn dictation_failure_is_notified() {
    let mut s = idle("m.bin");
    s.transcribing = true;
    let effects = s.update(Message::Transcribed {
        result: Err("whisper inference failed".to_string()),
        millis: 5,
    });
    assert_eq!(effects.len(), 2);
    assert_eq!(
        Line::DictationFailed("whisper inference failed".to_string()).text(),
        "Dictation failed: whisper inference failed"
    );
    assert!(!s.transcribing);
}

#[test]
fn line_texts() {
    assert_eq!(Line::ModelMissing("x.bin".to_string()).text(), "model x.bin not found");
    assert_eq!(
        Line::DownloadOffered("x.bin".to_string()).text(),
        "Dictation needs the x.bin speech model. Open the panel to download it."
    );
    assert_eq!(
        Line::DownloadStarted("x.bin".to_string()).text(),
        "Downloading the x.bin speech model. Dictation will work once it's done."
    );
    assert_eq!(Line::ModelReady.text(), "Speech model ready. Hotkey, talk, hotkey.");
    assert_eq!(
        Line::NotDownloaded.text(),
        "The speech model isn't downloaded yet. Open the panel to download it."
    );
    assert_eq!(Line::Listening.text(), "listening");
    assert_eq!(Line::Error("boom".to_string()).text(), "boom");
    assert_eq!(
        Line::NoKeyboard("cannot open /dev/uinput".to_string()).text(),
        "cannot open /dev/uinput; typing disabled, text will go to stdout only"
    );
    assert_eq!(
        Line::KeyboardSetup.text(),
        "Can't open /dev/uinput, so dictation can't type yet. See the README for the one-time udev setup."
    );
    assert_eq!(
        Line::StillDownloading(0).text(),
        "Still downloading the speech model (0%). Try again in a bit."
    );
}

#[test]
fn icon_names() {
    assert_eq!(Icon::Recording.name(), "media-record-symbolic");
    assert_eq!(Icon::Transcribing.name(), "content-loading-symbolic");
    assert_eq!(Icon::Downloading.name(), "folder-download-symbolic");
    assert_eq!(Icon::Idle.name(), "audio-input-microphone-symbolic");
    let mut s = idle("m.bin");
    s.listening = true;
    s.transcribing = true;
    s.downloading = true;
    assert_eq!(s.icon(), Icon::Recording);
}

#[test]
fn typed_text_gets_a_trailing_space() {
    assert_eq!(text_to_type("hello", true), Some("hello ".to_string()));
    assert_eq!(text_to_type("hello", false), None);
    assert_eq!(text_to_type("", true), None);
}

#[test]
fn popup_toggles_on_click() {
    let mut s = idle("ggml-base.en.bin");
    assert_eq!(s.update(Message::PopupToggled), vec![Effect::OpenPopup]);
    assert!(s.popup_open);
    assert!(!s.listening);
    assert_eq!(s.update(Message::PopupToggled), vec![Effect::ClosePopup]);
    assert!(!s.popup_open);
    s.update(Message::PopupToggled);
    assert!(s.update(Message::PopupClosed).is_empty());
    assert!(!s.popup_open);
}

#[test]
fn popup_status_lines() {
    let mut s = idle("ggml-base.en.bin");
    assert_eq!(
        s.status(),
        vec![
            "Ready".to_string(),
            "Model: ggml-base.en.bin (150 MB)".to_string(),
            "Typing: ready".to_string(),
            "Hotkey command: ghostwhisper --toggle".to_string(),
            "No dictation yet".to_string(),
        ]
    );
    s.keyboard_ready = false;
    s.offer_pending = true;
    s.config.model = "ggml-large-v3-turbo.bin".to_string();
    let lines = s.status();
    assert_eq!(lines[0], "The model isn't downloaded yet");
    assert_eq!(lines[1], "Model: ggml-large-v3-turbo.bin (1.6 GB)");
    assert_eq!(lines[2], "Typing: needs access to /dev/uinput (see the README)");
    s.config.model = "other.bin".to_string();
    s.listening = true;
    let lines = s.status();
    assert_eq!(lines[0], "Listening");
    assert_eq!(lines[1], "Model: other.bin");
}
