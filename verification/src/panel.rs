//! The applet's decisions. One toggle starts listening, the next stops and
//! transcribes; a missing model is offered in the status popup and fetched
//! in the background once the user accepts.
//! `PanelState::update` takes the state and an event and gives the next
//! state and the effects to carry out; whoever runs the applet performs
//! those effects (recording, downloading, transcribing, notifying) and
//! hands their outcomes back as events.

use vstd::prelude::*;
use crate::config::Config;
use crate::text::{cat, decimal, same_text, to_decimal};
use crate::transcribe::views;
use vstd::string::StringExecFns;

verus! {

/// A line for the log or for a desktop notification.
#[derive(Debug, Clone, PartialEq, Eq)]
pub enum Line {
    /// Log: the configured model is not on disk.
    ModelMissing(String),
    /// Notification: the named model is missing and the panel offers it.
    DownloadOffered(String),
    /// Notification: a download of the named model has started.
    DownloadStarted(String),
    /// Notification: the model is on disk now.
    ModelReady,
    /// Notification: the download failed with this error.
    DownloadFailed(String),
    /// Log: an error, as it is.
    Error(String),
    /// Log and notification: a clip was dropped while the model is still
    /// downloading, this many percent done.
    StillDownloading(u8),
    /// Log and notification: a clip was dropped because the model is missing.
    NotDownloaded,
    /// Log: the microphone is open.
    Listening,
    /// Notification: recording could not start.
    CantRecord(String),
    /// Notification: transcribing or typing failed.
    DictationFailed(String),
    /// Log: the virtual keyboard could not be set up.
    NoKeyboard(String),
    /// Notification: typing needs the one-time uinput setup.
    KeyboardSetup,
}

/// The text of a line.
pub open spec fn line_text(l: Line) -> Seq<char> {
    match l {
        Line::ModelMissing(m) => "model "@ + m@ + " not found"@,
        Line::DownloadOffered(m) => "Dictation needs the "@ + m@
            + " speech model. Open the panel to download it."@,
        Line::DownloadStarted(m) => "Downloading the "@ + m@
            + " speech model. Dictation will work once it's done."@,
        Line::ModelReady => "Speech model ready. Hotkey, talk, hotkey."@,
        Line::DownloadFailed(e) => "Couldn't download the speech model: "@ + e@
            + ". Try again from the panel."@,
        Line::Error(e) => e@,
        Line::StillDownloading(p) => "Still downloading the speech model ("@ + decimal(p as nat)
            + "%). Try again in a bit."@,
        Line::NotDownloaded => "The speech model isn't downloaded yet. Open the panel to download it."@,
        Line::Listening => "listening"@,
        Line::CantRecord(e) => "Can't record: "@ + e@,
        Line::DictationFailed(e) => "Dictation failed: "@ + e@,
        Line::NoKeyboard(e) => e@ + "; typing disabled, text will go to stdout only"@,
        Line::KeyboardSetup =>
            "Can't open /dev/uinput, so dictation can't type yet. See the README for the one-time udev setup."@,
    }
}

impl Line {
    /// The text of this line.
    pub fn text(&self) -> (r: String)
        ensures
            r@ == line_text(*self),
    {
        match self {
            Line::ModelMissing(m) => {
                let a = cat("model ", m.as_str());
                cat(a.as_str(), " not found")
            },
            Line::DownloadOffered(m) => {
                let a = cat("Dictation needs the ", m.as_str());
                cat(a.as_str(), " speech model. Open the panel to download it.")
            },
            Line::DownloadStarted(m) => {
                let a = cat("Downloading the ", m.as_str());
                cat(a.as_str(), " speech model. Dictation will work once it's done.")
            },
            Line::ModelReady => String::from_str("Speech model ready. Hotkey, talk, hotkey."),
            Line::DownloadFailed(e) => {
                let a = cat("Couldn't download the speech model: ", e.as_str());
                cat(a.as_str(), ". Try again from the panel.")
            },
            Line::Error(e) => String::from_str(e.as_str()),
            Line::StillDownloading(p) => {
                let d = to_decimal(*p as u64);
                let a = cat("Still downloading the speech model (", d.as_str());
                cat(a.as_str(), "%). Try again in a bit.")
            },
            Line::NotDownloaded => String::from_str(
                "The speech model isn't downloaded yet. Open the panel to download it.",
            ),
            Line::Listening => String::from_str("listening"),
            Line::CantRecord(e) => cat("Can't record: ", e.as_str()),
            Line::DictationFailed(e) => cat("Dictation failed: ", e.as_str()),
            Line::NoKeyboard(e) => cat(
                e.as_str(),
                "; typing disabled, text will go to stdout only",
            ),
            Line::KeyboardSetup => String::from_str(
                "Can't open /dev/uinput, so dictation can't type yet. See the README for the one-time udev setup.",
            ),
        }
    }
}

/// Something the applet must do.
#[derive(Debug, Clone, PartialEq, Eq)]
pub enum Effect {
    /// Write a line to the log.
    Log(Line),
    /// Show a desktop notification.
    Notify(Line),
    /// Write a transcription to standard output.
    Print(String),
    /// Open the microphone and start capturing; answer with `RecordingStarted`.
    StartRecording,
    /// Stop capturing; answer with `RecordingStopped`, passing `typing` on.
    StopRecording { typing: bool },
    /// Show the status popup with a button that downloads the named model;
    /// pressing it answers with `DownloadAccepted`.
    OfferDownload { model: String },
    /// Fetch the named model in the background; answer with `ModelReady`.
    Download { model: String },
    /// Transcribe the captured clip with the model and language, typing the
    /// text when `typing`; answer with `Transcribed`.
    Transcribe { model: String, language: String, typing: bool },
    /// Show the status popup.
    OpenPopup,
    /// Hide the status popup.
    ClosePopup,
}

/// Events the applet reacts to.
#[derive(Debug, PartialEq, Eq)]
pub enum Message {
    /// A toggle from the hotkey; `typing` asks for the text to be typed.
    ToggleListening { typing: bool },
    /// The outcome of `StartRecording`.
    RecordingStarted(Result<(), String>),
    /// The outcome of `StopRecording`: whether audio came back, whether the
    /// configured model is on disk now, and the download progress.
    RecordingStopped { typing: bool, captured: Result<(), String>, model_on_disk: bool, progress: u8 },
    /// The outcome of `Transcribe`, and how long it took in milliseconds.
    Transcribed { result: Result<String, String>, millis: u64 },
    /// The outcome of `Download`.
    ModelReady(Result<(), String>),
    /// The settings changed; `model_on_disk` tells whether the new model is there.
    UpdateConfig { config: Config, model_on_disk: bool },
    /// The user pressed the popup's download button.
    DownloadAccepted,
    /// The running download has reached this many percent.
    DownloadProgress(u8),
    /// The panel icon was clicked.
    PopupToggled,
    /// The popup was closed from outside.
    PopupClosed,
}

/// The icon the panel shows.
#[derive(Debug, Clone, Copy, PartialEq, Eq)]
pub enum Icon {
    Recording,
    Transcribing,
    Downloading,
    Idle,
}

impl Icon {
    /// The icon's name in the icon theme.
    pub fn name(&self) -> (r: &'static str)
        ensures
            *self == Icon::Recording ==> r@ == "media-record-symbolic"@,
            *self == Icon::Transcribing ==> r@ == "content-loading-symbolic"@,
            *self == Icon::Downloading ==> r@ == "folder-download-symbolic"@,
            *self == Icon::Idle ==> r@ == "audio-input-microphone-symbolic"@,
    {
        match self {
            Icon::Recording => "media-record-symbolic",
            Icon::Transcribing => "content-loading-symbolic",
            Icon::Downloading => "folder-download-symbolic",
            Icon::Idle => "audio-input-microphone-symbolic",
        }
    }
}

/// Panel state.
#[derive(Debug)]
pub struct PanelState {
    /// The settings in force.
    pub config: Config,
    /// True while the microphone is capturing.
    pub listening: bool,
    /// True while Whisper (and the typer) run in the background.
    pub transcribing: bool,
    /// True while the model file is being fetched.
    pub downloading: bool,
    /// True while a download of the configured model has been offered and
    /// not yet accepted.
    pub offer_pending: bool,
    /// True while the status popup is shown.
    pub popup_open: bool,
    /// True when the virtual keyboard was set up, so dictations can be typed.
    pub keyboard_ready: bool,
    /// Percent done of the running (or last) download.
    pub progress: u8,
    /// How long the last dictation took, in milliseconds.
    pub last_dictation_ms: Option<u64>,
}

/// The icon for a state: recording first, then transcribing, then
/// downloading, otherwise the microphone.
pub open spec fn spec_icon(s: PanelState) -> Icon {
    if s.listening {
        Icon::Recording
    } else if s.transcribing {
        Icon::Transcribing
    } else if s.downloading {
        Icon::Downloading
    } else {
        Icon::Idle
    }
}

/// Offers the configured model for download unless one is in flight or
/// the model is there already; nothing is fetched until the offer is
/// accepted.
pub open spec fn spec_offer_model(s: PanelState, model_on_disk: bool) -> (PanelState, Seq<Effect>) {
    if s.downloading || model_on_disk {
        (s, seq![])
    } else {
        (
            PanelState { offer_pending: true, popup_open: true, ..s },
            seq![
                Effect::Log(Line::ModelMissing(s.config.model)),
                Effect::OfferDownload { model: s.config.model },
            ],
        )
    }
}

/// The offer, announced with a notification when it is made.
pub open spec fn spec_offer_announced(s: PanelState, model_on_disk: bool) -> (PanelState, Seq<Effect>) {
    let o = spec_offer_model(s, model_on_disk);
    if o.1.len() > 0 {
        (o.0, seq![Effect::Notify(Line::DownloadOffered(s.config.model))] + o.1)
    } else {
        o
    }
}

/// The state and effects after `m` in state `s`.
pub open spec fn next(s: PanelState, m: Message) -> (PanelState, Seq<Effect>) {
    match m {
        Message::UpdateConfig { config, model_on_disk } => {
            if config.model@ != s.config.model@ {
                spec_offer_announced(
                    PanelState { config: config, offer_pending: false, ..s },
                    model_on_disk,
                )
            } else {
                (PanelState { config: config, ..s }, seq![])
            }
        },
        Message::DownloadAccepted => {
            if s.offer_pending && !s.downloading {
                (
                    PanelState { downloading: true, offer_pending: false, progress: 0, ..s },
                    seq![
                        Effect::Notify(Line::DownloadStarted(s.config.model)),
                        Effect::Download { model: s.config.model },
                    ],
                )
            } else {
                (s, seq![])
            }
        },
        Message::DownloadProgress(p) => {
            if s.downloading {
                (PanelState { progress: p, ..s }, seq![])
            } else {
                (s, seq![])
            }
        },
        Message::ModelReady(result) => {
            match result {
                Ok(_) => (
                    PanelState { downloading: false, progress: 100, ..s },
                    seq![Effect::Notify(Line::ModelReady)],
                ),
                Err(e) => (
                    PanelState { downloading: false, offer_pending: true, ..s },
                    seq![Effect::Log(Line::Error(e)), Effect::Notify(Line::DownloadFailed(e))],
                ),
            }
        },
        Message::ToggleListening { typing } => {
            if s.listening {
                (PanelState { listening: false, ..s }, seq![Effect::StopRecording { typing }])
            } else {
                (s, seq![Effect::StartRecording])
            }
        },
        Message::RecordingStarted(result) => match result {
            Ok(_) => (PanelState { listening: true, ..s }, seq![Effect::Log(Line::Listening)]),
            Err(e) => (s, seq![Effect::Log(Line::Error(e)), Effect::Notify(Line::CantRecord(e))]),
        },
        Message::RecordingStopped { typing, captured, model_on_disk, progress } => match captured {
            Err(e) => (s, seq![Effect::Log(Line::Error(e))]),
            Ok(_) => if !model_on_disk {
                let notice = if s.downloading {
                    Line::StillDownloading(progress)
                } else {
                    Line::NotDownloaded
                };
                let offer = spec_offer_model(s, false);
                (offer.0, seq![Effect::Log(notice), Effect::Notify(notice)] + offer.1)
            } else {
                (
                    PanelState { transcribing: true, ..s },
                    seq![
                        Effect::Transcribe {
                            model: s.config.model,
                            language: s.config.language,
                            typing,
                        },
                    ],
                )
            },
        },
        Message::Transcribed { result, millis } => {
            let t = PanelState { transcribing: false, last_dictation_ms: Some(millis), ..s };
            match result {
                Ok(text) => (t, seq![Effect::Print(text)]),
                Err(e) => (t, seq![Effect::Log(Line::Error(e)), Effect::Notify(Line::DictationFailed(e))]),
            }
        },
        Message::PopupToggled => {
            if s.popup_open {
                (PanelState { popup_open: false, ..s }, seq![Effect::ClosePopup])
            } else {
                (PanelState { popup_open: true, ..s }, seq![Effect::OpenPopup])
            }
        },
        Message::PopupClosed => (PanelState { popup_open: false, ..s }, seq![]),
    }
}

/// The state right after start-up and the effects of starting: a notice
/// when the virtual keyboard could not be set up, then the offer of the
/// model if it is not on disk.
pub open spec fn spec_start(config: Config, model_on_disk: bool, keyboard: Result<(), String>) -> (PanelState, Seq<Effect>) {
    let s = PanelState {
        config,
        listening: false,
        transcribing: false,
        downloading: false,
        offer_pending: false,
        popup_open: false,
        keyboard_ready: keyboard is Ok,
        progress: 0,
        last_dictation_ms: None,
    };
    let notices = match keyboard {
        Ok(_) => seq![],
        Err(e) => seq![Effect::Log(Line::NoKeyboard(e)), Effect::Notify(Line::KeyboardSetup)],
    };
    let offer = spec_offer_announced(s, model_on_disk);
    (offer.0, notices + offer.1)
}

/// The download size of the models the README lists.
pub open spec fn model_size(model: Seq<char>) -> Option<Seq<char>> {
    if model == "ggml-base.en.bin"@ {
        Some("150 MB"@)
    } else if model == "ggml-large-v3-turbo.bin"@ {
        Some("1.6 GB"@)
    } else {
        None
    }
}

/// What the applet is doing, for the popup.
pub open spec fn activity_line(s: PanelState) -> Seq<char> {
    if s.listening {
        "Listening"@
    } else if s.transcribing {
        "Transcribing"@
    } else if s.downloading {
        "Downloading the model: "@ + decimal(s.progress as nat) + "%"@
    } else if s.offer_pending {
        "The model isn't downloaded yet"@
    } else {
        "Ready"@
    }
}

/// The model in use and its size when known, for the popup.
pub open spec fn model_line(s: PanelState) -> Seq<char> {
    "Model: "@ + s.config.model@ + match model_size(s.config.model@) {
        Some(z) => " ("@ + z + ")"@,
        None => ""@,
    }
}

/// Whether typing is set up, for the popup.
pub open spec fn typing_line(s: PanelState) -> Seq<char> {
    if s.keyboard_ready {
        "Typing: ready"@
    } else {
        "Typing: needs access to /dev/uinput (see the README)"@
    }
}

/// How long the last dictation took, for the popup.
pub open spec fn last_dictation_line(s: PanelState) -> Seq<char> {
    match s.last_dictation_ms {
        Some(ms) => "Last dictation took "@ + decimal(ms as nat) + " ms"@,
        None => "No dictation yet"@,
    }
}

/// The lines of the status popup: the state, the model and its download,
/// whether typing is set up, the hotkey command to bind, and how long the
/// last dictation took.
pub open spec fn status_lines(s: PanelState) -> Seq<Seq<char>> {
    seq![
        activity_line(s),
        model_line(s),
        typing_line(s),
        "Hotkey command: ghostwhisper --toggle"@,
        last_dictation_line(s),
    ]
}

fn size_of_model(model: &str) -> (r: Option<&'static str>)
    ensures
        model_size(model@) == (match r {
            Some(z) => Some(z@),
            None => None,
        }),
{
    if same_text(model, "ggml-base.en.bin") {
        Some("150 MB")
    } else if same_text(model, "ggml-large-v3-turbo.bin") {
        Some("1.6 GB")
    } else {
        None
    }
}

impl PanelState {
    /// The state at start-up with the given settings, and its effects.
    /// `keyboard` is the outcome of setting up the virtual keyboard; the
    /// applet runs without it, keeping transcriptions on standard output.
    pub fn new(config: Config, model_on_disk: bool, keyboard: Result<(), String>) -> (r: (
        PanelState,
        Vec<Effect>,
    ))
        ensures
            (r.0, r.1@) == spec_start(config, model_on_disk, keyboard),
    {
        let mut effects: Vec<Effect> = Vec::new();
        let keyboard_ready = keyboard.is_ok();
        match keyboard {
            Ok(()) => {},
            Err(e) => {
                effects.push(Effect::Log(Line::NoKeyboard(e)));
                effects.push(Effect::Notify(Line::KeyboardSetup));
            },
        }
        let ghost s0 = PanelState {
            config,
            listening: false,
            transcribing: false,
            downloading: false,
            offer_pending: false,
            popup_open: false,
            keyboard_ready,
            progress: 0,
            last_dictation_ms: None,
        };
        let mut s = PanelState {
            config,
            listening: false,
            transcribing: false,
            downloading: false,
            offer_pending: false,
            popup_open: false,
            keyboard_ready,
            progress: 0,
            last_dictation_ms: None,
        };
        let mut offer = s.offer_announced(model_on_disk);
        let ghost before = effects@;
        effects.append(&mut offer);
        assert(effects@ == before + spec_offer_announced(s0, model_on_disk).1);
        (s, effects)
    }

    /// The icon the panel shows in this state.
    pub fn icon(&self) -> (r: Icon)
        ensures
            r == spec_icon(*self),
    {
        if self.listening {
            Icon::Recording
        } else if self.transcribing {
            Icon::Transcribing
        } else if self.downloading {
            Icon::Downloading
        } else {
            Icon::Idle
        }
    }

    /// The lines the status popup shows in this state.
    pub fn status(&self) -> (r: Vec<String>)
        ensures
            views(r@) == status_lines(*self),
    {
        let activity = if self.listening {
            String::from_str("Listening")
        } else if self.transcribing {
            String::from_str("Transcribing")
        } else if self.downloading {
            let d = to_decimal(self.progress as u64);
            let a = cat("Downloading the model: ", d.as_str());
            cat(a.as_str(), "%")
        } else if self.offer_pending {
            String::from_str("The model isn't downloaded yet")
        } else {
            String::from_str("Ready")
        };
        let mut model = cat("Model: ", self.config.model.as_str());
        match size_of_model(self.config.model.as_str()) {
            Some(z) => {
                model.append(" (");
                model.append(z);
                model.append(")");
            },
            None => {
                model.append("");
            },
        }
        assert(model@ == model_line(*self));
        let typing = if self.keyboard_ready {
            String::from_str("Typing: ready")
        } else {
            String::from_str("Typing: needs access to /dev/uinput (see the README)")
        };
        let hotkey = String::from_str("Hotkey command: ghostwhisper --toggle");
        let last = match self.last_dictation_ms {
            Some(ms) => {
                let d = to_decimal(ms);
                let a = cat("Last dictation took ", d.as_str());
                cat(a.as_str(), " ms")
            },
            None => String::from_str("No dictation yet"),
        };
        assert(activity@ == activity_line(*self));
        assert(last@ == last_dictation_line(*self));
        let mut r: Vec<String> = Vec::new();
        r.push(activity);
        r.push(model);
        r.push(typing);
        r.push(hotkey);
        r.push(last);
        assert(views(r@) == status_lines(*self));
        r
    }

    /// Offers the configured model for download when it isn't on disk and
    /// no download is in flight.
    pub fn offer_model(&mut self, model_on_disk: bool) -> (effects: Vec<Effect>)
        ensures
            (*final(self), effects@) == spec_offer_model(*old(self), model_on_disk),
    {
        let mut effects: Vec<Effect> = Vec::new();
        if self.downloading || model_on_disk {
            return effects;
        }
        self.offer_pending = true;
        self.popup_open = true;
        effects.push(Effect::Log(Line::ModelMissing(self.config.model.clone())));
        effects.push(Effect::OfferDownload { model: self.config.model.clone() });
        effects
    }

    fn offer_announced(&mut self, model_on_disk: bool) -> (effects: Vec<Effect>)
        ensures
            (*final(self), effects@) == spec_offer_announced(*old(self), model_on_disk),
    {
        let model = self.config.model.clone();
        let mut offer = self.offer_model(model_on_disk);
        if offer.len() > 0 {
            let mut effects: Vec<Effect> = Vec::new();
            effects.push(Effect::Notify(Line::DownloadOffered(model)));
            effects.append(&mut offer);
            effects
        } else {
            offer
        }
    }

    /// Handles one event: updates the state and returns what to do.
    pub fn update(&mut self, message: Message) -> (effects: Vec<Effect>)
        ensures
            (*final(self), effects@) == next(*old(self), message),
    {
        let mut effects: Vec<Effect> = Vec::new();
        match message {
            Message::UpdateConfig { config, model_on_disk } => {
                let changed = !same_text(config.model.as_str(), self.config.model.as_str());
                self.config = config;
                if changed {
                    self.offer_pending = false;
                    return self.offer_announced(model_on_disk);
                }
            },
            Message::DownloadAccepted => {
                if self.offer_pending && !self.downloading {
                    self.downloading = true;
                    self.offer_pending = false;
                    self.progress = 0;
                    effects.push(Effect::Notify(Line::DownloadStarted(self.config.model.clone())));
                    effects.push(Effect::Download { model: self.config.model.clone() });
                }
            },
            Message::DownloadProgress(p) => {
                if self.downloading {
                    self.progress = p;
                }
            },
            Message::ModelReady(result) => {
                self.downloading = false;
                match result {
                    Ok(()) => {
                        self.progress = 100;
                        effects.push(Effect::Notify(Line::ModelReady));
                    },
                    Err(e) => {
                        self.offer_pending = true;
                        effects.push(Effect::Log(Line::Error(e.clone())));
                        effects.push(Effect::Notify(Line::DownloadFailed(e)));
                    },
                }
            },
            Message::ToggleListening { typing } => {
                if self.listening {
                    self.listening = false;
                    effects.push(Effect::StopRecording { typing });
                } else {
                    effects.push(Effect::StartRecording);
                }
            },
            Message::RecordingStarted(result) => match result {
                Ok(()) => {
                    self.listening = true;
                    effects.push(Effect::Log(Line::Listening));
                },
                Err(e) => {
                    effects.push(Effect::Log(Line::Error(e.clone())));
                    effects.push(Effect::Notify(Line::CantRecord(e)));
                },
            },
            Message::RecordingStopped { typing, captured, model_on_disk, progress } => {
                match captured {
                    Err(e) => {
                        effects.push(Effect::Log(Line::Error(e)));
                    },
                    Ok(()) => {
                        if !model_on_disk {
                            effects.push(Effect::Log(dropped_clip(self.downloading, progress)));
                            effects.push(Effect::Notify(dropped_clip(self.downloading, progress)));
                            let mut offer = self.offer_model(false);
                            effects.append(&mut offer);
                        } else {
                            self.transcribing = true;
                            effects.push(
                                Effect::Transcribe {
                                    model: self.config.model.clone(),
                                    language: self.config.language.clone(),
                                    typing,
                                },
                            );
                        }
                    },
                }
            },
            Message::Transcribed { result, millis } => {
                self.transcribing = false;
                self.last_dictation_ms = Some(millis);
                match result {
                    Ok(text) => effects.push(Effect::Print(text)),
                    Err(e) => {
                        effects.push(Effect::Log(Line::Error(e.clone())));
                        effects.push(Effect::Notify(Line::DictationFailed(e)));
                    },
                }
            },
            Message::PopupToggled => {
                if self.popup_open {
                    self.popup_open = false;
                    effects.push(Effect::ClosePopup);
                } else {
                    self.popup_open = true;
                    effects.push(Effect::OpenPopup);
                }
            },
            Message::PopupClosed => {
                self.popup_open = false;
            },
        }
        effects
    }
}

fn dropped_clip(downloading: bool, progress: u8) -> (l: Line)
    ensures
        l == (if downloading { Line::StillDownloading(progress) } else { Line::NotDownloaded }),
{
    if downloading {
        Line::StillDownloading(progress)
    } else {
        Line::NotDownloaded
    }
}

/// The text to type after a transcription: the text and a trailing space
/// (so back-to-back dictations don't run together) when the toggle came
/// from the hotkey and something was said; nothing otherwise.
pub fn text_to_type(text: &str, typing: bool) -> (r: Option<String>)
    ensures
        typing && text@.len() > 0 ==> (r matches Some(t) && t@ == text@ + " "@),
        !(typing && text@.len() > 0) ==> r is None,
{
    if typing && !text.is_empty() {
        Some(cat(text, " "))
    } else {
        None
    }
}

/// Some effect in `es` starts a download.
pub open spec fn starts_download(es: Seq<Effect>) -> bool {
    exists|i: int| 0 <= i < es.len() && #[trigger] es[i] is Download
}

/// Some effect in `es` starts a transcription.
pub open spec fn starts_transcription(es: Seq<Effect>) -> bool {
    exists|i: int| 0 <= i < es.len() && #[trigger] es[i] is Transcribe
}

/// At most one download is in flight: while one runs no event starts
/// another, and `downloading` is set exactly when a download has been
/// started and its `ModelReady` has not come back.
pub proof fn law_downloading_flag(s: PanelState, m: Message)
    ensures
        s.downloading ==> !starts_download(next(s, m).1),
        next(s, m).0.downloading == (starts_download(next(s, m).1) || (s.downloading
            && !(m is ModelReady))),
{
    let r = next(s, m);
    if starts_download(r.1) {
        let i = choose|i: int| 0 <= i < r.1.len() && #[trigger] r.1[i] is Download;
        assert(r.1[i] is Download);
    }
    if m is DownloadAccepted && s.offer_pending && !s.downloading {
        assert(r.1[1] is Download);
    }
}

/// Nothing is downloaded without the user's say-so: the only event that
/// starts a download is the acceptance of a pending offer, and it then
/// fetches the configured model.
pub proof fn law_no_download_without_consent(s: PanelState, m: Message)
    ensures
        starts_download(next(s, m).1) ==> (m is DownloadAccepted && s.offer_pending
            && !s.downloading),
        m is DownloadAccepted && s.offer_pending && !s.downloading ==> next(s, m).1
            == seq![
            Effect::Notify(Line::DownloadStarted(s.config.model)),
            Effect::Download { model: s.config.model },
        ],
{
    let r = next(s, m);
    if starts_download(r.1) {
        let i = choose|i: int| 0 <= i < r.1.len() && #[trigger] r.1[i] is Download;
        assert(r.1[i] is Download);
    }
}

/// Starting up never downloads: a missing model is offered (a notification
/// and the popup), and the popup is shown with the offer pending.
pub proof fn law_start_only_offers(config: Config, model_on_disk: bool, keyboard: Result<(), String>)
    ensures
        !starts_download(spec_start(config, model_on_disk, keyboard).1),
        !spec_start(config, model_on_disk, keyboard).0.downloading,
        !model_on_disk ==> spec_start(config, model_on_disk, keyboard).0.offer_pending
            && spec_start(config, model_on_disk, keyboard).0.popup_open,
        model_on_disk ==> !spec_start(config, model_on_disk, keyboard).0.offer_pending,
{
    let r = spec_start(config, model_on_disk, keyboard);
    if starts_download(r.1) {
        let i = choose|i: int| 0 <= i < r.1.len() && #[trigger] r.1[i] is Download;
        assert(r.1[i] is Download);
    }
}

/// A missing model is offered, not fetched, when the settings switch to it.
pub proof fn law_config_change_only_offers(s: PanelState, config: Config)
    requires
        config.model@ != s.config.model@,
        !s.downloading,
    ensures
        next(s, Message::UpdateConfig { config, model_on_disk: false }).0.offer_pending,
        !next(s, Message::UpdateConfig { config, model_on_disk: false }).0.downloading,
        next(s, Message::UpdateConfig { config, model_on_disk: false }).1 == seq![
            Effect::Notify(Line::DownloadOffered(config.model)),
            Effect::Log(Line::ModelMissing(config.model)),
            Effect::OfferDownload { model: config.model },
        ],
{
}

/// `transcribing` is set exactly when a transcription has been started and
/// its `Transcribed` has not come back.
pub proof fn law_transcribing_flag(s: PanelState, m: Message)
    ensures
        next(s, m).0.transcribing == (starts_transcription(next(s, m).1) || (s.transcribing
            && !(m is Transcribed))),
{
    let r = next(s, m);
    if starts_transcription(r.1) {
        let i = choose|i: int| 0 <= i < r.1.len() && #[trigger] r.1[i] is Transcribe;
        assert(r.1[i] is Transcribe);
    }
    match m {
        Message::RecordingStopped { typing, captured, model_on_disk, progress } => {
            if captured is Ok && model_on_disk {
                assert(r.1[0] is Transcribe);
            }
        },
        _ => {},
    }
}

/// A clip recorded while the model is not on disk is dropped: nothing is
/// transcribed (or typed) for it.
pub proof fn law_clip_dropped_without_model(
    s: PanelState,
    typing: bool,
    captured: Result<(), String>,
    progress: u8,
)
    ensures
        !starts_transcription(
            next(s, Message::RecordingStopped { typing, captured, model_on_disk: false, progress }).1,
        ),
{
    let r = next(s, Message::RecordingStopped { typing, captured, model_on_disk: false, progress });
    if starts_transcription(r.1) {
        let i = choose|i: int| 0 <= i < r.1.len() && #[trigger] r.1[i] is Transcribe;
        assert(r.1[i] is Transcribe);
    }
}

/// Only a stopped recording starts a transcription, and it types the text
/// just when the toggle that stopped the recording came from the hotkey.
pub proof fn law_typing_follows_hotkey(s: PanelState, m: Message, i: int)
    requires
        0 <= i < next(s, m).1.len(),
        next(s, m).1[i] is Transcribe,
    ensures
        m is RecordingStopped,
        next(s, m).1[i]->Transcribe_typing == m->RecordingStopped_typing,
        next(s, m).1[i]->Transcribe_model == s.config.model,
{
}

/// Each toggle flips between listening and not: a toggle while listening
/// stops the recording, any other toggle asks to start one.
pub proof fn law_toggle_alternates(s: PanelState, typing: bool)
    ensures
        s.listening ==> next(s, Message::ToggleListening { typing }) == (
            PanelState { listening: false, ..s },
            seq![Effect::StopRecording { typing }],
        ),
        !s.listening ==> next(s, Message::ToggleListening { typing }) == (
            s,
            seq![Effect::StartRecording],
        ),
{
}

/// Settings changes apply live: after any settings change the state holds
/// the new settings, language included, whether or not the model changed,
/// and the next dictation is transcribed with the new model and language.
pub proof fn law_settings_apply_live(
    s: PanelState,
    config: Config,
    model_on_disk: bool,
    typing: bool,
    progress: u8,
)
    ensures
        next(s, Message::UpdateConfig { config, model_on_disk }).0.config == config,
        next(
            next(s, Message::UpdateConfig { config, model_on_disk }).0,
            Message::RecordingStopped { typing, captured: Ok(()), model_on_disk: true, progress },
        ).1 == seq![
            Effect::Transcribe { model: config.model, language: config.language, typing },
        ],
{
}

/// The popup's first line names the state the icon shows: "Listening"
/// with the recording icon, "Transcribing" with the spinner, the download
/// and its percentage with the download icon, and otherwise "Ready" or the
/// pending offer of the model.
pub proof fn law_status_matches_icon(s: PanelState)
    ensures
        status_lines(s).len() == 5,
        spec_icon(s) == Icon::Recording ==> status_lines(s)[0] == "Listening"@,
        spec_icon(s) == Icon::Transcribing ==> status_lines(s)[0] == "Transcribing"@,
        spec_icon(s) == Icon::Downloading ==> status_lines(s)[0] == "Downloading the model: "@
            + decimal(s.progress as nat) + "%"@,
        spec_icon(s) == Icon::Idle && s.offer_pending ==> status_lines(s)[0]
            == "The model isn't downloaded yet"@,
        spec_icon(s) == Icon::Idle && !s.offer_pending ==> status_lines(s)[0] == "Ready"@,
{
}

} // verus!
