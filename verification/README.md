# GhostWhisper

Local speech-to-text dictation for the COSMIC desktop: press a hotkey, talk,
press it again, and the words are typed into the focused window.

- `src/` is the verified library. `panel` is the applet's state machine
  (toggle, record, transcribe, the status popup, and a download that starts
  only once the user accepts it), `typer` the US keymap and the key
  script that typing a text produces, `transcribe` the clean-up of Whisper's
  segments, `audio` the choice of frames kept from a recording, `model` the
  model paths and download bookkeeping, `cli` the command line, `text` the
  character helpers they share. The laws of `panel`, `typer`, `transcribe`,
  `audio` and `model` are proof functions named `law_*`; `cli`, `config`
  and `text` have exact contracts and no laws of their own.
- `app/` is the applet around it: the COSMIC runtime, microphone capture
  (cpal), inference (whisper-rs), the uinput keyboard (evdev), the download
  (ureq), D-Bus (zbus) and desktop notifications.
- `tests/` runs the library on concrete values.
