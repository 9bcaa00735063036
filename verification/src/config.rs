//! The applet's persistent settings.

use vstd::prelude::*;
use vstd::string::StringExecFns;

verus! {

/// The model a fresh install uses: the large turbo model for a build with
/// a GPU backend (CUDA or Vulkan), the small English one for a CPU-only build.
pub fn default_model(gpu_build: bool) -> (m: &'static str)
    ensures
        gpu_build ==> m@ == "ggml-large-v3-turbo.bin"@,
        !gpu_build ==> m@ == "ggml-base.en.bin"@,
{
    if gpu_build {
        "ggml-large-v3-turbo.bin"
    } else {
        "ggml-base.en.bin"
    }
}

/// Settings that persist between runs.
#[derive(Debug, Clone, PartialEq, Eq)]
pub struct Config {
    /// File name of the ggml model inside the models directory.
    pub model: String,
    /// Spoken language passed to Whisper: "en", "de", ... or "auto" to detect.
    pub language: String,
}

/// This crate is built without a GPU backend, so its default is the
/// CPU model.
impl Default for Config {
    fn default() -> (c: Self)
        ensures
            c.model@ == "ggml-base.en.bin"@,
            c.language@ == "en"@,
    {
        Config { model: String::from_str(default_model(false)), language: String::from_str("en") }
    }
}

} // verus!
