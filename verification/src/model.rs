//! Model files: where they live, where they are fetched from, and the
//! bookkeeping of a download (progress, and whether it ended early).
//! Paths are handled as text; joining follows `PathBuf::push` on Unix.

use vstd::prelude::*;
use crate::text::{chars_of, cat, decimal, to_decimal};
use vstd::string::StringExecFns;

verus! {

/// Where the models are published.
pub const BASE_URL: &'static str = "https://huggingface.co/ggerganov/whisper.cpp/resolve/main";

/// `part` adjoined to `base`: an absolute `part` replaces `base`; otherwise
/// a `/` goes between them unless `base` is empty or already ends with one.
pub open spec fn spec_join(base: Seq<char>, part: Seq<char>) -> Seq<char> {
    if part.len() > 0 && part[0] == '/' {
        part
    } else if base.len() == 0 || base.last() == '/' {
        base + part
    } else {
        base + seq!['/'] + part
    }
}

/// `part` adjoined to `base`, as `Path::join` does on Unix.
pub fn join(base: &str, part: &str) -> (r: String)
    ensures
        r@ == spec_join(base@, part@),
{
    let b = chars_of(base);
    let p = chars_of(part);
    if p.len() > 0 && p[0] == '/' {
        String::from_str(part)
    } else if b.len() == 0 || b[b.len() - 1] == '/' {
        cat(base, part)
    } else {
        let mut r = cat(base, "/");
        proof {
            reveal_strlit("/");
        }
        r.append(part);
        r
    }
}

/// The directory model files live in: `$XDG_DATA_HOME/ghostwhisper/models`,
/// else `$HOME/.local/share/ghostwhisper/models`, else
/// `./ghostwhisper/models`.
pub open spec fn spec_models_dir(xdg_data_home: Option<Seq<char>>, home: Option<Seq<char>>) -> Seq<
    char,
> {
    let base = match xdg_data_home {
        Some(x) => x,
        None => match home {
            Some(h) => spec_join(h, ".local/share"@),
            None => "."@,
        },
    };
    spec_join(spec_join(base, "ghostwhisper"@), "models"@)
}

/// The characters of an optional string.
pub open spec fn opt_view(s: Option<String>) -> Option<Seq<char>> {
    match s {
        Some(s) => Some(s@),
        None => None,
    }
}

/// Where model files live, given the values of `XDG_DATA_HOME` and `HOME`.
pub fn models_dir(xdg_data_home: Option<String>, home: Option<String>) -> (r: String)
    ensures
        r@ == spec_models_dir(opt_view(xdg_data_home), opt_view(home)),
{
    let base = match xdg_data_home {
        Some(x) => x,
        None => match home {
            Some(h) => join(h.as_str(), ".local/share"),
            None => String::from_str("."),
        },
    };
    let app = join(base.as_str(), "ghostwhisper");
    join(app.as_str(), "models")
}

/// The path of the model file `name` inside the models directory `dir`.
pub fn path_for(dir: &str, name: &str) -> (r: String)
    ensures
        r@ == spec_join(dir@, name@),
{
    join(dir, name)
}

/// Where the model `name` is downloaded from.
pub fn model_url(name: &str) -> (r: String)
    ensures
        r@ == BASE_URL@ + "/"@ + name@,
{
    let a = cat(BASE_URL, "/");
    cat(a.as_str(), name)
}

/// What making sure a model is on disk comes to.
#[derive(Debug, PartialEq, Eq)]
pub enum Ensure {
    /// The model is there, at this path.
    Ready(String),
    /// The model must be fetched from `url`, streamed into `part` (the
    /// path with `.part` appended) and then moved to `path`, so a killed
    /// download never leaves a truncated model behind.
    Fetch { url: String, part: String, path: String },
}

/// Makes sure `name` is on disk in `dir`; `on_disk` tells whether its
/// file is there already.
pub fn ensure(dir: &str, name: &str, on_disk: bool) -> (r: Ensure)
    ensures
        on_disk ==> (r matches Ensure::Ready(p) && p@ == spec_join(dir@, name@)),
        !on_disk ==> (r matches Ensure::Fetch { url, part, path } && url@ == BASE_URL@ + "/"@
            + name@ && path@ == spec_join(dir@, name@) && part@ == path@ + ".part"@),
{
    let path = path_for(dir, name);
    if on_disk {
        Ensure::Ready(path)
    } else {
        let part = cat(path.as_str(), ".part");
        Ensure::Fetch { url: model_url(name), part, path }
    }
}

/// The value of the decimal digits `s`.
pub open spec fn digits_value(s: Seq<char>) -> nat
    decreases s.len(),
{
    if s.len() == 0 {
        0
    } else {
        digits_value(s.drop_last()) * 10 + (s.last() as nat - '0' as nat) as nat
    }
}

/// Every character of `s` is an ASCII digit.
pub open spec fn all_digits(s: Seq<char>) -> bool {
    forall|i: int| 0 <= i < s.len() ==> '0' <= #[trigger] s[i] && s[i] <= '9'
}

/// What `str::parse::<u64>` gives: an optional `+` and then one or more
/// ASCII digits whose value fits in a `u64`; nothing else parses.
pub open spec fn spec_parse_u64(s: Seq<char>) -> Option<u64> {
    let d = if s.len() > 0 && s[0] == '+' {
        s.drop_first()
    } else {
        s
    };
    if d.len() > 0 && all_digits(d) && digits_value(d) <= u64::MAX {
        Some(digits_value(d) as u64)
    } else {
        None
    }
}

proof fn lemma_digits_value_grows(s: Seq<char>, i: int)
    requires
        0 <= i <= s.len(),
        all_digits(s),
    ensures
        digits_value(s.take(i)) <= digits_value(s),
    decreases s.len() - i,
{
    if i < s.len() {
        lemma_digits_value_grows(s, i + 1);
        assert(s.take(i + 1).drop_last() == s.take(i));
    } else {
        assert(s.take(i) == s);
    }
}

/// Parses a `Content-Length` value as `str::parse::<u64>` does.
pub fn parse_content_length(s: &str) -> (r: Option<u64>)
    ensures
        r == spec_parse_u64(s@),
{
    let v = chars_of(s);
    let from: usize = if v.len() > 0 && v[0] == '+' { 1 } else { 0 };
    let ghost d = if s@.len() > 0 && s@[0] == '+' { s@.drop_first() } else { s@ };
    assert(d == v@.skip(from as int));
    if from == v.len() {
        return None;
    }
    let mut value: u64 = 0;
    let mut i = from;
    while i < v.len()
        invariant
            from <= i <= v.len(),
            v@ == s@,
            d == (if s@.len() > 0 && s@[0] == '+' { s@.drop_first() } else { s@ }),
            d.len() > 0,
            d == v@.skip(from as int),
            all_digits(d.take(i - from)),
            value == digits_value(d.take(i - from)),
        decreases v.len() - i,
    {
        let c = v[i];
        assert(d[i - from] == c);
        if !('0' <= c && c <= '9') {
            assert(!all_digits(d));
            return None;
        }
        assert(d.take(i - from + 1).drop_last() == d.take(i - from));
        let digit = (c as u32 - '0' as u32) as u64;
        if value > (u64::MAX - digit) / 10 {
            assert(value * 10 + digit > u64::MAX) by (nonlinear_arith)
                requires
                    value > (u64::MAX - digit) / 10,
                    digit < 10,
            ;
            assert(digits_value(d.take(i - from + 1)) == value * 10 + digit);
            proof {
                if all_digits(d) {
                    lemma_digits_value_grows(d, i - from + 1);
                }
            }
            return None;
        }
        value = value * 10 + digit;
        i = i + 1;
    }
    assert(d.take(d.len() as int) == d);
    Some(value)
}

/// How far a download has come.
#[derive(Debug, Clone, Copy, PartialEq, Eq)]
pub struct Progress {
    /// Bytes received so far.
    pub done: u64,
    /// Bytes announced by the server, when it said.
    pub total: Option<u64>,
    /// The last percentage written to the log.
    pub last_logged: u8,
}

/// What one received chunk changes: the percentage to publish, when the
/// size is known, and whether to log it (each new tenth is logged once).
#[derive(Debug, Clone, Copy, PartialEq, Eq)]
pub struct ChunkReport {
    pub percent: Option<u8>,
    pub log: bool,
}

/// The percentage of `done` out of `total`, at most 100.
pub open spec fn spec_percent(done: nat, total: nat) -> nat {
    if done * 100 / total > 100 {
        100
    } else {
        done * 100 / total
    }
}

/// The progress after `n` more bytes, and its report.
pub open spec fn spec_advance(p: Progress, n: u64) -> (Progress, ChunkReport) {
    let done = (p.done + n) as u64;
    match p.total {
        Some(t) => if t > 0 {
            let pct = spec_percent(done as nat, t as nat) as u8;
            let log = pct / 10 > p.last_logged / 10;
            (
                Progress { done, total: p.total, last_logged: if log { pct } else { p.last_logged } },
                ChunkReport { percent: Some(pct), log },
            )
        } else {
            (Progress { done, ..p }, ChunkReport { percent: None, log: false })
        },
        None => (Progress { done, ..p }, ChunkReport { percent: None, log: false }),
    }
}

impl Progress {
    /// A download that has just started; `total` is the announced size.
    pub fn new(total: Option<u64>) -> (p: Progress)
        ensures
            p == (Progress { done: 0, total, last_logged: 0 }),
    {
        Progress { done: 0, total, last_logged: 0 }
    }

    /// Records `n` more bytes received.
    pub fn advance(&mut self, n: u64) -> (r: ChunkReport)
        requires
            old(self).done + n <= u64::MAX,
            old(self).total matches Some(t) && t > 0 ==> (old(self).done + n) * 100 <= u64::MAX,
        ensures
            (*final(self), r) == spec_advance(*old(self), n),
    {
        self.done = self.done + n;
        match self.total {
            Some(t) => {
                if t > 0 {
                    let q = self.done * 100 / t;
                    let pct: u8 = if q > 100 { 100 } else { q as u8 };
                    let log = pct / 10 > self.last_logged / 10;
                    if log {
                        self.last_logged = pct;
                    }
                    ChunkReport { percent: Some(pct), log }
                } else {
                    ChunkReport { percent: None, log: false }
                }
            },
            None => ChunkReport { percent: None, log: false },
        }
    }

    /// Checks, once the server has stopped sending, that everything it
    /// announced arrived.
    pub fn finish(&self, name: &str) -> (r: Result<(), String>)
        ensures
            (self.total matches Some(t) && self.done != t) ==> (r matches Err(e) && e@
                == "download of "@ + name@ + " ended early: "@ + decimal(self.done as nat)
                + " of "@ + decimal(self.total->0 as nat) + " bytes"@),
            !(self.total matches Some(t) && self.done != t) ==> r is Ok,
    {
        match self.total {
            Some(t) => {
                if self.done != t {
                    let a = cat("download of ", name);
                    let b = cat(a.as_str(), " ended early: ");
                    let d = to_decimal(self.done);
                    let c = cat(b.as_str(), d.as_str());
                    let e = cat(c.as_str(), " of ");
                    let tt = to_decimal(t);
                    let f = cat(e.as_str(), tt.as_str());
                    return Err(cat(f.as_str(), " bytes"));
                }
                Ok(())
            },
            None => Ok(()),
        }
    }
}

/// Progress only moves forward: the byte count grows by what arrived, the
/// published percentage never exceeds 100, and the logged percentage never
/// goes back, so each tenth is logged at most once.
pub proof fn law_progress_moves_forward(p: Progress, n: u64)
    requires
        p.done + n <= u64::MAX,
    ensures
        spec_advance(p, n).0.done == p.done + n,
        spec_advance(p, n).0.total == p.total,
        spec_advance(p, n).1.percent matches Some(x) ==> x <= 100,
        spec_advance(p, n).0.last_logged >= p.last_logged,
        spec_advance(p, n).1.log ==> spec_advance(p, n).0.last_logged / 10 > p.last_logged / 10,
{
}

/// The download never writes to the model's own path: the file it streams
/// into differs from the file the model ends up in.
pub proof fn law_part_file_is_not_the_model(path: Seq<char>)
    ensures
        path + ".part"@ != path,
{
    reveal_strlit(".part");
    assert((path + ".part"@).len() == path.len() + 5);
}

/// The published percentage never goes down while bytes arrive: after two
/// chunks it is at least what it was after the first.
pub proof fn law_percent_never_decreases(p: Progress, n: u64, m: u64)
    requires
        p.done + n + m <= u64::MAX,
        spec_advance(p, n).1.percent is Some,
    ensures
        spec_advance(spec_advance(p, n).0, m).1.percent is Some,
        spec_advance(p, n).1.percent->0 <= spec_advance(spec_advance(p, n).0, m).1.percent->0,
{
    let t = p.total->0 as nat;
    let a = (p.done + n) as nat;
    let b = (p.done + n + m) as nat;
    assert(a * 100 <= b * 100) by (nonlinear_arith)
        requires
            a <= b,
    ;
    vstd::arithmetic::div_mod::lemma_div_is_ordered((a * 100) as int, (b * 100) as int, t as int);
}

} // verus!
