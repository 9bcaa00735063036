//! Which parts of a recording are kept. A recording is cut into 20 ms
//! frames and each frame is judged loud or quiet against the recording's
//! own noise floor (that judgement, on samples, is the caller's); this
//! module decides from those judgements which frames go to Whisper: leading
//! and trailing silence is cut, long pauses are shortened, and a clip with
//! too little loud audio is dropped altogether.

use vstd::prelude::*;

verus! {

/// Samples per analysis frame: 20 ms at 16 kHz.
pub const FRAME: usize = 320;
/// Frames kept on either side of detected speech (300 ms).
pub const PAD_FRAMES: usize = 15;
/// Longest pause kept inside a recording, in frames (1 s).
pub const MAX_GAP_FRAMES: usize = 50;
/// Loud audio shorter than this many frames (300 ms) is a click, not speech;
/// the hotkey press itself shows up as one or two loud frames.
pub const MIN_SPEECH_FRAMES: usize = 15;

/// How many frames a recording of `samples` samples is cut into (the last
/// one may be short).
pub fn frame_count(samples: usize) -> (n: usize)
    ensures
        n == (samples + FRAME - 1) / FRAME as int,
{
    samples / FRAME + if samples % FRAME == 0 { 0 } else { 1 }
}

/// Index of the noise-floor frame among the frames sorted by loudness: the
/// 20th percentile, about the level of the room.
pub fn floor_index(frames: usize) -> (i: usize)
    ensures
        i == frames / 5,
{
    frames / 5
}

/// How many frames of `loud` are loud.
pub open spec fn loud_count(loud: Seq<bool>) -> nat
    decreases loud.len(),
{
    if loud.len() == 0 {
        0
    } else {
        loud_count(loud.drop_last()) + if loud.last() { 1nat } else { 0nat }
    }
}

/// Index of the first loud frame (the length when there is none).
pub open spec fn first_loud(loud: Seq<bool>) -> int
    decreases loud.len(),
{
    if loud.len() == 0 {
        0
    } else if loud[0] {
        0
    } else {
        1 + first_loud(loud.drop_first())
    }
}

/// Index of the last loud frame (-1 when there is none).
pub open spec fn last_loud(loud: Seq<bool>) -> int
    decreases loud.len(),
{
    if loud.len() == 0 {
        -1
    } else if loud.last() {
        loud.len() - 1
    } else {
        last_loud(loud.drop_last())
    }
}

/// First frame of the kept window: speech less the padding.
pub open spec fn window_start(loud: Seq<bool>) -> int {
    if first_loud(loud) >= PAD_FRAMES {
        first_loud(loud) - PAD_FRAMES
    } else {
        0
    }
}

/// One past the last frame of the kept window: speech plus the padding.
pub open spec fn window_end(loud: Seq<bool>) -> int {
    if last_loud(loud) + PAD_FRAMES + 1 <= loud.len() {
        last_loud(loud) + PAD_FRAMES + 1
    } else {
        loud.len() as int
    }
}

/// How many quiet frames in a row, within the window from `start`, end with
/// frame `i` (0 when frame `i` is loud).
pub open spec fn quiet_run(loud: Seq<bool>, start: int, i: int) -> nat
    decreases i - start,
{
    if i < start {
        0
    } else if loud[i] {
        0
    } else if i == start {
        1
    } else {
        quiet_run(loud, start, i - 1) + 1
    }
}

/// The frames of `[start, n)` that are kept, in order: every frame but
/// those deep inside a pause.
pub open spec fn kept_in(loud: Seq<bool>, start: int, n: int) -> Seq<int>
    decreases n - start,
{
    if n <= start {
        seq![]
    } else {
        kept_in(loud, start, n - 1) + if quiet_run(loud, start, n - 1) <= MAX_GAP_FRAMES {
            seq![n - 1]
        } else {
            seq![]
        }
    }
}

/// The frames of a recording that are kept, in order; none when too few
/// frames are loud to be speech.
pub open spec fn spec_speech_frames(loud: Seq<bool>) -> Seq<int> {
    if loud_count(loud) < MIN_SPEECH_FRAMES {
        seq![]
    } else {
        kept_in(loud, window_start(loud), window_end(loud))
    }
}

proof fn lemma_first_loud_bounds(loud: Seq<bool>)
    ensures
        0 <= first_loud(loud) <= loud.len(),
        first_loud(loud) < loud.len() ==> loud[first_loud(loud)],
        forall|j: int| 0 <= j < first_loud(loud) ==> !loud[j],
    decreases loud.len(),
{
    if loud.len() > 0 && !loud[0] {
        lemma_first_loud_bounds(loud.drop_first());
        assert forall|j: int| 0 <= j < first_loud(loud) implies !loud[j] by {
            if j > 0 {
                assert(loud[j] == loud.drop_first()[j - 1]);
            }
        }
    }
}

proof fn lemma_last_loud_bounds(loud: Seq<bool>)
    ensures
        -1 <= last_loud(loud) < loud.len(),
        last_loud(loud) >= 0 ==> loud[last_loud(loud)],
        forall|j: int| last_loud(loud) < j < loud.len() ==> !loud[j],
    decreases loud.len(),
{
    if loud.len() > 0 && !loud.last() {
        lemma_last_loud_bounds(loud.drop_last());
        assert forall|j: int| last_loud(loud) < j < loud.len() implies !loud[j] by {
            if j < loud.len() - 1 {
                assert(loud[j] == loud.drop_last()[j]);
            }
        }
    }
}

proof fn lemma_loud_count_positive(loud: Seq<bool>)
    requires
        loud_count(loud) > 0,
    ensures
        last_loud(loud) >= 0,
        first_loud(loud) <= last_loud(loud),
    decreases loud.len(),
{
    lemma_first_loud_bounds(loud);
    lemma_last_loud_bounds(loud);
    if !loud.last() {
        lemma_loud_count_positive(loud.drop_last());
        lemma_first_loud_bounds(loud.drop_last());
        if first_loud(loud) < loud.len() - 1 {
            assert(loud.drop_last()[first_loud(loud)] == loud[first_loud(loud)]);
        }
        assert(loud.drop_last()[last_loud(loud)] == loud[last_loud(loud)]);
        if first_loud(loud) > last_loud(loud) {
            assert(!loud[last_loud(loud)]);
        }
    } else if first_loud(loud) == loud.len() {
        assert(!loud[loud.len() - 1]);
    }
}

/// The indices of the frames to keep, in order. `loud[i]` tells whether
/// frame `i` rose above the recording's noise threshold.
pub fn speech_frames(loud: &Vec<bool>) -> (r: Vec<usize>)
    ensures
        r@.map_values(|i: usize| i as int) == spec_speech_frames(loud@),
{
    let n = loud.len();
    let mut count: usize = 0;
    let mut i: usize = 0;
    while i < n
        invariant
            i <= n == loud.len(),
            count == loud_count(loud@.take(i as int)),
            count <= i,
        decreases n - i,
    {
        assert(loud@.take(i + 1).drop_last() == loud@.take(i as int));
        if loud[i] {
            count = count + 1;
        }
        i = i + 1;
    }
    assert(loud@.take(n as int) == loud@);
    let mut r: Vec<usize> = Vec::new();
    if count < MIN_SPEECH_FRAMES {
        assert(r@.map_values(|i: usize| i as int) == Seq::<int>::empty());
        return r;
    }
    proof {
        lemma_loud_count_positive(loud@);
        lemma_first_loud_bounds(loud@);
        lemma_last_loud_bounds(loud@);
    }
    let mut first: usize = 0;
    while !loud[first]
        invariant
            first < n == loud.len(),
            first <= first_loud(loud@),
            first_loud(loud@) < n,
            loud@[first_loud(loud@)],
        decreases n - first,
    {
        first = first + 1;
    }
    let mut last: usize = n - 1;
    while !loud[last]
        invariant
            last < n == loud.len(),
            last >= last_loud(loud@) >= 0,
            loud@[last_loud(loud@)],
        decreases last,
    {
        last = last - 1;
    }
    let start = if first >= PAD_FRAMES { first - PAD_FRAMES } else { 0 };
    assert(first == first_loud(loud@));
    assert(last == last_loud(loud@));
    let end = if n - last > PAD_FRAMES { last + PAD_FRAMES + 1 } else { n };
    let mut quiet: usize = 0;
    let mut i = start;
    while i < end
        invariant
            start <= i <= end <= n == loud.len(),
            start == window_start(loud@),
            end == window_end(loud@),
            quiet == quiet_run(loud@, start as int, i - 1),
            quiet <= i,
            r@.map_values(|k: usize| k as int) == kept_in(loud@, start as int, i as int),
        decreases end - i,
    {
        if loud[i] {
            quiet = 0;
        } else {
            quiet = quiet + 1;
        }
        assert(quiet == quiet_run(loud@, start as int, i as int));
        if quiet <= MAX_GAP_FRAMES {
            let ghost before = r@;
            r.push(i);
            assert(r@.map_values(|k: usize| k as int) == before.map_values(|k: usize| k as int).push(
                i as int,
            ));
        }
        i = i + 1;
    }
    r
}

proof fn lemma_kept_in(loud: Seq<bool>, start: int, n: int)
    ensures
        forall|j: int|
            #![trigger kept_in(loud, start, n).contains(j)]
            kept_in(loud, start, n).contains(j) <==> (start <= j < n && quiet_run(loud, start, j)
                <= MAX_GAP_FRAMES),
        forall|a: int, b: int|
            0 <= a < b < kept_in(loud, start, n).len() ==> kept_in(loud, start, n)[a] < kept_in(
                loud,
                start,
                n,
            )[b],
    decreases n - start,
{
    if n > start {
        lemma_kept_in(loud, start, n - 1);
        let prev = kept_in(loud, start, n - 1);
        assert forall|j: int| prev.contains(j) implies j < n - 1 by {}
        if quiet_run(loud, start, n - 1) <= MAX_GAP_FRAMES {
            assert forall|j: int|
                #![trigger kept_in(loud, start, n).contains(j)]
                kept_in(loud, start, n).contains(j) <==> (start <= j < n && quiet_run(
                    loud,
                    start,
                    j,
                ) <= MAX_GAP_FRAMES) by {
                if j == n - 1 {
                    assert(kept_in(loud, start, n)[prev.len() as int] == j);
                }
                if kept_in(loud, start, n).contains(j) && j != n - 1 {
                    let k = choose|k: int|
                        0 <= k < kept_in(loud, start, n).len() && kept_in(loud, start, n)[k] == j;
                    assert(prev[k] == j);
                }
                if prev.contains(j) {
                    let k = choose|k: int| 0 <= k < prev.len() && prev[k] == j;
                    assert(kept_in(loud, start, n)[k] == j);
                }
            }
            assert forall|a: int, b: int|
                0 <= a < b < kept_in(loud, start, n).len() implies kept_in(loud, start, n)[a]
                < kept_in(loud, start, n)[b] by {
                if b == prev.len() {
                    assert(prev.contains(prev[a]));
                }
            }
        } else {
            assert(kept_in(loud, start, n) == prev);
        }
    }
}

proof fn lemma_quiet_run_grows(loud: Seq<bool>, start: int, k: int, m: int)
    requires
        0 <= m,
        start <= k - m,
        k < loud.len(),
        forall|j: int| k - m <= j <= k ==> !loud[j],
    ensures
        quiet_run(loud, start, k) >= m + 1,
    decreases m,
{
    if m > 0 {
        lemma_quiet_run_grows(loud, start, k - 1, m - 1);
    }
}

/// A clip with fewer than `MIN_SPEECH_FRAMES` loud frames (a click, the
/// hotkey itself, or nothing at all) is dropped entirely.
pub proof fn law_clicks_are_dropped(loud: Seq<bool>)
    requires
        loud_count(loud) < MIN_SPEECH_FRAMES,
    ensures
        spec_speech_frames(loud) == Seq::<int>::empty(),
{
}

/// Speech is never cut: when the clip has enough loud frames, every loud
/// frame is kept, and the kept frames keep their order in the recording.
pub proof fn law_speech_is_kept(loud: Seq<bool>, i: int)
    requires
        loud_count(loud) >= MIN_SPEECH_FRAMES,
        0 <= i < loud.len(),
        loud[i],
    ensures
        spec_speech_frames(loud).contains(i),
        forall|a: int, b: int|
            0 <= a < b < spec_speech_frames(loud).len() ==> spec_speech_frames(loud)[a]
                < spec_speech_frames(loud)[b],
{
    lemma_first_loud_bounds(loud);
    lemma_last_loud_bounds(loud);
    lemma_kept_in(loud, window_start(loud), window_end(loud));
}

/// Leading and trailing silence is cut: every kept frame lies within
/// `PAD_FRAMES` of the first and last loud frames.
pub proof fn law_silence_is_trimmed(loud: Seq<bool>, k: int)
    requires
        spec_speech_frames(loud).contains(k),
    ensures
        0 <= k < loud.len(),
        first_loud(loud) - PAD_FRAMES <= k <= last_loud(loud) + PAD_FRAMES,
{
    lemma_first_loud_bounds(loud);
    lemma_last_loud_bounds(loud);
    lemma_kept_in(loud, window_start(loud), window_end(loud));
}

/// Long pauses are shortened: a frame that ends more than `MAX_GAP_FRAMES`
/// quiet frames in a row inside the kept window is not kept.
pub proof fn law_pauses_are_shortened(loud: Seq<bool>, k: int)
    requires
        window_start(loud) <= k - MAX_GAP_FRAMES,
        k < loud.len(),
        forall|j: int| k - MAX_GAP_FRAMES <= j <= k ==> !loud[j],
    ensures
        !spec_speech_frames(loud).contains(k),
{
    lemma_quiet_run_grows(loud, window_start(loud), k, MAX_GAP_FRAMES as int);
    lemma_kept_in(loud, window_start(loud), window_end(loud));
}

} // verus!
