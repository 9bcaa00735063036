//! Turning what Whisper returns into dictation: dropping its markers for
//! "nothing said", splitting the text into sentences and collapsing the
//! runs of one sentence that it hallucinates over silence; plus the small
//! decisions taken before inference (clip length, language, threads).

use vstd::prelude::*;
use crate::text::{
    chars_of, is_whitespace, lowercase, spec_is_whitespace, string_of, to_lowercase,
    trim, trimmed,
};
use vstd::string::StringExecFns;

verus! {

/// Sample rate Whisper expects.
pub const WHISPER_RATE: u32 = 16_000;

/// Shortest clip handed to whisper.cpp, in samples (1.2 s); it refuses
/// anything under a second.
pub const MIN_CLIP_SAMPLES: usize = 19_200;

/// `s` is wrapped in `open` and `close`.
pub open spec fn wrapped(s: Seq<char>, open: char, close: char) -> bool {
    s.len() > 1 && s[0] == open && s.last() == close
}

/// `[BLANK_AUDIO]`, `(silence)`, `*music*`: Whisper's ways of saying
/// "nothing said".
pub open spec fn spec_is_marker(s: Seq<char>) -> bool {
    wrapped(s, '[', ']') || wrapped(s, '(', ')') || wrapped(s, '*', '*')
}

/// True when `segment` is one of Whisper's markers for "nothing said".
pub fn is_marker(segment: &str) -> (b: bool)
    ensures
        b == spec_is_marker(segment@),
{
    let v = chars_of(segment);
    let n = v.len();
    n > 1 && ((v[0] == '[' && v[n - 1] == ']') || (v[0] == '(' && v[n - 1] == ')') || (v[0]
        == '*' && v[n - 1] == '*'))
}

/// `c` followed by `rest` closes a sentence: it is `.`, `!` or `?` and
/// white space or the end of the text comes next.
pub open spec fn closes_sentence(c: char, rest: Seq<char>) -> bool {
    (c == '.' || c == '!' || c == '?') && (rest.len() == 0 || spec_is_whitespace(rest[0]))
}

/// The sentences of `cur + s`, where `cur` is the start of a sentence
/// already read. Each sentence keeps its characters (leading white space
/// included); a last piece with nothing but white space in it is dropped.
pub open spec fn split_from(cur: Seq<char>, s: Seq<char>) -> Seq<Seq<char>>
    decreases s.len(),
{
    if s.len() == 0 {
        if trim(cur).len() > 0 {
            seq![cur]
        } else {
            seq![]
        }
    } else if closes_sentence(s[0], s.drop_first()) {
        seq![cur.push(s[0])] + split_from(seq![], s.drop_first())
    } else {
        split_from(cur.push(s[0]), s.drop_first())
    }
}

/// The sentences of `s`.
pub open spec fn sentences(s: Seq<char>) -> Seq<Seq<char>> {
    split_from(seq![], s)
}

/// The characters of the strings of `v`.
pub open spec fn views(v: Seq<String>) -> Seq<Seq<char>> {
    v.map_values(|s: String| s@)
}

/// Splits `text` into its sentences.
pub fn split_sentences(text: &str) -> (r: Vec<String>)
    ensures
        views(r@) == sentences(text@),
{
    let v = chars_of(text);
    let mut out: Vec<String> = Vec::new();
    let mut start: usize = 0;
    let mut i: usize = 0;
    assert(v@.skip(0) == v@);
    assert(views(out@) == Seq::<Seq<char>>::empty());
    assert(v@.subrange(0, 0) == Seq::<char>::empty());
    assert(Seq::<Seq<char>>::empty() + sentences(text@) == sentences(text@));
    while i < v.len()
        invariant
            start <= i <= v.len(),
            v@ == text@,
            sentences(text@) == views(out@) + split_from(
                v@.subrange(start as int, i as int),
                v@.skip(i as int),
            ),
        decreases v.len() - i,
    {
        let ghost rest = v@.skip(i as int);
        assert(rest[0] == v@[i as int]);
        assert(rest.drop_first() == v@.skip(i + 1));
        assert(v@.subrange(start as int, i + 1) == v@.subrange(start as int, i as int).push(
            v@[i as int],
        ));
        let c = v[i];
        let closes = (c == '.' || c == '!' || c == '?') && (i + 1 == v.len() || is_whitespace(
            v[i + 1],
        ));
        i = i + 1;
        if closes {
            let ghost before = views(out@);
            out.push(string_of(&v, start, i));
            assert(views(out@) == before.push(v@.subrange(start as int, i as int)));
            assert(v@.subrange(i as int, i as int) == Seq::<char>::empty());
            start = i;
            assert(sentences(text@) == views(out@) + split_from(
                v@.subrange(start as int, i as int),
                v@.skip(i as int),
            ));
        }
    }
    let last = string_of(&v, start, v.len());
    let ghost before = views(out@);
    let (from, to) = crate::text::trim_bounds(&chars_of(last.as_str()));
    if from < to {
        out.push(last);
        assert(views(out@) == before.push(v@.subrange(start as int, v.len() as int)));
    }
    out
}

/// How many sentences in a row, ending with the `i`-th, share its key.
pub open spec fn run_len(keys: Seq<Seq<char>>, i: int) -> nat
    decreases i,
{
    if i > 0 && keys[i] == keys[i - 1] {
        run_len(keys, i - 1) + 1
    } else {
        1
    }
}

/// A sentence is kept unless two earlier copies of it (by key) come
/// directly before it.
pub open spec fn is_kept(keys: Seq<Seq<char>>, i: int) -> bool {
    run_len(keys, i) <= 2
}

/// The first `n` sentences that are kept, one after another.
pub open spec fn kept_text(sentences: Seq<Seq<char>>, keys: Seq<Seq<char>>, n: int) -> Seq<char>
    decreases n,
{
    if n <= 0 {
        seq![]
    } else {
        kept_text(sentences, keys, n - 1) + if is_kept(keys, n - 1) {
            sentences[n - 1]
        } else {
            seq![]
        }
    }
}

/// What is compared to find repeats: a sentence trimmed and lower-cased.
pub open spec fn sentence_key(s: Seq<char>) -> Seq<char> {
    lowercase(trim(s))
}

/// The key of each sentence.
pub open spec fn sentence_keys(parts: Seq<Seq<char>>) -> Seq<Seq<char>> {
    parts.map_values(|p: Seq<char>| sentence_key(p))
}

/// The text of `s` with each run of one sentence cut to two copies.
pub open spec fn collapsed(s: Seq<char>) -> Seq<char> {
    let parts = sentences(s);
    trim(kept_text(parts, sentence_keys(parts), parts.len() as int))
}

/// Joins `sentences`, leaving out every sentence that is the third or later
/// in a row with the same key, and trims the result. `keys[i]` is the key
/// of `sentences[i]`.
pub fn collapse_with_keys(sentences: &Vec<String>, keys: &Vec<String>) -> (r: String)
    requires
        sentences.len() == keys.len(),
    ensures
        r@ == trim(kept_text(views(sentences@), views(keys@), sentences.len() as int)),
{
    let ghost ks = views(keys@);
    let ghost ss = views(sentences@);
    let mut out = String::new();
    let mut run: usize = 0;
    let mut i: usize = 0;
    while i < sentences.len()
        invariant
            i <= sentences.len() == keys.len(),
            ks == views(keys@),
            ss == views(sentences@),
            out@ == kept_text(ss, ks, i as int),
            i > 0 ==> run == run_len(ks, i - 1),
            run <= i,
        decreases sentences.len() - i,
    {
        if i > 0 && keys[i] == keys[i - 1] {
            run = run + 1;
        } else {
            run = 1;
        }
        assert(run == run_len(ks, i as int));
        if run <= 2 {
            out.append(sentences[i].as_str());
        }
        i = i + 1;
    }
    trimmed(out.as_str())
}

/// Keeps at most two consecutive copies of the same sentence (compared
/// trimmed and lower-cased). Saying "No. No." on purpose survives; a
/// hallucinated "Thank you." twenty times over does not.
pub fn collapse_repeats(text: &str) -> (r: String)
    ensures
        r@ == collapsed(text@),
{
    let parts = split_sentences(text);
    let mut keys: Vec<String> = Vec::new();
    let mut i: usize = 0;
    while i < parts.len()
        invariant
            i <= parts.len(),
            views(keys@) == sentence_keys(views(parts@).take(i as int)),
        decreases parts.len() - i,
    {
        let t = trimmed(parts[i].as_str());
        let key = to_lowercase(t.as_str());
        let ghost before = views(keys@);
        keys.push(key);
        assert(views(keys@) == before.push(key@));
        assert(sentence_keys(views(parts@).take(i + 1)) == sentence_keys(
            views(parts@).take(i as int),
        ).push(sentence_key(views(parts@)[i as int])));
        i = i + 1;
    }
    assert(views(parts@).take(parts.len() as int) == views(parts@));
    collapse_with_keys(&parts, &keys)
}

/// The strings of `ss` one after another.
pub open spec fn joined(ss: Seq<Seq<char>>) -> Seq<char>
    decreases ss.len(),
{
    if ss.len() == 0 {
        seq![]
    } else {
        joined(ss.drop_last()) + ss.last()
    }
}

/// Every character of `s` is white space.
pub open spec fn all_whitespace(s: Seq<char>) -> bool {
    forall|i: int| 0 <= i < s.len() ==> spec_is_whitespace(#[trigger] s[i])
}

proof fn lemma_joined_front(x: Seq<char>, r: Seq<Seq<char>>)
    ensures
        joined(seq![x] + r) == x + joined(r),
    decreases r.len(),
{
    if r.len() == 0 {
        assert(seq![x] + r == seq![x]);
        assert(seq![x].drop_last() == Seq::<Seq<char>>::empty());
        assert(Seq::<char>::empty() + x == x);
        assert(x + Seq::<char>::empty() == x);
        assert(joined(Seq::<Seq<char>>::empty()) == Seq::<char>::empty());
        assert(seq![x].last() == x);
        assert(joined(seq![x]) == x);
    } else {
        lemma_joined_front(x, r.drop_last());
        assert((seq![x] + r).drop_last() == seq![x] + r.drop_last());
        assert((seq![x] + r).last() == r.last());
        assert(x + joined(r.drop_last()) + r.last() == x + (joined(r.drop_last()) + r.last()));
    }
}

proof fn lemma_trim_start_empty_all_ws(s: Seq<char>)
    requires
        crate::text::trim_start(s).len() == 0,
    ensures
        all_whitespace(s),
    decreases s.len(),
{
    if s.len() > 0 {
        lemma_trim_start_empty_all_ws(s.drop_first());
        assert forall|i: int| 0 <= i < s.len() implies spec_is_whitespace(#[trigger] s[i]) by {
            if i > 0 {
                assert(s[i] == s.drop_first()[i - 1]);
            }
        }
    }
}

proof fn lemma_trim_end_of_whitespace(x: Seq<char>, w: Seq<char>)
    requires
        all_whitespace(w),
    ensures
        crate::text::trim_end(x + w) == crate::text::trim_end(x),
    decreases w.len(),
{
    if w.len() > 0 {
        assert((x + w).last() == w[w.len() - 1]);
        assert((x + w).drop_last() == x + w.drop_last());
        lemma_trim_end_of_whitespace(x, w.drop_last());
    } else {
        assert(x + w == x);
    }
}

proof fn lemma_trim_start_append(x: Seq<char>, y: Seq<char>)
    ensures
        crate::text::trim_start(x).len() > 0 ==> crate::text::trim_start(x + y)
            == crate::text::trim_start(x) + y,
        crate::text::trim_start(x).len() == 0 ==> crate::text::trim_start(x + y)
            == crate::text::trim_start(y),
    decreases x.len(),
{
    if x.len() == 0 {
        assert(x + y == y);
    } else {
        assert((x + y)[0] == x[0]);
        assert((x + y).drop_first() == x.drop_first() + y);
        lemma_trim_start_append(x.drop_first(), y);
    }
}

proof fn lemma_trim_all_ws(w: Seq<char>)
    requires
        all_whitespace(w),
    ensures
        crate::text::trim_start(w).len() == 0,
    decreases w.len(),
{
    if w.len() > 0 {
        assert forall|i: int| 0 <= i < w.drop_first().len() implies spec_is_whitespace(
            #[trigger] w.drop_first()[i],
        ) by {
            assert(w.drop_first()[i] == w[i + 1]);
        }
        lemma_trim_all_ws(w.drop_first());
    }
}

/// Trailing white space does not change what trimming gives.
proof fn lemma_trim_ignores_ws_tail(x: Seq<char>, w: Seq<char>)
    requires
        all_whitespace(w),
    ensures
        trim(x + w) == trim(x),
{
    lemma_trim_start_append(x, w);
    if crate::text::trim_start(x).len() > 0 {
        lemma_trim_end_of_whitespace(crate::text::trim_start(x), w);
    } else {
        lemma_trim_all_ws(w);
    }
}

/// Splitting loses nothing but a tail of white space: the sentences of
/// `cur + s`, joined, are a prefix of it followed only by white space.
proof fn lemma_split_joined(cur: Seq<char>, s: Seq<char>)
    ensures
        joined(split_from(cur, s)).len() <= (cur + s).len(),
        joined(split_from(cur, s)) == (cur + s).take(joined(split_from(cur, s)).len() as int),
        all_whitespace((cur + s).skip(joined(split_from(cur, s)).len() as int)),
    decreases s.len(),
{
    let whole = cur + s;
    let j = joined(split_from(cur, s));
    if s.len() == 0 {
        assert(whole == cur);
        if trim(cur).len() > 0 {
            assert(seq![cur].drop_last() == Seq::<Seq<char>>::empty());
            assert(Seq::<char>::empty() + cur == cur);
            assert(joined(Seq::<Seq<char>>::empty()) == Seq::<char>::empty());
            assert(seq![cur].last() == cur);
            assert(j == cur);
            assert(whole.skip(cur.len() as int) == Seq::<char>::empty());
        } else {
            assert(j == Seq::<char>::empty());
            if crate::text::trim_start(cur).len() > 0 {
                lemma_trim_start_first(cur);
                lemma_trim_end_nonempty(crate::text::trim_start(cur));
            }
            lemma_trim_start_empty_all_ws(cur);
            assert(whole.skip(0) == whole);
        }
    } else {
        let rest = s.drop_first();
        assert(cur + s == cur.push(s[0]) + rest);
        if closes_sentence(s[0], rest) {
            let p = cur.push(s[0]);
            lemma_split_joined(seq![], rest);
            lemma_joined_front(p, split_from(seq![], rest));
            let jr = joined(split_from(seq![], rest));
            assert(seq![] + rest == rest);
            assert(j == p + jr);
            assert(whole.take(j.len() as int) == p + rest.take(jr.len() as int));
            assert(whole.skip(j.len() as int) == rest.skip(jr.len() as int));
        } else {
            lemma_split_joined(cur.push(s[0]), rest);
        }
    }
}

proof fn lemma_trim_start_first(s: Seq<char>)
    requires
        crate::text::trim_start(s).len() > 0,
    ensures
        !spec_is_whitespace(crate::text::trim_start(s)[0]),
    decreases s.len(),
{
    if s.len() > 0 && spec_is_whitespace(s[0]) {
        lemma_trim_start_first(s.drop_first());
    }
}

proof fn lemma_trim_end_nonempty(s: Seq<char>)
    requires
        s.len() > 0,
        !spec_is_whitespace(s[0]),
    ensures
        crate::text::trim_end(s).len() > 0,
    decreases s.len(),
{
    if s.len() > 1 && spec_is_whitespace(s.last()) {
        assert(s.drop_last()[0] == s[0]);
        lemma_trim_end_nonempty(s.drop_last());
    }
}

/// Joining the sentences of a text and trimming gives the trimmed text.
proof fn lemma_sentences_cover(s: Seq<char>)
    ensures
        trim(joined(sentences(s))) == trim(s),
{
    lemma_split_joined(seq![], s);
    let j = joined(sentences(s));
    assert(seq![] + s == s);
    assert(s == j + s.skip(j.len() as int));
    lemma_trim_ignores_ws_tail(j, s.skip(j.len() as int));
}

proof fn lemma_kept_all(ss: Seq<Seq<char>>, keys: Seq<Seq<char>>, n: int)
    requires
        0 <= n <= ss.len(),
        forall|i: int| 0 <= i < n ==> is_kept(keys, i),
    ensures
        kept_text(ss, keys, n) == joined(ss.take(n)),
    decreases n,
{
    if n > 0 {
        lemma_kept_all(ss, keys, n - 1);
        assert(ss.take(n).drop_last() == ss.take(n - 1));
    } else {
        assert(ss.take(0) == Seq::<Seq<char>>::empty());
    }
}

/// When no sentence comes three or more times in a row, collapsing changes
/// nothing but the white space around the text.
pub proof fn law_collapse_keeps_short_runs(s: Seq<char>)
    requires
        forall|i: int|
            0 <= i < sentences(s).len() ==> #[trigger] is_kept(sentence_keys(sentences(s)), i),
    ensures
        collapsed(s) == trim(s),
{
    let parts = sentences(s);
    lemma_kept_all(parts, sentence_keys(parts), parts.len() as int);
    assert(parts.take(parts.len() as int) == parts);
    lemma_sentences_cover(s);
}

/// The `i`-th sentence of `s`, trimmed and lower-cased, equals the one
/// before it.
pub open spec fn repeats_previous(s: Seq<char>, i: int) -> bool {
    lowercase(trim(sentences(s)[i])) == lowercase(trim(sentences(s)[i - 1]))
}

/// A sentence is left out only as the third copy in a row: when no
/// sentence's whole trimmed, lower-cased text equals that of the two before
/// it, collapsing keeps every sentence and changes nothing but the white
/// space around the text. In particular a sentence that differs anywhere
/// from the one before it is always kept.
pub proof fn law_collapse_drops_only_third_copies(s: Seq<char>)
    requires
        forall|i: int|
            2 <= i < sentences(s).len() ==> !(#[trigger] repeats_previous(s, i) && repeats_previous(
                s,
                i - 1,
            )),
    ensures
        collapsed(s) == trim(s),
{
    let parts = sentences(s);
    let keys = sentence_keys(parts);
    assert forall|i: int| 0 <= i < parts.len() implies #[trigger] is_kept(keys, i) by {
        assert(keys[i] == lowercase(trim(parts[i])));
        if i >= 1 {
            assert(keys[i - 1] == lowercase(trim(parts[i - 1])));
        }
        if i >= 2 {
            assert(keys[i - 2] == lowercase(trim(parts[i - 2])));
            assert(!(repeats_previous(s, i) && repeats_previous(s, i - 1)));
        }
        if i >= 1 && keys[i] == keys[i - 1] {
            if i >= 2 && keys[i - 1] == keys[i - 2] {
                assert(false);
            }
            assert(run_len(keys, i - 1) == 1);
        }
    }
    law_collapse_keeps_short_runs(s);
}

proof fn lemma_dropped_run(keys: Seq<Seq<char>>, a: int, b: int)
    requires
        0 <= a < b < keys.len(),
        forall|m: int| a < m < b ==> !#[trigger] is_kept(keys, m),
        keys[b] == keys[a],
    ensures
        run_len(keys, b) >= run_len(keys, a) + 1,
    decreases b - a,
{
    if b == a + 1 {
    } else {
        // sentence a + 1 is dropped, so it repeats a: the run grows through it
        assert(!is_kept(keys, a + 1));
        assert(keys[a + 1] == keys[a]);
        lemma_dropped_run(keys, a + 1, b);
    }
}

/// In what is kept, no sentence comes three times in a row: for three kept
/// sentences with only dropped ones between them, the keys are not all equal.
pub proof fn law_collapse_no_triples(keys: Seq<Seq<char>>, i: int, j: int, k: int)
    requires
        0 <= i < j < k < keys.len(),
        is_kept(keys, i),
        is_kept(keys, j),
        is_kept(keys, k),
        forall|m: int| i < m < j ==> !#[trigger] is_kept(keys, m),
        forall|m: int| j < m < k ==> !#[trigger] is_kept(keys, m),
    ensures
        !(keys[i] == keys[j] && keys[j] == keys[k]),
{
    if keys[i] == keys[j] && keys[j] == keys[k] {
        lemma_dropped_run(keys, i, j);
        lemma_dropped_run(keys, j, k);
    }
}

/// `x` holds a character that is not white space.
pub open spec fn has_text(x: Seq<char>) -> bool {
    exists|j: int| 0 <= j < x.len() && !spec_is_whitespace(#[trigger] x[j])
}

/// Index of the first character of `x` that is not white space.
spec fn text_start(x: Seq<char>) -> int
    decreases x.len(),
{
    if x.len() == 0 {
        0
    } else if !spec_is_whitespace(x[0]) {
        0
    } else {
        1 + text_start(x.drop_first())
    }
}

/// One past the last character of `x` that is not white space.
spec fn text_end(x: Seq<char>) -> int
    decreases x.len(),
{
    if x.len() == 0 {
        0
    } else if !spec_is_whitespace(x.last()) {
        x.len() as int
    } else {
        text_end(x.drop_last())
    }
}

proof fn lemma_text_start(x: Seq<char>)
    ensures
        0 <= text_start(x) <= x.len(),
        forall|j: int| 0 <= j < text_start(x) ==> spec_is_whitespace(#[trigger] x[j]),
        text_start(x) < x.len() ==> !spec_is_whitespace(x[text_start(x)]),
    decreases x.len(),
{
    if x.len() > 0 && spec_is_whitespace(x[0]) {
        lemma_text_start(x.drop_first());
        assert forall|j: int| 0 <= j < text_start(x) implies spec_is_whitespace(#[trigger] x[j]) by {
            if j > 0 {
                assert(x[j] == x.drop_first()[j - 1]);
            }
        }
    }
}

proof fn lemma_text_end(x: Seq<char>)
    ensures
        0 <= text_end(x) <= x.len(),
        forall|j: int| text_end(x) <= j < x.len() ==> spec_is_whitespace(#[trigger] x[j]),
        text_end(x) > 0 ==> !spec_is_whitespace(x[text_end(x) - 1]),
    decreases x.len(),
{
    if x.len() > 0 && spec_is_whitespace(x.last()) {
        lemma_text_end(x.drop_last());
        assert forall|j: int| text_end(x) <= j < x.len() implies spec_is_whitespace(
            #[trigger] x[j],
        ) by {
            if j < x.len() - 1 {
                assert(x[j] == x.drop_last()[j]);
            }
        }
    }
}

proof fn lemma_text_bounds(x: Seq<char>)
    requires
        has_text(x),
    ensures
        0 <= text_start(x) < text_end(x) <= x.len(),
{
    lemma_text_start(x);
    lemma_text_end(x);
    let j = choose|j: int| 0 <= j < x.len() && !spec_is_whitespace(#[trigger] x[j]);
    assert(!spec_is_whitespace(x[j]));
}

proof fn lemma_trim_start_at(w: Seq<char>, f: int)
    requires
        0 <= f <= w.len(),
        forall|j: int| 0 <= j < f ==> spec_is_whitespace(#[trigger] w[j]),
        f < w.len() ==> !spec_is_whitespace(w[f]),
    ensures
        crate::text::trim_start(w) == w.skip(f),
    decreases f,
{
    if f == 0 {
        assert(w.skip(0) == w);
    } else {
        assert(spec_is_whitespace(w[0]));
        assert forall|j: int| 0 <= j < f - 1 implies spec_is_whitespace(
            #[trigger] w.drop_first()[j],
        ) by {
            assert(w.drop_first()[j] == w[j + 1]);
        }
        if f - 1 < w.drop_first().len() {
            assert(w.drop_first()[f - 1] == w[f]);
        }
        lemma_trim_start_at(w.drop_first(), f - 1);
        assert(w.drop_first().skip(f - 1) == w.skip(f));
    }
}

proof fn lemma_trim_end_at(w: Seq<char>, e: int)
    requires
        0 <= e <= w.len(),
        forall|j: int| e <= j < w.len() ==> spec_is_whitespace(#[trigger] w[j]),
        e > 0 ==> !spec_is_whitespace(w[e - 1]),
    ensures
        crate::text::trim_end(w) == w.take(e),
    decreases w.len() - e,
{
    if e == w.len() {
        assert(w.take(e) == w);
        if w.len() > 0 {
            assert(w.last() == w[e - 1]);
        }
    } else {
        assert(spec_is_whitespace(w[w.len() - 1]));
        assert forall|j: int| e <= j < w.drop_last().len() implies spec_is_whitespace(
            #[trigger] w.drop_last()[j],
        ) by {
            assert(w.drop_last()[j] == w[j]);
        }
        if e > 0 {
            assert(w.drop_last()[e - 1] == w[e - 1]);
        }
        lemma_trim_end_at(w.drop_last(), e);
        assert(w.drop_last().take(e) == w.take(e));
    }
}

/// Trimming any stretch of `y` that covers its text gives the text of `y`.
proof fn lemma_trim_sub(y: Seq<char>, a: int, b: int)
    requires
        has_text(y),
        0 <= a <= text_start(y),
        text_end(y) <= b <= y.len(),
    ensures
        trim(y.subrange(a, b)) == y.subrange(text_start(y), text_end(y)),
{
    lemma_text_start(y);
    lemma_text_end(y);
    lemma_text_bounds(y);
    let f = text_start(y);
    let e = text_end(y);
    let w = y.subrange(a, b);
    assert forall|j: int| 0 <= j < f - a implies spec_is_whitespace(#[trigger] w[j]) by {
        assert(w[j] == y[a + j]);
    }
    assert(w[f - a] == y[f]);
    lemma_trim_start_at(w, f - a);
    let v = w.skip(f - a);
    assert(v == y.subrange(f, b));
    assert forall|j: int| e - f <= j < v.len() implies spec_is_whitespace(#[trigger] v[j]) by {
        assert(v[j] == y[f + j]);
    }
    assert(v[e - f - 1] == y[e - 1]);
    lemma_trim_end_at(v, e - f);
    assert(v.take(e - f) == y.subrange(f, e));
}

/// `.`, `!` or `?`: a character that can close a sentence.
pub open spec fn is_closer(c: char) -> bool {
    c == '.' || c == '!' || c == '?'
}

/// No sentence closes inside `x` (before its last character).
pub open spec fn no_inner_close(x: Seq<char>) -> bool {
    forall|j: int|
        0 <= j < x.len() - 1 ==> !(is_closer(#[trigger] x[j]) && spec_is_whitespace(x[j + 1]))
}

/// `ps` is a list of sentences as splitting produces them: each has text
/// and no inner close, each but the last ends with a closer, each but the
/// first starts with white space.
pub open spec fn well_split(ps: Seq<Seq<char>>) -> bool {
    &&& forall|i: int| 0 <= i < ps.len() ==> #[trigger] has_text(ps[i]) && no_inner_close(ps[i])
    &&& forall|i: int| 0 <= i < ps.len() - 1 ==> is_closer(#[trigger] ps[i].last())
    &&& forall|i: int| 0 < i < ps.len() ==> spec_is_whitespace(#[trigger] ps[i][0])
}

proof fn lemma_walk(cur: Seq<char>, x: Seq<char>, rest: Seq<char>)
    requires
        x.len() >= 1,
        no_inner_close(x),
    ensures
        split_from(cur, x + rest) == split_from(cur + x.drop_last(), seq![x.last()] + rest),
    decreases x.len(),
{
    if x.len() == 1 {
        assert(cur + x.drop_last() == cur);
        assert(x == seq![x.last()]);
    } else {
        let y = x.drop_first();
        assert((x + rest)[0] == x[0]);
        assert((x + rest).drop_first() == y + rest);
        assert((y + rest)[0] == x[1]);
        assert(!(is_closer(x[0]) && spec_is_whitespace(x[1])));
        assert forall|j: int| 0 <= j < y.len() - 1 implies !(is_closer(#[trigger] y[j])
            && spec_is_whitespace(y[j + 1])) by {
            assert(y[j] == x[j + 1]);
            assert(y[j + 1] == x[j + 2]);
        }
        lemma_walk(cur.push(x[0]), y, rest);
        assert(cur.push(x[0]) + y.drop_last() == cur + x.drop_last());
        assert(y.last() == x.last());
    }
}

proof fn lemma_has_text_trim(x: Seq<char>)
    requires
        has_text(x),
    ensures
        trim(x).len() > 0,
{
    lemma_text_bounds(x);
    lemma_trim_sub(x, 0, x.len() as int);
    assert(x.subrange(0, x.len() as int) == x);
}

proof fn lemma_trim_has_text(x: Seq<char>)
    requires
        trim(x).len() > 0,
    ensures
        has_text(x),
{
    if !has_text(x) {
        assert(all_whitespace(x)) by {
            assert forall|i: int| 0 <= i < x.len() implies spec_is_whitespace(#[trigger] x[i]) by {
                if !spec_is_whitespace(x[i]) {
                    assert(has_text(x));
                }
            }
        }
        lemma_trim_all_ws(x);
    }
}

/// Splitting well-split sentences, joined, gives them back.
proof fn lemma_resplit(ps: Seq<Seq<char>>)
    requires
        well_split(ps),
    ensures
        split_from(seq![], joined(ps)) == ps,
    decreases ps.len(),
{
    if ps.len() == 0 {
        assert(trim(Seq::<char>::empty()).len() == 0);
    } else {
        let x = ps[0];
        let r = ps.drop_first();
        assert(ps == seq![x] + r);
        lemma_joined_front(x, r);
        assert(well_split(r)) by {
            assert forall|i: int| 0 <= i < r.len() implies #[trigger] has_text(r[i])
                && no_inner_close(r[i]) by {
                assert(r[i] == ps[i + 1]);
            }
            assert forall|i: int| 0 <= i < r.len() - 1 implies is_closer(#[trigger] r[i].last()) by {
                assert(r[i] == ps[i + 1]);
            }
            assert forall|i: int| 0 < i < r.len() implies spec_is_whitespace(#[trigger] r[i][0]) by {
                assert(r[i] == ps[i + 1]);
            }
        }
        lemma_resplit(r);
        let jr = joined(r);
        assert(has_text(ps[0]) && no_inner_close(ps[0]));
        let j = choose|j: int| 0 <= j < x.len() && !spec_is_whitespace(#[trigger] x[j]);
        assert(joined(ps) == x + jr);
        lemma_walk(seq![], x, jr);
        let c0 = Seq::<char>::empty() + x.drop_last();
        assert(c0 == x.drop_last());
        let s1 = seq![x.last()] + jr;
        assert(s1[0] == x.last());
        assert(s1.drop_first() == jr);
        assert(c0.push(x.last()) == x);
        assert(split_from(seq![], joined(ps)) == split_from(c0, s1));
        if r.len() > 0 {
            assert(is_closer(ps[0].last()));
            assert(r[0] == ps[1]);
            assert(has_text(r[0]));
            let k = choose|k: int| 0 <= k < r[0].len() && !spec_is_whitespace(#[trigger] r[0][k]);
            assert(r[0].len() > 0);
            lemma_joined_front(r[0], r.drop_first());
            assert(r == seq![r[0]] + r.drop_first());
            assert(jr == r[0] + joined(r.drop_first()));
            assert(spec_is_whitespace(ps[1][0]));
            assert(jr[0] == r[0][0]);
            assert(closes_sentence(x.last(), jr));
            assert(split_from(c0, s1) == seq![x] + split_from(seq![], jr));
        } else {
            assert(jr == Seq::<char>::empty());
            assert(ps == seq![x]);
            if is_closer(x.last()) {
                assert(closes_sentence(x.last(), jr));
                assert(split_from(seq![], jr) == Seq::<Seq<char>>::empty()) by {
                    assert(trim(Seq::<char>::empty()).len() == 0);
                }
                assert(split_from(c0, s1) == seq![x] + Seq::<Seq<char>>::empty());
                assert(seq![x] + Seq::<Seq<char>>::empty() == seq![x]);
            } else {
                lemma_has_text_trim(x);
                assert(!closes_sentence(x.last(), jr));
                assert(split_from(c0, s1) == split_from(x, jr));
            }
        }
    }
}

/// What splitting yields is well split; its first sentence starts where
/// the text does.
proof fn lemma_split_well(cur: Seq<char>, s: Seq<char>)
    requires
        no_inner_close(cur),
        cur.len() > 0 ==> !closes_sentence(cur.last(), s),
    ensures
        well_split(split_from(cur, s)),
        split_from(cur, s).len() > 0 ==> split_from(cur, s)[0].len() > 0 && split_from(cur, s)[0][0]
            == (cur + s)[0],
    decreases s.len(),
{
    let p = split_from(cur, s);
    if s.len() == 0 {
        if trim(cur).len() > 0 {
            lemma_trim_has_text(cur);
            assert(cur + s == cur);
        }
    } else {
        let c = s[0];
        let rest = s.drop_first();
        let x = cur.push(c);
        assert(no_inner_close(x)) by {
            assert forall|j: int| 0 <= j < x.len() - 1 implies !(is_closer(#[trigger] x[j])
                && spec_is_whitespace(x[j + 1])) by {
                if j < cur.len() - 1 {
                    assert(x[j] == cur[j]);
                    assert(x[j + 1] == cur[j + 1]);
                } else {
                    assert(x[j] == cur.last());
                    assert(x[j + 1] == c);
                }
            }
        }
        assert((cur + s)[0] == x[0]);
        if closes_sentence(c, rest) {
            lemma_split_well(seq![], rest);
            let q = split_from(seq![], rest);
            assert(p == seq![x] + q);
            assert(x.last() == c);
            assert(has_text(x)) by {
                assert(!spec_is_whitespace(x[x.len() - 1]));
            }
            assert(forall|i: int| 0 <= i < q.len() ==> #[trigger] has_text(q[i]) && no_inner_close(q[i]));
            assert forall|i: int| 0 <= i < p.len() implies #[trigger] has_text(p[i]) && no_inner_close(p[i]) by {
                if i > 0 {
                    assert(p[i] == q[i - 1]);
                }
            }
            assert forall|i: int| 0 <= i < p.len() - 1 implies is_closer(#[trigger] p[i].last()) by {
                if i > 0 {
                    assert(p[i] == q[i - 1]);
                }
            }
            assert forall|i: int| 0 < i < p.len() implies spec_is_whitespace(#[trigger] p[i][0]) by {
                assert(p[i] == q[i - 1]);
                if i == 1 {
                    assert(rest.len() > 0);
                    assert(Seq::<char>::empty() + rest == rest);
                }
            }
        } else {
            lemma_split_well(x, rest);
            assert(x + rest == cur + s);
        }
    }
}

/// The first `n` sentences that are kept, as a list.
pub open spec fn kept_seq(ps: Seq<Seq<char>>, keys: Seq<Seq<char>>, n: int) -> Seq<Seq<char>>
    decreases n,
{
    if n <= 0 {
        seq![]
    } else {
        kept_seq(ps, keys, n - 1) + if is_kept(keys, n - 1) {
            seq![ps[n - 1]]
        } else {
            seq![]
        }
    }
}

proof fn lemma_joined_push(a: Seq<Seq<char>>, x: Seq<char>)
    ensures
        joined(a.push(x)) == joined(a) + x,
{
    assert(a.push(x).drop_last() == a);
}

proof fn lemma_kept_text_is_joined(ps: Seq<Seq<char>>, keys: Seq<Seq<char>>, n: int)
    ensures
        kept_text(ps, keys, n) == joined(kept_seq(ps, keys, n)),
    decreases n,
{
    if n > 0 {
        lemma_kept_text_is_joined(ps, keys, n - 1);
        let a = kept_seq(ps, keys, n - 1);
        if is_kept(keys, n - 1) {
            assert(a + seq![ps[n - 1]] == a.push(ps[n - 1]));
            lemma_joined_push(a, ps[n - 1]);
        } else {
            assert(a + Seq::<Seq<char>>::empty() == a);
            assert(joined(a) + Seq::<char>::empty() == joined(a));
        }
    }
}

proof fn lemma_kept_well_split(ps: Seq<Seq<char>>, keys: Seq<Seq<char>>, n: int)
    requires
        well_split(ps),
        0 <= n <= ps.len(),
    ensures
        well_split(kept_seq(ps, keys, n)),
        kept_seq(ps, keys, n).len() > 0 ==> exists|i: int|
            0 <= i < n && kept_seq(ps, keys, n).last() == #[trigger] ps[i],
    decreases n,
{
    if n > 0 {
        lemma_kept_well_split(ps, keys, n - 1);
        let a = kept_seq(ps, keys, n - 1);
        let b = kept_seq(ps, keys, n);
        if is_kept(keys, n - 1) {
            let x = ps[n - 1];
            assert(b == a.push(x));
            assert(b.last() == ps[n - 1]);
            if a.len() > 0 {
                let i = choose|i: int| 0 <= i < n - 1 && a.last() == #[trigger] ps[i];
                assert(is_closer(ps[i].last()));
                assert(spec_is_whitespace(ps[n - 1][0]));
            }
            assert forall|j: int| 0 <= j < b.len() implies #[trigger] has_text(b[j])
                && no_inner_close(b[j]) by {
                if j < a.len() {
                    assert(b[j] == a[j]);
                }
            }
            assert forall|j: int| 0 <= j < b.len() - 1 implies is_closer(#[trigger] b[j].last()) by {
                assert(b[j] == a[j]);
            }
            assert forall|j: int| 0 < j < b.len() implies spec_is_whitespace(#[trigger] b[j][0]) by {
                if j < a.len() {
                    assert(b[j] == a[j]);
                }
            }
        } else {
            assert(b == a);
            if b.len() > 0 {
                let i = choose|i: int| 0 <= i < n - 1 && a.last() == #[trigger] ps[i];
                assert(b.last() == ps[i]);
            }
        }
    }
}

proof fn lemma_kept_keys(ps: Seq<Seq<char>>, n: int)
    requires
        0 <= n <= ps.len(),
    ensures
        sentence_keys(kept_seq(ps, sentence_keys(ps), n)) == kept_seq(
            sentence_keys(ps),
            sentence_keys(ps),
            n,
        ),
    decreases n,
{
    if n > 0 {
        lemma_kept_keys(ps, n - 1);
        let k = sentence_keys(ps);
        let a = kept_seq(ps, k, n - 1);
        if is_kept(k, n - 1) {
            assert(kept_seq(ps, k, n) == a.push(ps[n - 1]));
            assert(kept_seq(k, k, n) == kept_seq(k, k, n - 1).push(k[n - 1]));
            assert(sentence_keys(a.push(ps[n - 1])) == sentence_keys(a).push(
                sentence_key(ps[n - 1]),
            ));
        } else {
            assert(kept_seq(ps, k, n) == a);
            assert(kept_seq(k, k, n) == kept_seq(k, k, n - 1));
        }
    }
}

proof fn lemma_run_len_prefix(a: Seq<Seq<char>>, y: Seq<char>, j: int)
    requires
        0 <= j < a.len(),
    ensures
        run_len(a.push(y), j) == run_len(a, j),
    decreases j,
{
    if j > 0 {
        lemma_run_len_prefix(a, y, j - 1);
    }
}

/// What is kept has no run of three: every kept key's run, counted among
/// the kept keys alone, is at most two.
proof fn lemma_kept_runs(k: Seq<Seq<char>>, n: int)
    requires
        0 <= n <= k.len(),
    ensures
        forall|j: int|
            0 <= j < kept_seq(k, k, n).len() ==> #[trigger] run_len(kept_seq(k, k, n), j) <= 2,
        kept_seq(k, k, n).len() > 0 ==> exists|m: int|
            0 <= m < n && is_kept(k, m) && kept_seq(k, k, n).last() == #[trigger] k[m] && (forall|
                x: int,
            | m < x < n ==> !#[trigger] is_kept(k, x)) && run_len(
                kept_seq(k, k, n),
                kept_seq(k, k, n).len() - 1,
            ) <= run_len(k, m),
    decreases n,
{
    if n > 0 {
        lemma_kept_runs(k, n - 1);
        let f = kept_seq(k, k, n - 1);
        let g = kept_seq(k, k, n);
        if is_kept(k, n - 1) {
            assert(g == f.push(k[n - 1]));
            assert forall|j: int| 0 <= j < g.len() implies #[trigger] run_len(g, j) <= 2 by {
                if j < f.len() {
                    lemma_run_len_prefix(f, k[n - 1], j);
                } else if f.len() > 0 && g[j] == g[j - 1] {
                    let m = choose|m: int|
                        0 <= m < n - 1 && is_kept(k, m) && f.last() == #[trigger] k[m] && (forall|
                            x: int,
                        | m < x < n - 1 ==> !#[trigger] is_kept(k, x)) && run_len(f, f.len() - 1)
                            <= run_len(k, m);
                    lemma_run_len_prefix(f, k[n - 1], f.len() - 1);
                    assert(k[n - 1] == k[m]);
                    lemma_dropped_run(k, m, n - 1);
                }
            }
            let L = f.len() as int;
            if L > 0 && g[L] == g[L - 1] {
                let m = choose|m: int|
                    0 <= m < n - 1 && is_kept(k, m) && f.last() == #[trigger] k[m] && (forall|
                        x: int,
                    | m < x < n - 1 ==> !#[trigger] is_kept(k, x)) && run_len(f, f.len() - 1)
                        <= run_len(k, m);
                lemma_run_len_prefix(f, k[n - 1], f.len() - 1);
                lemma_dropped_run(k, m, n - 1);
            }
            assert(g.last() == k[n - 1]);
            assert(run_len(g, g.len() - 1) <= run_len(k, n - 1));
        } else {
            assert(g == f);
            if g.len() > 0 {
                let m = choose|m: int|
                    0 <= m < n - 1 && is_kept(k, m) && f.last() == #[trigger] k[m] && (forall|
                        x: int,
                    | m < x < n - 1 ==> !#[trigger] is_kept(k, x)) && run_len(f, f.len() - 1)
                        <= run_len(k, m);
                assert(forall|x: int| m < x < n ==> !#[trigger] is_kept(k, x));
            }
        }
    }
}

proof fn lemma_no_inner_close_sub(x: Seq<char>, a: int, b: int)
    requires
        no_inner_close(x),
        0 <= a <= b <= x.len(),
    ensures
        no_inner_close(x.subrange(a, b)),
{
    let y = x.subrange(a, b);
    assert forall|j: int| 0 <= j < y.len() - 1 implies !(is_closer(#[trigger] y[j])
        && spec_is_whitespace(y[j + 1])) by {
        assert(y[j] == x[a + j]);
        assert(y[j + 1] == x[a + j + 1]);
    }
}

/// The text of `x` (trimmed) and the ends cut from it.
proof fn lemma_trim_parts(x: Seq<char>)
    requires
        has_text(x),
    ensures
        crate::text::trim_start(x) == x.subrange(text_start(x), x.len() as int),
        crate::text::trim_end(x) == x.subrange(0, text_end(x)),
        trim(x) == x.subrange(text_start(x), text_end(x)),
        trim(crate::text::trim_start(x)) == trim(x),
        trim(crate::text::trim_end(x)) == trim(x),
        trim(trim(x)) == trim(x),
        has_text(crate::text::trim_start(x)),
        has_text(crate::text::trim_end(x)),
        has_text(trim(x)),
{
    lemma_text_start(x);
    lemma_text_end(x);
    lemma_text_bounds(x);
    let f = text_start(x);
    let e = text_end(x);
    lemma_trim_start_at(x, f);
    assert(x.skip(f) == x.subrange(f, x.len() as int));
    lemma_trim_end_at(x, e);
    assert(x.take(e) == x.subrange(0, e));
    lemma_trim_sub(x, 0, x.len() as int);
    assert(x.subrange(0, x.len() as int) == x);
    lemma_trim_sub(x, f, x.len() as int);
    lemma_trim_sub(x, 0, e);
    lemma_trim_sub(x, f, e);
    assert(x.subrange(f, x.len() as int)[0] == x[f]);
    assert(x.subrange(0, e)[e - 1] == x[e - 1]);
    assert(x.subrange(f, e)[0] == x[f]);
}

proof fn lemma_trim_end_append(a: Seq<char>, b: Seq<char>)
    requires
        has_text(b),
    ensures
        crate::text::trim_end(a + b) == a + crate::text::trim_end(b),
{
    lemma_text_end(b);
    lemma_text_bounds(b);
    let e = text_end(b);
    let w = a + b;
    assert forall|j: int| a.len() + e <= j < w.len() implies spec_is_whitespace(#[trigger] w[j]) by {
        assert(w[j] == b[j - a.len()]);
    }
    assert(w[a.len() + e - 1] == b[e - 1]);
    lemma_trim_end_at(w, a.len() + e);
    lemma_trim_end_at(b, e);
    assert(w.take(a.len() + e) == a + b.take(e));
}

/// The kept sentences with the white space cut from the front of the
/// first and the back of the last: what trimming their join leaves.
pub open spec fn trimmed_ends(k: Seq<Seq<char>>) -> Seq<Seq<char>> {
    if k.len() == 0 {
        k
    } else if k.len() == 1 {
        seq![trim(k[0])]
    } else {
        k.update(0, crate::text::trim_start(k[0])).update(
            k.len() - 1,
            crate::text::trim_end(k.last()),
        )
    }
}

#[verifier::rlimit(40)]
proof fn lemma_trimmed_ends(k: Seq<Seq<char>>)
    requires
        well_split(k),
        k.len() > 0,
    ensures
        well_split(trimmed_ends(k)),
        joined(trimmed_ends(k)) == trim(joined(k)),
        sentence_keys(trimmed_ends(k)) == sentence_keys(k),
        has_text(joined(k)),
{
    let t = trimmed_ends(k);
    let x = k[0];
    assert(has_text(x) && no_inner_close(x));
    lemma_trim_parts(x);
    lemma_joined_front(x, k.drop_first());
    assert(k == seq![x] + k.drop_first());
    let jx = choose|j: int| 0 <= j < x.len() && !spec_is_whitespace(#[trigger] x[j]);
    assert((x + joined(k.drop_first()))[jx] == x[jx]);
    assert(has_text(joined(k)));
    lemma_text_start(x);
    lemma_text_bounds(x);
    lemma_trim_start_at(x, text_start(x));
    lemma_trim_start_append(x, joined(k.drop_first()));
    if k.len() == 1 {
        assert(k.drop_first() == Seq::<Seq<char>>::empty());
        assert(joined(k) == x + Seq::<char>::empty());
        assert(x + Seq::<char>::empty() == x);
        lemma_joined_push(Seq::<Seq<char>>::empty(), trim(x));
        assert(seq![trim(x)] == Seq::<Seq<char>>::empty().push(trim(x)));
        assert(Seq::<char>::empty() + trim(x) == trim(x));
        lemma_no_inner_close_sub(x, text_start(x), text_end(x));
        assert(sentence_keys(t) == sentence_keys(k));
    } else {
        let d = k.drop_first();
        let y = k.last();
        assert(has_text(k[k.len() - 1]) && no_inner_close(k[k.len() - 1]));
        assert(d.last() == y);
        lemma_trim_parts(y);
        lemma_text_end(y);
        lemma_text_bounds(y);
        let a = crate::text::trim_start(x) + joined(d.drop_last());
        assert(joined(d) == joined(d.drop_last()) + y);
        assert(crate::text::trim_start(x) + joined(d) == a + y);
        lemma_trim_end_append(a, y);
        assert(trim(joined(k)) == a + crate::text::trim_end(y));
        let d2 = t.drop_first();
        assert(t == seq![crate::text::trim_start(x)] + d2);
        lemma_joined_front(crate::text::trim_start(x), d2);
        assert(d2.drop_last() == d.drop_last());
        assert(d2.last() == crate::text::trim_end(y));
        assert(joined(d2) == joined(d2.drop_last()) + d2.last());
        assert(joined(t) == trim(joined(k)));
        // the ends keep their shape
        lemma_no_inner_close_sub(x, text_start(x), x.len() as int);
        lemma_no_inner_close_sub(y, 0, text_end(y));
        assert(crate::text::trim_start(x).last() == x.last());
        assert(crate::text::trim_end(y)[0] == y[0]);
        assert forall|i: int| 0 <= i < t.len() implies #[trigger] has_text(t[i]) && no_inner_close(
            t[i],
        ) by {
            if 0 < i < t.len() - 1 {
                assert(t[i] == k[i]);
            }
        }
        assert forall|i: int| 0 <= i < t.len() - 1 implies is_closer(#[trigger] t[i].last()) by {
            if i > 0 {
                assert(t[i] == k[i]);
            }
            assert(is_closer(k[0].last()));
        }
        assert forall|i: int| 0 < i < t.len() implies spec_is_whitespace(#[trigger] t[i][0]) by {
            if i < t.len() - 1 {
                assert(t[i] == k[i]);
            }
            assert(spec_is_whitespace(k[k.len() - 1][0]));
        }
        assert forall|i: int| 0 <= i < t.len() implies #[trigger] sentence_keys(t)[i]
            == sentence_keys(k)[i] by {
            if 0 < i < t.len() - 1 {
                assert(t[i] == k[i]);
            }
        }
        assert(sentence_keys(t) == sentence_keys(k));
    }
}

/// Collapsing twice is collapsing once: what collapsing keeps has no run
/// of three left, and splitting it again finds the same sentences.
pub proof fn law_collapse_idempotent(s: Seq<char>)
    ensures
        collapsed(collapsed(s)) == collapsed(s),
{
    let ps = sentences(s);
    let k = sentence_keys(ps);
    let n = ps.len() as int;
    lemma_split_well(seq![], s);
    lemma_kept_well_split(ps, k, n);
    lemma_kept_text_is_joined(ps, k, n);
    let kk = kept_seq(ps, k, n);
    let c1 = collapsed(s);
    assert(c1 == trim(joined(kk)));
    if kk.len() == 0 {
        assert(joined(kk) == Seq::<char>::empty());
        assert(trim(Seq::<char>::empty()) == Seq::<char>::empty());
        assert(sentences(Seq::<char>::empty()) == Seq::<Seq<char>>::empty());
    } else {
        lemma_trimmed_ends(kk);
        let t = trimmed_ends(kk);
        lemma_resplit(t);
        assert(sentences(c1) == t);
        lemma_kept_keys(ps, n);
        lemma_kept_runs(k, n);
        assert(sentence_keys(t) == kept_seq(k, k, n));
        assert forall|i: int| 0 <= i < t.len() implies #[trigger] is_kept(sentence_keys(t), i) by {
            assert(run_len(kept_seq(k, k, n), i) <= 2);
        }
        lemma_kept_all(t, sentence_keys(t), t.len() as int);
        assert(t.take(t.len() as int) == t);
        lemma_trim_parts(joined(kk));
        assert(collapsed(c1) == trim(joined(t)));
    }
}

/// The segments among the first `n` of `pieces` that are not markers (once
/// trimmed), joined.
pub open spec fn unmarked(pieces: Seq<Seq<char>>, n: int) -> Seq<char>
    decreases n,
{
    if n <= 0 {
        seq![]
    } else {
        unmarked(pieces, n - 1) + if spec_is_marker(trim(pieces[n - 1])) {
            seq![]
        } else {
            pieces[n - 1]
        }
    }
}

/// The dictation that Whisper's segments amount to.
pub open spec fn spec_transcript(pieces: Seq<Seq<char>>) -> Seq<char> {
    collapsed(trim(unmarked(pieces, pieces.len() as int)))
}

/// The text of a transcription from the segments Whisper produced (those
/// it rated too likely to be non-speech already left out): markers are
/// dropped, the rest joined and trimmed, repeated sentences collapsed.
pub fn transcript(pieces: &Vec<String>) -> (r: String)
    ensures
        r@ == spec_transcript(views(pieces@)),
{
    let ghost ps = views(pieces@);
    let mut text = String::new();
    let mut i: usize = 0;
    while i < pieces.len()
        invariant
            i <= pieces.len(),
            ps == views(pieces@),
            text@ == unmarked(ps, i as int),
        decreases pieces.len() - i,
    {
        let t = trimmed(pieces[i].as_str());
        if !is_marker(t.as_str()) {
            text.append(pieces[i].as_str());
        }
        i = i + 1;
    }
    let t = trimmed(text.as_str());
    collapse_repeats(t.as_str())
}

/// The language handed to Whisper: `None` (detect it) for "auto", the
/// configured code otherwise.
pub fn whisper_language(language: &str) -> (r: Option<String>)
    ensures
        language@ == "auto"@ ==> r is None,
        language@ != "auto"@ ==> (r matches Some(l) && l@ == language@),
{
    if crate::text::same_text(language, "auto") {
        None
    } else {
        Some(String::from_str(language))
    }
}

/// How many samples the clip handed to Whisper holds: `None` when the clip
/// is empty (nothing above the noise floor, so the model is not run at
/// all), otherwise the clip padded with silence to `MIN_CLIP_SAMPLES`.
pub fn clip_length(samples: usize) -> (r: Option<usize>)
    ensures
        samples == 0 ==> r is None,
        samples > 0 && samples < MIN_CLIP_SAMPLES ==> r == Some(MIN_CLIP_SAMPLES),
        samples >= MIN_CLIP_SAMPLES ==> r == Some(samples),
{
    if samples == 0 {
        None
    } else if samples < MIN_CLIP_SAMPLES {
        Some(MIN_CLIP_SAMPLES)
    } else {
        Some(samples)
    }
}

/// Threads for inference: the available parallelism (4 when unknown),
/// at most 16.
pub fn thread_count(available: Option<usize>) -> (r: i32)
    ensures
        available is None ==> r == 4,
        available matches Some(n) ==> r == (if n > 16 { 16 } else { n as i32 }),
{
    let n = match available {
        Some(n) => n,
        None => 4,
    };
    if n > 16 {
        16
    } else {
        n as i32
    }
}

} // verus!
