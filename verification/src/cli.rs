//! What the command line asks for.

use vstd::prelude::*;
use crate::text::same_text;
use vstd::string::StringExecFns;

verus! {

/// What a run of the program does.
#[derive(Debug, PartialEq, Eq)]
pub enum Command {
    /// `--toggle`: poke the running applet over D-Bus and exit. This is
    /// what the hotkey runs.
    Toggle,
    /// `--type some words`: type the words with the virtual keyboard and
    /// exit, to exercise typing without Whisper.
    Type(String),
    /// Run the applet; `ignored` is an unknown first argument, if any.
    Run { ignored: Option<String> },
}

/// The strings of `words` with a single space between neighbours.
pub open spec fn spaced(words: Seq<Seq<char>>) -> Seq<char>
    decreases words.len(),
{
    if words.len() == 0 {
        seq![]
    } else if words.len() == 1 {
        words[0]
    } else {
        spaced(words.drop_last()) + " "@ + words.last()
    }
}

/// The characters of each string.
pub open spec fn arg_views(args: Seq<String>) -> Seq<Seq<char>> {
    args.map_values(|a: String| a@)
}

/// Reads the command line: the arguments after the program's name.
pub fn parse_args(args: &Vec<String>) -> (c: Command)
    ensures
        args.len() == 0 ==> c == (Command::Run { ignored: None }),
        args.len() > 0 && args@[0]@ == "--toggle"@ ==> c == Command::Toggle,
        args.len() > 0 && args@[0]@ == "--type"@ ==> (c matches Command::Type(t) && t@ == spaced(
            arg_views(args@).drop_first(),
        )),
        args.len() > 0 && args@[0]@ != "--toggle"@ && args@[0]@ != "--type"@ ==> (c matches Command::Run {
            ignored: Some(a),
        } && a@ == args@[0]@),
{
    if args.len() == 0 {
        return Command::Run { ignored: None };
    }
    if same_text(args[0].as_str(), "--toggle") {
        proof {
            reveal_strlit("--toggle");
            reveal_strlit("--type");
            assert("--toggle"@[3] != "--type"@[3]);
        }
        return Command::Toggle;
    }
    if !same_text(args[0].as_str(), "--type") {
        return Command::Run { ignored: Some(String::from_str(args[0].as_str())) };
    }
    let ghost rest = arg_views(args@).drop_first();
    let mut text = String::new();
    let mut i: usize = 1;
    proof {
        reveal_strlit(" ");
    }
    while i < args.len()
        invariant
            1 <= i <= args.len(),
            rest == arg_views(args@).drop_first(),
            text@ == spaced(rest.take(i - 1)),
        decreases args.len() - i,
    {
        assert(rest.take(i as int).drop_last() == rest.take(i - 1));
        assert(rest[i - 1] == args@[i as int]@);
        if i > 1 {
            text.append(" ");
        } else {
            assert(rest.take(0) == Seq::<Seq<char>>::empty());
            assert(text@ + args@[i as int]@ == args@[i as int]@);
        }
        text.append(args[i].as_str());
        i = i + 1;
    }
    assert(rest.take(args.len() - 1) == rest);
    Command::Type(text)
}

/// The total length of the strings of `words`.
pub open spec fn total_len(words: Seq<Seq<char>>) -> nat
    decreases words.len(),
{
    if words.len() == 0 {
        0
    } else {
        total_len(words.drop_last()) + words.last().len()
    }
}

/// The pieces of `s` between its spaces, read one character at a time: a
/// space starts a new piece, any other character extends the current one.
pub open spec fn split_on_space(s: Seq<char>) -> Seq<Seq<char>>
    decreases s.len(),
{
    if s.len() == 0 {
        seq![seq![]]
    } else {
        let r = split_on_space(s.drop_last());
        if s.last() == ' ' {
            r.push(seq![])
        } else {
            r.update(r.len() - 1, r.last().push(s.last()))
        }
    }
}

/// No character of `w` is a space.
pub open spec fn spaceless(w: Seq<char>) -> bool {
    forall|i: int| 0 <= i < w.len() ==> w[i] != ' '
}

proof fn lemma_split_nonempty(s: Seq<char>)
    ensures
        split_on_space(s).len() >= 1,
    decreases s.len(),
{
    if s.len() > 0 {
        lemma_split_nonempty(s.drop_last());
    }
}

/// Appending characters other than spaces extends the last piece.
proof fn lemma_split_extend(x: Seq<char>, w: Seq<char>)
    requires
        spaceless(w),
    ensures
        split_on_space(x + w).len() == split_on_space(x).len(),
        split_on_space(x + w) == split_on_space(x).update(
            split_on_space(x).len() - 1,
            split_on_space(x).last() + w,
        ),
    decreases w.len(),
{
    lemma_split_nonempty(x);
    if w.len() == 0 {
        assert(x + w == x);
        assert(split_on_space(x).last() + w == split_on_space(x).last());
        assert(split_on_space(x).update(split_on_space(x).len() - 1, split_on_space(x).last())
            == split_on_space(x));
    } else {
        let v = w.drop_last();
        assert(spaceless(v));
        lemma_split_extend(x, v);
        assert((x + w).drop_last() == x + v);
        assert((x + w).last() == w.last());
        assert(w.last() != ' ');
        let sx = split_on_space(x);
        let n = sx.len() - 1;
        let r = split_on_space(x + v);
        assert(r.last() == sx.last() + v);
        assert((sx.last() + v).push(w.last()) == sx.last() + w);
        assert(split_on_space(x + w) == r.update(n, r.last().push(w.last())));
        assert(r.update(n, sx.last() + w) =~= sx.update(n, sx.last() + w));
    }
}

/// The words joined by `spaced`, when none holds a space, split on spaces
/// back into the same words.
proof fn lemma_spaced_splits(words: Seq<Seq<char>>)
    requires
        words.len() >= 1,
        forall|i: int| 0 <= i < words.len() ==> spaceless(#[trigger] words[i]),
    ensures
        split_on_space(spaced(words)) == words,
    decreases words.len(),
{
    let w = words.last();
    assert(spaceless(words[words.len() - 1]));
    if words.len() == 1 {
        lemma_split_extend(seq![], w);
        assert(Seq::<char>::empty() + w == w);
        assert(seq![Seq::<char>::empty()].last() + w == w);
        assert(words == seq![w]);
    } else {
        let front = words.drop_last();
        assert forall|i: int| 0 <= i < front.len() implies spaceless(#[trigger] front[i]) by {
            assert(front[i] == words[i]);
        }
        lemma_spaced_splits(front);
        let x = spaced(front) + " "@;
        reveal_strlit(" ");
        assert(x.drop_last() == spaced(front));
        assert(x.last() == ' ');
        assert(split_on_space(x) == front.push(seq![]));
        lemma_split_extend(x, w);
        assert(Seq::<char>::empty() + w == w);
        assert(spaced(words) == x + w);
        assert(front.push(seq![]).update(front.len() as int, w) == front.push(w));
        assert(front.push(w) == words);
    }
}

/// The text of `--type w1 .. wn` is the words with exactly one space
/// between each pair of neighbours: its length is the sum of the words'
/// lengths plus one less than their number, and when no word holds a space
/// it splits on spaces back into `w1 .. wn`.
pub proof fn law_typed_words_single_spaced(words: Seq<Seq<char>>)
    requires
        words.len() >= 1,
    ensures
        spaced(words).len() == total_len(words) + words.len() - 1,
        (forall|i: int| 0 <= i < words.len() ==> spaceless(#[trigger] words[i]))
            ==> split_on_space(spaced(words)) == words,
    decreases words.len(),
{
    reveal_strlit(" ");
    if words.len() > 1 {
        law_typed_words_single_spaced(words.drop_last());
        assert(spaced(words) == spaced(words.drop_last()) + " "@ + words.last());
        assert(total_len(words) == total_len(words.drop_last()) + words.last().len());
    } else {
        assert(total_len(words.drop_last()) == 0);
        assert(spaced(words) == words[0]);
        assert(total_len(words) == words[0].len());
    }
    if forall|i: int| 0 <= i < words.len() ==> spaceless(#[trigger] words[i]) {
        lemma_spaced_splits(words);
    }
}

} // verus!
