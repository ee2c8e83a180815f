use vstd::prelude::*;
use crate::text::str_eq;
use crate::text_format::{is_digits_usize, parse_digits, value_of};

verus! {

/// Whether `c` has the Unicode White_Space property, as `char::is_whitespace` decides.
pub open spec fn whitespace_char(c: char) -> bool {
    ('\u{9}' <= c && c <= '\u{d}') || c == ' ' || c == '\u{85}' || c == '\u{a0}' || c == '\u{1680}'
        || ('\u{2000}' <= c && c <= '\u{200a}') || c == '\u{2028}' || c == '\u{2029}' || c == '\u{202f}'
        || c == '\u{205f}' || c == '\u{3000}'
}

fn char_is_whitespace(c: char) -> (r: bool)
    ensures
        r == whitespace_char(c),
{
    ('\u{9}' <= c && c <= '\u{d}') || c == ' ' || c == '\u{85}' || c == '\u{a0}' || c == '\u{1680}'
        || ('\u{2000}' <= c && c <= '\u{200a}') || c == '\u{2028}' || c == '\u{2029}' || c == '\u{202f}'
        || c == '\u{205f}' || c == '\u{3000}'
}

/// The maximal runs of non-white-space characters of `s`, in order.
pub open spec fn words(s: Seq<char>) -> Seq<Seq<char>>
    decreases s.len(),
{
    if s.len() == 0 {
        Seq::empty()
    } else {
        let w = words(s.drop_last());
        let c = s.last();
        if whitespace_char(c) {
            w
        } else if s.len() >= 2 && !whitespace_char(s[s.len() - 2]) {
            w.update(w.len() - 1, w.last().push(c))
        } else {
            w.push(seq![c])
        }
    }
}

/// A training setting that takes a non-negative number.
#[derive(PartialEq, Eq, Structural, Clone, Copy, Debug)]
pub enum Setting {
    LearningRate,
    Momentum,
    MagnitudeStart,
    MagnitudeEnd,
}

/// A console line, as a training loop acts on it.
#[derive(Debug)]
pub enum Command {
    /// Nothing but white space.
    Empty,
    /// Halt training.
    Stop,
    /// Report progress at every iteration.
    Show,
    /// Stop reporting progress.
    Hide,
    /// Set a setting; the argument is its text, to be read as a number.
    SetValue(Setting, String),
    /// Set the number of iterations.
    SetIterations(usize),
    /// A known command given without its argument; holds the command word.
    MissingArgument(String),
    /// `setiters` with an argument that is no unsigned number (see `unsigned_text`).
    InvalidIterations(String),
    /// An unrecognised first word.
    Unknown,
}

/// The setting named by a command word, if any.
pub open spec fn setting_of(word: Seq<char>) -> Option<Setting> {
    if word == "setlr"@ {
        Some(Setting::LearningRate)
    } else if word == "setmom"@ {
        Some(Setting::Momentum)
    } else if word == "setmag0"@ {
        Some(Setting::MagnitudeStart)
    } else if word == "setmag1"@ {
        Some(Setting::MagnitudeEnd)
    } else {
        None
    }
}

/// The value of an unsigned decimal number fitting in `usize`, with an
/// optional leading `+` and leading zeros allowed.
pub open spec fn unsigned_text(t: Seq<char>) -> Option<usize> {
    let d = if t.len() > 0 && t[0] == '+' { t.drop_first() } else { t };
    if is_digits_usize(d) { Some(value_of(d) as usize) } else { None }
}

/// Reads an unsigned number as `unsigned_text` describes.
pub fn parse_unsigned(t: &str) -> (r: Option<usize>)
    ensures
        r == unsigned_text(t@),
{
    let n = t.unicode_len();
    if n > 0 && t.get_char(0) == '+' {
        let rest = t.substring_char(1, n);
        proof {
            assert(rest@ =~= t@.drop_first());
        }
        parse_digits(rest)
    } else {
        parse_digits(t)
    }
}

/// `c` is the command written by the words `ws`: the first word selects it,
/// the second is its argument; further words are ignored.
pub open spec fn command_for(ws: Seq<Seq<char>>, c: Command) -> bool {
    if ws.len() == 0 {
        c is Empty
    } else if ws[0] == "stop"@ {
        c is Stop
    } else if ws[0] == "show"@ {
        c is Show
    } else if ws[0] == "hide"@ {
        c is Hide
    } else if setting_of(ws[0]) is Some {
        if ws.len() >= 2 {
            c matches Command::SetValue(k, t) && k == setting_of(ws[0])->0 && t@ == ws[1]
        } else {
            c matches Command::MissingArgument(w) && w@ == ws[0]
        }
    } else if ws[0] == "setiters"@ {
        if ws.len() >= 2 {
            if unsigned_text(ws[1]) is Some {
                c == Command::SetIterations(unsigned_text(ws[1])->0)
            } else {
                c matches Command::InvalidIterations(t) && t@ == ws[1]
            }
        } else {
            c matches Command::MissingArgument(w) && w@ == ws[0]
        }
    } else {
        c is Unknown
    }
}

/// A text ending in white space has words of its own, not continued
/// by what follows.
proof fn lemma_words_concat(p: Seq<char>, q: Seq<char>)
    requires
        p.len() == 0 || whitespace_char(p.last()),
    ensures
        words(p + q) == words(p) + words(q),
    decreases q.len(),
{
    if q.len() == 0 {
        assert(p + q =~= p);
        assert(words(p) + words(q) =~= words(p));
    } else {
        let q0 = q.drop_last();
        let c = q.last();
        let s = p + q;
        lemma_words_concat(p, q0);
        assert(s.drop_last() =~= p + q0);
        assert(s.last() == c);
        if q0.len() > 0 {
            assert(s[s.len() - 2] == q0.last());
            assert(q[q.len() - 2] == q0.last());
            if !whitespace_char(q0.last()) {
                lemma_words_nonempty(q0);
            }
        } else if p.len() > 0 {
            assert(s[s.len() - 2] == p.last());
        }
        let a = words(p);
        let b = words(q0);
        if whitespace_char(c) {
            assert(words(s) == a + b);
            assert(words(q) == b);
        } else if q0.len() > 0 && !whitespace_char(q0.last()) {
            assert(words(q) == b.update(b.len() - 1, b.last().push(c)));
            assert((a + b).last() == b.last());
            assert(words(s) =~= a + words(q));
        } else {
            assert(words(q) == b.push(seq![c]));
            assert(words(s) =~= a + words(q));
        }
    }
}

/// A text ending in a non-white-space character has at least one word.
proof fn lemma_words_nonempty(s: Seq<char>)
    requires
        s.len() > 0,
        !whitespace_char(s.last()),
    ensures
        words(s).len() >= 1,
    decreases s.len(),
{
    if s.len() >= 2 && !whitespace_char(s[s.len() - 2]) {
        assert(s.drop_last().last() == s[s.len() - 2]);
        lemma_words_nonempty(s.drop_last());
    }
}

/// The first `n` words of `line` (fewer if it has fewer), as slices of it.
fn first_words<'a>(line: &'a str, n: usize) -> (r: Vec<&'a str>)
    requires
        n > 0,
    ensures
        r@.len() == if words(line@).len() < n { words(line@).len() } else { n as nat },
        forall|k: int| 0 <= k < r@.len() ==> (#[trigger] r@[k])@ == words(line@)[k],
{
    let len = line.unicode_len();
    let mut out: Vec<&'a str> = Vec::new();
    let mut start: usize = 0;
    let mut in_word = false;
    let mut i: usize = 0;
    while i < len
        invariant
            len == line@.len(),
            n > 0,
            i <= len,
            start <= i,
            in_word ==> i > 0 && !whitespace_char(line@[i - 1]) && start < i,
            !in_word ==> i == 0 || whitespace_char(line@[i - 1]),
            out@.len() < n,
            words(line@.subrange(0, i as int)).len() == out@.len() + (if in_word { 1int } else { 0 }),
            forall|k: int| 0 <= k < out@.len() ==> (#[trigger] out@[k])@ == words(line@.subrange(0, i as int))[k],
            in_word ==> words(line@.subrange(0, i as int)).last() == line@.subrange(start as int, i as int),
        decreases len - i,
    {
        let c = line.get_char(i);
        let ghost prefix = line@.subrange(0, i as int);
        let ghost next = line@.subrange(0, i + 1);
        proof {
            assert(next.drop_last() =~= prefix);
            assert(next.last() == c);
            if i > 0 {
                assert(next[next.len() - 2] == line@[i - 1]);
            }
        }
        if char_is_whitespace(c) {
            if in_word {
                out.push(line.substring_char(start, i));
                in_word = false;
                if out.len() == n {
                    proof {
                        assert(words(next) == words(prefix));
                        let rest = line@.subrange(i + 1, len as int);
                        lemma_words_concat(next, rest);
                        assert(next + rest =~= line@);
                    }
                    return out;
                }
            }
        } else {
            if !in_word {
                start = i;
                in_word = true;
                proof {
                    assert(line@.subrange(start as int, i + 1) =~= seq![c]);
                }
            } else {
                proof {
                    assert(line@.subrange(start as int, i + 1) =~= line@.subrange(start as int, i as int).push(c));
                }
            }
        }
        i = i + 1;
    }
    if in_word {
        out.push(line.substring_char(start, len));
    }
    proof {
        assert(line@.subrange(0, len as int) =~= line@);
    }
    out
}

/// Reads a console line into the command it writes (see `command_for`).
pub fn parse_command(line: &str) -> (r: Command)
    ensures
        command_for(words(line@), r),
{
    let ws = first_words(line, 2);
    if ws.len() == 0 {
        return Command::Empty;
    }
    let w = ws[0];
    let setting = if str_eq(w, "setlr") {
        Some(Setting::LearningRate)
    } else if str_eq(w, "setmom") {
        Some(Setting::Momentum)
    } else if str_eq(w, "setmag0") {
        Some(Setting::MagnitudeStart)
    } else if str_eq(w, "setmag1") {
        Some(Setting::MagnitudeEnd)
    } else {
        None
    };
    if str_eq(w, "stop") {
        Command::Stop
    } else if str_eq(w, "show") {
        Command::Show
    } else if str_eq(w, "hide") {
        Command::Hide
    } else if let Some(k) = setting {
        if ws.len() >= 2 {
            Command::SetValue(k, String::from_str(ws[1]))
        } else {
            Command::MissingArgument(String::from_str(w))
        }
    } else if str_eq(w, "setiters") {
        if ws.len() >= 2 {
            match parse_unsigned(ws[1]) {
                Some(v) => Command::SetIterations(v),
                None => Command::InvalidIterations(String::from_str(ws[1])),
            }
        } else {
            Command::MissingArgument(String::from_str(w))
        }
    } else {
        Command::Unknown
    }
}

} // verus!
