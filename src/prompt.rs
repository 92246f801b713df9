//! The prompt-shape heuristic: strip terminal escape sequences from output text and
//! decide whether what is left looks like a question waiting for the user.
use vstd::prelude::*;

use crate::text::{chars_of, string_of};

verus! {

/// The escape character that opens every terminal control sequence.
pub const ESC: char = '\x1b';

/// Where a scan of terminal output stands.
#[derive(PartialEq, Eq, Structural, Clone, Copy, Debug)]
pub enum ScanState {
    /// Ordinary text, kept.
    Text,
    /// Just after an escape character.
    Escape,
    /// Inside a control sequence (`ESC [`), up to its final character.
    Sequence,
    /// Inside an operating-system command (`ESC ]`), up to `BEL` or `ESC \`.
    Command,
    /// Just after an escape character inside an operating-system command.
    CommandEscape,
}

/// The bell character, which ends an operating-system command.
pub const BEL: char = '\x07';

/// A final character of a control sequence: `@` to `~`.
pub open spec fn is_sequence_final(c: char) -> bool {
    0x40 <= (c as u32) && (c as u32) <= 0x7e
}

/// The text kept from `s[i..]` when the scan stands in state `st` at position `i`.
pub open spec fn strip_from(s: Seq<char>, i: int, st: ScanState) -> Seq<char>
    decreases s.len() - i,
{
    if i < 0 || i >= s.len() {
        seq![]
    } else {
        match st {
            ScanState::Text => if s[i] == ESC {
                strip_from(s, i + 1, ScanState::Escape)
            } else {
                seq![s[i]] + strip_from(s, i + 1, ScanState::Text)
            },
            ScanState::Escape => if s[i] == '[' {
                strip_from(s, i + 1, ScanState::Sequence)
            } else if s[i] == ']' {
                strip_from(s, i + 1, ScanState::Command)
            } else {
                strip_from(s, i + 1, ScanState::Text)
            },
            ScanState::Command => if s[i] == BEL {
                strip_from(s, i + 1, ScanState::Text)
            } else if s[i] == ESC {
                strip_from(s, i + 1, ScanState::CommandEscape)
            } else {
                strip_from(s, i + 1, ScanState::Command)
            },
            ScanState::CommandEscape => strip_from(s, i + 1, ScanState::Text),
            ScanState::Sequence => if is_sequence_final(s[i]) {
                strip_from(s, i + 1, ScanState::Text)
            } else {
                strip_from(s, i + 1, ScanState::Sequence)
            },
        }
    }
}

/// `s` with its escape sequences removed: an `ESC [` sequence up to and including its
/// final character, an `ESC ]` command up to and including the `BEL` or the `ESC` and
/// character that end it, and any other escape character together with the character
/// after it.
pub open spec fn strip_ansi(s: Seq<char>) -> Seq<char> {
    strip_from(s, 0, ScanState::Text)
}

/// `p` occurs in `t` as a contiguous run.
pub open spec fn has_sub(t: Seq<char>, p: Seq<char>) -> bool {
    exists|i: int| 0 <= i && i + p.len() <= t.len() && #[trigger] t.subrange(i, i + p.len()) == p
}

/// Unicode white space, as `char::is_whitespace` defines it.
pub open spec fn is_white(c: char) -> bool {
    let u = c as u32;
    (0x09 <= u && u <= 0x0d) || u == 0x20 || u == 0x85 || u == 0xa0 || u == 0x1680 || (0x2000
        <= u && u <= 0x200a) || u == 0x2028 || u == 0x2029 || u == 0x202f || u == 0x205f || u
        == 0x3000
}

/// The last character of `t` that is not white space is a question mark. This is the
/// same as saying that the last line with visible text ends, once trimmed, with `?`.
pub open spec fn last_visible_is_question(t: Seq<char>) -> bool {
    exists|i: int|
        0 <= i < t.len() && #[trigger] t[i] == '?' && (forall|j: int| i < j < t.len() ==> is_white(t[j]))
}

/// Clean text (no escape sequences) looks like a prompt that waits for the user.
pub open spec fn waiting_text(t: Seq<char>) -> bool {
    has_sub(t, "[Y/n]"@) || has_sub(t, "[y/N]"@) || has_sub(t, "(yes/no)"@) || has_sub(t, "(y/n)"@)
        || has_sub(t, "Allow "@) || has_sub(t, "Approve"@) || has_sub(t, "Do you want"@)
        || last_visible_is_question(t)
}

/// Terminal output looks like a prompt that waits for the user, once stripped.
pub open spec fn is_waiting(s: Seq<char>) -> bool {
    waiting_text(strip_ansi(s))
}

/// Stripped text holds no escape character.
pub proof fn lemma_strip_from_no_escape(s: Seq<char>, i: int, st: ScanState)
    ensures
        forall|k: int| 0 <= k < strip_from(s, i, st).len() ==> strip_from(s, i, st)[k] != ESC,
    decreases s.len() - i,
{
    if 0 <= i < s.len() {
        lemma_strip_from_no_escape(s, i + 1, ScanState::Text);
        lemma_strip_from_no_escape(s, i + 1, ScanState::Escape);
        lemma_strip_from_no_escape(s, i + 1, ScanState::Sequence);
        lemma_strip_from_no_escape(s, i + 1, ScanState::Command);
        lemma_strip_from_no_escape(s, i + 1, ScanState::CommandEscape);
        let whole = strip_from(s, i, st);
        if st == ScanState::Text && s[i] != ESC {
            let rest = strip_from(s, i + 1, ScanState::Text);
            assert(whole == seq![s[i]] + rest);
            assert forall|k: int| 0 <= k < whole.len() implies whole[k] != ESC by {
                if k > 0 {
                    assert(whole[k] == rest[k - 1]);
                }
            }
        } else if st == ScanState::Text {
            assert(whole == strip_from(s, i + 1, ScanState::Escape));
        } else if st == ScanState::Escape && s[i] == '[' {
            assert(whole == strip_from(s, i + 1, ScanState::Sequence));
        } else if st == ScanState::Escape && s[i] == ']' {
            assert(whole == strip_from(s, i + 1, ScanState::Command));
        } else if st == ScanState::Escape {
            assert(whole == strip_from(s, i + 1, ScanState::Text));
        } else if st == ScanState::Command && s[i] == BEL {
            assert(whole == strip_from(s, i + 1, ScanState::Text));
        } else if st == ScanState::Command && s[i] == ESC {
            assert(whole == strip_from(s, i + 1, ScanState::CommandEscape));
        } else if st == ScanState::Command {
            assert(whole == strip_from(s, i + 1, ScanState::Command));
        } else if st == ScanState::CommandEscape {
            assert(whole == strip_from(s, i + 1, ScanState::Text));
        } else if is_sequence_final(s[i]) {
            assert(whole == strip_from(s, i + 1, ScanState::Text));
        } else {
            assert(whole == strip_from(s, i + 1, ScanState::Sequence));
        }
    }
}

/// Text without escape characters is kept as it is.
pub proof fn lemma_strip_from_plain(s: Seq<char>, i: int)
    requires
        0 <= i <= s.len(),
        forall|k: int| 0 <= k < s.len() ==> s[k] != ESC,
    ensures
        strip_from(s, i, ScanState::Text) == s.skip(i),
    decreases s.len() - i,
{
    if i < s.len() {
        lemma_strip_from_plain(s, i + 1);
        assert(seq![s[i]] + s.skip(i + 1) =~= s.skip(i));
    } else {
        assert(s.skip(i) =~= Seq::<char>::empty());
    }
}

/// Stripping twice is stripping once.
pub proof fn lemma_strip_ansi_idempotent(s: Seq<char>)
    ensures
        strip_ansi(strip_ansi(s)) == strip_ansi(s),
{
    let t = strip_ansi(s);
    lemma_strip_from_no_escape(s, 0, ScanState::Text);
    lemma_strip_from_plain(t, 0);
    assert(t.skip(0) =~= t);
}

/// The heuristic gives the same answer on text that was stripped beforehand: stripping
/// keeps nothing that a second stripping would remove.
pub proof fn lemma_waiting_ignores_stripping(x: Seq<char>)
    ensures
        is_waiting(strip_ansi(x)) == is_waiting(x),
{
    lemma_strip_ansi_idempotent(x);
}

/// The characters of `s` with escape sequences removed.
pub fn strip_ansi_chars(s: &Vec<char>) -> (r: Vec<char>)
    ensures
        r@ == strip_ansi(s@),
{
    let mut out: Vec<char> = Vec::new();
    let mut st = ScanState::Text;
    let mut i: usize = 0;
    while i < s.len()
        invariant
            i <= s.len(),
            out@ + strip_from(s@, i as int, st) == strip_ansi(s@),
        decreases s.len() - i,
    {
        let c = s[i];
        match st {
            ScanState::Text => {
                if c == ESC {
                    st = ScanState::Escape;
                } else {
                    let ghost next = strip_from(s@, i as int + 1, ScanState::Text);
                    assert(out@.push(c) + next =~= out@ + (seq![c] + next));
                    out.push(c);
                }
            },
            ScanState::Escape => {
                if c == '[' {
                    st = ScanState::Sequence;
                } else if c == ']' {
                    st = ScanState::Command;
                } else {
                    st = ScanState::Text;
                }
            },
            ScanState::Command => {
                if c == BEL {
                    st = ScanState::Text;
                } else if c == ESC {
                    st = ScanState::CommandEscape;
                }
            },
            ScanState::CommandEscape => {
                st = ScanState::Text;
            },
            ScanState::Sequence => {
                if 0x40 <= (c as u32) && (c as u32) <= 0x7e {
                    st = ScanState::Text;
                }
            },
        }
        i = i + 1;
    }
    assert(out@ + strip_from(s@, i as int, st) =~= out@);
    out
}

/// Removes terminal escape sequences from `s`.
pub fn strip_ansi_escapes(s: &str) -> (r: String)
    ensures
        r@ == strip_ansi(s@),
{
    let cs = chars_of(s);
    let kept = strip_ansi_chars(&cs);
    string_of(&kept)
}

/// Whether `p` occurs in `t`.
pub fn contains_chars(t: &Vec<char>, p: &Vec<char>) -> (r: bool)
    ensures
        r == has_sub(t@, p@),
{
    if p.len() > t.len() {
        return false;
    }
    let mut i: usize = 0;
    while i <= t.len() - p.len()
        invariant
            p.len() <= t.len(),
            i <= t.len() - p.len() + 1,
            forall|k: int| 0 <= k < i ==> #[trigger] t@.subrange(k, k + p.len()) != p@,
        decreases t.len() - i,
    {
        let mut j: usize = 0;
        while j < p.len() && t[i + j] == p[j]
            invariant
                i + p.len() <= t.len(),
                j <= p.len(),
                forall|k: int| 0 <= k < j ==> t@[i + k] == p@[k],
            decreases p.len() - j,
        {
            j = j + 1;
        }
        if j == p.len() {
            assert(t@.subrange(i as int, i + p.len()) =~= p@);
            return true;
        }
        assert(t@.subrange(i as int, i + p.len())[j as int] != p@[j as int]);
        i = i + 1;
    }
    assert forall|k: int| 0 <= k && k + p@.len() <= t@.len() implies #[trigger] t@.subrange(
        k,
        k + p@.len(),
    ) != p@ by {
        assert(k < i);
    }
    false
}

/// Whether `c` is white space (`char::is_whitespace`).
pub fn is_white_char(c: char) -> (r: bool)
    ensures
        r == is_white(c),
{
    let u = c as u32;
    (0x09 <= u && u <= 0x0d) || u == 0x20 || u == 0x85 || u == 0xa0 || u == 0x1680 || (0x2000
        <= u && u <= 0x200a) || u == 0x2028 || u == 0x2029 || u == 0x202f || u == 0x205f || u
        == 0x3000
}

/// Whether the last character of `t` that is not white space is `?`.
pub fn ends_with_question(t: &Vec<char>) -> (r: bool)
    ensures
        r == last_visible_is_question(t@),
{
    let mut k: usize = t.len();
    while k > 0 && is_white_char(t[k - 1])
        invariant
            k <= t.len(),
            forall|j: int| k <= j < t.len() ==> is_white(t@[j]),
        decreases k,
    {
        k = k - 1;
    }
    if k > 0 && t[k - 1] == '?' {
        assert(t@[k - 1] == '?');
        true
    } else {
        assert(!is_white('?'));
        false
    }
}

/// Whether terminal output text looks like a prompt waiting for the user: after escape
/// sequences are stripped it holds a confirmation marker (`[Y/n]`, `[y/N]`, `(yes/no)`,
/// `(y/n)`), approval wording (`Allow `, `Approve`, `Do you want`), or its last visible
/// character is `?`.
pub fn is_waiting_prompt(text: &str) -> (r: bool)
    ensures
        r == is_waiting(text@),
{
    let raw = chars_of(text);
    let clean = strip_ansi_chars(&raw);
    let markers = [
        chars_of("[Y/n]"),
        chars_of("[y/N]"),
        chars_of("(yes/no)"),
        chars_of("(y/n)"),
        chars_of("Allow "),
        chars_of("Approve"),
        chars_of("Do you want"),
    ];
    let found = contains_chars(&clean, &markers[0]) || contains_chars(&clean, &markers[1])
        || contains_chars(&clean, &markers[2]) || contains_chars(&clean, &markers[3])
        || contains_chars(&clean, &markers[4]) || contains_chars(&clean, &markers[5])
        || contains_chars(&clean, &markers[6]);
    found || ends_with_question(&clean)
}

} // verus!
