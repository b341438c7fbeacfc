//! Removal of terminal control sequences from text that is shown to a user.
use vstd::prelude::*;
use crate::text::{is_control, char_is_control, push_char};

verus! {

broadcast use vstd::string::group_string_axioms;

/// Where the scanner stands between two characters.
#[derive(Clone, Copy, Debug, PartialEq, Eq, Structural)]
pub enum ScanState {
    /// Ordinary text.
    Text,
    /// Just after an ESC character.
    Escape,
    /// Inside an ESC `[` sequence, before its final byte.
    Sequence,
}

/// One step of the scanner: the next state, and the character kept, if any.
/// ESC starts an escape; ESC `[` starts a sequence that ends with its first
/// character in `'@'..='~'`; other control characters are dropped.
pub open spec fn scan_step(st: ScanState, c: char) -> (ScanState, Option<char>) {
    match st {
        ScanState::Sequence => if 0x40 <= (c as u32) && (c as u32) <= 0x7e {
            (ScanState::Text, None)
        } else {
            (ScanState::Sequence, None)
        },
        ScanState::Escape if c == '[' => (ScanState::Sequence, None),
        _ => if c == '\x1b' {
            (ScanState::Escape, None)
        } else if is_control(c) {
            (ScanState::Text, None)
        } else {
            (ScanState::Text, Some(c))
        },
    }
}

/// The scanner run over a whole text: its final state and the text kept.
pub open spec fn scan(s: Seq<char>) -> (ScanState, Seq<char>)
    decreases s.len(),
{
    if s.len() == 0 {
        (ScanState::Text, Seq::empty())
    } else {
        let (st, out) = scan(s.drop_last());
        let (next, kept) = scan_step(st, s.last());
        (next, match kept {
            Some(c) => out.push(c),
            None => out,
        })
    }
}

/// The text that [`sanitize_terminal`] gives back for `s`.
pub open spec fn sanitized(s: Seq<char>) -> Seq<char> {
    scan(s).1
}

pub open spec fn has_no_control(s: Seq<char>) -> bool {
    forall|i: int| 0 <= i < s.len() ==> !is_control(#[trigger] s[i])
}

fn step(st: ScanState, c: char) -> (r: (ScanState, Option<char>))
    ensures
        r == scan_step(st, c),
{
    match st {
        ScanState::Sequence => {
            if '@' <= c && c <= '~' {
                (ScanState::Text, None)
            } else {
                (ScanState::Sequence, None)
            }
        },
        _ => {
            if st == ScanState::Escape && c == '[' {
                (ScanState::Sequence, None)
            } else if c == '\x1b' {
                (ScanState::Escape, None)
            } else if char_is_control(c) {
                (ScanState::Text, None)
            } else {
                (ScanState::Text, Some(c))
            }
        },
    }
}

/// Drops ANSI escape sequences (ESC `[` ... final byte) and every other
/// control character from `value`, keeping all other characters in order.
pub fn sanitize_terminal(value: &str) -> (r: String)
    ensures
        r@ == sanitized(value@),
{
    let mut out = String::new();
    let mut st = ScanState::Text;
    for c in it: value.chars()
        invariant
            it.seq() == value@,
            (st, out@) == scan(value@.take(it.index())),
    {
        proof {
            assert(value@.take(it.index() + 1).drop_last() == value@.take(it.index()));
        }
        let (next, kept) = step(st, c);
        st = next;
        match kept {
            Some(k) => push_char(&mut out, k),
            None => {},
        }
    }
    proof {
        assert(value@.take(value@.len() as int) == value@);
    }
    out
}

/// Whatever the input, the sanitised text holds no control character, so in
/// particular no ESC that could start a terminal sequence.
pub proof fn lemma_sanitized_has_no_control(s: Seq<char>)
    ensures
        has_no_control(sanitized(s)),
    decreases s.len(),
{
    if s.len() > 0 {
        lemma_sanitized_has_no_control(s.drop_last());
        let (st, out) = scan(s.drop_last());
        let (next, kept) = scan_step(st, s.last());
        assert(has_no_control(out));
        match kept {
            Some(c) => {
                assert(!is_control(c));
                assert forall|i: int| 0 <= i < out.push(c).len() implies !is_control(
                    #[trigger] out.push(c)[i],
                ) by {
                    if i < out.len() {
                        assert(out.push(c)[i] == out[i]);
                    }
                }
            },
            None => {},
        }
    }
}

/// Text without control characters passes through unchanged, and the
/// scanner ends it in the plain-text state.
pub proof fn lemma_plain_text_unchanged(s: Seq<char>)
    requires
        has_no_control(s),
    ensures
        scan(s) == (ScanState::Text, s),
        sanitized(s) == s,
    decreases s.len(),
{
    if s.len() > 0 {
        let prefix = s.drop_last();
        assert(has_no_control(prefix)) by {
            assert forall|i: int| 0 <= i < prefix.len() implies !is_control(#[trigger] prefix[i]) by {
                assert(prefix[i] == s[i]);
            }
        }
        lemma_plain_text_unchanged(prefix);
        assert(!is_control(s[s.len() - 1]));
        assert(prefix.push(s.last()) == s);
    }
}

/// Sanitising twice gives what sanitising once gives.
pub proof fn lemma_sanitize_idempotent(s: Seq<char>)
    ensures
        sanitized(sanitized(s)) == sanitized(s),
{
    lemma_sanitized_has_no_control(s);
    lemma_plain_text_unchanged(sanitized(s));
}

/// A character that ends an ESC `[` sequence: one in `'@'..='~'`.
pub open spec fn is_final_byte(c: char) -> bool {
    0x40 <= (c as u32) && (c as u32) <= 0x7e
}

proof fn lemma_sequence_open(params: Seq<char>)
    requires
        forall|i: int| 0 <= i < params.len() ==> !is_final_byte(#[trigger] params[i]),
    ensures
        scan(seq!['\x1b', '['] + params) == (ScanState::Sequence, Seq::<char>::empty()),
    decreases params.len(),
{
    let head = seq!['\x1b', '['];
    if params.len() == 0 {
        assert(head + params == head);
        assert(head.drop_last() == seq!['\x1b']);
        assert(seq!['\x1b'].drop_last() == Seq::<char>::empty());
        assert(seq!['\x1b'].last() == '\x1b');
        assert(scan(Seq::<char>::empty()) == (ScanState::Text, Seq::<char>::empty()));
        assert(scan_step(ScanState::Text, '\x1b') == (ScanState::Escape, None::<char>));
        assert(scan(seq!['\x1b']) == (ScanState::Escape, Seq::<char>::empty()));
        assert(head.last() == '[');
        assert(scan(head) == (ScanState::Sequence, Seq::<char>::empty()));
    } else {
        let d = params.drop_last();
        assert forall|i: int| 0 <= i < d.len() implies !is_final_byte(#[trigger] d[i]) by {
            assert(d[i] == params[i]);
        }
        lemma_sequence_open(d);
        assert((head + params).drop_last() == head + d);
        assert((head + params).last() == params.last());
        assert(!is_final_byte(params[params.len() - 1]));
    }
}

proof fn lemma_text_after(prefix: Seq<char>, p: Seq<char>)
    requires
        scan(prefix) == (ScanState::Text, Seq::<char>::empty()),
        has_no_control(p),
    ensures
        scan(prefix + p) == (ScanState::Text, p),
    decreases p.len(),
{
    if p.len() == 0 {
        assert(prefix + p == prefix);
    } else {
        let d = p.drop_last();
        assert(has_no_control(d)) by {
            assert forall|i: int| 0 <= i < d.len() implies !is_control(#[trigger] d[i]) by {
                assert(d[i] == p[i]);
            }
        }
        lemma_text_after(prefix, d);
        assert((prefix + p).drop_last() == prefix + d);
        assert((prefix + p).last() == p.last());
        assert(!is_control(p[p.len() - 1]));
        assert(d.push(p.last()) == p);
    }
}

/// An ESC `[` sequence ends at its first character in `'@'..='~'`: whatever
/// parameter characters come before that final character, the sequence is
/// removed whole, and the text after it is kept as it is.
pub proof fn lemma_sequence_ends_at_final_byte(params: Seq<char>, f: char, p: Seq<char>)
    requires
        forall|i: int| 0 <= i < params.len() ==> !is_final_byte(#[trigger] params[i]),
        0x40 <= (f as u32) <= 0x7e,
        has_no_control(p),
    ensures
        sanitized(seq!['\x1b', '['] + params + seq![f] + p) == p,
        sanitized(seq!['\x1b', '[', f] + p) == p,
{
    lemma_sequence_open(params);
    let head = seq!['\x1b', '['] + params;
    let closed = head + seq![f];
    assert(closed.drop_last() == head);
    assert(closed.last() == f);
    assert(scan(closed) == (ScanState::Text, Seq::<char>::empty()));
    lemma_text_after(closed, p);
    lemma_sequence_open(Seq::<char>::empty());
    let short = seq!['\x1b', '[', f];
    assert(short == seq!['\x1b', '['] + Seq::<char>::empty() + seq![f]);
    assert(short.drop_last() == seq!['\x1b', '['] + Seq::<char>::empty());
    assert(scan(short) == (ScanState::Text, Seq::<char>::empty()));
    lemma_text_after(short, p);
}

} // verus!
