//! ANSI/control-escape stripping.
//!
//! Terminal output from external tools is interleaved with escape
//! sequences: CSI sequences introduced by `ESC [` and closed by a
//! final byte in `0x40..=0x7e`, OSC sequences introduced by `ESC ]`
//! and terminated by a bell or by `ESC \`, and stray control
//! characters. The stripper removes all of these while preserving
//! newlines, carriage returns and tabs, so the remaining text is
//! plain and suitable for direct display.
//!
//! The grammar is modelled as a five-state character machine
//! ([`strip_next`], [`strip_out`]); [`strip_ansi_spec`] folds it over
//! a character sequence, and the executable [`strip_ansi`] is proved
//! to compute exactly that fold. Stripping is idempotent
//! ([`lemma_strip_idempotent`]).

use vstd::prelude::*;

use crate::text::{chars_of, string_from_chars};

verus! {

/// Control characters that survive stripping.
pub open spec fn is_kept_control(c: char) -> bool {
    c == '\n' || c == '\r' || c == '\t'
}

/// Non-printable control characters (C0 range and DEL).
pub open spec fn is_control(c: char) -> bool {
    (c as u32) < 32 || (c as u32) == 127
}

/// Characters the stripper copies through unchanged when scanning text.
pub open spec fn is_plain(c: char) -> bool {
    is_kept_control(c) || !is_control(c)
}

/// Final bytes that close a CSI sequence.
pub open spec fn is_csi_final(c: char) -> bool {
    0x40 <= (c as u32) && (c as u32) <= 0x7e
}

/// Scanner state between two characters of the input.
#[derive(Clone, Copy, Debug, PartialEq, Eq, Structural)]
pub enum StripState {
    /// Plain text.
    Text,
    /// An `ESC` was seen and the introducer is pending.
    Escape,
    /// Inside a CSI sequence (`ESC [`), waiting for its final byte.
    Csi,
    /// Inside an OSC sequence (`ESC ]`), waiting for its terminator.
    Osc,
    /// Inside an OSC sequence, an `ESC` was seen (possible `ESC \`).
    OscEscape,
}

/// The scanner state after consuming `c` in state `st`.
pub open spec fn strip_next(st: StripState, c: char) -> StripState {
    match st {
        StripState::Text => {
            if c == '\u{1b}' {
                StripState::Escape
            } else {
                StripState::Text
            }
        },
        StripState::Escape => {
            if c == '[' {
                StripState::Csi
            } else if c == ']' {
                StripState::Osc
            } else if c == '\u{1b}' {
                StripState::Escape
            } else {
                StripState::Text
            }
        },
        StripState::Csi => {
            if is_csi_final(c) {
                StripState::Text
            } else {
                StripState::Csi
            }
        },
        StripState::Osc => {
            if c == '\u{7}' {
                StripState::Text
            } else if c == '\u{1b}' {
                StripState::OscEscape
            } else {
                StripState::Osc
            }
        },
        StripState::OscEscape => {
            if c == '\\' {
                StripState::Text
            } else if c == '\u{1b}' {
                StripState::OscEscape
            } else {
                StripState::Osc
            }
        },
    }
}

/// The characters emitted on consuming `c` in state `st`: `c` itself
/// when scanning text and `c` is plain, nothing otherwise.
pub open spec fn strip_out(st: StripState, c: char) -> Seq<char> {
    if st == StripState::Text && c != '\u{1b}' && is_plain(c) {
        seq![c]
    } else {
        Seq::empty()
    }
}

/// The stripped form of `s` when scanning starts in state `st`.
pub open spec fn strip_from(st: StripState, s: Seq<char>) -> Seq<char>
    decreases s.len(),
{
    if s.len() == 0 {
        Seq::empty()
    } else {
        strip_out(st, s[0]) + strip_from(strip_next(st, s[0]), s.drop_first())
    }
}

/// The stripped form of `s`: escape sequences and stray control
/// characters removed, newlines, carriage returns and tabs kept.
pub open spec fn strip_ansi_spec(s: Seq<char>) -> Seq<char> {
    strip_from(StripState::Text, s)
}

/// Whether `c` is copied through unchanged when scanning text.
pub fn plain_char(c: char) -> (r: bool)
    ensures
        r == is_plain(c),
{
    let u = c as u32;
    (u >= 32 && u != 127) || c == '\n' || c == '\r' || c == '\t'
}

/// Strips `v` according to the escape grammar.
pub fn strip_chars(v: &Vec<char>) -> (out: Vec<char>)
    ensures
        out@ == strip_ansi_spec(v@),
{
    let n = v.len();
    let mut out: Vec<char> = Vec::new();
    let mut st = StripState::Text;
    let mut i: usize = 0;
    proof {
        assert(v@.skip(0) =~= v@);
        assert(out@ + strip_from(st, v@) =~= strip_from(st, v@));
    }
    while i < n
        invariant
            n == v@.len(),
            i <= n,
            out@ + strip_from(st, v@.skip(i as int)) == strip_ansi_spec(v@),
        decreases n - i,
    {
        let c = v[i];
        let ghost st0 = st;
        let ghost out0 = out@;
        proof {
            assert(v@.skip(i as int).len() > 0);
            assert(v@.skip(i as int)[0] == v@[i as int]);
            assert(v@.skip(i as int).drop_first() =~= v@.skip(i as int + 1));
        }
        match st {
            StripState::Text => {
                if c == '\u{1b}' {
                    st = StripState::Escape;
                } else if plain_char(c) {
                    out.push(c);
                }
            },
            StripState::Escape => {
                if c == '[' {
                    st = StripState::Csi;
                } else if c == ']' {
                    st = StripState::Osc;
                } else if c == '\u{1b}' {
                    st = StripState::Escape;
                } else {
                    st = StripState::Text;
                }
            },
            StripState::Csi => {
                let u = c as u32;
                if 0x40 <= u && u <= 0x7e {
                    st = StripState::Text;
                } else {
                    st = StripState::Csi;
                }
            },
            StripState::Osc => {
                if c == '\u{7}' {
                    st = StripState::Text;
                } else if c == '\u{1b}' {
                    st = StripState::OscEscape;
                } else {
                    st = StripState::Osc;
                }
            },
            StripState::OscEscape => {
                if c == '\\' {
                    st = StripState::Text;
                } else if c == '\u{1b}' {
                    st = StripState::OscEscape;
                } else {
                    st = StripState::Osc;
                }
            },
        }
        proof {
            assert(st == strip_next(st0, c));
            assert(out@ =~= out0 + strip_out(st0, c));
            assert(out0 + strip_from(st0, v@.skip(i as int)) == strip_ansi_spec(v@));
            assert(strip_from(st0, v@.skip(i as int)) == strip_out(st0, c) + strip_from(
                st,
                v@.skip(i as int + 1),
            ));
            assert(out@ + strip_from(st, v@.skip(i as int + 1)) =~= out0 + (strip_out(st0, c)
                + strip_from(st, v@.skip(i as int + 1))));
        }
        i = i + 1;
    }
    proof {
        assert(v@.skip(n as int) =~= Seq::<char>::empty());
        assert(out@ =~= strip_ansi_spec(v@));
    }
    out
}

/// Strips ANSI/control escapes from `s`, keeping newlines, carriage
/// returns and tabs.
pub fn strip_ansi(s: &str) -> (r: String)
    ensures
        r@ == strip_ansi_spec(s@),
{
    let v = chars_of(s);
    let out = strip_chars(&v);
    string_from_chars(&out)
}

/// Every character the stripper emits is plain.
pub proof fn lemma_strip_from_plain(st: StripState, s: Seq<char>)
    ensures
        forall|i: int| 0 <= i < strip_from(st, s).len() ==> is_plain(#[trigger] strip_from(st, s)[i]),
    decreases s.len(),
{
    if s.len() > 0 {
        let nxt = strip_next(st, s[0]);
        let pre = strip_out(st, s[0]);
        let rest = strip_from(nxt, s.drop_first());
        lemma_strip_from_plain(nxt, s.drop_first());
        assert forall|i: int| 0 <= i < strip_from(st, s).len() implies is_plain(
            #[trigger] strip_from(st, s)[i],
        ) by {
            assert(strip_from(st, s) == pre + rest);
            if i < pre.len() {
                assert(pre == seq![s[0]]);
                assert(is_plain(s[0]));
            } else {
                assert(strip_from(st, s)[i] == rest[i - pre.len()]);
            }
        }
    }
}

/// Scanning a sequence of plain characters copies it through unchanged.
pub proof fn lemma_strip_from_plain_identity(s: Seq<char>)
    requires
        forall|i: int| 0 <= i < s.len() ==> is_plain(#[trigger] s[i]),
    ensures
        strip_from(StripState::Text, s) == s,
    decreases s.len(),
{
    if s.len() > 0 {
        assert(is_plain(s[0]));
        assert(s[0] != '\u{1b}');
        lemma_strip_from_plain_identity(s.drop_first());
        assert(strip_from(StripState::Text, s) =~= s);
    } else {
        assert(strip_from(StripState::Text, s) =~= s);
    }
}

/// Stripping is idempotent: stripping already-stripped text returns
/// it unchanged.
pub proof fn lemma_strip_idempotent(s: Seq<char>)
    ensures
        strip_ansi_spec(strip_ansi_spec(s)) == strip_ansi_spec(s),
{
    lemma_strip_from_plain(StripState::Text, s);
    lemma_strip_from_plain_identity(strip_ansi_spec(s));
}

} // verus!
