//! POSIX-shell single-quote escaping.
//!
//! When a command must be assembled as a single shell-interpreted
//! string (the login-shell fallback path), every argument is wrapped
//! in single quotes, with each embedded single quote replaced by the
//! close-quote / escaped-quote / open-quote sequence `'\''`.
//!
//! The module also carries a specification-level model of how a
//! POSIX shell reads one word ([`word_literal`]): the word is a safe
//! literal only if every special character stands inside single
//! quotes or behind a backslash, and quotes are balanced.
//! [`lemma_shell_quote_round_trip`] proves that quoting round-trips
//! safely: a quoted string is always read back as exactly the
//! original characters, with nothing left for the shell to expand.

use vstd::prelude::*;

use crate::text::{chars_of, string_from_chars};

verus! {

/// The expansion of one character inside a quoted word: a single
/// quote becomes `'\''`, everything else stands as itself.
pub open spec fn quote_one(c: char) -> Seq<char> {
    if c == '\'' {
        seq!['\'', '\\', '\'', '\'']
    } else {
        seq![c]
    }
}

/// The body of the quoted word: each character expanded.
pub open spec fn quote_body(s: Seq<char>) -> Seq<char>
    decreases s.len(),
{
    if s.len() == 0 {
        Seq::empty()
    } else {
        quote_one(s[0]) + quote_body(s.drop_first())
    }
}

/// The quoted word: the expanded body wrapped in single quotes.
pub open spec fn shell_quote_spec(s: Seq<char>) -> Seq<char> {
    seq!['\''] + quote_body(s) + seq!['\'']
}

proof fn lemma_quote_body_push(s: Seq<char>, c: char)
    ensures
        quote_body(s.push(c)) == quote_body(s) + quote_one(c),
    decreases s.len(),
{
    if s.len() == 0 {
        assert(s.push(c)[0] == c);
        assert(s.push(c).drop_first() =~= Seq::<char>::empty());
        assert(quote_body(Seq::<char>::empty()) == Seq::<char>::empty());
        assert(quote_body(s.push(c)) =~= quote_body(s) + quote_one(c));
    } else {
        assert(s.push(c)[0] == s[0]);
        assert(s.push(c).len() > 0);
        assert(s.push(c).drop_first() =~= s.drop_first().push(c));
        lemma_quote_body_push(s.drop_first(), c);
        assert(quote_body(s.push(c)) == quote_one(s[0]) + quote_body(s.push(c).drop_first()));
        assert(quote_body(s.push(c).drop_first()) == quote_body(s.drop_first()) + quote_one(c));
        assert(quote_body(s) == quote_one(s[0]) + quote_body(s.drop_first()));
        assert(quote_body(s.push(c)) =~= quote_body(s) + quote_one(c));
    }
}

/// Wraps `s` in single quotes, replacing each embedded single quote
/// with the close-quote / escaped-quote / open-quote sequence.
pub fn shell_quote(s: &str) -> (r: String)
    ensures
        r@ == shell_quote_spec(s@),
{
    let v = chars_of(s);
    let n = v.len();
    let mut out: Vec<char> = Vec::new();
    out.push('\'');
    let mut i: usize = 0;
    proof {
        assert(v@.take(0) =~= Seq::<char>::empty());
        assert(out@ =~= seq!['\''] + quote_body(v@.take(0)));
    }
    while i < n
        invariant
            n == v@.len(),
            v@ == s@,
            i <= n,
            out@ == seq!['\''] + quote_body(v@.take(i as int)),
        decreases n - i,
    {
        let ghost out0 = out@;
        let c = v[i];
        if c == '\'' {
            out.push('\'');
            out.push('\\');
            out.push('\'');
            out.push('\'');
        } else {
            out.push(c);
        }
        proof {
            assert(out@ =~= out0 + quote_one(c));
            assert(v@.take(i as int + 1) =~= v@.take(i as int).push(c));
            lemma_quote_body_push(v@.take(i as int), c);
            assert(out@ =~= seq!['\''] + quote_body(v@.take(i as int + 1)));
        }
        i = i + 1;
    }
    out.push('\'');
    proof {
        assert(v@.take(n as int) =~= s@);
        assert(out@ =~= shell_quote_spec(s@));
    }
    string_from_chars(&out)
}

/// Characters a POSIX shell treats specially outside of quotes:
/// word breaks, operators, expansion and globbing introducers.
pub open spec fn shell_special(c: char) -> bool {
    ||| c == ' '
    ||| c == '\t'
    ||| c == '\n'
    ||| c == '|'
    ||| c == '&'
    ||| c == ';'
    ||| c == '<'
    ||| c == '>'
    ||| c == '('
    ||| c == ')'
    ||| c == '$'
    ||| c == '`'
    ||| c == '"'
    ||| c == '*'
    ||| c == '?'
    ||| c == '['
    ||| c == '#'
    ||| c == '~'
    ||| c == '='
    ||| c == '!'
    ||| c == '{'
    ||| c == '}'
}

/// How a POSIX shell reads `w` outside of quotes: `Some(text)` when
/// the whole word is one safe literal, `None` when a special
/// character is exposed, a quote is unterminated, or a trailing
/// backslash is left open. A backslash escapes the next character
/// (a backslash before a newline is a line continuation and
/// contributes nothing); a single quote switches to quoted reading.
pub open spec fn word_literal(w: Seq<char>) -> Option<Seq<char>>
    decreases w.len(), 1int,
{
    if w.len() == 0 {
        Some(Seq::empty())
    } else if w[0] == '\'' {
        single_quoted_literal(w.drop_first())
    } else if w[0] == '\\' {
        if w.len() == 1 {
            None
        } else if w[1] == '\n' {
            word_literal(w.skip(2))
        } else {
            match word_literal(w.skip(2)) {
                Some(t) => Some(seq![w[1]] + t),
                None => None,
            }
        }
    } else if shell_special(w[0]) {
        None
    } else {
        match word_literal(w.drop_first()) {
            Some(t) => Some(seq![w[0]] + t),
            None => None,
        }
    }
}

/// How a POSIX shell reads `w` inside single quotes: every character
/// is literal until the closing quote; an unterminated quote fails.
pub open spec fn single_quoted_literal(w: Seq<char>) -> Option<Seq<char>>
    decreases w.len(), 0int,
{
    if w.len() == 0 {
        None
    } else if w[0] == '\'' {
        word_literal(w.drop_first())
    } else {
        match single_quoted_literal(w.drop_first()) {
            Some(t) => Some(seq![w[0]] + t),
            None => None,
        }
    }
}

proof fn lemma_quote_body_parses(s: Seq<char>)
    ensures
        single_quoted_literal(quote_body(s) + seq!['\'']) == Some(s),
    decreases s.len(),
{
    if s.len() == 0 {
        assert(quote_body(s) + seq!['\''] =~= seq!['\'']);
        assert((seq!['\'']).drop_first() =~= Seq::<char>::empty());
        assert(word_literal(Seq::<char>::empty()) == Some(Seq::<char>::empty()));
        assert(s =~= Seq::<char>::empty());
    } else {
        let c = s[0];
        let rest = s.drop_first();
        let tail = quote_body(rest) + seq!['\''];
        lemma_quote_body_parses(rest);
        if c == '\'' {
            let w = quote_body(s) + seq!['\''];
            assert(w =~= seq!['\'', '\\', '\'', '\''] + tail);
            assert(w[0] == '\'');
            let w1 = w.drop_first();
            assert(w1 =~= seq!['\\', '\'', '\''] + tail);
            assert(w1[0] == '\\' && w1.len() >= 2 && w1[1] == '\'');
            let w2 = w1.skip(2);
            assert(w2 =~= seq!['\''] + tail);
            assert(w2[0] == '\'');
            assert(w2.drop_first() =~= tail);
            assert(word_literal(w2) == Some(rest));
            assert(word_literal(w1) == Some(seq!['\''] + rest));
            assert(seq!['\''] + rest =~= s);
        } else {
            let w = quote_body(s) + seq!['\''];
            assert(w =~= seq![c] + tail);
            assert(w[0] == c);
            assert(w.drop_first() =~= tail);
            assert(single_quoted_literal(w) == Some(seq![c] + rest));
            assert(seq![c] + rest =~= s);
        }
    }
}

/// Shell quoting round-trips safely: for every string, the quoted
/// word is read back by a POSIX shell as exactly the original
/// characters — a single literal word with no command injection.
pub proof fn lemma_shell_quote_round_trip(s: Seq<char>)
    ensures
        word_literal(shell_quote_spec(s)) == Some(s),
{
    let w = shell_quote_spec(s);
    assert(w[0] == '\'');
    assert(w.drop_first() =~= quote_body(s) + seq!['\'']);
    lemma_quote_body_parses(s);
}

/// Whether a POSIX shell treats `c` specially outside of quotes.
fn special_char(c: char) -> (r: bool)
    ensures
        r == shell_special(c),
{
    c == ' ' || c == '\t' || c == '\n' || c == '|' || c == '&' || c == ';' || c == '<' || c == '>'
        || c == '(' || c == ')' || c == '$' || c == '`' || c == '"' || c == '*' || c == '?'
        || c == '[' || c == '#' || c == '~' || c == '=' || c == '!' || c == '{' || c == '}'
}

/// How the parse of the rest of a word continues: outside quotes or
/// inside single quotes.
pub open spec fn parse_in_state(in_single: bool, w: Seq<char>) -> Option<Seq<char>> {
    if in_single {
        single_quoted_literal(w)
    } else {
        word_literal(w)
    }
}

/// `o` with `p` prepended to a successful parse.
pub open spec fn prepend_opt(p: Seq<char>, o: Option<Seq<char>>) -> Option<Seq<char>> {
    match o {
        Some(t) => Some(p + t),
        None => None,
    }
}

proof fn lemma_prepend_shift(p: Seq<char>, c: char, o: Option<Seq<char>>)
    ensures
        prepend_opt(
            p,
            match o {
                Some(t) => Some(seq![c] + t),
                None => None,
            },
        ) == prepend_opt(p.push(c), o),
{
    if o is Some {
        assert(p + (seq![c] + o->0) =~= p.push(c) + o->0);
    }
}

/// Reads `w` as one POSIX shell word: the literal text the shell
/// would take it for, or nothing when a special character stands
/// unquoted, a quote is unterminated, or a trailing backslash is
/// left open. The executable face of [`word_literal`].
pub fn shell_word_literal(w: &str) -> (r: Option<String>)
    ensures
        match r {
            Some(text) => word_literal(w@) == Some(text@),
            None => word_literal(w@) is None,
        },
{
    let v = chars_of(w);
    let n = v.len();
    let mut out: Vec<char> = Vec::new();
    let mut in_single = false;
    let mut i: usize = 0;
    proof {
        assert(v@.skip(0) =~= v@);
        if word_literal(v@) is Some {
            assert(Seq::<char>::empty() + word_literal(v@)->0 =~= word_literal(v@)->0);
        }
        assert(prepend_opt(out@, parse_in_state(false, v@)) == word_literal(v@));
    }
    while i < n
        invariant
            n == v@.len(),
            v@ == w@,
            i <= n,
            prepend_opt(out@, parse_in_state(in_single, v@.skip(i as int))) == word_literal(w@),
        decreases n - i,
    {
        let ghost out0 = out@;
        let ghost rest = v@.skip(i as int);
        proof {
            assert(rest.len() > 0);
            assert(rest[0] == v@[i as int]);
            assert(rest.drop_first() =~= v@.skip(i as int + 1));
        }
        let c = v[i];
        if in_single {
            if c == '\'' {
                in_single = false;
                i = i + 1;
            } else {
                out.push(c);
                proof {
                    assert(single_quoted_literal(rest) == (match single_quoted_literal(
                        rest.drop_first(),
                    ) {
                        Some(t) => Some(seq![c] + t),
                        None => None::<Seq<char>>,
                    }));
                    lemma_prepend_shift(out0, c, single_quoted_literal(rest.drop_first()));
                }
                i = i + 1;
            }
        } else {
            if c == '\'' {
                in_single = true;
                i = i + 1;
            } else if c == '\\' {
                if i + 1 >= n {
                    proof {
                        assert(rest.len() == 1);
                        assert(word_literal(rest) is None);
                    }
                    return None;
                }
                let next = v[i + 1];
                proof {
                    assert(rest.len() >= 2);
                    assert(rest[1] == v@[i as int + 1]);
                    assert(rest.skip(2) =~= v@.skip(i as int + 2));
                }
                if next == '\n' {
                    i = i + 2;
                } else {
                    out.push(next);
                    proof {
                        assert(word_literal(rest) == (match word_literal(rest.skip(2)) {
                            Some(t) => Some(seq![next] + t),
                            None => None::<Seq<char>>,
                        }));
                        lemma_prepend_shift(out0, next, word_literal(rest.skip(2)));
                    }
                    i = i + 2;
                }
            } else if special_char(c) {
                proof {
                    assert(word_literal(rest) is None);
                }
                return None;
            } else {
                out.push(c);
                proof {
                    assert(word_literal(rest) == (match word_literal(rest.drop_first()) {
                        Some(t) => Some(seq![c] + t),
                        None => None::<Seq<char>>,
                    }));
                    lemma_prepend_shift(out0, c, word_literal(rest.drop_first()));
                }
                i = i + 1;
            }
        }
    }
    proof {
        assert(v@.skip(n as int) =~= Seq::<char>::empty());
    }
    if in_single {
        proof {
            assert(single_quoted_literal(Seq::<char>::empty()) is None);
        }
        return None;
    }
    proof {
        assert(word_literal(Seq::<char>::empty()) == Some(Seq::<char>::empty()));
        assert(out@ + Seq::<char>::empty() =~= out@);
        assert(word_literal(w@) == Some(out@));
    }
    Some(string_from_chars(&out))
}

} // verus!
