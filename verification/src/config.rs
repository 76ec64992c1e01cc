//! The key/value config-file rewrite: a line-oriented update of a
//! TOML-style file.
//!
//! [`update_toml_key`] replaces every line that sets the given key —
//! the key at the start of the line (after leading white space),
//! followed by optional ASCII white space and `=` — with a fresh
//! `key = value` line, normalising line endings to `\n`; when no
//! line sets the key, the new line is prepended to the file
//! unchanged. The value is written bare when it already reads as a
//! TOML-style literal ([`value_is_literal`]) and double-quoted
//! otherwise.
//!
//! A value counts as a literal when, after trimming white space, it
//! is a boolean (any ASCII case), a number (the decimal grammar of
//! Rust's float parsing, which subsumes integer literals), or is
//! wrapped in brackets, braces, double quotes or single quotes.

use vstd::prelude::*;

use crate::error::AppError;
use crate::text::{chars_of, copy_range, push_all, str_eq, string_from_chars};

verus! {

/// The directory that holds the tool's configuration file: the
/// override location when the caller probed one from the
/// environment, else `.codex` under the home directory; with
/// neither available the configuration cannot be located.
pub fn codex_config_home(codex_home: Option<String>, home: Option<String>) -> (r: Result<
    String,
    AppError,
>)
    ensures
        match r {
            Ok(p) => (codex_home is Some && p == codex_home->0) || (codex_home is None
                && home is Some && p@ == home->0@ + "/.codex"@),
            Err(e) => codex_home is None && home is None && (e matches AppError::Config(m) && m@
                == "HOME not set"@),
        },
{
    match codex_home {
        Some(p) => Ok(p),
        None => match home {
            Some(h) => {
                let mut p = h;
                p.append("/.codex");
                Ok(p)
            },
            None => Err(AppError::Config("HOME not set".to_owned())),
        },
    }
}

/// The Unicode white-space characters, as trimming removes them.
pub open spec fn is_ws(c: char) -> bool {
    ||| c == ' '
    ||| c == '\t'
    ||| c == '\n'
    ||| c == '\r'
    ||| c == '\u{b}'
    ||| c == '\u{c}'
    ||| c == '\u{85}'
    ||| c == '\u{a0}'
    ||| c == '\u{1680}'
    ||| ('\u{2000}' <= c && c <= '\u{200a}')
    ||| c == '\u{2028}'
    ||| c == '\u{2029}'
    ||| c == '\u{202f}'
    ||| c == '\u{205f}'
    ||| c == '\u{3000}'
}

/// ASCII white space, as tolerated between the key and its `=`.
pub open spec fn is_ascii_ws(c: char) -> bool {
    c == ' ' || c == '\t' || c == '\n' || c == '\u{c}' || c == '\r'
}

/// An ASCII decimal digit.
pub open spec fn is_digit(c: char) -> bool {
    '0' <= c && c <= '9'
}

/// ASCII lowercasing of one character.
pub open spec fn ascii_lower(c: char) -> char {
    if 'A' <= c && c <= 'Z' {
        (((c as u32) + 32) as char)
    } else {
        c
    }
}

/// The ASCII-lowercased form of a sequence.
pub open spec fn lower_seq(s: Seq<char>) -> Seq<char> {
    s.map_values(|c: char| ascii_lower(c))
}

/// The number of leading white-space characters.
pub open spec fn ws_prefix_len(s: Seq<char>) -> nat
    decreases s.len(),
{
    if s.len() == 0 {
        0
    } else if is_ws(s[0]) {
        1 + ws_prefix_len(s.drop_first())
    } else {
        0
    }
}

/// The number of trailing white-space characters.
pub open spec fn ws_suffix_len(s: Seq<char>) -> nat
    decreases s.len(),
{
    if s.len() == 0 {
        0
    } else if is_ws(s.last()) {
        1 + ws_suffix_len(s.drop_last())
    } else {
        0
    }
}

/// `s` without its leading white space.
pub open spec fn trim_start_spec(s: Seq<char>) -> Seq<char> {
    s.skip(ws_prefix_len(s) as int)
}

/// `s` without its leading and trailing white space.
pub open spec fn trim_spec(s: Seq<char>) -> Seq<char> {
    let t = trim_start_spec(s);
    t.take(t.len() - ws_suffix_len(t))
}

/// The number of consecutive digits at position `i`.
pub open spec fn digit_run(s: Seq<char>, i: int) -> int
    decreases s.len() - i,
{
    if i < 0 || i >= s.len() {
        0
    } else if is_digit(s[i]) {
        1 + digit_run(s, i + 1)
    } else {
        0
    }
}

/// The number of consecutive ASCII white-space characters at `i`.
pub open spec fn ascii_ws_run(s: Seq<char>, i: int) -> int
    decreases s.len() - i,
{
    if i < 0 || i >= s.len() {
        0
    } else if is_ascii_ws(s[i]) {
        1 + ascii_ws_run(s, i + 1)
    } else {
        0
    }
}

/// A valid exponent part starting at `p`: nothing at all, or `e`/`E`,
/// an optional sign, and at least one digit reaching the end.
pub open spec fn exp_ok(s: Seq<char>, p: int) -> bool {
    if p == s.len() {
        true
    } else if 0 <= p < s.len() && (s[p] == 'e' || s[p] == 'E') {
        let q = if p + 1 < s.len() && (s[p + 1] == '+' || s[p + 1] == '-') {
            p + 2
        } else {
            p + 1
        };
        digit_run(s, q) > 0 && q + digit_run(s, q) == s.len()
    } else {
        false
    }
}

/// An unsigned decimal number: digits, or digits around a point with
/// at least one digit somewhere, optionally followed by an exponent.
pub open spec fn is_number_body(s: Seq<char>) -> bool {
    let a = digit_run(s, 0);
    if a == s.len() {
        a > 0
    } else if s[a] == '.' {
        let b = digit_run(s, a + 1);
        (a > 0 || b > 0) && exp_ok(s, a + 1 + b)
    } else {
        a > 0 && exp_ok(s, a)
    }
}

/// A decimal numeric literal, as Rust's float parsing accepts it:
/// an optional sign, then `inf`, `infinity`, `nan` (any ASCII case)
/// or a number. Every integer literal also matches this grammar.
pub open spec fn is_numeric_literal(v: Seq<char>) -> bool {
    let body = if v.len() > 0 && (v[0] == '+' || v[0] == '-') {
        v.drop_first()
    } else {
        v
    };
    ||| lower_seq(body) == "inf"@
    ||| lower_seq(body) == "infinity"@
    ||| lower_seq(body) == "nan"@
    ||| is_number_body(body)
}

/// A boolean literal, in any ASCII case.
pub open spec fn is_bool_literal(v: Seq<char>) -> bool {
    lower_seq(v) == "true"@ || lower_seq(v) == "false"@
}

/// Whether a value already reads as a TOML-style literal after
/// trimming: a boolean, a number, or a bracketed, braced or quoted
/// form (judged by its first and last character alone).
pub open spec fn value_is_literal_spec(val: Seq<char>) -> bool {
    let v = trim_spec(val);
    ||| is_bool_literal(v)
    ||| is_numeric_literal(v)
    ||| (v.len() >= 1 && v[0] == '[' && v.last() == ']')
    ||| (v.len() >= 1 && v[0] == '{' && v.last() == '}')
    ||| (v.len() >= 1 && v[0] == '"' && v.last() == '"')
    ||| (v.len() >= 1 && v[0] == '\'' && v.last() == '\'')
}

// --- splitting a file into lines ---

/// One trailing carriage return removed, as `\r\n` endings ask.
pub open spec fn strip_cr(line: Seq<char>) -> Seq<char> {
    if line.len() > 0 && line.last() == '\r' {
        line.drop_last()
    } else {
        line
    }
}

/// Splits `rest` into lines, with `cur` the piece of the current
/// line read so far. A `\n` closes a line (a preceding `\r` folds
/// into the ending); a last line without a terminator stands as it
/// is; a trailing terminator opens no empty line.
pub open spec fn split_acc(cur: Seq<char>, rest: Seq<char>) -> Seq<Seq<char>>
    decreases rest.len(),
{
    if rest.len() == 0 {
        if cur.len() == 0 {
            Seq::empty()
        } else {
            seq![cur]
        }
    } else if rest[0] == '\n' {
        seq![strip_cr(cur)] + split_acc(Seq::empty(), rest.drop_first())
    } else {
        split_acc(cur.push(rest[0]), rest.drop_first())
    }
}

/// The lines of `s`.
pub open spec fn split_lines(s: Seq<char>) -> Seq<Seq<char>> {
    split_acc(Seq::empty(), s)
}

// --- the rewrite itself ---

/// Whether `line` sets `key`: the key after leading white space,
/// then optional ASCII white space, then `=`.
pub open spec fn line_sets_key(line: Seq<char>, key: Seq<char>) -> bool {
    let t = trim_start_spec(line);
    &&& t.len() >= key.len()
    &&& t.take(key.len() as int) == key
    &&& {
        let r = t.skip(key.len() as int);
        let j = ascii_ws_run(r, 0);
        j < r.len() && r[j] == '='
    }
}

/// The value as written into the file: trimmed and bare when it is
/// already a literal, double-quoted otherwise.
pub open spec fn rendered_value(value: Seq<char>) -> Seq<char> {
    if value_is_literal_spec(value) {
        trim_spec(value)
    } else {
        seq!['"'] + value + seq!['"']
    }
}

/// The fresh line written for `key`.
pub open spec fn replacement_line(key: Seq<char>, value: Seq<char>) -> Seq<char> {
    key + " = "@ + rendered_value(value)
}

/// The views of a sequence of character vectors.
pub open spec fn line_views(s: Seq<Vec<char>>) -> Seq<Seq<char>> {
    s.map_values(|v: Vec<char>| v@)
}

/// Renders the updated file: every line that sets the key replaced,
/// every line closed with `\n`.
pub open spec fn render_lines(lines: Seq<Seq<char>>, key: Seq<char>, value: Seq<char>) -> Seq<char>
    decreases lines.len(),
{
    if lines.len() == 0 {
        Seq::empty()
    } else {
        (if line_sets_key(lines[0], key) {
            replacement_line(key, value)
        } else {
            lines[0]
        }) + seq!['\n'] + render_lines(lines.drop_first(), key, value)
    }
}

/// Whether any line of the file sets the key.
pub open spec fn any_line_sets(lines: Seq<Seq<char>>, key: Seq<char>) -> bool {
    exists|i: int| 0 <= i < lines.len() && line_sets_key(lines[i], key)
}

/// The updated file: existing settings of the key rewritten in
/// place, or the fresh line prepended to the untouched file.
pub open spec fn update_toml_key_spec(original: Seq<char>, key: Seq<char>, value: Seq<char>) -> Seq<
    char,
> {
    let lines = split_lines(original);
    if any_line_sets(lines, key) {
        render_lines(lines, key, value)
    } else {
        replacement_line(key, value) + seq!['\n'] + original
    }
}

// --- supporting lemmas ---

proof fn lemma_ws_prefix_at(s: Seq<char>, lo: int)
    requires
        0 <= lo <= s.len(),
        forall|j: int| 0 <= j < lo ==> is_ws(#[trigger] s[j]),
        lo < s.len() ==> !is_ws(s[lo as int]),
    ensures
        ws_prefix_len(s) == lo,
    decreases lo,
{
    if lo == 0 {
    } else {
        assert(is_ws(s[0]));
        assert(forall|j: int| 0 <= j < lo - 1 ==> s.drop_first()[j] == s[j + 1]);
        assert(lo - 1 < s.drop_first().len() ==> s.drop_first()[lo - 1] == s[lo as int]);
        lemma_ws_prefix_at(s.drop_first(), lo - 1);
    }
}

proof fn lemma_ws_suffix_at(s: Seq<char>, m: int)
    requires
        0 <= m <= s.len(),
        forall|j: int| m <= j < s.len() ==> is_ws(#[trigger] s[j]),
        m > 0 ==> !is_ws(s[m - 1]),
    ensures
        ws_suffix_len(s) == s.len() - m,
    decreases s.len() - m,
{
    if m == s.len() {
        if s.len() > 0 {
            assert(!is_ws(s.last()));
        }
    } else {
        assert(is_ws(s.last()));
        assert(forall|j: int| m <= j < s.drop_last().len() ==> s.drop_last()[j] == s[j]);
        lemma_ws_suffix_at(s.drop_last(), m);
    }
}

proof fn lemma_digit_run_at(s: Seq<char>, i: int, j: int)
    requires
        0 <= i <= j <= s.len(),
        forall|k: int| i <= k < j ==> is_digit(#[trigger] s[k]),
        j < s.len() ==> !is_digit(s[j]),
    ensures
        digit_run(s, i) == j - i,
    decreases j - i,
{
    if i < j {
        lemma_digit_run_at(s, i + 1, j);
    }
}

proof fn lemma_ascii_ws_run_at(s: Seq<char>, i: int, j: int)
    requires
        0 <= i <= j <= s.len(),
        forall|k: int| i <= k < j ==> is_ascii_ws(#[trigger] s[k]),
        j < s.len() ==> !is_ascii_ws(s[j]),
    ensures
        ascii_ws_run(s, i) == j - i,
    decreases j - i,
{
    if i < j {
        lemma_ascii_ws_run_at(s, i + 1, j);
    }
}

// --- executable checks ---

/// Whether `c` is white space.
fn ws_char(c: char) -> (r: bool)
    ensures
        r == is_ws(c),
{
    c == ' ' || c == '\t' || c == '\n' || c == '\r' || c == '\u{b}' || c == '\u{c}' || c == '\u{85}'
        || c == '\u{a0}' || c == '\u{1680}' || ('\u{2000}' <= c && c <= '\u{200a}') || c == '\u{2028}'
        || c == '\u{2029}' || c == '\u{202f}' || c == '\u{205f}' || c == '\u{3000}'
}

/// Whether `c` is ASCII white space.
fn ascii_ws_char(c: char) -> (r: bool)
    ensures
        r == is_ascii_ws(c),
{
    c == ' ' || c == '\t' || c == '\n' || c == '\u{c}' || c == '\r'
}

/// Whether `c` is an ASCII digit.
fn digit_char(c: char) -> (r: bool)
    ensures
        r == is_digit(c),
{
    '0' <= c && c <= '9'
}

/// The trimmed form of `v`.
fn trimmed_chars(v: &Vec<char>) -> (r: Vec<char>)
    ensures
        r@ == trim_spec(v@),
{
    let n = v.len();
    let mut lo: usize = 0;
    while lo < n && ws_char(v[lo])
        invariant
            n == v@.len(),
            lo <= n,
            forall|j: int| 0 <= j < lo ==> is_ws(#[trigger] v@[j]),
        decreases n - lo,
    {
        lo = lo + 1;
    }
    proof {
        lemma_ws_prefix_at(v@, lo as int);
    }
    let mut hi: usize = n;
    while hi > lo && ws_char(v[hi - 1])
        invariant
            n == v@.len(),
            lo <= hi <= n,
            forall|j: int| hi <= j < n ==> is_ws(#[trigger] v@[j]),
        decreases hi,
    {
        hi = hi - 1;
    }
    let r = copy_range(v, lo, hi);
    proof {
        let t = v@.skip(lo as int);
        assert(forall|j: int|
            hi - lo <= j < t.len() ==> #[trigger] t[j] == v@[j + lo] && is_ws(v@[j + lo]));
        assert(hi - lo > 0 ==> t[hi - lo - 1] == v@[hi - 1] && !is_ws(v@[hi - 1]));
        lemma_ws_suffix_at(t, hi - lo);
        assert(trim_spec(v@) =~= v@.subrange(lo as int, hi as int));
    }
    r
}

/// The ASCII-lowercased form of `v`, as a string.
fn lower_string(v: &Vec<char>) -> (r: String)
    ensures
        r@ == lower_seq(v@),
{
    let n = v.len();
    let mut out: Vec<char> = Vec::new();
    let mut i: usize = 0;
    while i < n
        invariant
            n == v@.len(),
            i <= n,
            out@ == lower_seq(v@.take(i as int)),
        decreases n - i,
    {
        let c = v[i];
        if 'A' <= c && c <= 'Z' {
            out.push(((c as u8) + 32) as char);
        } else {
            out.push(c);
        }
        i = i + 1;
        proof {
            assert(out@ =~= lower_seq(v@.take(i as int)));
        }
    }
    proof {
        assert(v@.take(n as int) =~= v@);
    }
    string_from_chars(&out)
}

/// The end of the digit run starting at `from`.
fn digit_run_end(v: &Vec<char>, from: usize) -> (r: usize)
    requires
        from <= v@.len(),
    ensures
        from <= r <= v@.len(),
        digit_run(v@, from as int) == r - from,
{
    let n = v.len();
    let mut j: usize = from;
    while j < n && digit_char(v[j])
        invariant
            n == v@.len(),
            from <= j <= n,
            forall|k: int| from <= k < j ==> is_digit(#[trigger] v@[k]),
        decreases n - j,
    {
        j = j + 1;
    }
    proof {
        lemma_digit_run_at(v@, from as int, j as int);
    }
    j
}

/// Whether `v` matches the unsigned-number grammar.
fn number_body_check(v: &Vec<char>) -> (r: bool)
    ensures
        r == is_number_body(v@),
{
    let n = v.len();
    let a = digit_run_end(v, 0);
    if a == n {
        return a > 0;
    }
    let p: usize = if v[a] == '.' {
        let b = digit_run_end(v, a + 1);
        if a == 0 && b == a + 1 {
            return false;
        }
        b
    } else {
        if a == 0 {
            return false;
        }
        a
    };
    if p == n {
        return true;
    }
    if v[p] != 'e' && v[p] != 'E' {
        return false;
    }
    let q: usize = if p + 1 < n && (v[p + 1] == '+' || v[p + 1] == '-') {
        p + 2
    } else {
        p + 1
    };
    if q > n {
        return false;
    }
    let e = digit_run_end(v, q);
    e > q && e == n
}

/// Whether `v` matches the signed numeric-literal grammar.
fn numeric_literal_check(v: &Vec<char>) -> (r: bool)
    ensures
        r == is_numeric_literal(v@),
{
    let n = v.len();
    let start: usize = if n > 0 && (v[0] == '+' || v[0] == '-') {
        1
    } else {
        0
    };
    let body = copy_range(v, start, n);
    proof {
        if start == 1 {
            assert(body@ =~= v@.drop_first());
        } else {
            assert(body@ =~= v@);
        }
    }
    let lb = lower_string(&body);
    if str_eq(lb.as_str(), "inf") || str_eq(lb.as_str(), "infinity") || str_eq(lb.as_str(), "nan") {
        return true;
    }
    number_body_check(&body)
}

/// Whether a value, after trimming, already reads as a TOML-style
/// literal: a boolean in any ASCII case, a decimal number, or a
/// form wrapped in brackets, braces, double quotes or single quotes.
pub fn value_is_literal(val: &str) -> (r: bool)
    ensures
        r == value_is_literal_spec(val@),
{
    let chars = chars_of(val);
    let t = trimmed_chars(&chars);
    let low = lower_string(&t);
    if str_eq(low.as_str(), "true") || str_eq(low.as_str(), "false") {
        return true;
    }
    let n = t.len();
    if n >= 1 {
        let f = t[0];
        let l = t[n - 1];
        if (f == '[' && l == ']') || (f == '{' && l == '}') || (f == '"' && l == '"') || (f == '\''
            && l == '\'') {
            return true;
        }
    }
    numeric_literal_check(&t)
}

/// Whether `line` sets `key`.
fn line_sets_key_check(line: &Vec<char>, key: &Vec<char>) -> (r: bool)
    ensures
        r == line_sets_key(line@, key@),
{
    let n = line.len();
    let klen = key.len();
    let mut lo: usize = 0;
    while lo < n && ws_char(line[lo])
        invariant
            n == line@.len(),
            lo <= n,
            forall|j: int| 0 <= j < lo ==> is_ws(#[trigger] line@[j]),
        decreases n - lo,
    {
        lo = lo + 1;
    }
    proof {
        lemma_ws_prefix_at(line@, lo as int);
    }
    let t = copy_range(line, lo, n);
    proof {
        assert(t@ =~= trim_start_spec(line@));
    }
    let tn = t.len();
    if tn < klen {
        return false;
    }
    let mut i: usize = 0;
    while i < klen
        invariant
            klen == key@.len(),
            klen <= tn == t@.len(),
            t@ == trim_start_spec(line@),
            i <= klen,
            forall|j: int| 0 <= j < i ==> t@[j] == key@[j],
        decreases klen - i,
    {
        if t[i] != key[i] {
            proof {
                assert(t@.take(klen as int)[i as int] != key@[i as int]);
            }
            return false;
        }
        i = i + 1;
    }
    proof {
        assert(t@.take(klen as int) =~= key@);
    }
    let mut j: usize = klen;
    while j < tn && ascii_ws_char(t[j])
        invariant
            klen <= j <= tn == t@.len(),
            forall|k: int| klen <= k < j ==> is_ascii_ws(#[trigger] t@[k]),
        decreases tn - j,
    {
        j = j + 1;
    }
    let r = j < tn && t[j] == '=';
    proof {
        let rest = t@.skip(klen as int);
        assert(forall|k: int| 0 <= k < rest.len() ==> #[trigger] rest[k] == t@[k + klen]);
        lemma_ascii_ws_run_at(rest, 0, j - klen as int);
        assert(ascii_ws_run(rest, 0) == j - klen);
        assert(j < tn ==> rest[j - klen as int] == t@[j as int]);
    }
    r
}

/// The lines of `v`, split as the rewrite reads them.
fn split_lines_exec(v: &Vec<char>) -> (r: Vec<Vec<char>>)
    ensures
        line_views(r@) == split_lines(v@),
{
    let n = v.len();
    let mut lines: Vec<Vec<char>> = Vec::new();
    let mut cur: Vec<char> = Vec::new();
    let mut i: usize = 0;
    proof {
        assert(v@.skip(0) =~= v@);
        assert(line_views(lines@) + split_acc(cur@, v@) =~= split_lines(v@));
    }
    while i < n
        invariant
            n == v@.len(),
            i <= n,
            line_views(lines@) + split_acc(cur@, v@.skip(i as int)) == split_lines(v@),
        decreases n - i,
    {
        let ghost lines0 = lines@;
        let ghost cur0 = cur@;
        let c = v[i];
        proof {
            assert(v@.skip(i as int).len() > 0);
            assert(v@.skip(i as int)[0] == v@[i as int]);
            assert(v@.skip(i as int).drop_first() =~= v@.skip(i as int + 1));
        }
        if c == '\n' {
            let cn = cur.len();
            if cn > 0 && cur[cn - 1] == '\r' {
                cur.pop();
            }
            proof {
                assert(cur@ =~= strip_cr(cur0));
            }
            lines.push(cur);
            cur = Vec::new();
            proof {
                assert(line_views(lines@) =~= line_views(lines0) + seq![strip_cr(cur0)]);
                assert(line_views(lines@) + split_acc(cur@, v@.skip(i as int + 1)) =~= line_views(
                    lines0,
                ) + (seq![strip_cr(cur0)] + split_acc(Seq::empty(), v@.skip(i as int + 1))));
            }
        } else {
            cur.push(c);
            proof {
                assert(line_views(lines@) + split_acc(cur@, v@.skip(i as int + 1)) == line_views(
                    lines0,
                ) + split_acc(cur0.push(c), v@.skip(i as int + 1)));
            }
        }
        i = i + 1;
    }
    proof {
        assert(v@.skip(n as int) =~= Seq::<char>::empty());
    }
    if cur.len() > 0 {
        let ghost lines0 = lines@;
        let ghost cur0 = cur@;
        lines.push(cur);
        proof {
            assert(split_acc(cur0, Seq::empty()) =~= seq![cur0]);
            assert(line_views(lines@) =~= line_views(lines0) + seq![cur0]);
        }
    } else {
        proof {
            assert(split_acc(cur@, Seq::empty()) =~= Seq::<Seq<char>>::empty());
            assert(line_views(lines@) + Seq::<Seq<char>>::empty() =~= line_views(lines@));
        }
    }
    lines
}

/// The fresh `key = value` line, rendered.
fn replacement_chars(key: &Vec<char>, value: &str) -> (r: Vec<char>)
    ensures
        r@ == replacement_line(key@, value@),
{
    let mut out: Vec<char> = Vec::new();
    push_all(&mut out, key);
    out.push(' ');
    out.push('=');
    out.push(' ');
    proof {
        reveal_strlit(" = ");
        assert(out@ =~= key@ + " = "@);
    }
    if value_is_literal(value) {
        let vchars = chars_of(value);
        let t = trimmed_chars(&vchars);
        push_all(&mut out, &t);
    } else {
        out.push('"');
        let vchars = chars_of(value);
        push_all(&mut out, &vchars);
        out.push('"');
        proof {
            assert(out@ =~= key@ + " = "@ + (seq!['"'] + value@ + seq!['"']));
        }
    }
    out
}

proof fn lemma_render_lines_push(lines: Seq<Seq<char>>, l: Seq<char>, key: Seq<char>, value: Seq<char>)
    ensures
        render_lines(lines.push(l), key, value) == render_lines(lines, key, value) + (if line_sets_key(
            l,
            key,
        ) {
            replacement_line(key, value)
        } else {
            l
        }) + seq!['\n'],
    decreases lines.len(),
{
    let rendered = (if line_sets_key(l, key) {
        replacement_line(key, value)
    } else {
        l
    }) + seq!['\n'];
    if lines.len() == 0 {
        assert(lines.push(l)[0] == l);
        assert(lines.push(l).drop_first() =~= Seq::<Seq<char>>::empty());
        assert(render_lines(Seq::<Seq<char>>::empty(), key, value) == Seq::<char>::empty());
        assert(render_lines(lines.push(l), key, value) =~= render_lines(lines, key, value)
            + rendered);
    } else {
        assert(lines.push(l)[0] == lines[0]);
        assert(lines.push(l).drop_first() =~= lines.drop_first().push(l));
        lemma_render_lines_push(lines.drop_first(), l, key, value);
        assert(render_lines(lines.push(l), key, value) =~= render_lines(lines, key, value)
            + rendered);
    }
}

/// Rewrites `original` so that `key` is set to `value`: every line
/// that sets the key is replaced by a fresh `key = value` line (the
/// value bare when it is a literal, double-quoted otherwise) and the
/// file's line endings are normalised to `\n`; when no line sets the
/// key, the fresh line is prepended and the file kept unchanged.
pub fn update_toml_key(original: &str, key: &str, value: &str) -> (r: String)
    ensures
        r@ == update_toml_key_spec(original@, key@, value@),
{
    let ochars = chars_of(original);
    let kchars = chars_of(key);
    let lines = split_lines_exec(&ochars);
    let rep = replacement_chars(&kchars, value);
    let n = lines.len();
    let ghost lv = line_views(lines@);
    proof {
        assert(lv.len() == n);
    }
    let mut found = false;
    let mut i: usize = 0;
    while i < n
        invariant
            n == lines@.len(),
            lv == line_views(lines@),
            lv.len() == n,
            kchars@ == key@,
            i <= n,
            found <==> exists|j: int| 0 <= j < i && line_sets_key(#[trigger] lv[j], key@),
        decreases n - i,
    {
        let hit = line_sets_key_check(&lines[i], &kchars);
        proof {
            assert(lv[i as int] == lines@[i as int]@);
            if hit {
                assert(line_sets_key(lv[i as int], key@));
            }
        }
        if hit {
            found = true;
        }
        i = i + 1;
    }
    if found {
        let mut out: Vec<char> = Vec::new();
        let mut i: usize = 0;
        proof {
            assert(lv.take(0) =~= Seq::<Seq<char>>::empty());
            assert(out@ =~= render_lines(lv.take(0), key@, value@));
        }
        while i < n
            invariant
                n == lines@.len(),
                lv == line_views(lines@),
                lv.len() == n,
                kchars@ == key@,
                i <= n,
                out@ == render_lines(lv.take(i as int), key@, value@),
                rep@ == replacement_line(key@, value@),
            decreases n - i,
        {
            let ghost out0 = out@;
            let hit = line_sets_key_check(&lines[i], &kchars);
            proof {
                assert(lv[i as int] == lines@[i as int]@);
            }
            if hit {
                push_all(&mut out, &rep);
            } else {
                push_all(&mut out, &lines[i]);
            }
            out.push('\n');
            proof {
                lemma_render_lines_push(lv.take(i as int), lv[i as int], key@, value@);
                assert(lv.take(i as int + 1) =~= lv.take(i as int).push(lv[i as int]));
                assert(out@ =~= render_lines(lv.take(i as int + 1), key@, value@));
            }
            i = i + 1;
        }
        proof {
            assert(lv.take(n as int) =~= lv);
            assert(lv == split_lines(original@));
            assert(any_line_sets(lv, key@));
        }
        string_from_chars(&out)
    } else {
        let mut out = rep;
        out.push('\n');
        push_all(&mut out, &ochars);
        proof {
            assert(lv == split_lines(original@));
            assert(!any_line_sets(lv, key@)) by {
                if any_line_sets(lv, key@) {
                    let j = choose|j: int| 0 <= j < lv.len() && line_sets_key(#[trigger] lv[j], key@);
                    assert(false);
                }
            }
            assert(out@ =~= replacement_line(key@, value@) + seq!['\n'] + original@);
        }
        string_from_chars(&out)
    }
}

} // verus!
