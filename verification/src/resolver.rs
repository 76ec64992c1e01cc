//! Binary resolution: locating the executable for a logical tool
//! name, in a fixed precedence order.
//!
//! The ordered search is: an override environment variable named by
//! uppercasing the tool name and appending `_BIN`; the per-platform
//! vendor-managed binary directory; a short list of common system
//! install prefixes; a PATH lookup; and the same lookup inside a
//! login shell. Each step only counts when the probed path exists,
//! and finding nothing is reported as unresolved, not as an error —
//! callers then fall back to invoking the tool by bare name through
//! a login shell.
//!
//! Probing the environment and the filesystem is I/O and stays with
//! the caller; this module builds each candidate exactly and decides
//! the precedence ([`choose_binary`], [`lemma_resolution_precedence`]).

use vstd::prelude::*;

use crate::text::{chars_of, string_from_chars, views_of};

verus! {

/// The platform the orchestrator runs on, as far as binary
/// resolution cares: it selects the vendor directory layout and the
/// executable suffix.
#[derive(Clone, Copy, Debug, PartialEq, Eq, Structural)]
pub enum Platform {
    /// Windows: vendor binaries under the local app-data root, with
    /// an `.exe` suffix.
    Windows,
    /// macOS: vendor binaries under the application-support
    /// directory.
    MacOs,
    /// Any other Unix: vendor binaries under an XDG-config-style
    /// directory.
    OtherUnix,
}

/// ASCII uppercasing of one character.
pub open spec fn ascii_upper(c: char) -> char {
    if 'a' <= c && c <= 'z' {
        (((c as u32) - 32) as char)
    } else {
        c
    }
}

/// The override variable consulted first: the tool name uppercased,
/// with `_BIN` appended.
pub open spec fn env_var_name_spec(tool: Seq<char>) -> Seq<char> {
    tool.map_values(|c: char| ascii_upper(c)) + "_BIN"@
}

/// The name of the per-tool override environment variable.
pub fn env_var_name(tool: &str) -> (r: String)
    ensures
        r@ == env_var_name_spec(tool@),
{
    let v = chars_of(tool);
    let n = v.len();
    let mut upper: Vec<char> = Vec::new();
    let mut i: usize = 0;
    while i < n
        invariant
            n == v@.len(),
            v@ == tool@,
            i <= n,
            upper@ == tool@.take(i as int).map_values(|c: char| ascii_upper(c)),
        decreases n - i,
    {
        let c = v[i];
        if 'a' <= c && c <= 'z' {
            upper.push(((c as u8) - 32) as char);
        } else {
            upper.push(c);
        }
        i = i + 1;
        proof {
            assert(upper@ =~= tool@.take(i as int).map_values(|c: char| ascii_upper(c)));
        }
    }
    let mut r = string_from_chars(&upper);
    r.append("_BIN");
    proof {
        assert(tool@.take(n as int) =~= tool@);
    }
    r
}

/// The vendor-managed base directory, given the probed environment:
/// on Windows the local app-data root itself; on macOS the
/// application-support directory under the home; on other Unix the
/// XDG config home, or `.config` under the home. `primary` carries
/// `LOCALAPPDATA` on Windows and `XDG_CONFIG_HOME` on other Unix;
/// `home` carries `HOME`.
pub open spec fn vendor_base_spec(
    platform: Platform,
    primary: Option<Seq<char>>,
    home: Option<Seq<char>>,
) -> Option<Seq<char>> {
    match platform {
        Platform::Windows => primary,
        Platform::MacOs => match home {
            Some(h) => Some(h + "/Library/Application Support"@),
            None => None,
        },
        Platform::OtherUnix => match primary {
            Some(x) => Some(x),
            None => match home {
                Some(h) => Some(h + "/.config"@),
                None => None,
            },
        },
    }
}

/// The vendor-managed candidate path for `tool`: the base directory,
/// the application's `bin` subdirectory, and the platform-suffixed
/// file name.
pub open spec fn vendor_candidate_spec(
    platform: Platform,
    primary: Option<Seq<char>>,
    home: Option<Seq<char>>,
    tool: Seq<char>,
) -> Option<Seq<char>> {
    match vendor_base_spec(platform, primary, home) {
        Some(b) => Some(
            b + "/Editrion/bin/"@ + tool + (if platform is Windows {
                ".exe"@
            } else {
                Seq::<char>::empty()
            }),
        ),
        None => None,
    }
}

/// The view of an optional string.
pub open spec fn opt_view(s: Option<String>) -> Option<Seq<char>> {
    match s {
        Some(x) => Some(x@),
        None => None,
    }
}

/// Builds the vendor-directory candidate for `tool` from the probed
/// environment variables, or nothing when the platform's base
/// directory is not available.
pub fn vendor_candidate(
    platform: Platform,
    primary: Option<String>,
    home: Option<String>,
    tool: &str,
) -> (r: Option<String>)
    ensures
        opt_view(r) == vendor_candidate_spec(platform, opt_view(primary), opt_view(home), tool@),
{
    let base: Option<String> = match platform {
        Platform::Windows => primary,
        Platform::MacOs => match home {
            Some(h) => {
                let mut b = h;
                b.append("/Library/Application Support");
                Some(b)
            },
            None => None,
        },
        Platform::OtherUnix => match primary {
            Some(x) => Some(x),
            None => match home {
                Some(h) => {
                    let mut b = h;
                    b.append("/.config");
                    Some(b)
                },
                None => None,
            },
        },
    };
    match base {
        Some(b) => {
            let mut p = b;
            p.append("/Editrion/bin/");
            p.append(tool);
            if matches!(platform, Platform::Windows) {
                p.append(".exe");
            }
            Some(p)
        },
        None => None,
    }
}

/// The common system install prefixes probed after the vendor
/// directory, in order.
pub open spec fn common_candidates_spec(tool: Seq<char>) -> Seq<Seq<char>> {
    seq![
        "/opt/homebrew/bin/"@ + tool,
        "/usr/local/bin/"@ + tool,
        "/usr/bin/"@ + tool,
    ]
}

/// Builds the common-prefix candidate paths for `tool`, in the
/// order they are probed.
pub fn common_candidates(tool: &str) -> (r: Vec<String>)
    ensures
        views_of(r@) == common_candidates_spec(tool@),
{
    let mut r: Vec<String> = Vec::new();
    let mut a = "/opt/homebrew/bin/".to_owned();
    a.append(tool);
    r.push(a);
    let mut b = "/usr/local/bin/".to_owned();
    b.append(tool);
    r.push(b);
    let mut c = "/usr/bin/".to_owned();
    c.append(tool);
    r.push(c);
    proof {
        assert(views_of(r@) =~= common_candidates_spec(tool@));
    }
    r
}

/// The first hit in an ordered list of probe results.
pub open spec fn first_some(s: Seq<Option<String>>) -> Option<String>
    decreases s.len(),
{
    if s.len() == 0 {
        None
    } else if s[0] is Some {
        s[0]
    } else {
        first_some(s.drop_first())
    }
}

/// The resolution order, first hit wins: the override environment
/// variable, the vendor directory, the common prefixes, the PATH
/// lookup, the login-shell PATH lookup. Every argument is a probe
/// result: the candidate's path when it exists, nothing otherwise.
pub open spec fn resolution_choice(
    env_hit: Option<String>,
    vendor_hit: Option<String>,
    common_hits: Seq<Option<String>>,
    which_hit: Option<String>,
    login_hit: Option<String>,
) -> Option<String> {
    if env_hit is Some {
        env_hit
    } else if vendor_hit is Some {
        vendor_hit
    } else if first_some(common_hits) is Some {
        first_some(common_hits)
    } else if which_hit is Some {
        which_hit
    } else {
        login_hit
    }
}

proof fn lemma_first_some_at(s: Seq<Option<String>>, i: int)
    requires
        0 <= i < s.len(),
        forall|j: int| 0 <= j < i ==> s[j] is None,
        s[i] is Some,
    ensures
        first_some(s) == s[i],
    decreases i,
{
    if i > 0 {
        assert(s[0] is None);
        assert(s.drop_first()[i - 1] == s[i]);
        assert(forall|j: int| 0 <= j < i - 1 ==> s.drop_first()[j] == s[j + 1]);
        lemma_first_some_at(s.drop_first(), i - 1);
    }
}

proof fn lemma_first_some_none(s: Seq<Option<String>>)
    requires
        forall|j: int| 0 <= j < s.len() ==> s[j] is None,
    ensures
        first_some(s) is None,
    decreases s.len(),
{
    if s.len() > 0 {
        assert(forall|j: int| 0 <= j < s.drop_first().len() ==> s.drop_first()[j] == s[j + 1]);
        lemma_first_some_none(s.drop_first());
    }
}

/// Picks the resolved executable from the ordered probe results:
/// the first step that found an existing path wins; when every
/// probe came back empty the tool is unresolved.
pub fn choose_binary(
    env_hit: Option<String>,
    vendor_hit: Option<String>,
    common_hits: Vec<Option<String>>,
    which_hit: Option<String>,
    login_hit: Option<String>,
) -> (r: Option<String>)
    ensures
        r == resolution_choice(env_hit, vendor_hit, common_hits@, which_hit, login_hit),
{
    if env_hit.is_some() {
        return env_hit;
    }
    if vendor_hit.is_some() {
        return vendor_hit;
    }
    let mut commons = common_hits;
    let n = commons.len();
    let mut i: usize = 0;
    while i < n
        invariant
            n == commons@.len(),
            commons@ == common_hits@,
            i <= n,
            env_hit is None,
            vendor_hit is None,
            forall|j: int| 0 <= j < i ==> commons@[j] is None,
        decreases n - i,
    {
        if commons[i].is_some() {
            proof {
                lemma_first_some_at(commons@, i as int);
            }
            let hit = commons.remove(i);
            return hit;
        }
        i = i + 1;
    }
    proof {
        lemma_first_some_none(commons@);
    }
    if which_hit.is_some() {
        return which_hit;
    }
    login_hit
}

/// Binary resolution precedence: when both the override environment
/// variable and any later candidate point at valid executables, the
/// override variable's path is chosen; and when no probe found an
/// existing path, resolution reports unresolved, so the caller must
/// fall back to a login-shell invocation by bare name.
pub proof fn lemma_resolution_precedence(
    env_hit: Option<String>,
    vendor_hit: Option<String>,
    common_hits: Seq<Option<String>>,
    which_hit: Option<String>,
    login_hit: Option<String>,
)
    ensures
        env_hit is Some ==> resolution_choice(
            env_hit,
            vendor_hit,
            common_hits,
            which_hit,
            login_hit,
        ) == env_hit,
        (env_hit is None && vendor_hit is None && which_hit is None && login_hit is None && forall|
            j: int,
        | 0 <= j < common_hits.len() ==> common_hits[j] is None) ==> resolution_choice(
            env_hit,
            vendor_hit,
            common_hits,
            which_hit,
            login_hit,
        ) is None,
{
    if env_hit is None && vendor_hit is None && which_hit is None && login_hit is None && forall|
        j: int,
    | 0 <= j < common_hits.len() ==> common_hits[j] is None {
        lemma_first_some_none(common_hits);
    }
}

} // verus!
