//! The launcher's decisions, from plain values: mapping the execution
//! style to a window-visibility directive (case-insensitive, with a
//! deliberate permissive fallback to Normal), gating on elevation, and
//! choosing how the main file is dispatched. The OS calls themselves — the
//! privilege query, the notice, the process dispatch — live with the
//! caller, which performs whatever this module decides.

use vstd::prelude::*;
use vstd::string::StrSliceExecFns;

use crate::header::ArchiveHeader;

verus! {

/// The four window-visibility directives a launched process can get.
#[derive(Clone, Copy, Debug, PartialEq, Eq, Structural)]
pub enum Visibility {
    Hidden,
    Minimized,
    Normal,
    Maximized,
}

/// The current process's elevation state, as the OS reported it; a failed
/// query counts as not elevated.
#[derive(Clone, Copy, Debug, PartialEq, Eq, Structural)]
pub enum ElevationState {
    Elevated,
    NotElevated,
    QueryFailed,
}

/// What the launcher does with the main file.
#[derive(Clone, Copy, Debug, PartialEq, Eq, Structural)]
pub enum LaunchDecision {
    /// Elevation was required but absent or unknowable: present the
    /// blocking administrator notice and do not launch.
    AbortNeedsAdmin,
    /// Dispatch the resolved main file: through the command interpreter
    /// when it is a shell script, directly otherwise, with this
    /// visibility.
    Run { interpreter: bool, visibility: Visibility },
}

/// An ASCII capital letter folded to its small form; all else unchanged.
pub open spec fn ascii_lower_char(c: char) -> char {
    if 65 <= c as u32 && c as u32 <= 90 {
        (((c as u8) + 32) as char)
    } else {
        c
    }
}

/// The string with every ASCII capital folded.
pub open spec fn lower_chars(s: Seq<char>) -> Seq<char> {
    s.map_values(|c: char| ascii_lower_char(c))
}

/// The style's window-visibility directive, matched case-insensitively;
/// anything unrecognized falls back to Normal on purpose.
pub open spec fn spec_style_visibility(s: Seq<char>) -> Visibility {
    let l = lower_chars(s);
    if l == "no-window"@ {
        Visibility::Hidden
    } else if l == "minimized"@ {
        Visibility::Minimized
    } else if l == "maximized"@ {
        Visibility::Maximized
    } else {
        Visibility::Normal
    }
}

/// The position of the last dot strictly after the name's first character,
/// looking below position `i`; what separates a filename's extension.
pub open spec fn last_dot_from(name: Seq<char>, i: int) -> Option<int>
    decreases i,
{
    if i <= 1 || i > name.len() {
        None
    } else if name[i - 1] == '.' {
        Some(i - 1)
    } else {
        last_dot_from(name, i - 1)
    }
}

/// The filename's extension: what follows the last dot, where a dot as the
/// very first character does not count.
pub open spec fn spec_extension(name: Seq<char>) -> Option<Seq<char>> {
    match last_dot_from(name, name.len() as int) {
        None => None,
        Some(d) => Some(name.subrange(d + 1, name.len() as int)),
    }
}

/// Whether the name denotes a shell/batch script, by its extension,
/// case-insensitively.
pub open spec fn spec_is_script(name: Seq<char>) -> bool {
    match spec_extension(name) {
        None => false,
        Some(e) => lower_chars(e) == "bat"@ || lower_chars(e) == "cmd"@,
    }
}

/// The launcher's whole decision for a header and the reported elevation
/// state.
pub open spec fn spec_launch_decision(
    main_file: Seq<char>,
    execution_style: Seq<char>,
    run_as_admin: bool,
    elev: ElevationState,
) -> LaunchDecision {
    if run_as_admin && elev != ElevationState::Elevated {
        LaunchDecision::AbortNeedsAdmin
    } else {
        LaunchDecision::Run {
            interpreter: spec_is_script(main_file),
            visibility: spec_style_visibility(execution_style),
        }
    }
}

/// Fold one character.
fn lower_char(c: char) -> (r: char)
    ensures
        r == ascii_lower_char(c),
{
    let u = c as u32;
    if 65 <= u && u <= 90 {
        ((u as u8) + 32) as char
    } else {
        c
    }
}

/// Whether the two strings are equal once ASCII capitals are folded.
#[verifier::loop_isolation(false)]
fn chars_eq_lower(s: &str, t: &str) -> (r: bool)
    ensures
        r == (lower_chars(s@) == lower_chars(t@)),
{
    let n = s.unicode_len();
    if n != t.unicode_len() {
        proof {
            assert(lower_chars(s@).len() != lower_chars(t@).len());
        }
        return false;
    }
    let mut i: usize = 0;
    while i < n
        invariant
            0 <= i <= n,
            forall|j: int|
                0 <= j < i ==> ascii_lower_char(s@[j]) == ascii_lower_char(t@[j]),
        decreases n - i,
    {
        let a = lower_char(s.get_char(i));
        let b = lower_char(t.get_char(i));
        if a != b {
            proof {
                assert(lower_chars(s@)[i as int] != lower_chars(t@)[i as int]);
            }
            return false;
        }
        i += 1;
    }
    proof {
        assert(lower_chars(s@) =~= lower_chars(t@));
    }
    true
}

/// The style's directive, as the launcher applies it.
pub fn style_visibility(s: &str) -> (v: Visibility)
    ensures
        v == spec_style_visibility(s@),
{
    proof {
        reveal_strlit("no-window");
        reveal_strlit("minimized");
        reveal_strlit("maximized");
        assert(lower_chars("no-window"@) =~= "no-window"@);
        assert(lower_chars("minimized"@) =~= "minimized"@);
        assert(lower_chars("maximized"@) =~= "maximized"@);
    }
    if chars_eq_lower(s, "no-window") {
        Visibility::Hidden
    } else if chars_eq_lower(s, "minimized") {
        Visibility::Minimized
    } else if chars_eq_lower(s, "maximized") {
        Visibility::Maximized
    } else {
        Visibility::Normal
    }
}

/// The position of the name's last extension-separating dot.
#[verifier::loop_isolation(false)]
fn find_last_dot(s: &str) -> (r: Option<usize>)
    ensures
        match r {
            Some(d) => last_dot_from(s@, s@.len() as int) == Some(d as int) && d < s@.len(),
            None => last_dot_from(s@, s@.len() as int) is None,
        },
{
    let n = s.unicode_len();
    let mut i = n;
    while i > 1
        invariant
            0 <= i <= n,
            last_dot_from(s@, n as int) == last_dot_from(s@, i as int),
        decreases i,
    {
        if s.get_char(i - 1) == '.' {
            return Some(i - 1);
        }
        i -= 1;
    }
    None
}

/// Whether the launcher hands this name to the command interpreter.
pub fn is_script_name(s: &str) -> (r: bool)
    ensures
        r == spec_is_script(s@),
{
    proof {
        reveal_strlit("bat");
        reveal_strlit("cmd");
        assert(lower_chars("bat"@) =~= "bat"@);
        assert(lower_chars("cmd"@) =~= "cmd"@);
    }
    match find_last_dot(s) {
        None => false,
        Some(d) => {
            let n = s.unicode_len();
            let e = s.substring_char(d + 1, n);
            chars_eq_lower(e, "bat") || chars_eq_lower(e, "cmd")
        },
    }
}

/// Decide the launch for this header, given the elevation state the OS
/// reported. The caller performs the decision: the notice on abort, or the
/// dispatch with the returned visibility.
pub fn launch_decision(h: &ArchiveHeader, elev: ElevationState) -> (d: LaunchDecision)
    ensures
        d == spec_launch_decision(h@.main_file, h@.execution_style, h@.run_as_admin, elev),
{
    if h.run_as_admin && !(elev == ElevationState::Elevated) {
        LaunchDecision::AbortNeedsAdmin
    } else {
        LaunchDecision::Run {
            interpreter: is_script_name(h.main_file.as_str()),
            visibility: style_visibility(h.execution_style.as_str()),
        }
    }
}

} // verus!
