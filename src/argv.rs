//! The argument vector a spawned agent process receives.
use vstd::prelude::*;

use crate::agent::{AgentMode, Permission};

verus! {

/// The characters of each string, in order.
pub open spec fn views(v: Seq<String>) -> Seq<Seq<char>> {
    v.map_values(|s: String| s@)
}

/// The comma-separated tool list that the permissions allow.
pub open spec fn allowed_tools(perms: Seq<Permission>) -> Seq<char> {
    let w = perms.contains(Permission::Write);
    let x = perms.contains(Permission::Execute);
    if w && x {
        "Write,Edit,Bash"@
    } else if w {
        "Write,Edit"@
    } else if x {
        "Bash"@
    } else {
        Seq::empty()
    }
}

/// The flags a mode adds.
pub open spec fn mode_flags(mode: AgentMode) -> Seq<Seq<char>> {
    match mode {
        AgentMode::Auto => seq!["--dangerously-skip-permissions"@],
        AgentMode::Plan => seq!["--plan"@],
        AgentMode::Regular => seq![],
    }
}

/// The flags the permissions add: none in `Auto` mode, where permissions are skipped.
pub open spec fn permission_flags(mode: AgentMode, perms: Seq<Permission>) -> Seq<Seq<char>> {
    if mode != AgentMode::Auto && allowed_tools(perms).len() > 0 {
        seq!["--allowedTools"@, allowed_tools(perms)]
    } else {
        seq![]
    }
}

/// The flags that resume a known session or name a new one.
pub open spec fn session_flags(resume: Option<Seq<char>>, fresh: Seq<char>) -> Seq<Seq<char>> {
    match resume {
        Some(s) => seq!["--resume"@, s],
        None => seq!["--session-id"@, fresh],
    }
}

/// The whole argument vector.
pub open spec fn spawn_args(
    mode: AgentMode,
    perms: Seq<Permission>,
    resume: Option<Seq<char>>,
    fresh: Seq<char>,
) -> Seq<Seq<char>> {
    seq!["--verbose"@] + mode_flags(mode) + permission_flags(mode, perms) + session_flags(
        resume,
        fresh,
    )
}

/// Whether `perms` holds `p`.
pub fn has_permission(perms: &[Permission], p: Permission) -> (r: bool)
    ensures
        r == perms@.contains(p),
{
    let mut i: usize = 0;
    while i < perms.len()
        invariant
            i <= perms@.len(),
            forall|k: int| 0 <= k < i ==> perms@[k] != p,
        decreases perms.len() - i,
    {
        if perms[i] == p {
            assert(perms@[i as int] == p);
            return true;
        }
        i = i + 1;
    }
    false
}

/// Appends `s` to `v`.
fn push_str(v: &mut Vec<String>, s: &str)
    ensures
        views(final(v)@) == views(old(v)@).push(s@),
{
    v.push(s.to_owned());
    assert(views(final(v)@) =~= views(old(v)@).push(s@));
}

/// The argument vector for a child in `mode` with `perms`: `--resume` with `resume`
/// where a session is known, else `--session-id` with `fresh`.
pub fn build_args(mode: AgentMode, perms: &[Permission], resume: Option<&str>, fresh: &str) -> (r:
    Vec<String>)
    ensures
        views(r@) == spawn_args(
            mode,
            perms@,
            match resume {
                Some(s) => Some(s@),
                None => None,
            },
            fresh@,
        ),
{
    let mut args: Vec<String> = Vec::new();
    push_str(&mut args, "--verbose");
    match mode {
        AgentMode::Auto => push_str(&mut args, "--dangerously-skip-permissions"),
        AgentMode::Plan => push_str(&mut args, "--plan"),
        AgentMode::Regular => {},
    }
    let w = has_permission(perms, Permission::Write);
    let x = has_permission(perms, Permission::Execute);
    if mode != AgentMode::Auto && (w || x) {
        push_str(&mut args, "--allowedTools");
        if w && x {
            push_str(&mut args, "Write,Edit,Bash");
        } else if w {
            push_str(&mut args, "Write,Edit");
        } else {
            push_str(&mut args, "Bash");
        }
    }
    proof {
        reveal_strlit("Write,Edit,Bash");
        reveal_strlit("Write,Edit");
        reveal_strlit("Bash");
    }
    match resume {
        Some(s) => {
            push_str(&mut args, "--resume");
            push_str(&mut args, s);
        },
        None => {
            push_str(&mut args, "--session-id");
            push_str(&mut args, fresh);
        },
    }
    let ghost resume_view = match resume {
        Some(s) => Some(s@),
        None => None,
    };
    assert(views(args@) =~= spawn_args(mode, perms@, resume_view, fresh@));
    args
}

/// A lower-case hexadecimal digit.
pub open spec fn is_lower_hex(c: char) -> bool {
    (0x30 <= (c as u32) && (c as u32) <= 0x39) || (0x61 <= (c as u32) && (c as u32) <= 0x66)
}

/// A random (version 4) UUID in its hyphenated lower-case form: 36 characters, hyphens
/// at 8, 13, 18 and 23, hexadecimal digits elsewhere, version digit `4` at 14 and a
/// variant digit of `8`, `9`, `a` or `b` at 19.
pub open spec fn is_uuid_v4_text(s: Seq<char>) -> bool {
    &&& s.len() == 36
    &&& forall|i: int|
        0 <= i < 36 ==> if i == 8 || i == 13 || i == 18 || i == 23 {
            #[trigger] s[i] == '-'
        } else {
            is_lower_hex(s[i])
        }
    &&& s[14] == '4'
    &&& (s[19] == '8' || s[19] == '9' || s[19] == 'a' || s[19] == 'b')
}

/// Relies on `uuid::Uuid::new_v4` and its `Display`: random bits with the version and
/// variant bits set, written hyphenated in lower-case hexadecimal.
#[verifier::external_body]
pub(crate) fn new_session_id() -> (r: String)
    ensures
        is_uuid_v4_text(r@),
{
    uuid::Uuid::new_v4().to_string()
}

} // verus!
