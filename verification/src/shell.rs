//! Which shell a terminal launches, and how that shell is made to emit the
//! bundled OSC 133 prompt marks.
//!
//! Everything the environment supplies (the session's login shell, `ZDOTDIR`,
//! the home directory, the installed integration directory) is handed in as a
//! plain value; the functions here decide what to launch with it.

use vstd::prelude::*;
use vstd::string::*;

use crate::text::{
    decimal, file_name, lemma_decimal_digits, lemma_decimal_injective, lemma_trimmed_empty,
    path_file_name, push_decimal, same_text, trim, trimmed, is_white_space,
};

verus! {

/// How a shell must be launched so it emits the bundled prompt marks.
pub struct PromptIntegration {
    /// Extra startup arguments.
    pub args: Vec<String>,
    /// Extra environment variables, in the order they are set.
    pub environment: Vec<(String, String)>,
}

/// The shell of last resort, present on every POSIX system.
pub open spec fn fallback_shell() -> Seq<char> {
    seq!['/', 'b', 'i', 'n', '/', 's', 'h']
}

/// The shell launched when configuration names none: the session's login
/// shell when it is known and not empty, `/bin/sh` otherwise.
pub open spec fn default_shell_of(session_shell: Option<String>) -> Seq<char> {
    match session_shell {
        Some(shell) => if shell@.len() > 0 {
            shell@
        } else {
            fallback_shell()
        },
        None => fallback_shell(),
    }
}

/// The shell launched when configuration names none.
///
/// `session_shell` is what the user's session chose (`$SHELL`, or the
/// password database for a process started without it); `/bin/sh` is the
/// last resort.
pub fn default_shell(session_shell: Option<String>) -> (r: String)
    ensures
        r@ == default_shell_of(session_shell),
        r@.len() > 0,
{
    match session_shell {
        Some(shell) => {
            if shell.as_str().is_empty() {
                let r = String::from_str("/bin/sh");
                proof {
                    reveal_strlit("/bin/sh");
                    assert(r@ =~= fallback_shell());
                }
                r
            } else {
                shell
            }
        },
        None => {
            let r = String::from_str("/bin/sh");
            proof {
                reveal_strlit("/bin/sh");
                assert(r@ =~= fallback_shell());
            }
            r
        },
    }
}

/// The configured shell with surrounding whitespace removed, or `None` when
/// nothing but whitespace was configured.
pub open spec fn configured_shell(shell: Option<&str>) -> Option<Seq<char>> {
    match shell {
        Some(s) => if trimmed(s@).len() > 0 {
            Some(trimmed(s@))
        } else {
            None
        },
        None => None,
    }
}

/// The shell that is actually launched.
pub open spec fn resolved_shell(shell: Option<&str>, session_shell: Option<String>) -> Seq<char> {
    match configured_shell(shell) {
        Some(s) => s,
        None => default_shell_of(session_shell),
    }
}

/// The file name of the shell that is launched.
pub open spec fn shell_name_of(shell: Option<&str>, session_shell: Option<String>) -> Option<
    Seq<char>,
> {
    path_file_name(resolved_shell(shell, session_shell))
}

/// The file name of the configured shell, or of the default shell when none
/// (or only whitespace) is configured.
pub fn shell_name(shell: Option<&str>, session_shell: Option<String>) -> (r: Option<String>)
    ensures
        match r {
            Some(name) => shell_name_of(shell, session_shell) == Some(name@),
            None => shell_name_of(shell, session_shell) is None,
        },
{
    let resolved = match shell {
        Some(s) => {
            let t = trim(s);
            if t.is_empty() {
                default_shell(session_shell)
            } else {
                String::from_str(t)
            }
        },
        None => default_shell(session_shell),
    };
    file_name(resolved.as_str())
}

/// A configured shell that is empty or only whitespace means the same as no
/// configured shell: both resolve through the default.
pub proof fn lemma_blank_shell_is_default(s: &str, session_shell: Option<String>)
    requires
        forall|k: int| 0 <= k < s@.len() ==> is_white_space(s@[k]),
    ensures
        shell_name_of(Some(s), session_shell) == shell_name_of(None, session_shell),
{
    lemma_trimmed_empty(s@);
}

/// The name `zsh`.
pub open spec fn zsh() -> Seq<char> {
    seq!['z', 's', 'h']
}

/// Whether the launched shell is one the bundled integration covers (zsh).
pub open spec fn integrates(shell: Option<&str>, session_shell: Option<String>) -> bool {
    shell_name_of(shell, session_shell) == Some(zsh())
}

/// Whether `shell` is launched with the zsh integration, and so whether its
/// startup directory has to be materialized before launch.
pub fn wants_zsh_integration(shell: Option<&str>, session_shell: Option<String>) -> (r: bool)
    ensures
        r == integrates(shell, session_shell),
{
    match shell_name(shell, session_shell) {
        Some(name) => {
            let r = same_text(name.as_str(), "zsh");
            proof {
                reveal_strlit("zsh");
                assert(zsh() =~= "zsh"@);
            }
            r
        },
        None => false,
    }
}

/// The directory zsh should resolve the user's own startup files from: the
/// inherited `ZDOTDIR` unless it is empty or names the integration directory
/// itself, else the home directory, else the empty string.
pub open spec fn user_zdotdir_of(
    inherited: Option<String>,
    home: Option<String>,
    integration_dir: Seq<char>,
) -> Seq<char> {
    match inherited {
        Some(dir) if dir@.len() > 0 && dir@ != integration_dir => dir@,
        _ => match home {
            Some(h) => h@,
            None => Seq::empty(),
        },
    }
}

/// The directory zsh should resolve the user's own startup files from.
///
/// A non-interactive child of an integrated shell still carries the
/// terminal's `ZDOTDIR`, so an inherited value that names the integration
/// directory is not the user's and is passed over.
pub fn user_zdotdir(inherited: Option<String>, home: Option<String>, integration_dir: &str) -> (r:
    String)
    ensures
        r@ == user_zdotdir_of(inherited, home, integration_dir@),
        inherited matches Some(d) ==> (d@.len() > 0 && d@ != integration_dir@ ==> r@ == d@),
        !(inherited matches Some(d) && d@.len() > 0 && d@ != integration_dir@) ==> match home {
            Some(h) => r@ == h@,
            None => r@.len() == 0,
        },
        r@ == integration_dir@ ==> (home matches Some(h) && h@ == integration_dir@) || (home is None
            && integration_dir@.len() == 0),
{
    if let Some(dir) = inherited {
        if !dir.as_str().is_empty() && !same_text(dir.as_str(), integration_dir) {
            return dir;
        }
    }
    match home {
        Some(h) => h,
        None => String::new(),
    }
}

/// The user's directory is the inherited `ZDOTDIR` when it is set, not empty
/// and not the integration directory; otherwise the home directory (so, with
/// nothing inherited and a home directory known, that home directory);
/// otherwise empty.
pub proof fn lemma_user_zdotdir_choice(
    inherited: Option<String>,
    home: Option<String>,
    integration_dir: Seq<char>,
)
    ensures
        inherited matches Some(d) ==> (d@.len() > 0 && d@ != integration_dir ==> user_zdotdir_of(
            inherited,
            home,
            integration_dir,
        ) == d@),
        inherited is None ==> (home matches Some(h) ==> user_zdotdir_of(
            inherited,
            home,
            integration_dir,
        ) == h@),
        !(inherited matches Some(d) && d@.len() > 0 && d@ != integration_dir) ==> match home {
            Some(h) => user_zdotdir_of(inherited, home, integration_dir) == h@,
            None => user_zdotdir_of(inherited, home, integration_dir).len() == 0,
        },
{
}

/// The names of the environment variables the zsh integration sets, in
/// order: `ZDOTDIR`, `NMT_ZDOTDIR`, `NMT_USER_ZDOTDIR`.
pub open spec fn zdotdir_variable() -> Seq<char> {
    seq!['Z', 'D', 'O', 'T', 'D', 'I', 'R']
}

pub open spec fn nmt_zdotdir_variable() -> Seq<char> {
    seq!['N', 'M', 'T', '_'] + zdotdir_variable()
}

pub open spec fn nmt_user_zdotdir_variable() -> Seq<char> {
    seq!['N', 'M', 'T', '_', 'U', 'S', 'E', 'R', '_'] + zdotdir_variable()
}

/// How `shell` must be launched so it emits the bundled OSC 133 prompt marks,
/// or `None` when no integration is available for it.
///
/// zsh is reached through `ZDOTDIR`, pointed at the materialized directory
/// `zdotdir` (`None` when it could not be installed: a `ZDOTDIR` without the
/// startup files would drop the user's own configuration). No startup
/// argument is added.
pub fn prompt_integration(
    shell: Option<&str>,
    session_shell: Option<String>,
    zdotdir: Option<String>,
    inherited_zdotdir: Option<String>,
    home: Option<String>,
) -> (r: Option<PromptIntegration>)
    ensures
        r is Some <==> integrates(shell, session_shell) && zdotdir is Some,
        r matches Some(integration) ==> {
            let dir = zdotdir->0@;
            let env = integration.environment@;
            &&& integration.args@.len() == 0
            &&& env.len() == 3
            &&& env[0].0@ == zdotdir_variable() && env[0].1@ == dir
            &&& env[1].0@ == nmt_zdotdir_variable() && env[1].1@ == dir
            &&& env[2].0@ == nmt_user_zdotdir_variable()
            &&& env[2].1@ == user_zdotdir_of(inherited_zdotdir, home, dir)
        },
{
    if !wants_zsh_integration(shell, session_shell) {
        return None;
    }
    let dir = match zdotdir {
        Some(dir) => dir,
        None => return None,
    };
    let user = user_zdotdir(inherited_zdotdir, home, dir.as_str());
    let mut environment: Vec<(String, String)> = Vec::new();
    environment.push((String::from_str("ZDOTDIR"), dir.clone()));
    environment.push((String::from_str("NMT_ZDOTDIR"), dir.clone()));
    environment.push((String::from_str("NMT_USER_ZDOTDIR"), user));
    proof {
        reveal_strlit("ZDOTDIR");
        reveal_strlit("NMT_ZDOTDIR");
        reveal_strlit("NMT_USER_ZDOTDIR");
        assert(zdotdir_variable() =~= "ZDOTDIR"@);
        assert(nmt_zdotdir_variable() =~= "NMT_ZDOTDIR"@);
        assert(nmt_user_zdotdir_variable() =~= "NMT_USER_ZDOTDIR"@);
    }
    Some(PromptIntegration { args: Vec::new(), environment })
}

/// Whether the startup-argument route to the prompt integration can be used
/// for `shell`. No POSIX shell has an equivalent of PowerShell's
/// `-EncodedCommand`, so none qualifies.
pub fn supports_prompt_integration(shell: Option<&str>) -> (r: bool)
    ensures
        !r,
{
    false
}

/// The startup arguments that make a shell evaluate the bundled integration:
/// none, since no POSIX shell takes it through its arguments.
pub fn prompt_integration_args() -> (r: Vec<String>)
    ensures
        r@.len() == 0,
{
    Vec::new()
}

/// The startup files the zsh integration directory holds, in install order.
pub fn zsh_startup_files() -> (r: Vec<&'static str>)
    ensures
        r@.len() == 4,
        r@[0]@ == seq!['.', 'z', 's', 'h', 'e', 'n', 'v'],
        r@[1]@ == seq!['.', 'z', 'p', 'r', 'o', 'f', 'i', 'l', 'e'],
        r@[2]@ == seq!['.', 'z', 's', 'h', 'r', 'c'],
        r@[3]@ == seq![
            'n', 'm', 't', '-', 'i', 'n', 't', 'e', 'g', 'r', 'a', 't', 'i', 'o', 'n', '.', 'z', 's', 'h'
        ],
{
    let mut r: Vec<&'static str> = Vec::new();
    r.push(".zshenv");
    r.push(".zprofile");
    r.push(".zshrc");
    r.push("nmt-integration.zsh");
    proof {
        reveal_strlit(".zshenv");
        reveal_strlit(".zprofile");
        reveal_strlit(".zshrc");
        reveal_strlit("nmt-integration.zsh");
        assert(r@[0]@ =~= seq!['.', 'z', 's', 'h', 'e', 'n', 'v']);
        assert(r@[1]@ =~= seq!['.', 'z', 'p', 'r', 'o', 'f', 'i', 'l', 'e']);
        assert(r@[2]@ =~= seq!['.', 'z', 's', 'h', 'r', 'c']);
        assert(r@[3]@ =~= seq![
            'n', 'm', 't', '-', 'i', 'n', 't', 'e', 'g', 'r', 'a', 't', 'i', 'o', 'n', '.', 'z', 's', 'h'
        ]);
    }
    r
}

/// The suffix of every staging file.
pub open spec fn staging_suffix() -> Seq<char> {
    seq!['.', 's', 't', 'a', 'g', 'i', 'n', 'g']
}

/// `<name>.<pid>-<counter>.staging`: the file a startup file is written to
/// before it is renamed over `name`.
pub open spec fn staging_name_of(name: Seq<char>, pid: u32, counter: u64) -> Seq<char> {
    name + seq!['.'] + decimal(pid as nat) + seq!['-'] + decimal(counter as nat)
        + staging_suffix()
}

/// The staging file for `name`, separated by the process id from other
/// instances and by `counter` from other calls inside this one.
pub fn staging_file_name(name: &str, pid: u32, counter: u64) -> (r: String)
    ensures
        r@ == staging_name_of(name@, pid, counter),
{
    let mut r = String::from_str(name);
    r.append(".");
    push_decimal(&mut r, pid as u64);
    r.append("-");
    push_decimal(&mut r, counter);
    r.append(".staging");
    proof {
        reveal_strlit(".");
        reveal_strlit("-");
        reveal_strlit(".staging");
        assert(r@ =~= staging_name_of(name@, pid, counter));
    }
    r
}

/// Two installs of the same startup file never share a staging file unless
/// they come from the same process with the same counter value, so
/// concurrent installs cannot rename each other's file away.
pub proof fn lemma_staging_names_distinct(name: Seq<char>, pid1: u32, c1: u64, pid2: u32, c2: u64)
    requires
        staging_name_of(name, pid1, c1) == staging_name_of(name, pid2, c2),
    ensures
        pid1 == pid2,
        c1 == c2,
{
    let d1 = decimal(pid1 as nat);
    let e1 = decimal(c1 as nat);
    let d2 = decimal(pid2 as nat);
    let e2 = decimal(c2 as nat);
    lemma_decimal_digits(pid1 as nat);
    lemma_decimal_digits(pid2 as nat);
    lemma_decimal_digits(c1 as nat);
    lemma_decimal_digits(c2 as nat);
    let s1 = staging_name_of(name, pid1, c1);
    let s2 = staging_name_of(name, pid2, c2);
    let n = name.len() as int;
    let m1 = d1 + seq!['-'] + e1;
    let m2 = d2 + seq!['-'] + e2;
    assert(s1 =~= name + seq!['.'] + m1 + staging_suffix());
    assert(s2 =~= name + seq!['.'] + m2 + staging_suffix());
    assert(m1.len() == m2.len());
    assert(m1 =~= s1.subrange(n + 1, n + 1 + m1.len()));
    assert(m2 =~= s2.subrange(n + 1, n + 1 + m2.len()));
    assert(m1 == m2);
    // the separator is the only non-digit in the middle part
    if d1.len() < d2.len() {
        assert(m1[d1.len() as int] == '-');
        assert(m2[d1.len() as int] == d2[d1.len() as int]);
        assert(false);
    }
    if d2.len() < d1.len() {
        assert(m2[d2.len() as int] == '-');
        assert(m1[d2.len() as int] == d1[d2.len() as int]);
        assert(false);
    }
    assert(d1 =~= m1.subrange(0, d1.len() as int));
    assert(d2 =~= m2.subrange(0, d2.len() as int));
    assert(e1 =~= m1.subrange(d1.len() as int + 1, m1.len() as int));
    assert(e2 =~= m2.subrange(d2.len() as int + 1, m2.len() as int));
    lemma_decimal_injective(pid1 as nat, pid2 as nat);
    lemma_decimal_injective(c1 as nat, c2 as nat);
}

/// A staging file is never the startup file it replaces.
pub proof fn lemma_staging_name_is_not_target(name: Seq<char>, pid: u32, counter: u64)
    ensures
        staging_name_of(name, pid, counter) != name,
{
    assert(staging_name_of(name, pid, counter).len() > name.len());
}

} // verus!
