//! The pure decisions of terminal session start-up: which shell runs, the
//! curated child environment built as an explicit overlay over a snapshot
//! of the ambient environment, the directory-report injection for
//! supported shells, and the SSH bootstrap command and automation script.

use vstd::prelude::*;

use crate::errors::CoreError;
use crate::task::env_view;
use crate::text::{dec_digits, find_from, first_match, matches_at, starts_with_exact, str_to_chars, u64_to_string};

verus! {

/// The fixed environment every interactive session starts from: terminal
/// type, color support, and a minimal prompt.
pub open spec fn fixed_terminal_env() -> Seq<(Seq<char>, Seq<char>)> {
    seq![
        ("TERM"@, "xterm-256color"@),
        ("COLORTERM"@, "truecolor"@),
        ("PS1"@, "> "@),
        ("PROMPT"@, "> "@),
        ("SIMPLE_PROMPT"@, "1"@),
        ("BASH_SILENCE_DEPRECATION_WARNING"@, "1"@),
        ("ZSH_THEME"@, ""@),
    ]
}

/// The fixed environment of an SSH bootstrap session.
pub open spec fn fixed_ssh_env() -> Seq<(Seq<char>, Seq<char>)> {
    seq![("TERM"@, "xterm-256color"@), ("COLORTERM"@, "truecolor"@)]
}

/// The value bound to `key` in an environment snapshot, if any; the first
/// binding wins.
pub open spec fn env_lookup(env: Seq<(Seq<char>, Seq<char>)>, key: Seq<char>) -> Option<Seq<char>>
    decreases env.len(),
{
    if env.len() == 0 {
        None
    } else if env[0].0 == key {
        Some(env[0].1)
    } else {
        env_lookup(env.drop_first(), key)
    }
}

/// A first binding at `i` pins `env_lookup`, and no binding pins `None`.
proof fn lemma_env_lookup_of(env: Seq<(Seq<char>, Seq<char>)>, key: Seq<char>, i: int)
    requires
        0 <= i <= env.len(),
        forall|k: int| 0 <= k < i ==> (#[trigger] env[k]).0 != key,
    ensures
        0 <= i < env.len() && env[i].0 == key ==> env_lookup(env, key) == Some(env[i].1),
        (forall|k: int| 0 <= k < env.len() ==> (#[trigger] env[k]).0 != key) ==> env_lookup(
            env,
            key,
        ).is_none(),
    decreases env.len(),
{
    if env.len() > 0 && env[0].0 != key {
        let j: int = if i == 0 {
            0
        } else {
            i - 1
        };
        assert forall|k: int| 0 <= k < j implies (#[trigger] env.drop_first()[k]).0 != key by {
            assert(env.drop_first()[k] == env[k + 1]);
        }
        lemma_env_lookup_of(env.drop_first(), key, j);
        if 0 <= i < env.len() && env[i].0 == key {
            assert(env.drop_first()[i - 1] == env[i]);
        }
        if forall|k: int| 0 <= k < env.len() ==> (#[trigger] env[k]).0 != key {
            assert forall|k: int|
                0 <= k < env.drop_first().len() implies (#[trigger] env.drop_first()[k]).0
                != key by {
                assert(env.drop_first()[k] == env[k + 1]);
            }
        }
    }
}

/// Looks `key` up in the snapshot, first binding first.
fn lookup_env(ambient: &Vec<(String, String)>, key: &String) -> (r: Option<String>)
    ensures
        match r {
            Some(v) => env_lookup(env_view(ambient@), key@) == Some(v@),
            None => env_lookup(env_view(ambient@), key@).is_none(),
        },
{
    let ghost views = env_view(ambient@);
    let n = ambient.len();
    let mut i: usize = 0;
    while i < n
        invariant
            i <= n,
            n == ambient@.len(),
            views == env_view(ambient@),
            forall|k: int| 0 <= k < i ==> (#[trigger] views[k]).0 != key@,
        decreases n - i,
    {
        if ambient[i].0 == *key {
            proof {
                lemma_env_lookup_of(views, key@, i as int);
            }
            return Some(ambient[i].1.clone());
        }
        i = i + 1;
    }
    proof {
        lemma_env_lookup_of(views, key@, n as int);
    }
    None
}

/// The binding the curated environment carries over for `key`: the
/// snapshot's binding, or nothing when the snapshot has none.
pub open spec fn carried_entry(env: Seq<(Seq<char>, Seq<char>)>, key: Seq<char>) -> Seq<
    (Seq<char>, Seq<char>),
> {
    match env_lookup(env, key) {
        Some(v) => seq![(key, v)],
        None => Seq::empty(),
    }
}

/// The language binding: the snapshot's `LANG`, with a UTF-8 default.
pub open spec fn lang_entry(env: Seq<(Seq<char>, Seq<char>)>) -> Seq<(Seq<char>, Seq<char>)> {
    match env_lookup(env, "LANG"@) {
        Some(v) => seq![("LANG"@, v)],
        None => seq![("LANG"@, "en_US.UTF-8"@)],
    }
}

/// Whether an ambient variable is forwarded to the child shell: internal
/// and app-scoped names are withheld, and the specially-handled names are
/// placed by their own rules.
pub open spec fn forwards_env_var(key: Seq<char>) -> bool {
    &&& !matches_at(key, "TAURI_"@, 0)
    &&& !matches_at(key, "__CF"@, 0)
    &&& key != "PATH"@
    &&& key != "HOME"@
    &&& key != "USER"@
    &&& key != "SHELL"@
    &&& key != "LANG"@
}

/// Runtime test for `forwards_env_var`.
pub fn should_forward_env(key: &String) -> (r: bool)
    ensures
        r == forwards_env_var(key@),
{
    let kc = str_to_chars(key.as_str());
    let tauri = str_to_chars("TAURI_");
    let cf = str_to_chars("__CF");
    if starts_with_exact(&kc, &tauri) || starts_with_exact(&kc, &cf) {
        return false;
    }
    let special = !(*key == "PATH".to_owned()) && !(*key == "HOME".to_owned()) && !(*key
        == "USER".to_owned()) && !(*key == "SHELL".to_owned()) && !(*key == "LANG".to_owned());
    special
}

/// The snapshot filtered down to the variables that are forwarded.
pub open spec fn filtered_env(env: Seq<(Seq<char>, Seq<char>)>) -> Seq<(Seq<char>, Seq<char>)>
    decreases env.len(),
{
    if env.len() == 0 {
        Seq::empty()
    } else if forwards_env_var(env[0].0) {
        seq![env[0]] + filtered_env(env.drop_first())
    } else {
        filtered_env(env.drop_first())
    }
}

/// Filtering after appending a binding appends it when it is forwarded.
proof fn lemma_filtered_env_push(env: Seq<(Seq<char>, Seq<char>)>, x: (Seq<char>, Seq<char>))
    ensures
        filtered_env(env.push(x)) == if forwards_env_var(x.0) {
            filtered_env(env).push(x)
        } else {
            filtered_env(env)
        },
    decreases env.len(),
{
    let p = env.push(x);
    if env.len() == 0 {
        assert(p.len() == 1 && p[0] == x);
        assert(p.drop_first() =~= Seq::<(Seq<char>, Seq<char>)>::empty());
        assert(filtered_env(Seq::<(Seq<char>, Seq<char>)>::empty()) == Seq::<
            (Seq<char>, Seq<char>),
        >::empty());
        assert(filtered_env(p.drop_first()) == Seq::<(Seq<char>, Seq<char>)>::empty());
        if forwards_env_var(x.0) {
            assert(filtered_env(p) =~= filtered_env(env).push(x));
        } else {
            assert(filtered_env(p) =~= filtered_env(env));
        }
    } else {
        assert(p[0] == env[0]);
        assert(p.drop_first() =~= env.drop_first().push(x));
        lemma_filtered_env_push(env.drop_first(), x);
        if forwards_env_var(x.0) {
            if forwards_env_var(env[0].0) {
                assert(filtered_env(p) == seq![env[0]] + filtered_env(env.drop_first()).push(x));
                assert(seq![env[0]] + filtered_env(env.drop_first()).push(x) =~= (seq![env[0]]
                    + filtered_env(env.drop_first())).push(x));
            }
        }
    }
}

/// The curated environment of an interactive session: the fixed prompt
/// and terminal settings, then the specially-handled `PATH`, `USER`,
/// `HOME` and `SHELL` where the snapshot binds them, `LANG` with its
/// default, and finally every forwarded ambient variable.
pub open spec fn spec_terminal_env(ambient: Seq<(Seq<char>, Seq<char>)>) -> Seq<
    (Seq<char>, Seq<char>),
> {
    fixed_terminal_env() + carried_entry(ambient, "PATH"@) + carried_entry(ambient, "USER"@)
        + carried_entry(ambient, "HOME"@) + carried_entry(ambient, "SHELL"@) + lang_entry(ambient)
        + filtered_env(ambient)
}

/// The curated environment of an SSH bootstrap session: the fixed
/// terminal settings, the specially-handled `PATH`, `USER` and `HOME`,
/// and `LANG` with its default; nothing else is forwarded.
pub open spec fn spec_ssh_env(ambient: Seq<(Seq<char>, Seq<char>)>) -> Seq<(Seq<char>, Seq<char>)> {
    fixed_ssh_env() + carried_entry(ambient, "PATH"@) + carried_entry(ambient, "USER"@)
        + carried_entry(ambient, "HOME"@) + lang_entry(ambient)
}

/// Builds the curated child environment of an interactive session from a
/// snapshot of the ambient environment, in application order: a later
/// binding of a name overrides an earlier one.
pub fn build_terminal_env(ambient: &Vec<(String, String)>) -> (r: Vec<(String, String)>)
    ensures
        env_view(r@) == spec_terminal_env(env_view(ambient@)),
{
    let ghost av = env_view(ambient@);
    let mut r: Vec<(String, String)> = Vec::new();
    r.push(("TERM".to_owned(), "xterm-256color".to_owned()));
    r.push(("COLORTERM".to_owned(), "truecolor".to_owned()));
    r.push(("PS1".to_owned(), "> ".to_owned()));
    r.push(("PROMPT".to_owned(), "> ".to_owned()));
    r.push(("SIMPLE_PROMPT".to_owned(), "1".to_owned()));
    r.push(("BASH_SILENCE_DEPRECATION_WARNING".to_owned(), "1".to_owned()));
    r.push(("ZSH_THEME".to_owned(), "".to_owned()));
    proof {
        assert(env_view(r@) =~= fixed_terminal_env());
    }
    let ghost acc1 = env_view(r@);
    match lookup_env(ambient, &"PATH".to_owned()) {
        Some(v) => {
            r.push(("PATH".to_owned(), v));
        },
        None => {
        },
    }
    proof {
        assert(env_view(r@) =~= acc1 + carried_entry(av, "PATH"@));
    }
    let ghost acc2 = env_view(r@);
    match lookup_env(ambient, &"USER".to_owned()) {
        Some(v) => {
            r.push(("USER".to_owned(), v));
        },
        None => {
        },
    }
    proof {
        assert(env_view(r@) =~= acc2 + carried_entry(av, "USER"@));
    }
    let ghost acc3 = env_view(r@);
    match lookup_env(ambient, &"HOME".to_owned()) {
        Some(v) => {
            r.push(("HOME".to_owned(), v));
        },
        None => {
        },
    }
    proof {
        assert(env_view(r@) =~= acc3 + carried_entry(av, "HOME"@));
    }
    let ghost acc4 = env_view(r@);
    match lookup_env(ambient, &"SHELL".to_owned()) {
        Some(v) => {
            r.push(("SHELL".to_owned(), v));
        },
        None => {
        },
    }
    proof {
        assert(env_view(r@) =~= acc4 + carried_entry(av, "SHELL"@));
    }
    let ghost acc5 = env_view(r@);
    let lang = match lookup_env(ambient, &"LANG".to_owned()) {
        Some(v) => v,
        None => "en_US.UTF-8".to_owned(),
    };
    r.push(("LANG".to_owned(), lang));
    proof {
        assert(env_view(r@) =~= acc5 + lang_entry(av));
    }
    let ghost acc6 = env_view(r@);
    let n = ambient.len();
    let mut i: usize = 0;
    while i < n
        invariant
            i <= n,
            n == ambient@.len(),
            av == env_view(ambient@),
            acc6 == fixed_terminal_env() + carried_entry(av, "PATH"@) + carried_entry(av, "USER"@)
                + carried_entry(av, "HOME"@) + carried_entry(av, "SHELL"@) + lang_entry(av),
            env_view(r@) == acc6 + filtered_env(av.take(i as int)),
        decreases n - i,
    {
        let ghost pre = env_view(r@);
        if should_forward_env(&ambient[i].0) {
            r.push((ambient[i].0.clone(), ambient[i].1.clone()));
            proof {
                assert(env_view(r@) =~= pre.push(av[i as int]));
            }
        }
        proof {
            assert(av.take(i + 1 as int) =~= av.take(i as int).push(av[i as int]));
            lemma_filtered_env_push(av.take(i as int), av[i as int]);
            assert(env_view(r@) =~= acc6 + filtered_env(av.take(i + 1 as int)));
        }
        i = i + 1;
    }
    proof {
        assert(av.take(n as int) =~= av);
        assert(env_view(r@) =~= spec_terminal_env(av));
    }
    r
}

/// Builds the curated child environment of an SSH bootstrap session.
pub fn build_ssh_env(ambient: &Vec<(String, String)>) -> (r: Vec<(String, String)>)
    ensures
        env_view(r@) == spec_ssh_env(env_view(ambient@)),
{
    let ghost av = env_view(ambient@);
    let mut r: Vec<(String, String)> = Vec::new();
    r.push(("TERM".to_owned(), "xterm-256color".to_owned()));
    r.push(("COLORTERM".to_owned(), "truecolor".to_owned()));
    proof {
        assert(env_view(r@) =~= fixed_ssh_env());
    }
    let ghost acc1 = env_view(r@);
    match lookup_env(ambient, &"PATH".to_owned()) {
        Some(v) => {
            r.push(("PATH".to_owned(), v));
        },
        None => {
        },
    }
    proof {
        assert(env_view(r@) =~= acc1 + carried_entry(av, "PATH"@));
    }
    let ghost acc2 = env_view(r@);
    match lookup_env(ambient, &"USER".to_owned()) {
        Some(v) => {
            r.push(("USER".to_owned(), v));
        },
        None => {
        },
    }
    proof {
        assert(env_view(r@) =~= acc2 + carried_entry(av, "USER"@));
    }
    let ghost acc3 = env_view(r@);
    match lookup_env(ambient, &"HOME".to_owned()) {
        Some(v) => {
            r.push(("HOME".to_owned(), v));
        },
        None => {
        },
    }
    proof {
        assert(env_view(r@) =~= acc3 + carried_entry(av, "HOME"@));
    }
    let ghost acc4 = env_view(r@);
    let lang = match lookup_env(ambient, &"LANG".to_owned()) {
        Some(v) => v,
        None => "en_US.UTF-8".to_owned(),
    };
    r.push(("LANG".to_owned(), lang));
    proof {
        assert(env_view(r@) =~= acc4 + lang_entry(av));
        assert(env_view(r@) =~= spec_ssh_env(av));
    }
    r
}

/// The shell an interactive session runs when nothing else resolves:
/// the platform default.
pub fn default_shell_program() -> (r: String)
    ensures
        r@ == "/bin/zsh"@,
{
    "/bin/zsh".to_owned()
}

/// The well-known install locations probed for a shell, in preference
/// order.
pub open spec fn well_known_shell_paths() -> Seq<Seq<char>> {
    seq!["/bin/zsh"@, "/usr/bin/zsh"@, "/bin/bash"@, "/usr/bin/bash"@]
}

/// The probed install locations, in preference order; the caller checks
/// each for existence and hands the outcomes to `resolve_shell`.
pub fn well_known_shells() -> (v: Vec<String>)
    ensures
        v@.len() == well_known_shell_paths().len(),
        forall|k: int| 0 <= k < v@.len() ==> (#[trigger] v@[k])@ == well_known_shell_paths()[k],
{
    let mut v: Vec<String> = Vec::new();
    v.push("/bin/zsh".to_owned());
    v.push("/usr/bin/zsh".to_owned());
    v.push("/bin/bash".to_owned());
    v.push("/usr/bin/bash".to_owned());
    v
}

/// The first probed location that exists.
pub open spec fn first_existing(probes: Seq<(Seq<char>, bool)>) -> Option<Seq<char>>
    decreases probes.len(),
{
    if probes.len() == 0 {
        None
    } else if probes[0].1 {
        Some(probes[0].0)
    } else {
        first_existing(probes.drop_first())
    }
}

/// A first existing probe at `i` pins `first_existing`, and none pins
/// `None`.
proof fn lemma_first_existing_of(probes: Seq<(Seq<char>, bool)>, i: int)
    requires
        0 <= i <= probes.len(),
        forall|k: int| 0 <= k < i ==> !(#[trigger] probes[k]).1,
    ensures
        0 <= i < probes.len() && probes[i].1 ==> first_existing(probes) == Some(probes[i].0),
        (forall|k: int| 0 <= k < probes.len() ==> !(#[trigger] probes[k]).1) ==> first_existing(
            probes,
        ).is_none(),
    decreases probes.len(),
{
    if probes.len() > 0 && !probes[0].1 {
        let j: int = if i == 0 {
            0
        } else {
            i - 1
        };
        assert forall|k: int| 0 <= k < j implies !(#[trigger] probes.drop_first()[k]).1 by {
            assert(probes.drop_first()[k] == probes[k + 1]);
        }
        lemma_first_existing_of(probes.drop_first(), j);
        if 0 <= i < probes.len() && probes[i].1 {
            assert(probes.drop_first()[i - 1] == probes[i]);
        }
        if forall|k: int| 0 <= k < probes.len() ==> !(#[trigger] probes[k]).1 {
            assert forall|k: int|
                0 <= k < probes.drop_first().len() implies !(#[trigger] probes.drop_first()[k]).1 by {
                assert(probes.drop_first()[k] == probes[k + 1]);
            }
        }
    }
}

/// The probe outcomes as id / existence pairs.
pub open spec fn probes_view(s: Seq<(String, bool)>) -> Seq<(Seq<char>, bool)> {
    s.map_values(|p: (String, bool)| (p.0@, p.1))
}

/// The shell a session resolves to: the explicit request when one is
/// made; otherwise the first probed install location that exists;
/// otherwise the environment-declared default; otherwise the platform
/// default.
pub open spec fn spec_resolve_shell(
    requested: Option<Seq<char>>,
    probes: Seq<(Seq<char>, bool)>,
    env_default: Option<Seq<char>>,
) -> Seq<char> {
    match requested {
        Some(r) => r,
        None => match first_existing(probes) {
            Some(p) => p,
            None => match env_default {
                Some(d) => d,
                None => "/bin/zsh"@,
            },
        },
    }
}

/// The fallback resolution when no explicit shell is requested: the
/// first probed location that exists, else the environment-declared
/// default, else the platform default.
fn resolve_shell_fallback(probes: &Vec<(String, bool)>, env_default: Option<&String>) -> (r:
    String)
    ensures
        r@ == (match first_existing(probes_view(probes@)) {
            Some(p) => p,
            None => match env_default {
                Some(d) => d@,
                None => "/bin/zsh"@,
            },
        }),
{
    let ghost views = probes_view(probes@);
    let n = probes.len();
    let mut i: usize = 0;
    while i < n
        invariant
            i <= n,
            n == probes@.len(),
            views == probes_view(probes@),
            forall|k: int| 0 <= k < i ==> !(#[trigger] views[k]).1,
        decreases n - i,
    {
        if probes[i].1 {
            proof {
                assert(views[i as int] == (probes@[i as int].0@, probes@[i as int].1));
                lemma_first_existing_of(views, i as int);
            }
            return probes[i].0.clone();
        }
        i = i + 1;
    }
    proof {
        lemma_first_existing_of(views, n as int);
    }
    match env_default {
        Some(d) => d.clone(),
        None => default_shell_program(),
    }
}

/// Resolves the shell a session runs, from the explicit request, the
/// probed install locations with their observed existence, and the
/// environment-declared default.
pub fn resolve_shell(
    requested: Option<&String>,
    probes: &Vec<(String, bool)>,
    env_default: Option<&String>,
) -> (r: String)
    ensures
        r@ == spec_resolve_shell(
            match requested {
                Some(s) => Some(s@),
                None => None,
            },
            probes_view(probes@),
            match env_default {
                Some(s) => Some(s@),
                None => None,
            },
        ),
{
    match requested {
        Some(r) => r.clone(),
        None => resolve_shell_fallback(probes, env_default),
    }
}

/// Decides whether the resolved shell may be used, from the existence
/// fact the caller observed: accepted exactly when its path exists, and
/// refused with `ShellNotFound` otherwise.
pub fn validate_shell(shell: String, shell_exists: bool) -> (r: Result<String, CoreError>)
    ensures
        match r {
            Ok(s) => shell_exists && s@ == shell@,
            Err(e) => !shell_exists && (e matches CoreError::ShellNotFound(p) && p@ == shell@),
        },
{
    if shell_exists {
        Ok(shell)
    } else {
        Err(CoreError::ShellNotFound(shell))
    }
}

/// The shell that hosts an SSH bootstrap command.
pub fn ssh_shell_program() -> (r: String)
    ensures
        r@ == "/bin/sh"@,
{
    "/bin/sh".to_owned()
}

/// The argument that makes the spawned shell interactive, so that it
/// loads its configuration files.
pub fn interactive_shell_args() -> (r: Vec<String>)
    ensures
        r@.len() == 1,
        r@[0]@ == "-i"@,
{
    let mut v: Vec<String> = Vec::new();
    v.push("-i".to_owned());
    v
}

/// The line written into a freshly started shell so that it reports its
/// working directory before each prompt: a `precmd` hook for zsh, a
/// `PROMPT_COMMAND` entry for bash, and nothing for other shells.
pub open spec fn spec_osc7_injection(shell: Seq<char>) -> Option<Seq<char>> {
    if first_match(shell, "zsh"@).is_some() {
        Some(
            "precmd_functions+=('() { printf \"\\x1b]7;file://%s%s\\x07\" \"$(hostname)\" \"$PWD\" } ')\n"@,
        )
    } else if first_match(shell, "bash"@).is_some() {
        Some(
            "PROMPT_COMMAND=\"printf \"\\x1b]7;file://%s%s\\x07\" \"$(hostname)\" \"$PWD\";${PROMPT_COMMAND}\"\n"@,
        )
    } else {
        None
    }
}

/// The directory-report injection for the resolved shell path.
pub fn osc7_injection_for_shell(shell: &str) -> (r: Option<String>)
    ensures
        match r {
            Some(s) => spec_osc7_injection(shell@) == Some(s@),
            None => spec_osc7_injection(shell@).is_none(),
        },
{
    let chars = str_to_chars(shell);
    proof {
        assert(chars@.skip(0) =~= chars@);
    }
    let zsh = str_to_chars("zsh");
    if find_from(&chars, &zsh, 0).is_some() {
        return Some(
            "precmd_functions+=('() { printf \"\\x1b]7;file://%s%s\\x07\" \"$(hostname)\" \"$PWD\" } ')\n".to_owned(),
        );
    }
    let bash = str_to_chars("bash");
    if find_from(&chars, &bash, 0).is_some() {
        return Some(
            "PROMPT_COMMAND=\"printf \"\\x1b]7;file://%s%s\\x07\" \"$(hostname)\" \"$PWD\";${PROMPT_COMMAND}\"\n".to_owned(),
        );
    }
    None
}

/// The SSH command an unauthenticated (key-based) session runs.
pub open spec fn spec_ssh_command(host: Seq<char>, port: u16, username: Seq<char>) -> Seq<char> {
    "ssh -o StrictHostKeyChecking=no -p "@ + dec_digits(port as int) + " "@ + username + "@"@
        + host
}

/// Writes the SSH command line for the given endpoint.
pub fn ssh_command(host: &str, port: u16, username: &str) -> (r: String)
    ensures
        r@ == spec_ssh_command(host@, port, username@),
{
    let mut r = "ssh -o StrictHostKeyChecking=no -p ".to_owned();
    r.append(u64_to_string(port as u64).as_str());
    r.append(" ");
    r.append(username);
    r.append("@");
    r.append(host);
    proof {
        assert(r@ =~= spec_ssh_command(host@, port, username@));
    }
    r
}

/// The content of the per-session automation script that answers the
/// remote password prompt: an `expect` script that spawns the SSH
/// command, sends the password at either prompt spelling, and then hands
/// the session to the user.
pub open spec fn spec_expect_script(
    host: Seq<char>,
    port: u16,
    username: Seq<char>,
    password: Seq<char>,
) -> Seq<char> {
    "#!/usr/bin/expect -f\nset timeout 30\nspawn ssh -o StrictHostKeyChecking=no -p "@
        + dec_digits(port as int) + " "@ + username + "@"@ + host
        + "\nexpect {\n    \"*password:\" {send \""@ + password
        + "\\r\"; exp_continue}\n    \"*Password:\" {send \""@ + password
        + "\\r\"; exp_continue}\n    eof\n}\ninteract\n"@
}

/// Writes the password-automation script for the given endpoint.
pub fn expect_script(host: &str, port: u16, username: &str, password: &str) -> (r: String)
    ensures
        r@ == spec_expect_script(host@, port, username@, password@),
{
    let mut r = "#!/usr/bin/expect -f\nset timeout 30\nspawn ssh -o StrictHostKeyChecking=no -p "
        .to_owned();
    r.append(u64_to_string(port as u64).as_str());
    r.append(" ");
    r.append(username);
    r.append("@");
    r.append(host);
    r.append("\nexpect {\n    \"*password:\" {send \"");
    r.append(password);
    r.append("\\r\"; exp_continue}\n    \"*Password:\" {send \"");
    r.append(password);
    r.append("\\r\"; exp_continue}\n    eof\n}\ninteract\n");
    proof {
        assert(r@ =~= spec_expect_script(host@, port, username@, password@));
    }
    r
}

/// Where the per-session automation script is written.
pub open spec fn spec_expect_script_path(session_id: u64) -> Seq<char> {
    "/tmp/ssh_expect_"@ + dec_digits(session_id as int) + ".exp"@
}

/// Writes the per-session automation script path.
pub fn expect_script_path(session_id: u64) -> (r: String)
    ensures
        r@ == spec_expect_script_path(session_id),
{
    let mut r = "/tmp/ssh_expect_".to_owned();
    r.append(u64_to_string(session_id).as_str());
    r.append(".exp");
    proof {
        assert(r@ =~= spec_expect_script_path(session_id));
    }
    r
}

/// Decides how an SSH session is bootstrapped: with a password, an
/// automation script is generated and `expect` runs it; without one,
/// the SSH command runs directly under key-based authentication.
///
/// Hands back the command the PTY shell runs and, with a password, the
/// script content the caller must write to the script path, owner-only
/// and executable, before spawning.
pub fn ssh_launch_plan(
    session_id: u64,
    host: &str,
    port: u16,
    username: &str,
    password: Option<&str>,
) -> (r: (String, Option<String>))
    ensures
        match password {
            None => r.0@ == spec_ssh_command(host@, port, username@) && r.1.is_none(),
            Some(p) => {
                &&& r.0@ == "expect "@ + spec_expect_script_path(session_id)
                &&& (r.1 matches Some(s) && s@ == spec_expect_script(host@, port, username@, p@))
            },
        },
{
    match password {
        None => (ssh_command(host, port, username), None),
        Some(p) => {
            let script = expect_script(host, port, username, p);
            let mut cmd = "expect ".to_owned();
            cmd.append(expect_script_path(session_id).as_str());
            (cmd, Some(script))
        },
    }
}

} // verus!
