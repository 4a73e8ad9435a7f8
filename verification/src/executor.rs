//! The guarded one-shot command executor: safety policy over a command
//! line, tilde expansion of the working directory, and assembly of the
//! execution result.
//!
//! Launching the command, checking that the working directory exists and
//! racing the timeout are I/O and stay with the caller; everything the
//! policy decides is here, with exact contracts.
//!
//! On timeout the caller reports `Timeout` and deliberately leaves the
//! child process running detached: expiry of the timer is not a kill.
//! That detach-and-forget choice is made explicitly here rather than
//! inherited silently.

use vstd::prelude::*;

use crate::errors::CoreError;
use crate::text::{
    char_code, char_is_space, char_lower_code, contains_lowered, contains_lowered_chars,
    leading_spaces, lower_code, matches_lowered_at, skip_leading_spaces, starts_with_lowered,
    starts_with_token_lowered, str_to_chars,
};

verus! {

/// The result of one guarded command execution.
#[derive(Clone, Debug)]
pub struct CommandResult {
    pub stdout: String,
    pub stderr: String,
    pub exit_code: i32,
    pub success: bool,
    pub duration_ms: u64,
    pub working_dir: String,
}

/// Configuration of the guarded executor.
#[derive(Clone, Copy, Debug, PartialEq, Eq, Structural)]
pub struct ExecutorConfig {
    /// Seconds the command may run before the call fails with `Timeout`;
    /// on expiry the child is left running detached, not killed.
    pub timeout_secs: u64,
    /// Whether the denylist and the privilege check run at all.
    pub enable_safety_check: bool,
    /// Whether a privilege-escalation tool may lead the command.
    pub allow_privileged: bool,
}

impl Default for ExecutorConfig {
    /// The default policy: a 300 second timeout, safety checks on,
    /// privileged commands refused.
    fn default() -> (r: Self)
        ensures
            r == (ExecutorConfig { timeout_secs: 300, enable_safety_check: true, allow_privileged: false }),
    {
        ExecutorConfig { timeout_secs: 300, enable_safety_check: true, allow_privileged: false }
    }
}

/// The fixed denylist of catastrophic command patterns; a case-insensitive
/// match anywhere in the command line blocks execution. Case folding is
/// ASCII-only (see `crate::text::lower_code`).
pub open spec fn dangerous_patterns() -> Seq<Seq<char>> {
    seq![
        "rm -rf /"@,
        "rm -rf /*"@,
        "rm -rf ~"@,
        "rm -rf ~/*"@,
        "mkfs"@,
        "dd if="@,
        "> /dev/sda"@,
        "> /dev/hda"@,
        ":(){ :|:& };:"@,
        "chmod -R 777 /"@,
        "chown -R"@,
    ]
}

/// The known privilege-escalation tools; a command whose leading token is
/// one of them requires explicit permission.
pub open spec fn privileged_commands() -> Seq<Seq<char>> {
    seq!["sudo"@, "su"@, "doas"@]
}

/// The lower-cased command contains some denylist pattern.
pub open spec fn is_dangerous(cmd: Seq<char>) -> bool {
    exists|k: int|
        0 <= k < dangerous_patterns().len() && contains_lowered(cmd, dangerous_patterns()[k])
}

/// The first denylist pattern, in list order, that the lower-cased command
/// contains, starting the scan at entry `k`.
pub open spec fn first_dangerous_from(cmd: Seq<char>, k: int) -> Option<Seq<char>>
    decreases dangerous_patterns().len() - k,
{
    if k < 0 || k >= dangerous_patterns().len() {
        None
    } else if contains_lowered(cmd, dangerous_patterns()[k]) {
        Some(dangerous_patterns()[k])
    } else {
        first_dangerous_from(cmd, k + 1)
    }
}

/// After trimming leading whitespace, the lower-cased command's leading
/// token is some privilege-escalation tool: the tool's name, ended by
/// whitespace or the end of the command.
pub open spec fn is_privileged(cmd: Seq<char>) -> bool {
    exists|k: int|
        0 <= k < privileged_commands().len() && starts_with_token_lowered(
            cmd.skip(leading_spaces(cmd)),
            privileged_commands()[k],
        )
}

/// Scanning the denylist from entry `k` finds a pattern exactly when some
/// entry at or after `k` matches.
proof fn lemma_first_dangerous_iff(cmd: Seq<char>, k: int)
    requires
        0 <= k <= dangerous_patterns().len(),
    ensures
        first_dangerous_from(cmd, k).is_some() <==> exists|j: int|
            k <= j < dangerous_patterns().len() && contains_lowered(cmd, dangerous_patterns()[j]),
    decreases dangerous_patterns().len() - k,
{
    if k < dangerous_patterns().len() {
        lemma_first_dangerous_iff(cmd, k + 1);
        if contains_lowered(cmd, dangerous_patterns()[k]) {
            assert(exists|j: int|
                k <= j < dangerous_patterns().len() && contains_lowered(
                    cmd,
                    dangerous_patterns()[j],
                ));
        }
    }
}

/// Entries below `k` that do not match do not change the scan's result.
proof fn lemma_first_dangerous_prefix(cmd: Seq<char>, k: int)
    requires
        0 <= k <= dangerous_patterns().len(),
        forall|j: int| 0 <= j < k ==> !contains_lowered(cmd, dangerous_patterns()[j]),
    ensures
        first_dangerous_from(cmd, 0) == first_dangerous_from(cmd, k),
    decreases k,
{
    if k > 0 {
        lemma_first_dangerous_prefix(cmd, k - 1);
    }
}

/// The denylist patterns paired with their text, in list order.
fn dangerous_pattern_table() -> (v: Vec<(Vec<char>, String)>)
    ensures
        v@.len() == dangerous_patterns().len(),
        forall|k: int|
            0 <= k < v@.len() ==> (#[trigger] v@[k]).0@ == dangerous_patterns()[k] && v@[k].1@
                == dangerous_patterns()[k],
{
    let mut v: Vec<(Vec<char>, String)> = Vec::new();
    v.push((str_to_chars("rm -rf /"), "rm -rf /".to_owned()));
    v.push((str_to_chars("rm -rf /*"), "rm -rf /*".to_owned()));
    v.push((str_to_chars("rm -rf ~"), "rm -rf ~".to_owned()));
    v.push((str_to_chars("rm -rf ~/*"), "rm -rf ~/*".to_owned()));
    v.push((str_to_chars("mkfs"), "mkfs".to_owned()));
    v.push((str_to_chars("dd if="), "dd if=".to_owned()));
    v.push((str_to_chars("> /dev/sda"), "> /dev/sda".to_owned()));
    v.push((str_to_chars("> /dev/hda"), "> /dev/hda".to_owned()));
    v.push((str_to_chars(":(){ :|:& };:"), ":(){ :|:& };:".to_owned()));
    v.push((str_to_chars("chmod -R 777 /"), "chmod -R 777 /".to_owned()));
    v.push((str_to_chars("chown -R"), "chown -R".to_owned()));
    v
}

/// Checks the command against the denylist; returns the first matching
/// pattern, in list order, or `None` when the command is clean.
pub fn check_dangerous_command(cmd: &str) -> (r: Option<String>)
    ensures
        r.is_some() == is_dangerous(cmd@),
        match r {
            Some(m) => first_dangerous_from(cmd@, 0) == Some(m@),
            None => first_dangerous_from(cmd@, 0).is_none(),
        },
{
    let table = dangerous_pattern_table();
    let chars = str_to_chars(cmd);
    let n = table.len();
    let mut k: usize = 0;
    while k < n
        invariant
            0 <= k <= n,
            n == dangerous_patterns().len(),
            chars@ == cmd@,
            table@.len() == dangerous_patterns().len(),
            forall|j: int|
                0 <= j < table@.len() ==> (#[trigger] table@[j]).0@ == dangerous_patterns()[j]
                    && table@[j].1@ == dangerous_patterns()[j],
            forall|j: int| 0 <= j < k ==> !contains_lowered(cmd@, dangerous_patterns()[j]),
        decreases n - k,
    {
        if contains_lowered_chars(&chars, &table[k].0) {
            proof {
                lemma_first_dangerous_prefix(cmd@, k as int);
                lemma_first_dangerous_iff(cmd@, 0);
            }
            return Some(table[k].1.clone());
        }
        k = k + 1;
    }
    proof {
        lemma_first_dangerous_prefix(cmd@, dangerous_patterns().len() as int);
        lemma_first_dangerous_iff(cmd@, 0);
    }
    None
}

/// The privilege-escalation tools, in list order.
fn privileged_command_table() -> (v: Vec<Vec<char>>)
    ensures
        v@.len() == privileged_commands().len(),
        forall|k: int| 0 <= k < v@.len() ==> (#[trigger] v@[k])@ == privileged_commands()[k],
{
    let mut v: Vec<Vec<char>> = Vec::new();
    v.push(str_to_chars("sudo"));
    v.push(str_to_chars("su"));
    v.push(str_to_chars("doas"));
    v
}

/// Whether the lower-cased `text`, from offset `from`, begins with `pat`.
fn starts_with_lowered_from(text: &Vec<char>, from: usize, pat: &Vec<char>) -> (r: bool)
    requires
        from <= text@.len(),
    ensures
        r == starts_with_lowered(text@.skip(from as int), pat@),
{
    let n = text.len();
    let m = pat.len();
    if m > n - from {
        return false;
    }
    let mut j: usize = 0;
    while j < m && char_lower_code(text[from + j]) == char_code(pat[j])
        invariant
            0 <= j <= m,
            from + m <= n,
            m == pat@.len(),
            n == text@.len(),
            forall|l: int| 0 <= l < j ==> lower_code(text@[from + l]) == pat@[l] as int,
        decreases m - j,
    {
        j = j + 1;
    }
    if j == m {
        proof {
            assert forall|l: int| 0 <= l < m implies lower_code(text@.skip(from as int)[l])
                == pat@[l] as int by {
                assert(text@.skip(from as int)[l] == text@[from + l]);
            }
            assert(matches_lowered_at(text@.skip(from as int), pat@, 0));
        }
        true
    } else {
        proof {
            assert(text@.skip(from as int)[j as int] == text@[from + j]);
            assert(lower_code(text@.skip(from as int)[j as int]) != pat@[j as int] as int);
        }
        false
    }
}

/// Checks whether the command's leading token, after trimming and case
/// folding, is a known privilege-escalation tool; a longer word that
/// merely begins with a tool's name does not count.
pub fn check_privileged_command(cmd: &str) -> (r: bool)
    ensures
        r == is_privileged(cmd@),
{
    let table = privileged_command_table();
    let chars = str_to_chars(cmd);
    let start = skip_leading_spaces(&chars);
    let total = chars.len();
    let n = table.len();
    let mut k: usize = 0;
    while k < n
        invariant
            0 <= k <= n,
            n == privileged_commands().len(),
            chars@ == cmd@,
            total == chars@.len(),
            start == leading_spaces(cmd@),
            0 <= start <= chars@.len(),
            table@.len() == privileged_commands().len(),
            forall|j: int| 0 <= j < table@.len() ==> (#[trigger] table@[j])@
                == privileged_commands()[j],
            forall|j: int|
                0 <= j < k ==> !starts_with_token_lowered(
                    cmd@.skip(leading_spaces(cmd@)),
                    privileged_commands()[j],
                ),
        decreases n - k,
    {
        if starts_with_lowered_from(&chars, start, &table[k]) {
            proof {
                assert(start + table@[k as int]@.len() <= total);
            }
            let end = start + table[k].len();
            if end == chars.len() || char_is_space(chars[end]) {
                proof {
                    if end < chars@.len() {
                        assert(cmd@.skip(start as int)[table@[k as int]@.len() as int]
                            == cmd@[end as int]);
                    }
                }
                return true;
            }
            proof {
                assert(cmd@.skip(start as int)[table@[k as int]@.len() as int]
                    == cmd@[end as int]);
            }
        }
        k = k + 1;
    }
    false
}

/// Whether the path is `~` alone or begins with `~/`, so that expanding it
/// needs the home directory.
pub open spec fn tilde_needs_home(path: Seq<char>) -> bool {
    path == seq!['~'] || (path.len() >= 2 && path[0] == '~' && path[1] == '/')
}

/// The tilde-expanded form of `path` given the home directory.
pub open spec fn spec_expand_tilde(path: Seq<char>, home: Seq<char>) -> Seq<char> {
    if path == seq!['~'] {
        home
    } else if path.len() >= 2 && path[0] == '~' && path[1] == '/' {
        home + path.skip(1)
    } else {
        path
    }
}

/// Expands a leading `~` in `path` to the home directory; fails when the
/// expansion is needed and no home directory is known.
pub fn expand_tilde(path: &str, home: Option<&str>) -> (r: Result<String, CoreError>)
    ensures
        match r {
            Ok(d) => {
                &&& tilde_needs_home(path@) ==> home.is_some()
                &&& d@ == spec_expand_tilde(path@, if home.is_some() { home.unwrap()@ } else { Seq::empty() })
            },
            Err(e) => tilde_needs_home(path@) && home.is_none() && (e matches
                CoreError::InvalidWorkingDirectory(p) && p@ == path@),
        },
{
    let n = path.unicode_len();
    let is_bare = n == 1 && char_code(path.get_char(0)) == 126;
    let is_prefixed = n >= 2 && char_code(path.get_char(0)) == 126 && char_code(path.get_char(1))
        == 47;
    proof {
        assert(('~' as int) == 126 && ('/' as int) == 47);
        if is_bare {
            assert(path@ =~= seq!['~']);
        }
        if !is_bare && path@ == seq!['~'] {
            assert(path@.len() == 1 && path@[0] == '~');
        }
    }
    if is_bare || is_prefixed {
        match home {
            Some(h) => {
                if is_bare {
                    Ok(h.to_owned())
                } else {
                    let mut d = h.to_owned();
                    d.append(path.substring_char(1, n));
                    proof {
                        assert(path@.subrange(1, n as int) =~= path@.skip(1));
                    }
                    Ok(d)
                }
            },
            None => Err(CoreError::InvalidWorkingDirectory(path.to_owned())),
        }
    } else {
        Ok(path.to_owned())
    }
}

/// Decides whether the expanded working directory may be used, from the
/// file-system facts the caller observed: the directory is accepted
/// exactly when it exists and is a directory, and refused with
/// `InvalidWorkingDirectory` otherwise.
pub fn validate_working_dir(dir: String, dir_exists: bool, dir_is_dir: bool) -> (r: Result<
    String,
    CoreError,
>)
    ensures
        match r {
            Ok(d) => dir_exists && dir_is_dir && d@ == dir@,
            Err(e) => !(dir_exists && dir_is_dir) && (e matches CoreError::InvalidWorkingDirectory(
                p,
            ) && p@ == dir@),
        },
{
    if dir_exists && dir_is_dir {
        Ok(dir)
    } else {
        Err(CoreError::InvalidWorkingDirectory(dir))
    }
}

/// The safety verdict on a command under a configuration: the message of
/// the violation that blocks it, or `None` when it may run.
///
/// The denylist is consulted first; the privilege check applies only when
/// privileged commands are disallowed. With safety checking disabled
/// nothing is blocked.
pub open spec fn safety_block(cmd: Seq<char>, config: ExecutorConfig) -> Option<Seq<char>> {
    if !config.enable_safety_check {
        None
    } else if is_dangerous(cmd) {
        first_dangerous_from(cmd, 0)
    } else if !config.allow_privileged && is_privileged(cmd) {
        Some("privileged command"@)
    } else {
        None
    }
}

/// A command line that contains a denylist pattern anywhere, whatever
/// else surrounds it, is blocked whenever safety checking is enabled.
pub proof fn lemma_dangerous_command_is_blocked(cmd: Seq<char>, config: ExecutorConfig)
    requires
        config.enable_safety_check,
        is_dangerous(cmd),
    ensures
        safety_block(cmd, config).is_some(),
{
    lemma_first_dangerous_iff(cmd, 0);
}

/// A command whose leading token asks for privilege escalation, and that
/// the denylist does not already block, is blocked exactly when
/// privileged commands are disallowed.
pub proof fn lemma_privileged_command_policy(cmd: Seq<char>, config: ExecutorConfig)
    requires
        config.enable_safety_check,
        !is_dangerous(cmd),
        is_privileged(cmd),
    ensures
        safety_block(cmd, config).is_some() <==> !config.allow_privileged,
{
}

/// Validates a command and expands the working directory, everything the
/// guarded executor decides before touching the operating system.
///
/// Returns the expanded working directory to run in; fails with
/// `SafetyViolation` exactly when the policy blocks the command, and with
/// `InvalidWorkingDirectory` when a needed home directory is missing. The
/// caller still has to check that the directory exists and then run the
/// command under the configured timeout.
pub fn prepare_execution(cmd: &str, working_dir: &str, config: &ExecutorConfig, home: Option<&str>)
    -> (r: Result<String, CoreError>)
    ensures
        match r {
            Err(CoreError::SafetyViolation(m)) => safety_block(cmd@, *config) == Some(m@),
            Err(CoreError::InvalidWorkingDirectory(p)) => safety_block(cmd@, *config).is_none()
                && tilde_needs_home(working_dir@) && home.is_none() && p@ == working_dir@,
            Ok(d) => {
                &&& safety_block(cmd@, *config).is_none()
                &&& tilde_needs_home(working_dir@) ==> home.is_some()
                &&& d@ == spec_expand_tilde(
                    working_dir@,
                    if home.is_some() { home.unwrap()@ } else { Seq::empty() },
                )
            },
            _ => false,
        },
{
    if config.enable_safety_check {
        if let Some(pattern) = check_dangerous_command(cmd) {
            return Err(CoreError::SafetyViolation(pattern));
        }
        if !config.allow_privileged && check_privileged_command(cmd) {
            return Err(CoreError::SafetyViolation("privileged command".to_owned()));
        }
    }
    expand_tilde(working_dir, home)
}

/// Assembles the result of a completed execution: the exit code defaults
/// to `-1` when the process was ended by a signal, and success means an
/// exit code of zero.
pub fn make_command_result(
    code: Option<i32>,
    stdout: String,
    stderr: String,
    duration_ms: u64,
    working_dir: String,
) -> (r: CommandResult)
    ensures
        r.exit_code == (match code {
            Some(c) => c,
            None => -1i32,
        }),
        r.success == (code == Some(0i32)),
        r.stdout@ == stdout@,
        r.stderr@ == stderr@,
        r.duration_ms == duration_ms,
        r.working_dir@ == working_dir@,
{
    let (exit_code, success) = match code {
        Some(c) => (c, c == 0),
        None => (-1, false),
    };
    CommandResult { stdout, stderr, exit_code, success, duration_ms, working_dir }
}

/// Folds a full result into the simple interface's shape: on success the
/// two streams concatenated, otherwise a failure message carrying the
/// captured standard error.
pub fn simple_command_output(res: &CommandResult) -> (r: Result<String, String>)
    ensures
        match r {
            Ok(s) => res.success && s@ == res.stdout@ + res.stderr@,
            Err(e) => !res.success && e@ == "command failed: "@ + res.stderr@,
        },
{
    if res.success {
        let mut s = res.stdout.clone();
        s.append(res.stderr.as_str());
        Ok(s)
    } else {
        let mut e = "command failed: ".to_owned();
        e.append(res.stderr.as_str());
        Err(e)
    }
}

} // verus!
