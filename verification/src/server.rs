use vstd::prelude::*;
use crate::scripts::SERVER_HOST;
use crate::text::{
    char_is_whitespace, chars_of, decimal, has_prefix, is_whitespace_char, lemma_newline_index,
    lemma_newline_index_is, lemma_trimmed_ends, newline_index, push_decimal, starts_with, string_of_range, texts, trim_bounds, trimmed,
};

verus! {

/// How many times the server's port is tried before giving up.
pub const SERVER_POLL_ATTEMPTS: u32 = 120;

/// The pause after each failed try, in milliseconds (120 tries: 60 s).
pub const SERVER_POLL_MILLIS: u64 = 500;

/// What to do after one try to connect to the starting server.
#[derive(Debug, Clone, Copy, PartialEq, Eq)]
pub enum WaitStep {
    /// The server answered.
    Ready,
    /// Sleep `SERVER_POLL_MILLIS`, then try again.
    SleepThenRetry,
    /// Sleep `SERVER_POLL_MILLIS`, then report that the server never answered.
    SleepThenGiveUp,
}

/// The decision after try number `attempt` (counted from 0) to reach the
/// server: done once it answers, given up after `SERVER_POLL_ATTEMPTS` tries.
pub fn wait_step(attempt: u32, connected: bool) -> (step: WaitStep)
    requires
        attempt < SERVER_POLL_ATTEMPTS,
    ensures
        connected ==> step == WaitStep::Ready,
        !connected && attempt + 1 < SERVER_POLL_ATTEMPTS ==> step == WaitStep::SleepThenRetry,
        !connected && attempt + 1 == SERVER_POLL_ATTEMPTS ==> step == WaitStep::SleepThenGiveUp,
{
    if connected {
        WaitStep::Ready
    } else if attempt + 1 < SERVER_POLL_ATTEMPTS {
        WaitStep::SleepThenRetry
    } else {
        WaitStep::SleepThenGiveUp
    }
}

/// Where the interpreter of a virtual environment lies below its folder,
/// as the path components to join: `Scripts/python.exe` on Windows,
/// `bin/python` elsewhere.
pub fn venv_python(windows: bool) -> (parts: Vec<String>)
    ensures
        windows ==> texts(parts@) == seq!["Scripts"@, "python.exe"@],
        !windows ==> texts(parts@) == seq!["bin"@, "python"@],
{
    let mut parts: Vec<String> = Vec::new();
    if windows {
        parts.push(String::from_str("Scripts"));
        parts.push(String::from_str("python.exe"));
    } else {
        parts.push(String::from_str("bin"));
        parts.push(String::from_str("python"));
    }
    proof {
        if windows {
            assert(texts(parts@) =~= seq!["Scripts"@, "python.exe"@]);
        } else {
            assert(texts(parts@) =~= seq!["bin"@, "python"@]);
        }
    }
    parts
}

/// The prefix `\\?\` that Windows puts before extended-length paths.
pub open spec fn unc_prefix() -> Seq<char> {
    seq!['\\', '\\', '?', '\\']
}

/// `path` without a leading `\\?\`.
pub open spec fn without_unc_prefix(path: Seq<char>) -> Seq<char> {
    if has_prefix(path, unc_prefix()) {
        path.skip(4)
    } else {
        path
    }
}

/// Removes the `\\?\` prefix of an extended-length Windows path, which `uv`
/// and Python subprocesses cannot always handle.
pub fn strip_unc_prefix(path: &str) -> (out: String)
    ensures
        out@ == without_unc_prefix(path@),
{
    let v = chars_of(path);
    let prefixed = starts_with(path, "\\\\?\\");
    proof {
        reveal_strlit("\\\\?\\");
        assert("\\\\?\\"@ =~= unc_prefix());
    }
    if prefixed {
        string_of_range(&v, 4, v.len())
    } else {
        proof {
            assert(v@.subrange(0, v@.len() as int) =~= path@);
        }
        string_of_range(&v, 0, v.len())
    }
}

/// The Python the server runs with: the `hermes` command's own interpreter
/// when one was found, else the one of the application's virtual
/// environment, in both cases without a `\\?\` prefix.
pub fn server_python(hermes_python: Option<String>, venv_python: &str) -> (python: String)
    ensures
        python@ == without_unc_prefix(
            match hermes_python {
                Some(p) => p@,
                None => venv_python@,
            },
        ),
{
    match hermes_python {
        Some(p) => strip_unc_prefix(p.as_str()),
        None => strip_unc_prefix(venv_python),
    }
}

/// The search path given to the server: the user's tool folders first,
/// then the inherited `PATH`.
pub open spec fn augmented_path_text(home: Seq<char>, existing: Seq<char>) -> Seq<char> {
    home + "/.local/bin:"@ + home + "/.hermes/bin:"@ + home + "/.cargo/bin:"@ + existing
}

/// Builds the server's `PATH`: `~/.local/bin`, `~/.hermes/bin` and
/// `~/.cargo/bin` before the inherited one, so that tools installed there
/// are found when the app is not started from a login shell.
pub fn augmented_path(home: &str, existing: &str) -> (out: String)
    ensures
        out@ == augmented_path_text(home@, existing@),
{
    let mut out = String::from_str(home);
    out.append("/.local/bin:");
    out.append(home);
    out.append("/.hermes/bin:");
    out.append(home);
    out.append("/.cargo/bin:");
    out.append(existing);
    out
}

/// The places where the `hermes` command may be installed, in the order
/// they are looked at.
pub fn hermes_cli_candidates(home: &str) -> (paths: Vec<String>)
    ensures
        texts(paths@) == seq![home@ + "/.local/bin/hermes"@, home@ + "/.hermes/bin/hermes"@],
{
    let mut first = String::from_str(home);
    first.append("/.local/bin/hermes");
    let mut second = String::from_str(home);
    second.append("/.hermes/bin/hermes");
    let mut paths: Vec<String> = Vec::new();
    paths.push(first);
    paths.push(second);
    proof {
        assert(texts(paths@) =~= seq![home@ + "/.local/bin/hermes"@, home@ + "/.hermes/bin/hermes"@]);
    }
    paths
}

/// The position of the first whitespace character of `s`, or its length.
pub open spec fn whitespace_index(s: Seq<char>) -> nat
    decreases s.len(),
{
    if s.len() == 0 {
        0
    } else if is_whitespace_char(s[0]) {
        0
    } else {
        1 + whitespace_index(s.drop_first())
    }
}

proof fn lemma_whitespace_index_is(s: Seq<char>, m: int)
    requires
        0 <= m <= s.len(),
        forall|j: int| 0 <= j < m ==> !is_whitespace_char(s[j]),
        m < s.len() ==> is_whitespace_char(s[m]),
    ensures
        whitespace_index(s) == m,
    decreases s.len(),
{
    if s.len() > 0 && m > 0 {
        assert forall|j: int| 0 <= j < m - 1 implies !is_whitespace_char(s.drop_first()[j]) by {
            assert(s.drop_first()[j] == s[j + 1]);
        }
        lemma_whitespace_index_is(s.drop_first(), m - 1);
    }
}

proof fn lemma_whitespace_index(s: Seq<char>)
    ensures
        whitespace_index(s) <= s.len(),
        forall|j: int| 0 <= j < whitespace_index(s) ==> !is_whitespace_char(#[trigger] s[j]),
        whitespace_index(s) < s.len() ==> is_whitespace_char(s[whitespace_index(s) as int]),
    decreases s.len(),
{
    if s.len() > 0 && !is_whitespace_char(s[0]) {
        lemma_whitespace_index(s.drop_first());
        assert forall|j: int| 0 <= j < whitespace_index(s) implies !is_whitespace_char(#[trigger] s[j]) by {
            if j > 0 {
                assert(s[j] == s.drop_first()[j - 1]);
            }
        }
    }
}

/// The first whitespace-separated word of `s`.
pub open spec fn first_word(s: Seq<char>) -> Seq<char> {
    let t = trimmed(s);
    t.take(whitespace_index(t) as int)
}

/// The interpreter that the `#!` line at the top of `content` names, if
/// there is such a line and it names one.
pub open spec fn shebang_of(content: Seq<char>) -> Option<Seq<char>> {
    let line = content.take(newline_index(content) as int);
    if line.len() >= 2 && line[0] == '#' && line[1] == '!' {
        let word = first_word(line.skip(2));
        if word.len() > 0 {
            Some(word)
        } else {
            None
        }
    } else {
        None
    }
}

/// The rest of the line after `#!`, trimmed, when `line` starts with `#!`.
pub open spec fn shebang_text(line: Seq<char>) -> Option<Seq<char>> {
    if line.len() >= 2 && line[0] == '#' && line[1] == '!' {
        Some(trimmed(line.skip(2)))
    } else {
        None
    }
}

proof fn lemma_shebang_of_line(content: Seq<char>, line: Seq<char>)
    requires
        !line.contains('\n'),
        content == line || exists|rest: Seq<char>| content == line + seq!['\n'] + rest,
    ensures
        shebang_of(content) == shebang_of(line),
        content.take(newline_index(content) as int) == line,
{
    assert forall|j: int| 0 <= j < line.len() implies content[j] != '\n' by {
        assert(content[j] == line[j]);
        if line[j] == '\n' {
            assert(line.contains(line[j]));
        }
    }
    if content != line {
        let rest = choose|rest: Seq<char>| content == line + seq!['\n'] + rest;
        assert(content[line.len() as int] == '\n');
    }
    lemma_newline_index_is(content, line.len() as int);
    lemma_newline_index_is(line, line.len() as int);
    assert(content.take(line.len() as int) =~= line);
    assert(line.take(line.len() as int) =~= line);
}

/// Law: the interpreter named by a script is found exactly when its first
/// line starts with `#!` and something other than whitespace follows; it is
/// then the whole first word of what follows: it starts where the trimmed
/// text starts, holds no whitespace, and is followed by whitespace or the
/// end of the line. Whatever comes after the first line does not matter.
pub proof fn lemma_shebang_is_first_word(line: Seq<char>, rest: Seq<char>)
    requires
        !line.contains('\n'),
    ensures
        shebang_of(line + seq!['\n'] + rest) == shebang_of(line),
        shebang_of(line) is Some <==> (shebang_text(line) matches Some(t) && t.len() > 0),
        shebang_of(line) matches Some(w) ==> ({
            let t = trimmed(line.skip(2));
            &&& w.len() > 0
            &&& w == t.take(w.len() as int)
            &&& w.len() == t.len() || is_whitespace_char(t[w.len() as int])
            &&& forall|i: int| 0 <= i < w.len() ==> !is_whitespace_char(#[trigger] w[i])
        }),
{
    let content = line + seq!['\n'] + rest;
    lemma_shebang_of_line(content, line);
    lemma_shebang_of_line(line, line);
    if line.len() >= 2 && line[0] == '#' && line[1] == '!' {
        let t = trimmed(line.skip(2));
        lemma_whitespace_index(t);
        lemma_trimmed_ends(line.skip(2));
        let k = whitespace_index(t) as int;
        if t.len() > 0 {
            assert(k > 0);
        }
        let w = t.take(k);
        assert(first_word(line.skip(2)) == w);
        assert forall|i: int| 0 <= i < w.len() implies !is_whitespace_char(#[trigger] w[i]) by {
            assert(w[i] == t[i]);
        }
    }
}

/// Reads the interpreter out of the first line of a script (`#!` followed by
/// a path and perhaps arguments): the `hermes` command's own Python is
/// preferred for the server, since it has the agent's packages.
pub fn shebang_interpreter(content: &str) -> (interp: Option<String>)
    ensures
        match (interp, shebang_of(content@)) {
            (Some(s), Some(t)) => s@ == t,
            (None, None) => true,
            _ => false,
        },
{
    let v = chars_of(content);
    let n = v.len();
    let mut k: usize = 0;
    while k < n && v[k] != '\n'
        invariant
            k <= n == v@.len(),
            forall|j: int| 0 <= j < k ==> v@[j] != '\n',
        decreases n - k,
    {
        k = k + 1;
    }
    proof {
        lemma_newline_index(content@);
        if newline_index(content@) < k {
            assert(content@[newline_index(content@) as int] == '\n');
        }
        if newline_index(content@) > k {
            assert(v@[k as int] == '\n');
        }
        assert(newline_index(content@) == k);
    }
    let ghost line = content@.take(k as int);
    if k < 2 || v[0] != '#' || v[1] != '!' {
        return None;
    }
    proof {
        assert(line.skip(2) =~= v@.subrange(2, k as int));
    }
    let (a, b) = trim_bounds(&v, 2, k);
    let mut e = a;
    while e < b && !char_is_whitespace(v[e])
        invariant
            a <= e <= b <= v@.len(),
            forall|j: int| a <= j < e ==> !is_whitespace_char(v@[j]),
        decreases b - e,
    {
        e = e + 1;
    }
    proof {
        let t = v@.subrange(a as int, b as int);
        lemma_whitespace_index_is(t, e - a);
        assert(t.take(e - a) =~= v@.subrange(a as int, e as int));
    }
    if e == a {
        None
    } else {
        Some(string_of_range(&v, a, e))
    }
}

/// A candidate for the `hermes` command, as seen by the application: its
/// text when the file could be read, and whether the interpreter its `#!`
/// line names exists.
pub open spec fn probe_view(p: (Option<String>, bool)) -> (Option<Seq<char>>, bool) {
    (
        match p.0 {
            Some(t) => Some(t@),
            None => None,
        },
        p.1,
    )
}

/// The interpreter of the first candidate that was read, names an
/// interpreter in its `#!` line, and whose interpreter exists.
pub open spec fn first_usable_interpreter(probes: Seq<(Option<Seq<char>>, bool)>) -> Option<Seq<char>>
    decreases probes.len(),
{
    if probes.len() == 0 {
        None
    } else {
        let here = match probes[0].0 {
            Some(content) => shebang_of(content),
            None => None,
        };
        if here is Some && probes[0].1 {
            here
        } else {
            first_usable_interpreter(probes.drop_first())
        }
    }
}

/// Chooses the Python of the `hermes` command from its candidate scripts,
/// in order: the first one that was read and whose `#!` interpreter exists.
pub fn pick_hermes_python(probes: &Vec<(Option<String>, bool)>) -> (python: Option<String>)
    ensures
        match (python, first_usable_interpreter(probes@.map_values(|p: (Option<String>, bool)| probe_view(p)))) {
            (Some(p), Some(q)) => p@ == q,
            (None, None) => true,
            _ => false,
        },
{
    let ghost all = probes@.map_values(|p: (Option<String>, bool)| probe_view(p));
    let mut i: usize = 0;
    proof {
        assert(all.skip(0) =~= all);
    }
    while i < probes.len()
        invariant
            i <= probes.len(),
            all == probes@.map_values(|p: (Option<String>, bool)| probe_view(p)),
            first_usable_interpreter(all) == first_usable_interpreter(all.skip(i as int)),
        decreases probes.len() - i,
    {
        let ghost rest = all.skip(i as int);
        proof {
            assert(rest[0] == probe_view(probes@[i as int]));
            assert(rest.drop_first() =~= all.skip(i + 1));
        }
        let (content, exists) = &probes[i];
        if let Some(text) = content {
            if *exists {
                let found = shebang_interpreter(text.as_str());
                if found.is_some() {
                    return found;
                }
            }
        }
        i = i + 1;
    }
    None
}

/// The shell command that starts the server outside Windows: clear the
/// Python environment variables, then run `bootstrap.py` in the foreground.
pub open spec fn server_shell_text(python: Seq<char>, bootstrap: Seq<char>) -> Seq<char> {
    "unset PYTHONHOME PYTHONPATH; exec '"@ + python + "' '"@ + bootstrap + "' --foreground"@
}

/// Builds the `sh -c` command that starts the server outside Windows.
pub fn server_shell_command(python: &str, bootstrap: &str) -> (cmd: String)
    ensures
        cmd@ == server_shell_text(python@, bootstrap@),
{
    let mut cmd = String::from_str("unset PYTHONHOME PYTHONPATH; exec '");
    cmd.append(python);
    cmd.append("' '");
    cmd.append(bootstrap);
    cmd.append("' --foreground");
    cmd
}

/// The arguments given to Python to start the server on Windows.
pub fn server_windows_args(bootstrap: &str) -> (args: Vec<String>)
    ensures
        texts(args@) == seq![bootstrap@, "--foreground"@, "--skip-agent-install"@],
{
    let mut args: Vec<String> = Vec::new();
    args.push(String::from_str(bootstrap));
    args.push(String::from_str("--foreground"));
    args.push(String::from_str("--skip-agent-install"));
    proof {
        assert(texts(args@) =~= seq![bootstrap@, "--foreground"@, "--skip-agent-install"@]);
    }
    args
}

/// The environment variables the server is started with, as name and value.
pub open spec fn server_env_text(port: u16, python: Seq<char>, path: Seq<char>) -> Seq<(Seq<char>, Seq<char>)> {
    seq![
        ("HERMES_WEBUI_HOST"@, SERVER_HOST@),
        ("HERMES_WEBUI_PORT"@, decimal(port as nat)),
        ("HERMES_WEBUI_PYTHON"@, python),
        ("PATH"@, path),
        ("PYTHONDONTWRITEBYTECODE"@, "1"@),
        ("HERMES_DESKTOP"@, "1"@),
    ]
}

/// The views of a list of name and value pairs.
pub open spec fn pair_texts(v: Seq<(String, String)>) -> Seq<(Seq<char>, Seq<char>)> {
    v.map_values(|p: (String, String)| (p.0@, p.1@))
}

/// The environment of the server: where to listen, which Python to use, the
/// search path, no bytecode files, and a mark that the desktop app runs it.
pub fn server_env(port: u16, python: &str, path: &str) -> (env: Vec<(String, String)>)
    ensures
        pair_texts(env@) == server_env_text(port, python@, path@),
{
    let mut port_text = String::new();
    push_decimal(&mut port_text, port as u64);
    let mut env: Vec<(String, String)> = Vec::new();
    env.push((String::from_str("HERMES_WEBUI_HOST"), String::from_str(SERVER_HOST)));
    env.push((String::from_str("HERMES_WEBUI_PORT"), port_text));
    env.push((String::from_str("HERMES_WEBUI_PYTHON"), String::from_str(python)));
    env.push((String::from_str("PATH"), String::from_str(path)));
    env.push((String::from_str("PYTHONDONTWRITEBYTECODE"), String::from_str("1")));
    env.push((String::from_str("HERMES_DESKTOP"), String::from_str("1")));
    proof {
        assert(pair_texts(env@) =~= server_env_text(port, python@, path@));
    }
    env
}

/// `lines` joined with line breaks between them.
pub open spec fn joined_lines(lines: Seq<Seq<char>>) -> Seq<char>
    decreases lines.len(),
{
    if lines.len() == 0 {
        Seq::empty()
    } else if lines.len() == 1 {
        lines[0]
    } else {
        joined_lines(lines.drop_last()) + "\n"@ + lines.last()
    }
}

/// How many of the server's last output lines are kept for the error
/// message shown when it never answers.
pub const LOG_TAIL_LINES: usize = 20;

/// The last `n` entries of `s` (all of them when there are fewer).
pub open spec fn last_lines(s: Seq<Seq<char>>, n: nat) -> Seq<Seq<char>> {
    if s.len() <= n {
        s
    } else {
        s.skip(s.len() - n)
    }
}

/// Records one output line of the server, keeping only the last
/// `LOG_TAIL_LINES` lines.
pub fn keep_log_line(buf: &mut Vec<String>, line: String)
    ensures
        texts(final(buf)@) == last_lines(texts(old(buf)@).push(line@), LOG_TAIL_LINES as nat),
{
    let ghost all = texts(old(buf)@).push(line@);
    buf.push(line);
    proof {
        assert(texts(buf@) =~= all);
        assert(all.skip(0) =~= all);
    }
    let ghost mut dropped: int = 0;
    while buf.len() > LOG_TAIL_LINES
        invariant
            0 <= dropped <= all.len(),
            buf@.len() + dropped == all.len(),
            dropped > 0 ==> buf@.len() >= LOG_TAIL_LINES,
            texts(buf@) == all.skip(dropped),
        decreases buf.len(),
    {
        let ghost prev = buf@;
        buf.remove(0);
        proof {
            assert forall|k: int| 0 <= k < buf@.len() implies #[trigger] buf@[k]@ == all[dropped + 1 + k] by {
                assert(buf@[k] == prev[k + 1]);
                assert(texts(prev)[k + 1] == prev[k + 1]@);
            }
            assert(texts(buf@) =~= all.skip(dropped + 1));
            dropped = dropped + 1;
        }
    }
    proof {
        assert(texts(buf@) =~= last_lines(all, LOG_TAIL_LINES as nat));
    }
}

/// The error shown when the server never answered: the port, and the last
/// `LOG_TAIL_LINES` lines of the server's output when there is any.
pub open spec fn timeout_message_text(port: u16, log: Seq<Seq<char>>) -> Seq<char> {
    let tail = joined_lines(last_lines(log, LOG_TAIL_LINES as nat));
    "Server did not respond on :"@ + decimal(port as nat) + " within 60 s."@ + (if tail.len() == 0 {
        Seq::empty()
    } else {
        "\n\nLast output:\n"@ + tail
    })
}

/// Builds the error shown when the server did not answer on `port` in time,
/// with the last `LOG_TAIL_LINES` of the output lines it printed (`log`).
pub fn server_timeout_message(port: u16, log: &Vec<String>) -> (msg: String)
    ensures
        msg@ == timeout_message_text(port, texts(log@)),
{
    let start: usize = if log.len() > LOG_TAIL_LINES {
        log.len() - LOG_TAIL_LINES
    } else {
        0
    };
    let ghost kept = last_lines(texts(log@), LOG_TAIL_LINES as nat);
    proof {
        assert(kept =~= texts(log@).skip(start as int));
    }
    let mut tail = String::new();
    let mut i: usize = start;
    while i < log.len()
        invariant
            start <= i <= log.len(),
            kept == texts(log@).skip(start as int),
            tail@ == joined_lines(kept.take(i - start)),
        decreases log.len() - i,
    {
        proof {
            assert(kept.take(i - start + 1).drop_last() =~= kept.take(i - start));
            assert(kept[i - start] == log@[i as int]@);
            if i == start {
                assert(kept.take(0) =~= Seq::<Seq<char>>::empty());
            }
        }
        if i > start {
            tail.append("\n");
        }
        tail.append(log[i].as_str());
        i = i + 1;
    }
    proof {
        assert(kept.take(log.len() - start) =~= kept);
    }
    let mut msg = String::from_str("Server did not respond on :");
    push_decimal(&mut msg, port as u64);
    msg.append(" within 60 s.");
    if !tail.as_str().is_empty() {
        msg.append("\n\nLast output:\n");
        msg.append(tail.as_str());
    }
    proof {
        assert(msg@ =~= timeout_message_text(port, texts(log@)));
    }
    msg
}

} // verus!
