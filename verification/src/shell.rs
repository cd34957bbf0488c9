//! `multiplex-cli shell [-- PROGRAM ARGS...]`: a person's own shell, in a durable session their
//! paired devices can reach. What the command line asks for, and how the program is named in the
//! session's record, are decided here; starting processes and attaching the window are the
//! caller's.
use vstd::prelude::*;

use crate::console_sessions::{ConsoleSessionRecord, CONSOLE_SESSIONS_DIR, SCHEMA_VERSION};
use crate::paths::{components, components_of, join, joined, rooted};
use crate::text::{chars_equal, chars_of, last_before, find_last_before, slice_of, string_of};

verus! {

/// Set in every shell the launcher starts, so a profile that runs the launcher again from inside
/// one runs the program plainly instead of nesting a session in a session.
pub const SHELL_SESSION_ENV: &'static str = "MULTIPLEX_SHELL_SESSION";

/// The last component of a path, when it is a name rather than `..`.
pub open spec fn file_name(path: Seq<char>) -> Option<Seq<char>> {
    let c = components(path);
    if c.len() == 0 || c.last() == seq!['.', '.'] {
        None
    } else {
        Some(c.last())
    }
}

/// A file name without its extension: everything before its last `.`, unless there is none or
/// it starts the name.
pub open spec fn file_stem(name: Seq<char>) -> Seq<char> {
    match last_before(name, '.', name.len() as int) {
        Some(i) => if i == 0 { name } else { name.take(i) },
        None => name,
    }
}

/// The program as a person would name it: the stem of its file name, or the text as given when
/// it names no file.
pub open spec fn display_name_spec(program: Seq<char>) -> Seq<char> {
    match file_name(program) {
        Some(name) => file_stem(name),
        None => program,
    }
}

/// The program as a person would name it: `pwsh` for `pwsh.exe`, `zsh` for `/bin/zsh`.
pub fn display_name(program: &str) -> (r: String)
    ensures
        r@ == display_name_spec(program@),
{
    let text = chars_of(program);
    let parts = components_of(text.as_slice());
    let ghost pv = parts@.map_values(|c: Vec<char>| c@);
    if parts.len() == 0 {
        return program.to_string();
    }
    let last = &parts[parts.len() - 1];
    proof {
        assert(pv.last() == last@);
    }
    let dots: Vec<char> = vec!['.', '.'];
    assert(dots@ =~= seq!['.', '.']);
    if chars_equal(last.as_slice(), dots.as_slice()) {
        return program.to_string();
    }
    match find_last_before(last.as_slice(), '.', last.len()) {
        Some(i) => {
            if i == 0 {
                string_of(last.as_slice())
            } else {
                string_of(slice_of(last.as_slice(), 0, i).as_slice())
            }
        },
        None => string_of(last.as_slice()),
    }
}

/// What `multiplex-cli shell` was asked to run: nothing after `shell` means this platform's
/// shell; `--`, a program and its arguments name one. Anything else is a usage error (`None`).
pub open spec fn shell_request(arguments: Seq<Seq<char>>) -> Option<(Option<Seq<char>>, Seq<Seq<char>>)> {
    if arguments.len() == 0 {
        Some((None, Seq::empty()))
    } else if arguments.len() >= 2 && arguments[0] == seq!['-', '-'] {
        Some((Some(arguments[1]), arguments.skip(2)))
    } else {
        None
    }
}

/// The program and arguments the words after `shell` ask for, or `None` for a usage error.
pub fn shell_arguments(arguments: &Vec<String>) -> (r: Option<(Option<String>, Vec<String>)>)
    ensures
        match r {
            Some((program, rest)) => shell_request(arguments@.map_values(|a: String| a@)) == Some((
                match program { Some(p) => Some(p@), None => None },
                rest@.map_values(|a: String| a@),
            )),
            None => shell_request(arguments@.map_values(|a: String| a@)) is None,
        },
{
    let ghost av = arguments@.map_values(|a: String| a@);
    if arguments.len() == 0 {
        let rest: Vec<String> = Vec::new();
        assert(rest@.map_values(|a: String| a@) =~= Seq::<Seq<char>>::empty());
        return Some((None, rest));
    }
    let separator: Vec<char> = vec!['-', '-'];
    assert(separator@ =~= seq!['-', '-']);
    if arguments.len() < 2 || !chars_equal(chars_of(arguments[0].as_str()).as_slice(), separator.as_slice()) {
        proof {
            assert(av[0] == arguments@[0]@);
        }
        return None;
    }
    proof {
        assert(av[0] == arguments@[0]@);
    }
    let program = arguments[1].clone();
    let mut rest: Vec<String> = Vec::new();
    let mut i: usize = 2;
    while i < arguments.len()
        invariant
            2 <= i <= arguments@.len(),
            av == arguments@.map_values(|a: String| a@),
            rest@.map_values(|a: String| a@) == av.subrange(2, i as int),
        decreases arguments@.len() - i,
    {
        let word = arguments[i].clone();
        proof {
            assert(word@ == arguments@[i as int]@);
            assert(av[i as int] == arguments@[i as int]@);
            assert(rest@.push(word).map_values(|a: String| a@) =~= rest@.map_values(|a: String| a@).push(word@));
            assert(av.subrange(2, i + 1) =~= av.subrange(2, i as int).push(av[i as int]));
        }
        rest.push(word);
        i = i + 1;
    }
    assert(av.subrange(2, av.len() as int) =~= av.skip(2));
    Some((Some(program), rest))
}

/// Where the launcher finds what it works with: Multiplex's configuration folder, the folder each
/// session's runtime folder is made in, and the Session Host executable.
#[derive(Clone, Debug)]
pub struct CliPaths {
    pub config_root: String,
    pub runtime_parent: String,
    pub host_executable: String,
}

/// Starts a person's shell in a durable session, or runs it directly where a session would not
/// help.
pub struct ShellLauncher {
    paths: CliPaths,
}

/// How the launcher runs the program it was given.
pub struct ShellRun {
    pub program: String,
    pub arguments: Vec<String>,
    /// In a durable session, attached to this window; otherwise directly in this terminal.
    pub in_session: bool,
}

impl ShellLauncher {
    pub closed spec fn paths_spec(&self) -> CliPaths {
        self.paths
    }

    pub fn new(paths: CliPaths) -> (r: Self)
        ensures
            r.paths_spec() == paths,
    {
        ShellLauncher { paths }
    }

    pub fn paths(&self) -> (r: &CliPaths)
        ensures
            *r == self.paths_spec(),
    {
        &self.paths
    }

    /// The session's folder under the configuration: `console-sessions/<id>`.
    pub fn session_dir(&self, session_id: &str) -> (r: String)
        ensures
            r@ == join(join(self.paths_spec().config_root@, CONSOLE_SESSIONS_DIR@), session_id@),
    {
        let root = chars_of(self.paths.config_root.as_str());
        let sessions = joined(root.as_slice(), CONSOLE_SESSIONS_DIR);
        string_of(joined(sessions.as_slice(), session_id).as_slice())
    }

    /// The session's runtime folder: the session's identifier under the runtime parent.
    pub fn runtime_root(&self, session_id: &str) -> (r: String)
        ensures
            r@ == join(self.paths_spec().runtime_parent@, session_id@),
    {
        let parent = chars_of(self.paths.runtime_parent.as_str());
        string_of(joined(parent.as_slice(), session_id).as_slice())
    }

    /// What runs, and how: the named program, or this platform's shell when none is named; in a
    /// session only when both ends are a terminal, this is not already inside a Multiplex shell,
    /// and the Session Host is there to start.
    pub fn plan_run(
        &self,
        program: Option<String>,
        arguments: Vec<String>,
        default_shell: (String, Vec<String>),
        interactive: bool,
        nested: bool,
        host_present: bool,
    ) -> (r: ShellRun)
        ensures
            r.in_session == (interactive && !nested && host_present),
            match program {
                Some(p) => r.program == p && r.arguments == arguments,
                None => r.program == default_shell.0 && r.arguments == default_shell.1,
            },
    {
        let (program, arguments) = match program {
            Some(program) => (program, arguments),
            None => default_shell,
        };
        ShellRun { program, arguments, in_session: interactive && !nested && host_present }
    }

    /// What paired devices are told about the session: the program as a person would name it.
    pub fn record(&self, session_id: String, program: &str, working_directory: String, started_at: u64)
        -> (r: ConsoleSessionRecord)
        ensures
            r.schema_version == SCHEMA_VERSION,
            r.session_id == session_id,
            r.program@ == display_name_spec(program@),
            r.working_directory == working_directory,
            r.started_at == started_at,
    {
        ConsoleSessionRecord {
            schema_version: SCHEMA_VERSION,
            session_id,
            program: display_name(program),
            working_directory,
            started_at,
        }
    }
}

/// The window size the session starts with: the terminal's, when it reports one of at least 10
/// columns and 2 rows, else the classic 80 by 24; at most 1000 either way.
pub open spec fn terminal_size_spec(reported: Option<(u16, u16)>) -> (u16, u16) {
    let (columns, rows) = match reported {
        Some((c, r)) => if c >= 10 && r >= 2 { (c, r) } else { (80u16, 24u16) },
        None => (80u16, 24u16),
    };
    (if columns > 1000 { 1000u16 } else { columns }, if rows > 1000 { 1000u16 } else { rows })
}

/// The window size the session starts with; the first resize puts the real size right.
pub fn terminal_size(reported: Option<(u16, u16)>) -> (r: (u16, u16))
    ensures
        r == terminal_size_spec(reported),
{
    let (columns, rows) = match reported {
        Some((c, r)) => if c >= 10 && r >= 2 { (c, r) } else { (80u16, 24u16) },
        None => (80u16, 24u16),
    };
    (if columns > 1000 { 1000u16 } else { columns }, if rows > 1000 { 1000u16 } else { rows })
}

/// The shell this platform's terminals open by default: on Windows PowerShell 7, else Windows
/// PowerShell, each without its logo, else the command interpreter `COMSPEC` names (`cmd.exe`
/// when unset); elsewhere the login shell `SHELL` names (`/bin/sh` when unset), as a login shell.
pub fn default_shell(
    windows: bool,
    pwsh_found: bool,
    powershell_found: bool,
    comspec: Option<String>,
    shell: Option<String>,
) -> (r: (String, Vec<String>))
    ensures
        windows && pwsh_found ==> r.0@ == "pwsh.exe"@ && r.1@.map_values(|a: String| a@) == seq!["-NoLogo"@],
        windows && !pwsh_found && powershell_found ==> r.0@ == "powershell.exe"@
            && r.1@.map_values(|a: String| a@) == seq!["-NoLogo"@],
        windows && !pwsh_found && !powershell_found ==> r.1@.len() == 0 && match comspec {
            Some(c) => r.0 == c,
            None => r.0@ == "cmd.exe"@,
        },
        !windows ==> r.1@.map_values(|a: String| a@) == seq!["-l"@] && match shell {
            Some(s) => r.0 == s,
            None => r.0@ == "/bin/sh"@,
        },
{
    if windows {
        if pwsh_found || powershell_found {
            let name = if pwsh_found { "pwsh.exe".to_string() } else { "powershell.exe".to_string() };
            let mut arguments: Vec<String> = Vec::new();
            arguments.push("-NoLogo".to_string());
            assert(arguments@.map_values(|a: String| a@) =~= seq!["-NoLogo"@]);
            return (name, arguments);
        }
        let program = match comspec {
            Some(c) => c,
            None => "cmd.exe".to_string(),
        };
        (program, Vec::new())
    } else {
        let program = match shell {
            Some(s) => s,
            None => "/bin/sh".to_string(),
        };
        let mut arguments: Vec<String> = Vec::new();
        arguments.push("-l".to_string());
        assert(arguments@.map_values(|a: String| a@) =~= seq!["-l"@]);
        (program, arguments)
    }
}

/// A program named by a path is taken as it is; a bare name is looked up on `PATH`. A path has
/// a root, or more than one component, counting a leading `.`.
pub open spec fn names_a_path(program: Seq<char>) -> bool {
    ||| rooted(program)
    ||| components(program).len() > 1
    ||| (program.len() >= 2 && program[0] == '.' && program[1] == '/' && components(program).len() >= 1)
}

/// Whether `program` names a path rather than a program to look up.
pub fn is_path(program: &str) -> (r: bool)
    ensures
        r == names_a_path(program@),
{
    let text = chars_of(program);
    let parts = components_of(text.as_slice());
    let ghost pv = parts@.map_values(|c: Vec<char>| c@);
    assert(pv.len() == parts@.len());
    (text.len() > 0 && text[0] == '/') || parts.len() > 1
        || (text.len() >= 2 && text[0] == '.' && text[1] == '/' && parts.len() >= 1)
}

/// The files a bare program name is looked for as, in order: in each `PATH` folder, the name
/// itself, then on Windows the name with `.exe`.
pub open spec fn lookup_candidates(program: Seq<char>, folders: Seq<Seq<char>>, windows: bool) -> Seq<Seq<char>>
    decreases folders.len(),
{
    if folders.len() == 0 {
        Seq::empty()
    } else {
        let earlier = lookup_candidates(program, folders.drop_last(), windows);
        let folder = folders.last();
        if windows {
            earlier.push(join(folder, program)).push(join(folder, program + ".exe"@))
        } else {
            earlier.push(join(folder, program))
        }
    }
}

/// Where to look for a bare program name, in the order a terminal would.
pub fn candidates(program: &str, folders: &Vec<String>, windows: bool) -> (r: Vec<String>)
    ensures
        r@.map_values(|c: String| c@) == lookup_candidates(program@, folders@.map_values(|f: String| f@), windows),
{
    let ghost fv = folders@.map_values(|f: String| f@);
    let mut with_exe: Vec<char> = chars_of(program);
    crate::text::push_str(&mut with_exe, ".exe");
    let exe = string_of(with_exe.as_slice());
    let mut out: Vec<String> = Vec::new();
    let mut i: usize = 0;
    while i < folders.len()
        invariant
            i <= folders@.len(),
            fv == folders@.map_values(|f: String| f@),
            exe@ == program@ + ".exe"@,
            out@.map_values(|c: String| c@) == lookup_candidates(program@, fv.take(i as int), windows),
        decreases folders@.len() - i,
    {
        let folder = chars_of(folders[i].as_str());
        let plain = string_of(joined(folder.as_slice(), program).as_slice());
        let ghost before = out@;
        out.push(plain);
        if windows {
            let suffixed = string_of(joined(folder.as_slice(), exe.as_str()).as_slice());
            out.push(suffixed);
        }
        proof {
            assert(fv.take(i + 1).drop_last() =~= fv.take(i as int));
            assert(fv.take(i + 1).last() == folders@[i as int]@);
            if windows {
                assert(out@.map_values(|c: String| c@) =~= before.map_values(|c: String| c@)
                    .push(join(folders@[i as int]@, program@)).push(join(folders@[i as int]@, program@ + ".exe"@)));
            } else {
                assert(out@.map_values(|c: String| c@) =~= before.map_values(|c: String| c@)
                    .push(join(folders@[i as int]@, program@)));
            }
        }
        i = i + 1;
    }
    assert(fv.take(folders@.len() as int) =~= fv);
    out
}

} // verus!
