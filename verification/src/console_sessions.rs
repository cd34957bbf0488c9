//! Sessions `multiplex-cli shell` started: a person's own shell, run by a Session Host so paired
//! devices can reach it, recorded under the configuration root beside the durable sessions.
//! Where the records live, how a session is titled and which records are accepted are decided
//! here; the files are read and written by the caller.
use vstd::prelude::*;

use crate::paths::{join, joined, piece_start, piece_start_of};
use crate::shell::file_name;
use crate::text::{chars_equal, chars_of, push_chars, push_str, slice_of, string_of};
use crate::paths::components_of;

verus! {

/// The folder, beside the durable-session data folder, that holds one folder per session.
pub const CONSOLE_SESSIONS_DIR: &'static str = "console-sessions";
/// The record the launcher leaves in each session's folder.
pub const CONSOLE_SESSION_RECORD: &'static str = "console-session.json";
/// A record is a few hundred bytes; anything much larger was not written by the launcher.
pub const MAX_RECORD_BYTES: u64 = 16384;

/// `s` without trailing separators and trailing `.` components, a lone `/` kept.
pub open spec fn trim_tail(s: Seq<char>) -> Seq<char>
    decreases s.len(),
{
    if s.len() > 1 && s.last() == '/' {
        trim_tail(s.drop_last())
    } else if s.len() >= 2 && s.last() == '.' && s[s.len() - 2] == '/' {
        trim_tail(s.drop_last())
    } else {
        s
    }
}

/// `Path::parent`: the path without its last component, or `None` for the root or an empty
/// path.
pub open spec fn parent_path(s: Seq<char>) -> Option<Seq<char>> {
    let t = trim_tail(s);
    if t.len() == 0 || t == seq!['/'] {
        None
    } else if t == seq!['.'] {
        Some(Seq::empty())
    } else {
        let head = t.take(piece_start(t, t.len() as int));
        Some(if head.len() == 0 { head } else { trim_tail(head) })
    }
}

fn trim_tail_of(s: &[char]) -> (r: usize)
    ensures
        r <= s@.len(),
        s@.take(r as int) == trim_tail(s@),
{
    let mut n: usize = s.len();
    proof {
        assert(s@.take(n as int) =~= s@);
    }
    loop
        invariant
            n <= s@.len(),
            trim_tail(s@) == trim_tail(s@.take(n as int)),
        decreases n,
    {
        if n > 1 && s[n - 1] == '/' {
            proof {
                assert(s@.take(n as int).drop_last() =~= s@.take(n - 1));
            }
            n = n - 1;
        } else if n >= 2 && s[n - 1] == '.' && s[n - 2] == '/' {
            proof {
                assert(s@.take(n as int).drop_last() =~= s@.take(n - 1));
            }
            n = n - 1;
        } else {
            return n;
        }
    }
}

/// The parent of a path, when it has one.
pub fn parent_of(s: &[char]) -> (r: Option<Vec<char>>)
    ensures
        match r {
            Some(p) => parent_path(s@) == Some(p@),
            None => parent_path(s@) is None,
        },
{
    let n = trim_tail_of(s);
    let t = slice_of(s, 0, n);
    if n == 0 || (n == 1 && t[0] == '/') {
        proof {
            if n == 1 {
                assert(t@ =~= seq!['/']);
            }
        }
        return None;
    }
    proof {
        if n == 1 {
            assert(t@ != seq!['/']);
        } else {
            assert(t@.len() != 1);
        }
    }
    if n == 1 && t[0] == '.' {
        assert(t@ =~= seq!['.']);
        return Some(Vec::new());
    }
    proof {
        if n == 1 {
            assert(t@ != seq!['.']);
        }
    }
    let i = piece_start_of(t.as_slice(), n);
    let head = slice_of(t.as_slice(), 0, i);
    assert(head@ =~= t@.take(i as int));
    if i == 0 {
        return Some(head);
    }
    let m = trim_tail_of(head.as_slice());
    let trimmed = slice_of(head.as_slice(), 0, m);
    Some(trimmed)
}

/// Where the launcher's sessions live, given the durable-session data folder beside it.
pub open spec fn console_sessions_root_spec(session_data_root: Seq<char>) -> Seq<char> {
    match parent_path(session_data_root) {
        Some(parent) => join(parent, CONSOLE_SESSIONS_DIR@),
        None => CONSOLE_SESSIONS_DIR@,
    }
}

/// Where the launcher's sessions live, given the durable-session data folder beside it.
pub fn console_sessions_root(session_data_root: &str) -> (r: String)
    ensures
        r@ == console_sessions_root_spec(session_data_root@),
{
    let text = chars_of(session_data_root);
    match parent_of(text.as_slice()) {
        Some(parent) => string_of(joined(parent.as_slice(), CONSOLE_SESSIONS_DIR).as_slice()),
        None => CONSOLE_SESSIONS_DIR.to_string(),
    }
}

/// What paired devices are told about a session the launcher started.
#[derive(Clone, Debug, PartialEq, Eq)]
pub struct ConsoleSessionRecord {
    pub schema_version: u16,
    /// The session's identifier, as its folder is named.
    pub session_id: String,
    /// The shell, as a person would name it: `pwsh`, `cmd`, `zsh`.
    pub program: String,
    pub working_directory: String,
    pub started_at: u64,
}

/// The record format this launcher writes.
pub const SCHEMA_VERSION: u16 = 1;

/// "pwsh in projects", the way a tab would be named: the program, and the folder it runs in
/// when the working directory names one.
pub open spec fn title_spec(program: Seq<char>, working_directory: Seq<char>) -> Seq<char> {
    match file_name(working_directory) {
        Some(folder) => program + " in "@ + folder,
        None => program,
    }
}

impl ConsoleSessionRecord {
    /// "pwsh in projects", the way a tab would be named.
    pub fn title(&self) -> (r: String)
        ensures
            r@ == title_spec(self.program@, self.working_directory@),
    {
        let text = chars_of(self.working_directory.as_str());
        let parts = components_of(text.as_slice());
        let ghost pv = parts@.map_values(|c: Vec<char>| c@);
        if parts.len() == 0 {
            return self.program.clone();
        }
        let last = &parts[parts.len() - 1];
        proof {
            assert(pv.last() == last@);
        }
        let dots: Vec<char> = vec!['.', '.'];
        assert(dots@ =~= seq!['.', '.']);
        if chars_equal(last.as_slice(), dots.as_slice()) {
            return self.program.clone();
        }
        let mut out: Vec<char> = Vec::new();
        push_str(&mut out, self.program.as_str());
        push_str(&mut out, " in ");
        push_chars(&mut out, last.as_slice());
        string_of(out.as_slice())
    }
}

/// Whether a record read from `session_dir` is accepted: the file was a plain file of at most
/// `MAX_RECORD_BYTES`, it parsed, it has this format, and the folder is named for its session.
pub open spec fn accepted(is_file: bool, length: u64, record: Option<ConsoleSessionRecord>, session_dir: Seq<char>) -> bool {
    &&& is_file
    &&& length <= MAX_RECORD_BYTES
    &&& record matches Some(r) && r.schema_version == SCHEMA_VERSION && file_name(session_dir) == Some(r.session_id@)
}

/// The record in `session_dir`, when it is one the launcher wrote for that folder's session:
/// `is_file` and `length` are what the file system says of the record's file, `record` what it
/// parsed to.
pub fn read_console_session(is_file: bool, length: u64, record: Option<ConsoleSessionRecord>, session_dir: &str)
    -> (r: Option<ConsoleSessionRecord>)
    ensures
        accepted(is_file, length, record, session_dir@) ==> r == record,
        !accepted(is_file, length, record, session_dir@) ==> r is None,
{
    if !is_file || length > MAX_RECORD_BYTES {
        return None;
    }
    let r = match record {
        Some(r) => r,
        None => return None,
    };
    if r.schema_version != SCHEMA_VERSION {
        return None;
    }
    let text = chars_of(session_dir);
    let parts = components_of(text.as_slice());
    let ghost pv = parts@.map_values(|c: Vec<char>| c@);
    if parts.len() == 0 {
        return None;
    }
    let last = &parts[parts.len() - 1];
    proof {
        assert(pv.last() == last@);
    }
    let dots: Vec<char> = vec!['.', '.'];
    assert(dots@ =~= seq!['.', '.']);
    if chars_equal(last.as_slice(), dots.as_slice()) {
        return None;
    }
    if chars_equal(last.as_slice(), chars_of(r.session_id.as_str()).as_slice()) {
        Some(r)
    } else {
        None
    }
}

} // verus!
