//! A "Multiplex" profile in the terminals people already use, so the ones they open with it run
//! through `multiplex-cli shell` and paired devices can reach them.
//!
//! Only a window opened with the Multiplex profile is wrapped. Each change is previewed as a
//! [`ChangePlan`] before it is written, and removed exactly:
//!
//! - **Windows Terminal** loads profiles from a fragment, a file of its own, so its
//!   `settings.json` is never edited. Removing the file removes the profile.
//! - **iTerm2** loads dynamic profiles from files of their own, the same way.
//! - **VS Code** has no such folder, so one marked block is inserted at the top of its user
//!   `settings.json` and removed character for character. When the file already sets terminal
//!   profiles for this platform, nothing is merged into them; the status says so and shows the
//!   text to add by hand.
//!
//! The library decides; reading the files and checking which folders exist is the caller's.
use vstd::prelude::*;

use crate::paths::{join, joined};
use crate::text::{chars_equal, chars_of, find_from, find_last_before, first_occurrence,
    last_before, lemma_first_occurrence_facts, lemma_white_prefix, occurs_at, pair_here, find_char_from,
    find_pair_from, push_chars,
    push_str, skip_white, slice_of, starts_with, string_of, trim_white};

verus! {

/// A terminal that can offer the Multiplex profile.
#[derive(Clone, Copy, Debug, PartialEq, Eq, Hash, Structural)]
pub enum ProfileTarget {
    WindowsTerminal,
    VsCode,
    ITerm2,
}

impl ProfileTarget {
    pub open spec fn label_spec(self) -> Seq<char> {
        match self {
            ProfileTarget::WindowsTerminal => "Windows Terminal"@,
            ProfileTarget::VsCode => "Visual Studio Code"@,
            ProfileTarget::ITerm2 => "iTerm2"@,
        }
    }

    /// The terminal's name as people know it.
    pub fn label(self) -> (r: &'static str)
        ensures
            r@ == self.label_spec(),
    {
        match self {
            ProfileTarget::WindowsTerminal => "Windows Terminal",
            ProfileTarget::VsCode => "Visual Studio Code",
            ProfileTarget::ITerm2 => "iTerm2",
        }
    }

    /// Every target, in the order they are shown.
    pub fn all() -> (r: Vec<ProfileTarget>)
        ensures
            r@ == seq![ProfileTarget::WindowsTerminal, ProfileTarget::VsCode, ProfileTarget::ITerm2],
    {
        let r = vec![ProfileTarget::WindowsTerminal, ProfileTarget::VsCode, ProfileTarget::ITerm2];
        assert(r@ =~= seq![ProfileTarget::WindowsTerminal, ProfileTarget::VsCode, ProfileTarget::ITerm2]);
        r
    }
}

/// The platform whose conventions paths and settings keys follow.
#[derive(Clone, Copy, Debug, PartialEq, Eq, Structural)]
pub enum Platform {
    Windows,
    MacOs,
    Linux,
}

/// The suffix VS Code's per-platform terminal settings use.
pub open spec fn vscode_key(platform: Platform) -> Seq<char> {
    match platform {
        Platform::Windows => "windows"@,
        Platform::MacOs => "osx"@,
        Platform::Linux => "linux"@,
    }
}

#[derive(Clone, Debug, PartialEq, Eq)]
pub enum ProfileStatus {
    /// The terminal is not installed here.
    Unavailable,
    Off,
    On,
    /// The profile is there but points at another copy of the launcher, as after the app moved;
    /// adding it again repairs it.
    Outdated,
    /// VS Code's settings already set terminal profiles for this platform, which this does not
    /// merge into. `manual` is the text a person can add to them.
    NeedsManualEdit { manual: String },
}

/// A status as the contracts speak of it.
pub enum StatusView {
    Unavailable,
    Off,
    On,
    Outdated,
    NeedsManualEdit(Seq<char>),
}

impl View for ProfileStatus {
    type V = StatusView;

    open spec fn view(&self) -> StatusView {
        match self {
            ProfileStatus::Unavailable => StatusView::Unavailable,
            ProfileStatus::Off => StatusView::Off,
            ProfileStatus::On => StatusView::On,
            ProfileStatus::Outdated => StatusView::Outdated,
            ProfileStatus::NeedsManualEdit { manual } => StatusView::NeedsManualEdit(manual@),
        }
    }
}

/// One file to write: its contents before, as read for the preview, and after; `None` is no file.
#[derive(Clone, Debug, PartialEq, Eq)]
pub struct FileChange {
    pub path: String,
    pub before: Option<String>,
    pub after: Option<String>,
}

/// The changes one step makes, shown before they are written.
#[derive(Clone, Debug, PartialEq, Eq)]
pub struct ChangePlan {
    pub changes: Vec<FileChange>,
}

pub open spec fn text_view(t: Option<String>) -> Option<Seq<char>> {
    match t {
        Some(s) => Some(s@),
        None => None,
    }
}

impl View for ChangePlan {
    type V = Seq<(Seq<char>, Option<Seq<char>>, Option<Seq<char>>)>;

    open spec fn view(&self) -> Seq<(Seq<char>, Option<Seq<char>>, Option<Seq<char>>)> {
        self.changes@.map_values(|c: FileChange| (c.path@, text_view(c.before), text_view(c.after)))
    }
}

impl ChangePlan {
    /// A plan that changes nothing.
    pub fn empty() -> (r: ChangePlan)
        ensures
            r@ == Seq::<(Seq<char>, Option<Seq<char>>, Option<Seq<char>>)>::empty(),
    {
        let r = ChangePlan { changes: Vec::new() };
        assert(r@ =~= Seq::<(Seq<char>, Option<Seq<char>>, Option<Seq<char>>)>::empty());
        r
    }

    pub fn is_empty(&self) -> (r: bool)
        ensures
            r == (self@.len() == 0),
    {
        self.changes.len() == 0
    }
}

/// Where each terminal keeps its settings on one machine, and the launcher a profile runs.
#[derive(Clone, Debug)]
pub struct TerminalProfiles {
    platform: Platform,
    home: String,
    /// `%LOCALAPPDATA%` on Windows.
    local_app_data: Option<String>,
    /// `%APPDATA%` on Windows.
    app_data: Option<String>,
    launcher: String,
}

/// A `TerminalProfiles` as the contracts speak of it.
pub struct ProfilesView {
    pub platform: Platform,
    pub home: Seq<char>,
    pub local_app_data: Option<Seq<char>>,
    pub app_data: Option<Seq<char>>,
    pub launcher: Seq<char>,
}

impl View for TerminalProfiles {
    type V = ProfilesView;

    closed spec fn view(&self) -> ProfilesView {
        ProfilesView {
            platform: self.platform,
            home: self.home@,
            local_app_data: text_view(self.local_app_data),
            app_data: text_view(self.app_data),
            launcher: self.launcher@,
        }
    }
}

// ---------------------------------------------------------------------------------------------
// Paths.

/// The file a target's profile lives in, or `None` where the terminal does not exist.
pub open spec fn profile_path_spec(p: ProfilesView, target: ProfileTarget) -> Option<Seq<char>> {
    match (target, p.platform) {
        (ProfileTarget::WindowsTerminal, Platform::Windows) => match p.local_app_data {
            Some(root) => Some(join(join(join(join(join(root, "Microsoft"@), "Windows Terminal"@),
                "Fragments"@), "Multiplex"@), "multiplex.json"@)),
            None => None,
        },
        (ProfileTarget::ITerm2, Platform::MacOs) => Some(
            join(p.home, "Library/Application Support/iTerm2/DynamicProfiles/multiplex.json"@),
        ),
        (ProfileTarget::VsCode, Platform::Windows) => match p.app_data {
            Some(root) => Some(join(join(join(root, "Code"@), "User"@), "settings.json"@)),
            None => None,
        },
        (ProfileTarget::VsCode, Platform::MacOs) => Some(
            join(p.home, "Library/Application Support/Code/User/settings.json"@),
        ),
        (ProfileTarget::VsCode, Platform::Linux) => Some(join(p.home, ".config/Code/User/settings.json"@)),
        _ => None,
    }
}

/// The folders any one of which, existing, shows the terminal is installed: Windows Terminal's
/// Store, Preview and unpackaged builds; iTerm2's support folder; VS Code's `User` folder.
pub open spec fn installed_folders_spec(p: ProfilesView, target: ProfileTarget) -> Seq<Seq<char>> {
    match profile_path_spec(p, target) {
        None => Seq::empty(),
        Some(_) => match target {
            ProfileTarget::WindowsTerminal => match p.local_app_data {
                Some(root) => seq![
                    join(join(root, "Packages"@), "Microsoft.WindowsTerminal_8wekyb3d8bbwe"@),
                    join(join(root, "Packages"@), "Microsoft.WindowsTerminalPreview_8wekyb3d8bbwe"@),
                    join(join(root, "Microsoft"@), "Windows Terminal"@),
                ],
                None => Seq::empty(),
            },
            ProfileTarget::ITerm2 => seq![join(p.home, "Library/Application Support/iTerm2"@)],
            ProfileTarget::VsCode => match p.platform {
                Platform::Windows => match p.app_data {
                    Some(root) => seq![join(join(root, "Code"@), "User"@)],
                    None => Seq::empty(),
                },
                Platform::MacOs => seq![join(p.home, "Library/Application Support/Code/User"@)],
                Platform::Linux => seq![join(p.home, ".config/Code/User"@)],
            },
        },
    }
}

// ---------------------------------------------------------------------------------------------
// JSON string content.

/// How `serde_json` writes one character inside a JSON string.
pub open spec fn json_escape(c: char) -> Seq<char> {
    let n = c as u32;
    if c == '"' {
        seq!['\\', '"']
    } else if c == '\\' {
        seq!['\\', '\\']
    } else if n == 0x08 {
        seq!['\\', 'b']
    } else if n == 0x09 {
        seq!['\\', 't']
    } else if n == 0x0a {
        seq!['\\', 'n']
    } else if n == 0x0c {
        seq!['\\', 'f']
    } else if n == 0x0d {
        seq!['\\', 'r']
    } else if n < 0x20 {
        seq!['\\', 'u', '0', '0', crate::digest::hex_digit(n as nat / 16), crate::digest::hex_digit(n as nat % 16)]
    } else {
        seq![c]
    }
}

/// `s` as the content of a JSON string.
pub open spec fn json_escaped(s: Seq<char>) -> Seq<char>
    decreases s.len(),
{
    if s.len() == 0 {
        Seq::empty()
    } else {
        json_escaped(s.drop_last()) + json_escape(s.last())
    }
}

/// `serde_json::to_string` on a string: the string in double quotes, each character written as
/// `json_escaped` says (`"` and `\` after a backslash; backspace, tab, line feed, form feed and
/// carriage return as `\b \t \n \f \r`; other characters below U+0020 as `\u00` and two
/// lowercase hex digits; the rest as they are). Serializing a string into memory cannot fail.
#[verifier::external_body]
fn json_quoted(value: &str) -> (r: String)
    ensures
        r@ == seq!['"'] + json_escaped(value@) + seq!['"'],
{
    serde_json::to_string(value).unwrap_or_default()
}

/// `value` as JSON string content: quoted by `serde_json`, the quotes taken off.
fn json_text(value: &[char]) -> (r: Vec<char>)
    ensures
        r@ == json_escaped(value@),
{
    let s = string_of(value);
    let quoted = json_quoted(s.as_str());
    let chars = chars_of(quoted.as_str());
    let r = slice_of(chars.as_slice(), 1, chars.len() - 1);
    assert(r@ =~= json_escaped(value@));
    r
}

/// `s` with each `'` written `'\''`, so it can stand inside single quotes in a shell.
pub open spec fn shell_quoted(s: Seq<char>) -> Seq<char>
    decreases s.len(),
{
    if s.len() == 0 {
        Seq::empty()
    } else {
        shell_quoted(s.drop_last()) + if s.last() == '\'' {
            seq!['\'', '\\', '\'', '\'']
        } else {
            seq![s.last()]
        }
    }
}

fn shell_quote(s: &[char]) -> (r: Vec<char>)
    ensures
        r@ == shell_quoted(s@),
{
    let mut out: Vec<char> = Vec::new();
    let mut i: usize = 0;
    while i < s.len()
        invariant
            i <= s@.len(),
            out@ == shell_quoted(s@.take(i as int)),
        decreases s@.len() - i,
    {
        let ghost before = out@;
        if s[i] == '\'' {
            out.push('\'');
            out.push('\\');
            out.push('\'');
            out.push('\'');
        } else {
            out.push(s[i]);
        }
        proof {
            let t = s@.take(i + 1);
            assert(t.drop_last() =~= s@.take(i as int));
            assert(out@ =~= shell_quoted(t));
        }
        i = i + 1;
    }
    assert(s@.take(s@.len() as int) =~= s@);
    out
}

// ---------------------------------------------------------------------------------------------
// The files and the block.

/// The file a drop-in profile is written as: Windows Terminal's fragment, whose `commandline`
/// is one string with the path quoted inside it, or iTerm2's dynamic profile, whose `Command`
/// runs through a login shell with the path single-quoted.
pub open spec fn drop_in_text(launcher: Seq<char>, target: ProfileTarget) -> Seq<char> {
    match target {
        ProfileTarget::WindowsTerminal => "{\n  \"$help\": \"Added by Multiplex. Terminals opened with this profile can be reached from your paired devices. Turn it off in Multiplex, or delete this file.\",\n  \"profiles\": [\n    {\n      \"name\": \"Multiplex\",\n      \"commandline\": \""@
            + json_escaped(seq!['"'] + launcher + "\" shell"@) + "\"\n    }\n  ]\n}\n"@,
        ProfileTarget::ITerm2 => "{\n  \"Profiles\": [\n    {\n      \"Name\": \"Multiplex\",\n      \"Guid\": \"6D8F3B51-3F2C-4E47-9C39-5E7A1B0F4D21\",\n      \"Custom Command\": \"Yes\",\n      \"Command\": \""@
            + json_escaped(seq!['\''] + shell_quoted(launcher) + "' shell"@) + "\"\n    }\n  ]\n}\n"@,
        ProfileTarget::VsCode => Seq::empty(),
    }
}

/// `terminal.integrated.profiles.` and the platform's suffix.
pub open spec fn profiles_key(platform: Platform) -> Seq<char> {
    "terminal.integrated.profiles."@ + vscode_key(platform)
}

/// The profile's entry in VS Code's terminal profiles.
pub open spec fn profile_entry(launcher: Seq<char>) -> Seq<char> {
    "\"Multiplex\": { \"path\": \""@ + json_escaped(launcher) + "\", \"args\": [\"shell\"] }"@
}

/// What a person is asked to add by hand when the settings already choose terminal profiles.
pub open spec fn manual_text(platform: Platform, launcher: Seq<char>) -> Seq<char> {
    "Add this entry inside \""@ + profiles_key(platform) + "\" in your VS Code settings:\n"@
        + profile_entry(launcher)
}

pub open spec fn block_start() -> Seq<char> {
    "// >>> multiplex terminal profile >>>"@
}

pub open spec fn block_end() -> Seq<char> {
    "// <<< multiplex terminal profile <<<"@
}

/// Whether, from `rest` on, an object member comes before its closing brace, comments skipped.
pub open spec fn members_follow(rest: Seq<char>) -> bool
    decreases rest.len(),
{
    let r = trim_white(rest);
    if starts_with(r, seq!['/', '/']) {
        let after = r.skip(2);
        match first_occurrence(after, seq!['\n'], 0) {
            Some(i) => if 0 <= i < after.len() && r.len() <= rest.len() {
                members_follow(after.skip(i + 1))
            } else {
                false
            },
            None => false,
        }
    } else if starts_with(r, seq!['/', '*']) {
        let after = r.skip(2);
        match first_occurrence(after, seq!['*', '/'], 0) {
            Some(i) => if 0 <= i && i + 2 <= after.len() && r.len() <= rest.len() {
                members_follow(after.skip(i + 2))
            } else {
                false
            },
            None => false,
        }
    } else {
        r.len() > 0 && r[0] != '}'
    }
}

/// Whether the object in `settings` has any member after its opening brace, skipping comments.
pub open spec fn has_members(settings: Seq<char>) -> bool {
    match first_occurrence(settings, seq!['{'], 0) {
        Some(open) => members_follow(settings.skip(open + 1)),
        None => false,
    }
}

/// The block added to VS Code's settings, with a trailing comma when other settings follow it
/// in `base`.
pub open spec fn vscode_block_text(platform: Platform, launcher: Seq<char>, base: Seq<char>) -> Seq<char> {
    "  "@ + block_start() + block_body(platform, launcher, base) + block_end() + "\n"@
}

/// The comment line that says where the block came from, and the opening of its member.
pub open spec fn block_comment() -> Seq<char> {
    "\n  // Added by Multiplex: a terminal opened with the \"Multiplex\" profile can be reached from your paired devices. Turn it off in Multiplex, or delete these lines.\n  \""@
}

/// What stands between the block's two markers.
pub open spec fn block_body(platform: Platform, launcher: Seq<char>, base: Seq<char>) -> Seq<char> {
    block_comment() + profiles_key(platform) + "\": {\n    "@ + profile_entry(launcher) + "\n  }"@
        + (if has_members(base) { ","@ } else { ""@ }) + "\n  "@
}

/// The block's lines, markers included, as (start, end) in `contents`, when they hold one.
pub open spec fn block_range(contents: Seq<char>) -> Option<(int, int)> {
    match first_occurrence(contents, block_start(), 0) {
        None => None,
        Some(start) => match first_occurrence(contents, block_end(), start) {
            None => None,
            Some(e) => {
                let line_start = match last_before(contents, '\n', start) {
                    Some(i) => i + 1,
                    None => 0,
                };
                let end = e + block_end().len();
                let line_end = match first_occurrence(contents, seq!['\n'], end) {
                    Some(i) => i + 1,
                    None => contents.len() as int,
                };
                Some((line_start, line_end))
            },
        },
    }
}

/// The block's lines, markers included, when the settings hold one.
pub open spec fn find_block(contents: Seq<char>) -> Option<Seq<char>> {
    match block_range(contents) {
        Some((from, to)) => Some(contents.subrange(from, to)),
        None => None,
    }
}

/// `contents` with the first occurrence of `part` taken out.
pub open spec fn without_first(contents: Seq<char>, part: Seq<char>) -> Seq<char> {
    match first_occurrence(contents, part, 0) {
        Some(i) => contents.take(i) + contents.skip(i + part.len()),
        None => contents,
    }
}

/// The settings with the block taken out, or as they are when they hold none.
pub open spec fn without_block(contents: Seq<char>) -> Seq<char> {
    match find_block(contents) {
        Some(block) => without_first(contents, block),
        None => contents,
    }
}

/// The settings already choose terminal profiles for this platform, outside the block.
pub open spec fn vscode_conflicts(platform: Platform, contents: Seq<char>) -> bool {
    first_occurrence(without_block(contents), seq!['"'] + profiles_key(platform) + seq!['"'], 0) is Some
}

/// `block` placed as the first member of the settings object, or a new object holding only it.
pub open spec fn insert_block(settings: Seq<char>, block: Seq<char>) -> Seq<char> {
    match first_occurrence(settings, seq!['{'], 0) {
        Some(open) => {
            let head = settings.take(open + 1);
            let tail = settings.skip(open + 1);
            let tail = if tail.len() > 0 && tail[0] == '\n' { tail.skip(1) } else { tail };
            head + seq!['\n'] + block + tail
        },
        None => "{\n"@ + block + "}\n"@,
    }
}

/// A one-file plan, or an empty one when the file would not change.
pub open spec fn plan_for(path: Seq<char>, before: Option<Seq<char>>, after: Option<Seq<char>>)
    -> Seq<(Seq<char>, Option<Seq<char>>, Option<Seq<char>>)> {
    if before == after {
        Seq::empty()
    } else {
        seq![(path, before, after)]
    }
}

/// The status of `target`'s profile, given whether the terminal is installed and what its
/// profile file holds now.
pub open spec fn status_spec(p: ProfilesView, target: ProfileTarget, installed: bool, current: Option<Seq<char>>) -> StatusView {
    if !installed || profile_path_spec(p, target) is None {
        StatusView::Unavailable
    } else {
        match target {
            ProfileTarget::VsCode => {
                let contents = match current {
                    Some(c) => c,
                    None => Seq::empty(),
                };
                match find_block(contents) {
                    Some(block) => if block == vscode_block_text(p.platform, p.launcher, without_block(contents)) {
                        StatusView::On
                    } else {
                        StatusView::Outdated
                    },
                    None => if vscode_conflicts(p.platform, contents) {
                        StatusView::NeedsManualEdit(manual_text(p.platform, p.launcher))
                    } else {
                        StatusView::Off
                    },
                }
            },
            _ => match current {
                None => StatusView::Off,
                Some(c) => if c == drop_in_text(p.launcher, target) {
                    StatusView::On
                } else {
                    StatusView::Outdated
                },
            },
        }
    }
}

/// The change that adds the profile, given what the file holds before it.
pub open spec fn enable_spec(p: ProfilesView, target: ProfileTarget, installed: bool, before: Option<Seq<char>>)
    -> Seq<(Seq<char>, Option<Seq<char>>, Option<Seq<char>>)> {
    match profile_path_spec(p, target) {
        None => Seq::empty(),
        Some(path) => if !installed {
            Seq::empty()
        } else {
            match target {
                ProfileTarget::VsCode => {
                    let base = without_block(match before {
                        Some(c) => c,
                        None => Seq::empty(),
                    });
                    if vscode_conflicts(p.platform, base) {
                        Seq::empty()
                    } else {
                        plan_for(path, before, Some(insert_block(base, vscode_block_text(p.platform, p.launcher, base))))
                    }
                },
                _ => plan_for(path, before, Some(drop_in_text(p.launcher, target))),
            }
        },
    }
}

/// The change that takes the profile out again, given what the file holds before it.
pub open spec fn disable_spec(p: ProfilesView, target: ProfileTarget, before: Option<Seq<char>>)
    -> Seq<(Seq<char>, Option<Seq<char>>, Option<Seq<char>>)> {
    match profile_path_spec(p, target) {
        None => Seq::empty(),
        Some(path) => match before {
            None => Seq::empty(),
            Some(contents) => match target {
                ProfileTarget::VsCode => if find_block(contents) is None {
                    Seq::empty()
                } else {
                    plan_for(path, before, Some(without_block(contents)))
                },
                _ => plan_for(path, before, None),
            },
        },
    }
}

// ---------------------------------------------------------------------------------------------
// Executable pieces.

fn profiles_key_text(platform: Platform) -> (r: Vec<char>)
    ensures
        r@ == profiles_key(platform),
{
    let mut out: Vec<char> = Vec::new();
    push_str(&mut out, "terminal.integrated.profiles.");
    match platform {
        Platform::Windows => push_str(&mut out, "windows"),
        Platform::MacOs => push_str(&mut out, "osx"),
        Platform::Linux => push_str(&mut out, "linux"),
    }
    out
}

fn profile_entry_text(launcher: &[char]) -> (r: Vec<char>)
    ensures
        r@ == profile_entry(launcher@),
{
    let mut out: Vec<char> = Vec::new();
    push_str(&mut out, "\"Multiplex\": { \"path\": \"");
    let escaped = json_text(launcher);
    push_chars(&mut out, escaped.as_slice());
    push_str(&mut out, "\", \"args\": [\"shell\"] }");
    out
}

fn manual_text_of(platform: Platform, launcher: &[char]) -> (r: Vec<char>)
    ensures
        r@ == manual_text(platform, launcher@),
{
    let mut out: Vec<char> = Vec::new();
    push_str(&mut out, "Add this entry inside \"");
    let key = profiles_key_text(platform);
    push_chars(&mut out, key.as_slice());
    push_str(&mut out, "\" in your VS Code settings:\n");
    let entry = profile_entry_text(launcher);
    push_chars(&mut out, entry.as_slice());
    out
}

fn drop_in_text_of(launcher: &[char], target: ProfileTarget) -> (r: Vec<char>)
    ensures
        r@ == drop_in_text(launcher@, target),
{
    let mut out: Vec<char> = Vec::new();
    match target {
        ProfileTarget::WindowsTerminal => {
            let mut command: Vec<char> = Vec::new();
            command.push('"');
            push_chars(&mut command, launcher);
            push_str(&mut command, "\" shell");
            let escaped = json_text(command.as_slice());
            push_str(&mut out, "{\n  \"$help\": \"Added by Multiplex. Terminals opened with this profile can be reached from your paired devices. Turn it off in Multiplex, or delete this file.\",\n  \"profiles\": [\n    {\n      \"name\": \"Multiplex\",\n      \"commandline\": \"");
            push_chars(&mut out, escaped.as_slice());
            push_str(&mut out, "\"\n    }\n  ]\n}\n");
            assert(command@ =~= seq!['"'] + launcher@ + "\" shell"@);
        },
        ProfileTarget::ITerm2 => {
            let mut command: Vec<char> = Vec::new();
            command.push('\'');
            let quoted = shell_quote(launcher);
            push_chars(&mut command, quoted.as_slice());
            push_str(&mut command, "' shell");
            let escaped = json_text(command.as_slice());
            push_str(&mut out, "{\n  \"Profiles\": [\n    {\n      \"Name\": \"Multiplex\",\n      \"Guid\": \"6D8F3B51-3F2C-4E47-9C39-5E7A1B0F4D21\",\n      \"Custom Command\": \"Yes\",\n      \"Command\": \"");
            push_chars(&mut out, escaped.as_slice());
            push_str(&mut out, "\"\n    }\n  ]\n}\n");
            assert(command@ =~= seq!['\''] + shell_quoted(launcher@) + "' shell"@);
        },
        ProfileTarget::VsCode => {},
    }
    out
}

/// Whether, from `s[from..]` on, an object member comes before the closing brace.
fn members_follow_at(s: &[char], from: usize) -> (r: bool)
    requires
        from <= s@.len(),
    ensures
        r == members_follow(s@.skip(from as int)),
{
    let mut at: usize = from;
    while at <= s.len()
        invariant
            from <= at <= s@.len(),
            members_follow(s@.skip(from as int)) == members_follow(s@.skip(at as int)),
        decreases s@.len() - at,
    {
        let ghost rest = s@.skip(at as int);
        let i = skip_white(s, at);
        let ghost r = s@.skip(i as int);
        proof {
            lemma_white_prefix(rest);
            assert(trim_white(rest) =~= r);
        }
        let line = pair_here(s, '/', '/', i);
        let block = pair_here(s, '/', '*', i);
        proof {
            if i + 2 <= s@.len() {
                assert(r.take(2) =~= s@.subrange(i as int, i + 2));
            }
            assert(line == starts_with(r, seq!['/', '/']));
            assert(block == starts_with(r, seq!['/', '*']));
        }
        if line {
            let found = find_char_from(s, '\n', i + 2);
            proof {
                lemma_shifted_occurrence(s@, seq!['\n'], i + 2);
                lemma_first_occurrence_facts(s@, seq!['\n'], i + 2);
                assert(r.skip(2) =~= s@.skip(i + 2));
            }
            match found {
                Some(k) => {
                    proof {
                        assert(s@.skip(i + 2).skip(k - (i + 2) + 1) =~= s@.skip(k + 1));
                    }
                    at = k + 1;
                },
                None => {
                    return false;
                },
            }
        } else if block {
            let found = find_pair_from(s, '*', '/', i + 2);
            proof {
                lemma_shifted_occurrence(s@, seq!['*', '/'], i + 2);
                lemma_first_occurrence_facts(s@, seq!['*', '/'], i + 2);
                assert(r.skip(2) =~= s@.skip(i + 2));
            }
            match found {
                Some(k) => {
                    proof {
                        assert(s@.skip(i + 2).skip(k - (i + 2) + 2) =~= s@.skip(k + 2));
                    }
                    at = k + 2;
                },
                None => {
                    return false;
                },
            }
        } else {
            proof {
                if i < s@.len() {
                    assert(r[0] == s@[i as int]);
                }
            }
            return i < s.len() && s[i] != '}';
        }
    }
    false
}

/// Where `needle` first occurs in `hay[from..]` is where it first occurs in `hay` at or after
/// `from`, less `from`.
proof fn lemma_shifted_occurrence(hay: Seq<char>, needle: Seq<char>, from: int)
    requires
        0 <= from <= hay.len(),
    ensures
        match first_occurrence(hay, needle, from) {
            Some(k) => first_occurrence(hay.skip(from), needle, 0) == Some(k - from) && from <= k,
            None => first_occurrence(hay.skip(from), needle, 0) is None,
        },
{
    let t = hay.skip(from);
    assert forall|j: int| 0 <= j implies #[trigger] occurs_at(t, needle, j) == occurs_at(hay, needle, j + from) by {
        if j + needle.len() <= t.len() {
            assert(t.subrange(j, j + needle.len()) =~= hay.subrange(j + from, j + from + needle.len()));
        }
    }
    lemma_first_occurrence_facts(hay, needle, from);
    lemma_first_occurrence_facts(t, needle, 0);
    match first_occurrence(hay, needle, from) {
        Some(k) => {
            assert(occurs_at(t, needle, k - from));
            match first_occurrence(t, needle, 0) {
                Some(c) => {
                    if c < k - from {
                        assert(occurs_at(hay, needle, c + from));
                    }
                    if c > k - from {
                        assert(!occurs_at(t, needle, k - from));
                    }
                },
                None => {},
            }
        },
        None => {
            match first_occurrence(t, needle, 0) {
                Some(c) => {
                    assert(occurs_at(hay, needle, c + from));
                },
                None => {},
            }
        },
    }
}

fn has_members_of(settings: &[char]) -> (r: bool)
    ensures
        r == has_members(settings@),
{
    match find_char_from(settings, '{', 0) {
        Some(open) => {
            let _n = settings.len();
            proof {
                lemma_first_occurrence_facts(settings@, seq!['{'], 0);
            }
            members_follow_at(settings, open + 1)
        },
        None => false,
    }
}

fn vscode_block_of(platform: Platform, launcher: &[char], base: &[char]) -> (r: Vec<char>)
    ensures
        r@ == vscode_block_text(platform, launcher@, base@),
{
    let mut out: Vec<char> = Vec::new();
    push_str(&mut out, "  ");
    push_str(&mut out, "// >>> multiplex terminal profile >>>");
    push_str(&mut out, "\n  // Added by Multiplex: a terminal opened with the \"Multiplex\" profile can be reached from your paired devices. Turn it off in Multiplex, or delete these lines.\n  \"");
    let key = profiles_key_text(platform);
    push_chars(&mut out, key.as_slice());
    push_str(&mut out, "\": {\n    ");
    let entry = profile_entry_text(launcher);
    push_chars(&mut out, entry.as_slice());
    push_str(&mut out, "\n  }");
    if has_members_of(base) {
        push_str(&mut out, ",");
    } else {
        push_str(&mut out, "");
    }
    push_str(&mut out, "\n  ");
    push_str(&mut out, "// <<< multiplex terminal profile <<<");
    push_str(&mut out, "\n");
    assert(out@ =~= vscode_block_text(platform, launcher@, base@));
    out
}

fn block_range_of(contents: &[char]) -> (r: Option<(usize, usize)>)
    ensures
        r matches Some((a, b)) ==> block_range(contents@) == Some((a as int, b as int)) && a <= b <= contents@.len(),
        r is None ==> block_range(contents@) is None,
{
    let _n = contents.len();
    let start_marker = chars_of("// >>> multiplex terminal profile >>>");
    let end_marker = chars_of("// <<< multiplex terminal profile <<<");
    let start = match find_from(contents, start_marker.as_slice(), 0) {
        Some(s) => s,
        None => return None,
    };
    let e = match find_from(contents, end_marker.as_slice(), start) {
        Some(e) => e,
        None => return None,
    };
    proof {
        lemma_first_occurrence_facts(contents@, block_start(), 0);
        lemma_first_occurrence_facts(contents@, block_end(), start as int);
    }
    let line_start = match find_last_before(contents, '\n', start) {
        Some(i) => i + 1,
        None => 0,
    };
    let end = e + end_marker.len();
    let line_end = match find_char_from(contents, '\n', end) {
        Some(i) => {
            proof {
                lemma_first_occurrence_facts(contents@, seq!['\n'], end as int);
            }
            i + 1
        },
        None => contents.len(),
    };
    Some((line_start, line_end))
}

fn find_block_of(contents: &[char]) -> (r: Option<Vec<char>>)
    ensures
        r matches Some(b) ==> find_block(contents@) == Some(b@),
        r is None ==> find_block(contents@) is None,
{
    match block_range_of(contents) {
        Some((a, b)) => Some(slice_of(contents, a, b)),
        None => None,
    }
}

fn without_block_of(contents: &[char]) -> (r: Vec<char>)
    ensures
        r@ == without_block(contents@),
{
    match find_block_of(contents) {
        None => {
            let mut out: Vec<char> = Vec::new();
            push_chars(&mut out, contents);
            assert(out@ =~= contents@);
            out
        },
        Some(block) => {
            let mut out: Vec<char> = Vec::new();
            let _n = contents.len();
            match find_from(contents, block.as_slice(), 0) {
                Some(i) => {
                    proof {
                        lemma_first_occurrence_facts(contents@, block@, 0);
                    }
                    push_chars(&mut out, vstd::slice::slice_subrange(contents, 0, i));
                    push_chars(&mut out, vstd::slice::slice_subrange(contents, i + block.len(), contents.len()));
                    assert(out@ =~= contents@.take(i as int) + contents@.skip(i + block@.len()));
                },
                None => {
                    push_chars(&mut out, contents);
                    assert(out@ =~= contents@);
                },
            }
            out
        },
    }
}

fn conflicts_of(platform: Platform, contents: &[char]) -> (r: bool)
    ensures
        r == vscode_conflicts(platform, contents@),
{
    let base = without_block_of(contents);
    let mut needle: Vec<char> = Vec::new();
    needle.push('"');
    let key = profiles_key_text(platform);
    push_chars(&mut needle, key.as_slice());
    needle.push('"');
    assert(needle@ =~= seq!['"'] + profiles_key(platform) + seq!['"']);
    find_from(base.as_slice(), needle.as_slice(), 0).is_some()
}

fn insert_block_of(settings: &[char], block: &[char]) -> (r: Vec<char>)
    ensures
        r@ == insert_block(settings@, block@),
{
    let mut out: Vec<char> = Vec::new();
    let _n = settings.len();
    match find_char_from(settings, '{', 0) {
        Some(open) => {
            proof {
                lemma_first_occurrence_facts(settings@, seq!['{'], 0);
            }
            push_chars(&mut out, vstd::slice::slice_subrange(settings, 0, open + 1));
            out.push('\n');
            push_chars(&mut out, block);
            let from = if open + 1 < settings.len() && settings[open + 1] == '\n' { open + 2 } else { open + 1 };
            push_chars(&mut out, vstd::slice::slice_subrange(settings, from, settings.len()));
            proof {
                let tail = settings@.skip(open + 1);
                if tail.len() > 0 && tail[0] == '\n' {
                    assert(tail.skip(1) =~= settings@.skip(open + 2));
                } else {
                    assert(tail =~= settings@.subrange(open + 1, settings@.len() as int));
                }
                assert(out@ =~= insert_block(settings@, block@));
            }
        },
        None => {
            push_str(&mut out, "{\n");
            push_chars(&mut out, block);
            push_str(&mut out, "}\n");
        },
    }
    out
}

fn text_of(t: &Option<String>) -> (r: Option<Vec<char>>)
    ensures
        r matches Some(c) ==> text_view(*t) == Some(c@),
        r is None ==> t is None,
{
    match t {
        Some(s) => Some(chars_of(s.as_str())),
        None => None,
    }
}

fn plan_of(path: Vec<char>, before: Option<String>, after: Option<Vec<char>>) -> (r: ChangePlan)
    ensures
        r@ == plan_for(path@, text_view(before), match after {
            Some(a) => Some(a@),
            None => None,
        }),
{
    let ghost av: Option<Seq<char>> = match &after {
        Some(a) => Some(a@),
        None => None,
    };
    let same = match (&before, &after) {
        (None, None) => true,
        (Some(b), Some(a)) => {
            let bc = chars_of(b.as_str());
            chars_equal(bc.as_slice(), a.as_slice())
        },
        _ => false,
    };
    if same {
        return ChangePlan::empty();
    }
    let after_text = match after {
        Some(a) => Some(string_of(a.as_slice())),
        None => None,
    };
    let change = FileChange { path: string_of(path.as_slice()), before, after: after_text };
    let mut changes: Vec<FileChange> = Vec::new();
    changes.push(change);
    let r = ChangePlan { changes };
    assert(r@ =~= seq![(path@, text_view(before), av)]);
    r
}

impl TerminalProfiles {
    /// Everything explicit: the platform, the home folder, `%LOCALAPPDATA%` and `%APPDATA%` where
    /// they are set, and the launcher a profile runs.
    pub fn new(
        platform: Platform,
        home: String,
        local_app_data: Option<String>,
        app_data: Option<String>,
        launcher: String,
    ) -> (r: TerminalProfiles)
        ensures
            r@ == (ProfilesView {
                platform,
                home: home@,
                local_app_data: text_view(local_app_data),
                app_data: text_view(app_data),
                launcher: launcher@,
            }),
    {
        TerminalProfiles { platform, home, local_app_data, app_data, launcher }
    }

    /// The file a target's profile lives in, or `None` where the terminal does not exist.
    pub fn profile_path(&self, target: ProfileTarget) -> (r: Option<String>)
        ensures
            text_view(r) == profile_path_spec(self@, target),
    {
        match self.profile_path_chars(target) {
            Some(p) => Some(string_of(p.as_slice())),
            None => None,
        }
    }

    fn profile_path_chars(&self, target: ProfileTarget) -> (r: Option<Vec<char>>)
        ensures
            r matches Some(p) ==> profile_path_spec(self@, target) == Some(p@),
            r is None ==> profile_path_spec(self@, target) is None,
    {
        match (target, self.platform) {
            (ProfileTarget::WindowsTerminal, Platform::Windows) => match &self.local_app_data {
                Some(root) => {
                    let root = chars_of(root.as_str());
                    let a = joined(root.as_slice(), "Microsoft");
                    let b = joined(a.as_slice(), "Windows Terminal");
                    let c = joined(b.as_slice(), "Fragments");
                    let d = joined(c.as_slice(), "Multiplex");
                    Some(joined(d.as_slice(), "multiplex.json"))
                },
                None => None,
            },
            (ProfileTarget::ITerm2, Platform::MacOs) => {
                let home = chars_of(self.home.as_str());
                Some(joined(home.as_slice(), "Library/Application Support/iTerm2/DynamicProfiles/multiplex.json"))
            },
            (ProfileTarget::VsCode, Platform::Windows) => match &self.app_data {
                Some(root) => {
                    let root = chars_of(root.as_str());
                    let a = joined(root.as_slice(), "Code");
                    let b = joined(a.as_slice(), "User");
                    Some(joined(b.as_slice(), "settings.json"))
                },
                None => None,
            },
            (ProfileTarget::VsCode, Platform::MacOs) => {
                let home = chars_of(self.home.as_str());
                Some(joined(home.as_slice(), "Library/Application Support/Code/User/settings.json"))
            },
            (ProfileTarget::VsCode, Platform::Linux) => {
                let home = chars_of(self.home.as_str());
                Some(joined(home.as_slice(), ".config/Code/User/settings.json"))
            },
            _ => None,
        }
    }

    /// The folders any one of which, existing, shows that `target` is installed here; none
    /// where the terminal does not exist on this platform.
    pub fn installed_folders(&self, target: ProfileTarget) -> (r: Vec<String>)
        ensures
            r@.map_values(|f: String| f@) == installed_folders_spec(self@, target),
    {
        let mut out: Vec<String> = Vec::new();
        let ghost want = installed_folders_spec(self@, target);
        if self.profile_path_chars(target).is_none() {
            assert(out@.map_values(|f: String| f@) =~= want);
            return out;
        }
        match target {
            ProfileTarget::WindowsTerminal => match &self.local_app_data {
                Some(root) => {
                    let root = chars_of(root.as_str());
                    let packages = joined(root.as_slice(), "Packages");
                    let store = joined(packages.as_slice(), "Microsoft.WindowsTerminal_8wekyb3d8bbwe");
                    let preview = joined(packages.as_slice(), "Microsoft.WindowsTerminalPreview_8wekyb3d8bbwe");
                    let microsoft = joined(root.as_slice(), "Microsoft");
                    let unpackaged = joined(microsoft.as_slice(), "Windows Terminal");
                    out.push(string_of(store.as_slice()));
                    out.push(string_of(preview.as_slice()));
                    out.push(string_of(unpackaged.as_slice()));
                },
                None => {},
            },
            ProfileTarget::ITerm2 => {
                let home = chars_of(self.home.as_str());
                out.push(string_of(joined(home.as_slice(), "Library/Application Support/iTerm2").as_slice()));
            },
            ProfileTarget::VsCode => match self.platform {
                Platform::Windows => match &self.app_data {
                    Some(root) => {
                        let root = chars_of(root.as_str());
                        let code = joined(root.as_slice(), "Code");
                        out.push(string_of(joined(code.as_slice(), "User").as_slice()));
                    },
                    None => {},
                },
                Platform::MacOs => {
                    let home = chars_of(self.home.as_str());
                    out.push(string_of(joined(home.as_slice(), "Library/Application Support/Code/User").as_slice()));
                },
                Platform::Linux => {
                    let home = chars_of(self.home.as_str());
                    out.push(string_of(joined(home.as_slice(), ".config/Code/User").as_slice()));
                },
            },
        }
        assert(out@.map_values(|f: String| f@) =~= want);
        out
    }

    /// The status of `target`'s profile: `installed` is whether one of `installed_folders`
    /// exists, `current` what the profile file holds now (`None` where there is no file).
    pub fn status(&self, target: ProfileTarget, installed: bool, current: Option<String>) -> (r: ProfileStatus)
        ensures
            r@ == status_spec(self@, target, installed, text_view(current)),
    {
        if !installed || self.profile_path_chars(target).is_none() {
            return ProfileStatus::Unavailable;
        }
        let launcher = chars_of(self.launcher.as_str());
        match target {
            ProfileTarget::VsCode => {
                let contents = match text_of(&current) {
                    Some(c) => c,
                    None => Vec::new(),
                };
                match find_block_of(contents.as_slice()) {
                    Some(block) => {
                        let base = without_block_of(contents.as_slice());
                        let expected = vscode_block_of(self.platform, launcher.as_slice(), base.as_slice());
                        if chars_equal(block.as_slice(), expected.as_slice()) {
                            ProfileStatus::On
                        } else {
                            ProfileStatus::Outdated
                        }
                    },
                    None => {
                        if conflicts_of(self.platform, contents.as_slice()) {
                            let manual = manual_text_of(self.platform, launcher.as_slice());
                            ProfileStatus::NeedsManualEdit { manual: string_of(manual.as_slice()) }
                        } else {
                            ProfileStatus::Off
                        }
                    },
                }
            },
            _ => match text_of(&current) {
                None => ProfileStatus::Off,
                Some(c) => {
                    let expected = drop_in_text_of(launcher.as_slice(), target);
                    if chars_equal(c.as_slice(), expected.as_slice()) {
                        ProfileStatus::On
                    } else {
                        ProfileStatus::Outdated
                    }
                },
            },
        }
    }

    /// The change that adds the profile to `target`, or an empty plan when there is nothing to
    /// do: `installed` as for `status`, `before` what the profile file holds now.
    pub fn enable_plan(&self, target: ProfileTarget, installed: bool, before: Option<String>) -> (r: ChangePlan)
        ensures
            r@ == enable_spec(self@, target, installed, text_view(before)),
    {
        let path = match self.profile_path_chars(target) {
            Some(p) => p,
            None => return ChangePlan::empty(),
        };
        if !installed {
            return ChangePlan::empty();
        }
        let launcher = chars_of(self.launcher.as_str());
        match target {
            ProfileTarget::VsCode => {
                let contents = match text_of(&before) {
                    Some(c) => c,
                    None => Vec::new(),
                };
                let base = without_block_of(contents.as_slice());
                if conflicts_of(self.platform, base.as_slice()) {
                    return ChangePlan::empty();
                }
                let block = vscode_block_of(self.platform, launcher.as_slice(), base.as_slice());
                let after = insert_block_of(base.as_slice(), block.as_slice());
                plan_of(path, before, Some(after))
            },
            _ => {
                let after = drop_in_text_of(launcher.as_slice(), target);
                plan_of(path, before, Some(after))
            },
        }
    }

    /// The change that takes the profile out of `target` again, leaving everything else as it
    /// was: `before` is what the profile file holds now.
    pub fn disable_plan(&self, target: ProfileTarget, before: Option<String>) -> (r: ChangePlan)
        ensures
            r@ == disable_spec(self@, target, text_view(before)),
    {
        let path = match self.profile_path_chars(target) {
            Some(p) => p,
            None => return ChangePlan::empty(),
        };
        let contents = match text_of(&before) {
            Some(c) => c,
            None => return ChangePlan::empty(),
        };
        match target {
            ProfileTarget::VsCode => {
                if find_block_of(contents.as_slice()).is_none() {
                    return ChangePlan::empty();
                }
                let after = without_block_of(contents.as_slice());
                plan_of(path, before, Some(after))
            },
            _ => plan_of(path, before, None),
        }
    }
}

} // verus!
