//! What the VS Code block promises: added to a settings file and taken out again, it leaves the
//! file as it was, character for character, and while it is there the profile reads as on.
use vstd::prelude::*;

use crate::terminal_profiles::{drop_in_text, plan_for, block_body, block_comment, block_end, block_start, disable_spec,
    enable_spec, find_block, insert_block, json_escape, json_escaped, profile_entry,
    profile_path_spec, profiles_key, status_spec, vscode_block_text, vscode_conflicts,
    vscode_key, without_block, ProfileTarget, ProfilesView, StatusView};
use crate::text::{first_occurrence, last_before, lemma_first_occurrence_at,
    lemma_first_occurrence_facts, occurs_at};

verus! {

/// No `<` stands anywhere in `s`.
pub open spec fn free_of_angle(s: Seq<char>) -> bool {
    forall|i: int| 0 <= i < s.len() ==> s[i] != '<'
}

proof fn lemma_escape_free_of_angle(c: char)
    requires
        c != '<',
    ensures
        free_of_angle(json_escape(c)),
{
    let n = c as u32;
    if n < 0x20 && c != '"' && c != '\\' && n != 0x08 && n != 0x09 && n != 0x0a && n != 0x0c
        && n != 0x0d {
        let hi = crate::digest::hex_digit(n as nat / 16);
        let lo = crate::digest::hex_digit(n as nat % 16);
        assert(hi as u32 == 48 + n as nat / 16);
        assert(hi != '<');
        assert(lo != '<');
    }
}

proof fn lemma_escaped_free_of_angle(s: Seq<char>)
    requires
        free_of_angle(s),
    ensures
        free_of_angle(json_escaped(s)),
    decreases s.len(),
{
    if s.len() > 0 {
        assert(free_of_angle(s.drop_last()));
        lemma_escaped_free_of_angle(s.drop_last());
        assert(s.last() == s[s.len() - 1]);
        lemma_escape_free_of_angle(s.last());
    }
}

proof fn lemma_concat_free_of_angle(a: Seq<char>, b: Seq<char>)
    requires
        free_of_angle(a),
        free_of_angle(b),
    ensures
        free_of_angle(a + b),
{
    assert forall|i: int| 0 <= i < (a + b).len() implies (a + b)[i] != '<' by {
        if i >= a.len() {
            assert((a + b)[i] == b[i - a.len()]);
        }
    }
}

/// Between its markers the block holds no `<` unless the launcher's path does, so the first end
/// marker after the start is the block's own.
proof fn lemma_body_free_of_angle(platform: crate::terminal_profiles::Platform, launcher: Seq<char>, base: Seq<char>)
    requires
        free_of_angle(launcher),
    ensures
        free_of_angle(block_body(platform, launcher, base)),
        free_of_angle(block_start()),
{
    reveal_strlit("\n  // Added by Multiplex: a terminal opened with the \"Multiplex\" profile can be reached from your paired devices. Turn it off in Multiplex, or delete these lines.\n  \"");
    reveal_strlit("terminal.integrated.profiles.");
    reveal_strlit("windows");
    reveal_strlit("osx");
    reveal_strlit("linux");
    reveal_strlit("\": {\n    ");
    reveal_strlit("\"Multiplex\": { \"path\": \"");
    reveal_strlit("\", \"args\": [\"shell\"] }");
    reveal_strlit("\n  }");
    reveal_strlit(",");
    reveal_strlit("");
    reveal_strlit("\n  ");
    reveal_strlit("// >>> multiplex terminal profile >>>");
    lemma_escaped_free_of_angle(launcher);
    assert(free_of_angle(block_comment()));
    assert(free_of_angle(vscode_key(platform)));
    assert(free_of_angle("terminal.integrated.profiles."@));
    lemma_concat_free_of_angle("terminal.integrated.profiles."@, vscode_key(platform));
    assert(free_of_angle("\"Multiplex\": { \"path\": \""@));
    assert(free_of_angle("\", \"args\": [\"shell\"] }"@));
    lemma_concat_free_of_angle("\"Multiplex\": { \"path\": \""@, json_escaped(launcher));
    lemma_concat_free_of_angle("\"Multiplex\": { \"path\": \""@ + json_escaped(launcher), "\", \"args\": [\"shell\"] }"@);
    let comma: Seq<char> = if crate::terminal_profiles::has_members(base) { ","@ } else { ""@ };
    assert(free_of_angle(comma));
    assert(free_of_angle("\": {\n    "@));
    assert(free_of_angle("\n  }"@));
    assert(free_of_angle("\n  "@));
    lemma_concat_free_of_angle(block_comment(), profiles_key(platform));
    lemma_concat_free_of_angle(block_comment() + profiles_key(platform), "\": {\n    "@);
    lemma_concat_free_of_angle(block_comment() + profiles_key(platform) + "\": {\n    "@, profile_entry(launcher));
    lemma_concat_free_of_angle(block_comment() + profiles_key(platform) + "\": {\n    "@ + profile_entry(launcher), "\n  }"@);
    lemma_concat_free_of_angle(block_comment() + profiles_key(platform) + "\": {\n    "@ + profile_entry(launcher) + "\n  }"@, comma);
    lemma_concat_free_of_angle(block_comment() + profiles_key(platform) + "\": {\n    "@ + profile_entry(launcher) + "\n  }"@ + comma, "\n  "@);
    assert(free_of_angle(block_start()));
}

/// The settings' first `{` exists and ends its line.
pub open spec fn opens_on_its_own_line(settings: Seq<char>) -> bool {
    match first_occurrence(settings, seq!['{'], 0) {
        Some(open) => open + 1 < settings.len() && settings[open + 1] == '\n',
        None => false,
    }
}

/// A block with `body` between its markers, as the settings hold it.
spec fn marked(body: Seq<char>) -> Seq<char> {
    "  "@ + block_start() + body + block_end() + "\n"@
}

proof fn lemma_marker_chars()
    ensures
        block_start().len() == 37,
        block_end().len() == 37,
        block_start()[0] == '/',
        block_end()[0] == '/',
        block_end()[1] == '/',
        block_end()[2] == ' ',
        block_end()[3] == '<',
        forall|k: int| 0 <= k < 37 ==> block_start()[k] != '{',
        "  "@ == seq![' ', ' '],
        "\n"@ == seq!['\n'],
{
    reveal_strlit("// >>> multiplex terminal profile >>>");
    reveal_strlit("// <<< multiplex terminal profile <<<");
    reveal_strlit("  ");
    reveal_strlit("\n");
}

/// In `settings` with `block` inserted after the first `{`, no start marker stands before the
/// block's own.
proof fn lemma_no_earlier_start(settings: Seq<char>, open: int, block: Seq<char>, p: int)
    requires
        first_occurrence(settings, seq!['{'], 0) == Some(open),
        first_occurrence(settings, block_start(), 0) is None,
        open + 1 < settings.len(),
        settings[open + 1] == '\n',
        block.len() >= 2,
        block[0] == ' ',
        block[1] == ' ',
        p < open + 4,
    ensures
        !occurs_at(insert_block(settings, block), block_start(), p),
{
    lemma_marker_chars();
    lemma_first_occurrence_facts(settings, seq!['{'], 0);
    lemma_first_occurrence_facts(settings, block_start(), 0);
    let new = insert_block(settings, block);
    let head = settings.take(open + 1);
    let tail = settings.skip(open + 1).skip(1);
    assert(new == head + seq!['\n'] + block + tail);
    assert(settings.subrange(open, open + 1) == seq!['{']);
    assert(settings.subrange(open, open + 1)[0] == settings[open]);
    assert(settings[open] == '{');
    if occurs_at(new, block_start(), p) {
        let sl = block_start().len() as int;
        assert(new.subrange(p, p + sl) == block_start());
        if p + sl <= open + 1 {
            assert(new.subrange(p, p + sl) =~= settings.subrange(p, p + sl));
            assert(occurs_at(settings, block_start(), p));
        } else if p <= open {
            assert(new[open] == '{');
            assert(new.subrange(p, p + sl)[open - p] == new[open]);
            assert(block_start()[open - p] != '{');
        } else {
            assert(new.subrange(p, p + sl)[0] == new[p]);
            if p == open + 1 {
                assert(new[p] == '\n');
            } else {
                assert(new[p] == block[p - open - 2]);
            }
        }
    }
}

/// What the settings look like with `block` inserted after their first `{`.
proof fn lemma_inserted_layout(settings: Seq<char>, open: int, block: Seq<char>)
    requires
        first_occurrence(settings, seq!['{'], 0) == Some(open),
        open + 1 < settings.len(),
        settings[open + 1] == '\n',
    ensures
        0 <= open,
        settings[open] == '{',
        insert_block(settings, block) == settings.take(open + 1) + seq!['\n'] + block + settings.skip(open + 2),
        insert_block(settings, block).len() == settings.len() + block.len(),
        insert_block(settings, block).subrange(open + 2, open + 2 + block.len()) == block,
        insert_block(settings, block)[open + 1] == '\n',
        insert_block(settings, block).take(open + 2) + insert_block(settings, block).skip(open + 2 + block.len()) == settings,
{
    lemma_first_occurrence_facts(settings, seq!['{'], 0);
    assert(settings.subrange(open, open + 1)[0] == settings[open]);
    let new = insert_block(settings, block);
    let tail = settings.skip(open + 1).skip(1);
    assert(tail =~= settings.skip(open + 2));
    assert(new =~= settings.take(open + 1) + seq!['\n'] + block + settings.skip(open + 2));
    assert(new.take(open + 2) + new.skip(open + 2 + block.len()) =~= settings);
    assert(new.subrange(open + 2, open + 2 + block.len()) =~= block);
}

/// The start marker found first is the block's own.
proof fn lemma_start_found(settings: Seq<char>, open: int, body: Seq<char>)
    requires
        first_occurrence(settings, seq!['{'], 0) == Some(open),
        first_occurrence(settings, block_start(), 0) is None,
        open + 1 < settings.len(),
        settings[open + 1] == '\n',
    ensures
        first_occurrence(insert_block(settings, marked(body)), block_start(), 0) == Some(open + 4),
{
    lemma_marker_chars();
    let block = marked(body);
    lemma_inserted_layout(settings, open, block);
    let new = insert_block(settings, block);
    assert(block.subrange(2, 39) =~= block_start());
    assert(new.subrange(open + 4, open + 41) =~= block.subrange(2, 39));
    assert(block[0] == ' ' && block[1] == ' ');
    assert forall|j: int| 0 <= j < open + 4 implies !#[trigger] occurs_at(new, block_start(), j) by {
        lemma_no_earlier_start(settings, open, block, j);
    }
    lemma_first_occurrence_at(new, block_start(), 0, open + 4);
}

/// No end marker starts at `j`, inside the block before its own end marker: one would need a
/// `<` where the block has none.
proof fn lemma_no_end_at(new: Seq<char>, open: int, body: Seq<char>, j: int)
    requires
        0 <= open,
        open + 2 + marked(body).len() <= new.len(),
        new.subrange(open + 2, open + 2 + marked(body).len()) == marked(body),
        free_of_angle(block_start() + body),
        open + 4 <= j < open + 41 + body.len(),
    ensures
        !occurs_at(new, block_end(), j),
{
    lemma_marker_chars();
    let block = marked(body);
    let inner = block_start() + body;
    let e = open + 41 + body.len();
    if occurs_at(new, block_end(), j) {
        assert(new.subrange(j, j + 37)[3] == new[j + 3]);
        assert(new.subrange(open + 2, open + 2 + block.len())[j + 1 - open] == new[j + 3]);
        if j + 3 < e {
            assert(block[j + 1 - open] == inner[j - 1 - open]);
        } else {
            assert(block[j + 1 - open] == block_end()[j + 3 - e]);
        }
    }
}

/// The end marker found first after the start is the block's own.
proof fn lemma_end_found(settings: Seq<char>, open: int, body: Seq<char>)
    requires
        first_occurrence(settings, seq!['{'], 0) == Some(open),
        open + 1 < settings.len(),
        settings[open + 1] == '\n',
        free_of_angle(block_start()),
        free_of_angle(body),
    ensures
        first_occurrence(insert_block(settings, marked(body)), block_end(), open + 4)
            == Some(open + 41 + body.len()),
{
    lemma_marker_chars();
    let block = marked(body);
    lemma_inserted_layout(settings, open, block);
    let new = insert_block(settings, block);
    let e = open + 41 + body.len();
    lemma_concat_free_of_angle(block_start(), body);
    assert(block.subrange(39 + body.len() as int, 76 + body.len() as int) =~= block_end());
    assert(new.subrange(e, e + 37) =~= new.subrange(open + 2, open + 2 + block.len()).subrange(
        39 + body.len() as int, 76 + body.len() as int));
    assert forall|j: int| open + 4 <= j < e implies !#[trigger] occurs_at(new, block_end(), j) by {
        lemma_no_end_at(new, open, body, j);
    }
    lemma_first_occurrence_at(new, block_end(), open + 4, e);
}

/// Inserted after the settings' first `{`, a marked block is the one found there, and taking it
/// out gives the settings back.
proof fn lemma_marked_block_found(settings: Seq<char>, open: int, body: Seq<char>)
    requires
        first_occurrence(settings, seq!['{'], 0) == Some(open),
        first_occurrence(settings, block_start(), 0) is None,
        open + 1 < settings.len(),
        settings[open + 1] == '\n',
        free_of_angle(block_start()),
        free_of_angle(body),
    ensures
        find_block(insert_block(settings, marked(body))) == Some(marked(body)),
        without_block(insert_block(settings, marked(body))) == settings,
{
    lemma_marker_chars();
    let block = marked(body);
    lemma_inserted_layout(settings, open, block);
    lemma_start_found(settings, open, body);
    lemma_end_found(settings, open, body);
    let new = insert_block(settings, block);
    let bl = block.len() as int;
    let nl = open + 78 + body.len();
    assert(bl == 77 + body.len());
    assert(new[open + 2] == block[0]);
    assert(new[open + 3] == block[1]);
    assert(last_before(new, '\n', open + 2) == Some(open + 1));
    assert(last_before(new, '\n', open + 3) == Some(open + 1));
    assert(last_before(new, '\n', open + 4) == Some(open + 1));
    assert(new[nl] == block[bl - 1]);
    assert(new.subrange(nl, nl + 1) =~= seq!['\n']);
    lemma_first_occurrence_at(new, seq!['\n'], nl, nl);
    assert(new.subrange(open + 2, nl + 1) =~= block);
    assert(find_block(new) == Some(block));
    assert forall|q: int| 0 <= q < open + 2 implies !#[trigger] occurs_at(new, block, q) by {
        if occurs_at(new, block, q) {
            assert(new.subrange(q + 2, q + 39) =~= new.subrange(q, q + bl).subrange(2, 39));
            assert(block.subrange(2, 39) =~= block_start());
            lemma_no_earlier_start(settings, open, block, q + 2);
        }
    }
    lemma_first_occurrence_at(new, block, 0, open + 2);
}

/// Turning the VS Code profile on adds one marked block to the settings, the profile then reads
/// as on, turning it on a second time changes nothing, and turning it off again writes back the
/// settings exactly as they were. This holds of settings whose first `{` ends its line, that hold
/// no block marker and choose no terminal profiles of their own, and of a launcher path without
/// `<`. Each condition is needed: the block is inserted on a line of its own after the first `{`,
/// so settings such as `{}` come back as `{` and `}` on two lines; the block is found by its
/// markers, so a marker already in the settings, or an end marker inside the launcher path, makes
/// another stretch of text the block; and settings that choose their own profiles get no block at
/// all. A path without `<` cannot hold the end marker, whose fourth character is `<`.
pub proof fn vscode_block_comes_out_as_it_went_in(p: ProfilesView, settings: Seq<char>)
    requires
        profile_path_spec(p, ProfileTarget::VsCode) is Some,
        first_occurrence(settings, block_start(), 0) is None,
        !vscode_conflicts(p.platform, settings),
        opens_on_its_own_line(settings),
        free_of_angle(p.launcher),
    ensures
        ({
            let path = profile_path_spec(p, ProfileTarget::VsCode)->0;
            let written = insert_block(settings, vscode_block_text(p.platform, p.launcher, settings));
            &&& status_spec(p, ProfileTarget::VsCode, true, Some(settings)) == StatusView::Off
            &&& enable_spec(p, ProfileTarget::VsCode, true, Some(settings))
                == seq![(path, Some(settings), Some(written))]
            &&& status_spec(p, ProfileTarget::VsCode, true, Some(written)) == StatusView::On
            &&& enable_spec(p, ProfileTarget::VsCode, true, Some(written)).len() == 0
            &&& disable_spec(p, ProfileTarget::VsCode, Some(written))
                == seq![(path, Some(written), Some(settings))]
        }),
{
    let open = first_occurrence(settings, seq!['{'], 0)->0;
    let body = block_body(p.platform, p.launcher, settings);
    lemma_body_free_of_angle(p.platform, p.launcher, settings);
    assert(vscode_block_text(p.platform, p.launcher, settings) == marked(body));
    lemma_marked_block_found(settings, open, body);
    lemma_inserted_layout(settings, open, marked(body));
    assert(find_block(settings) is None);
    assert(without_block(settings) == settings);
    let written = insert_block(settings, marked(body));
    lemma_marker_chars();
    assert(marked(body).len() > 0);
    assert(written.len() > settings.len());
    assert(written != settings);
}

/// A Windows Terminal fragment or an iTerm2 dynamic profile is a file of its own: turning the
/// profile on writes it (nothing, when it is there already), it then reads as on, turning it on a
/// second time changes nothing, and turning it off removes the file, after which the profile reads
/// as off.
pub proof fn a_drop_in_profile_comes_and_goes(p: ProfilesView, target: ProfileTarget, before: Option<Seq<char>>)
    requires
        target != ProfileTarget::VsCode,
        profile_path_spec(p, target) is Some,
    ensures
        ({
            let path = profile_path_spec(p, target)->0;
            let written = drop_in_text(p.launcher, target);
            &&& enable_spec(p, target, true, before) == plan_for(path, before, Some(written))
            &&& status_spec(p, target, true, Some(written)) == StatusView::On
            &&& enable_spec(p, target, true, Some(written)).len() == 0
            &&& disable_spec(p, target, Some(written)) == seq![(path, Some(written), None::<Seq<char>>)]
            &&& status_spec(p, target, true, None) == StatusView::Off
        }),
{
}

/// A terminal that is not installed, or has no place for the profile on this machine, is offered
/// nothing: it reads as unavailable, and turning the profile on changes no file.
pub proof fn a_missing_terminal_is_offered_nothing(p: ProfilesView, target: ProfileTarget, current: Option<Seq<char>>)
    ensures
        status_spec(p, target, false, current) == StatusView::Unavailable,
        enable_spec(p, target, false, current).len() == 0,
        profile_path_spec(p, target) is None ==> status_spec(p, target, true, current) == StatusView::Unavailable
            && enable_spec(p, target, true, current).len() == 0
            && disable_spec(p, target, current).len() == 0,
{
}

/// No line break stands anywhere in `s`.
spec fn one_line(s: Seq<char>) -> bool {
    forall|i: int| 0 <= i < s.len() ==> s[i] != '\n'
}

proof fn lemma_markers_and_key_one_line(platform: crate::terminal_profiles::Platform)
    ensures
        one_line(block_start()),
        one_line(seq!['"'] + profiles_key(platform) + seq!['"']),
        seq!['"'] + profiles_key(platform) + seq!['"'] == seq!['"'] + "terminal.integrated.profiles."@
            + vscode_key(platform) + seq!['"'],
        (seq!['"'] + profiles_key(platform) + seq!['"']).len() > 4,
{
    reveal_strlit("// >>> multiplex terminal profile >>>");
    reveal_strlit("terminal.integrated.profiles.");
    reveal_strlit("windows");
    reveal_strlit("osx");
    reveal_strlit("linux");
    let key = seq!['"'] + profiles_key(platform) + seq!['"'];
    let k = vscode_key(platform);
    assert forall|i: int| 0 <= i < key.len() implies key[i] != '\n' by {
        if 1 <= i < 30 {
            assert(key[i] == "terminal.integrated.profiles."@[i - 1]);
        } else if 30 <= i < key.len() - 1 {
            assert(key[i] == k[i - 30]);
        }
    }
}

/// `s` with a line break put in at `k`.
spec fn with_break(s: Seq<char>, k: int) -> Seq<char> {
    s.take(k) + seq!['\n'] + s.skip(k)
}

/// A one-line text found in `s` with a line break put in was in `s` already, on one side of it.
proof fn lemma_found_beside_break(s: Seq<char>, k: int, pat: Seq<char>, p: int)
    requires
        0 <= k <= s.len(),
        one_line(pat),
        occurs_at(with_break(s, k), pat, p),
    ensures
        occurs_at(s, pat, p) || occurs_at(s, pat, p - 1),
        p < k ==> occurs_at(s, pat, p),
{
    let t = with_break(s, k);
    let n = pat.len() as int;
    assert(t.subrange(p, p + n) == pat);
    if p + n <= k {
        assert(s.subrange(p, p + n) =~= t.subrange(p, p + n));
    } else if p > k {
        assert(s.subrange(p - 1, p - 1 + n) =~= t.subrange(p, p + n));
    } else {
        assert(t[k] == '\n');
        assert(pat[k - p] == t.subrange(p, p + n)[k - p]);
    }
}

/// A one-line text absent from `s` stays absent with a line break put in.
proof fn lemma_still_absent(s: Seq<char>, k: int, pat: Seq<char>)
    requires
        0 <= k <= s.len(),
        one_line(pat),
        first_occurrence(s, pat, 0) is None,
    ensures
        first_occurrence(with_break(s, k), pat, 0) is None,
{
    lemma_first_occurrence_facts(s, pat, 0);
    lemma_first_occurrence_facts(with_break(s, k), pat, 0);
    if let Some(p) = first_occurrence(with_break(s, k), pat, 0) {
        lemma_found_beside_break(s, k, pat, p);
        assert(!occurs_at(s, pat, p));
        assert(!occurs_at(s, pat, p - 1)) by {
            if p - 1 < 0 {
            }
        }
    }
}

/// Whether an object member follows depends only on what follows the white space.
proof fn lemma_members_follow_break(rest: Seq<char>)
    ensures
        crate::terminal_profiles::members_follow(seq!['\n'] + rest) == crate::terminal_profiles::members_follow(rest),
{
    let r2 = seq!['\n'] + rest;
    assert(crate::text::is_white('\n'));
    assert(r2.drop_first() =~= rest);
    assert(crate::text::white_prefix(r2) == 1 + crate::text::white_prefix(rest));
    crate::text::lemma_white_prefix(rest);
    assert(crate::text::trim_white(r2) =~= crate::text::trim_white(rest));
}

/// The settings as the block is inserted into them: with a line break after their first `{`,
/// or an empty object when they have none.
spec fn opened(settings: Seq<char>) -> Seq<char> {
    match first_occurrence(settings, seq!['{'], 0) {
        Some(open) => if open + 1 < settings.len() && settings[open + 1] == '\n' {
            settings
        } else {
            with_break(settings, open + 1)
        },
        None => seq!['{', '\n', '}', '\n'],
    }
}

/// The settings as the block is inserted into them hold no more start markers or profile choices
/// than the settings, open on their own line, take the block in the same way, and give it the
/// same text.
proof fn lemma_opened(p: ProfilesView, settings: Seq<char>, block: Seq<char>)
    requires
        first_occurrence(settings, block_start(), 0) is None,
        !vscode_conflicts(p.platform, settings),
    ensures
        first_occurrence(opened(settings), block_start(), 0) is None,
        !vscode_conflicts(p.platform, opened(settings)),
        opens_on_its_own_line(opened(settings)),
        insert_block(opened(settings), block) == insert_block(settings, block),
        vscode_block_text(p.platform, p.launcher, opened(settings)) == vscode_block_text(p.platform, p.launcher, settings),
{
    let o = opened(settings);
    let key = seq!['"'] + profiles_key(p.platform) + seq!['"'];
    lemma_markers_and_key_one_line(p.platform);
    lemma_marker_chars();
    lemma_first_occurrence_facts(settings, seq!['{'], 0);
    lemma_first_occurrence_facts(settings, block_start(), 0);
    assert(find_block(settings) is None);
    assert(without_block(settings) == settings);
    match first_occurrence(settings, seq!['{'], 0) {
        Some(open) => {
            assert(settings.subrange(open, open + 1)[0] == settings[open]);
            if !(open + 1 < settings.len() && settings[open + 1] == '\n') {
                let k = open + 1;
                assert(one_line(seq!['{'])) by {
                    assert(seq!['{'][0] == '{');
                }
                lemma_still_absent(settings, k, block_start());
                lemma_still_absent(settings, k, key);
                lemma_first_occurrence_facts(o, block_start(), 0);
                assert(find_block(o) is None);
                assert(without_block(o) == o);
                assert(o.subrange(open, open + 1) =~= settings.subrange(open, open + 1));
                assert forall|j: int| 0 <= j < open implies !#[trigger] occurs_at(o, seq!['{'], j) by {
                    if occurs_at(o, seq!['{'], j) {
                        lemma_found_beside_break(settings, k, seq!['{'], j);
                    }
                }
                lemma_first_occurrence_at(o, seq!['{'], 0, open);
                assert(o[open + 1] == '\n');
                assert(o.take(open + 1) =~= settings.take(open + 1));
                assert(o.skip(open + 1).skip(1) =~= settings.skip(open + 1));
                let tail = settings.skip(open + 1);
                assert(!(tail.len() > 0 && tail[0] == '\n'));
                assert(o.skip(open + 1) =~= seq!['\n'] + tail);
                lemma_members_follow_break(tail);
            }
        },
        None => {
            assert(o == seq!['{', '\n', '}', '\n']);
            assert(occurs_at(o, seq!['{'], 0)) by {
                assert(o.subrange(0, 1) =~= seq!['{']);
            }
            lemma_first_occurrence_at(o, seq!['{'], 0, 0);
            assert forall|j: int| 0 <= j implies !#[trigger] occurs_at(o, block_start(), j) by {}
            assert forall|j: int| 0 <= j implies !#[trigger] occurs_at(o, key, j) by {}
            lemma_first_occurrence_facts(o, block_start(), 0);
            lemma_first_occurrence_facts(o, key, 0);
            assert(find_block(o) is None);
            assert(without_block(o) == o);
            reveal_strlit("{\n");
            reveal_strlit("}\n");
            assert(insert_block(o, block) =~= insert_block(settings, block));
            let rest = o.skip(1);
            assert(rest =~= seq!['\n'] + seq!['}', '\n']);
            lemma_members_follow_break(seq!['}', '\n']);
            assert(crate::text::white_prefix(seq!['}', '\n']) == 0);
            assert(crate::text::trim_white(seq!['}', '\n']) =~= seq!['}', '\n']);
            assert(!crate::terminal_profiles::has_members(o));
        },
    }
}

/// Turning the VS Code profile on, in any settings that choose no terminal profiles of their own
/// and hold no block marker besides the one block they may already have, writes the block after
/// the first `{` of the settings without their old block (in a new object when there is no `{`);
/// the profile then reads as on, and turning it on a second time changes nothing. This holds for
/// a launcher path without `<`, which cannot hold the end marker: with an end marker inside the
/// launcher path the block would be found to end early and the profile would read as outdated.
pub proof fn vscode_profile_reads_as_on_once_enabled(p: ProfilesView, settings: Seq<char>)
    requires
        profile_path_spec(p, ProfileTarget::VsCode) is Some,
        first_occurrence(without_block(settings), block_start(), 0) is None,
        !vscode_conflicts(p.platform, settings),
        free_of_angle(p.launcher),
    ensures
        ({
            let path = profile_path_spec(p, ProfileTarget::VsCode)->0;
            let base = without_block(settings);
            let written = insert_block(base, vscode_block_text(p.platform, p.launcher, base));
            &&& enable_spec(p, ProfileTarget::VsCode, true, Some(settings))
                == plan_for(path, Some(settings), Some(written))
            &&& status_spec(p, ProfileTarget::VsCode, true, Some(written)) == StatusView::On
            &&& enable_spec(p, ProfileTarget::VsCode, true, Some(written)).len() == 0
        }),
{
    let base = without_block(settings);
    lemma_first_occurrence_facts(base, block_start(), 0);
    assert(find_block(base) is None);
    assert(without_block(base) == base);
    assert(!vscode_conflicts(p.platform, base));
    let text = vscode_block_text(p.platform, p.launcher, base);
    lemma_opened(p, base, text);
    vscode_block_comes_out_as_it_went_in(p, opened(base));
}

} // verus!
