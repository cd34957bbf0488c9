//! The icons the desktop app draws, by the paths the interface asks for them under.
//!
//! The app embeds one SVG file per path; which path is served, and which are listed under a
//! folder, is decided here.
use vstd::prelude::*;

use crate::text::{chars_of, occurs_at, occurs_here};

verus! {

/// Every icon path, in the order the app embeds them.
pub open spec fn icon_paths() -> Seq<Seq<char>> {
    seq![
        "icons/status/diamond.svg"@,
        "icons/status/dashed-circle.svg"@,
        "icons/status/filled-circle.svg"@,
        "icons/status/hollow-circle.svg"@,
        "icons/status/hollow-diamond.svg"@,
        "icons/status/hollow-square.svg"@,
        "icons/status/octagon.svg"@,
        "icons/status/ring-spinner.svg"@,
        "icons/arrow-down.svg"@,
        "icons/arrow-left.svg"@,
        "icons/arrow-right.svg"@,
        "icons/arrow-up.svg"@,
        "icons/book-open.svg"@,
        "icons/calendar.svg"@,
        "icons/check.svg"@,
        "icons/chevron-down.svg"@,
        "icons/chevron-left.svg"@,
        "icons/chevron-right.svg"@,
        "icons/chevron-up.svg"@,
        "icons/circle-check.svg"@,
        "icons/close.svg"@,
        "icons/copy.svg"@,
        "icons/delete.svg"@,
        "icons/ellipsis.svg"@,
        "icons/folder.svg"@,
        "icons/folder-open.svg"@,
        "icons/globe.svg"@,
        "icons/grid.svg"@,
        "icons/info.svg"@,
        "icons/key.svg"@,
        "icons/keyboard.svg"@,
        "icons/magnifying-glass.svg"@,
        "icons/maximize.svg"@,
        "icons/minimize.svg"@,
        "icons/notebook.svg"@,
        "icons/palette.svg"@,
        "icons/panel-bottom.svg"@,
        "icons/panel-collapse-right.svg"@,
        "icons/pencil.svg"@,
        "icons/panel-right.svg"@,
        "icons/plus.svg"@,
        "icons/redo.svg"@,
        "icons/redo-2.svg"@,
        "icons/search.svg"@,
        "icons/settings.svg"@,
        "icons/tag.svg"@,
        "icons/shield-check.svg"@,
        "icons/square-terminal.svg"@,
        "icons/terminal-window.svg"@,
        "icons/trash.svg"@,
        "icons/triangle-alert.svg"@,
        "icons/user.svg"@,
        "icons/vault.svg"@,
        "icons/x.svg"@,
        "icons/a-large-small.svg"@,
        "icons/bell.svg"@,
        "icons/bot.svg"@,
        "icons/building-2.svg"@,
        "icons/circle-x.svg"@,
        "icons/external-link.svg"@,
        "icons/eye.svg"@,
        "icons/file.svg"@,
        "icons/folder-closed.svg"@,
        "icons/frame.svg"@,
        "icons/github.svg"@,
        "icons/house.svg"@,
        "icons/inbox.svg"@,
        "icons/inspector.svg"@,
        "icons/layout-dashboard.svg"@,
        "icons/loader-circle.svg"@,
        "icons/magnet.svg"@,
        "icons/map.svg"@,
        "icons/menu.svg"@,
        "icons/minus.svg"@,
        "icons/panel-left.svg"@,
        "icons/panel-left-close.svg"@,
        "icons/panel-left-open.svg"@,
        "icons/panel-right-close.svg"@,
        "icons/panel-right-open.svg"@,
        "icons/replace.svg"@,
        "icons/resize-corner.svg"@,
        "icons/sort-ascending.svg"@,
        "icons/sort-descending.svg"@,
        "icons/star.svg"@,
        "icons/undo.svg"@,
        "icons/undo-2.svg"@
    ]
}

/// Every icon path, in the order the app embeds them.
pub fn icon_path_list() -> (r: Vec<&'static str>)
    ensures
        r@.map_values(|p: &str| p@) == icon_paths(),
{
    let r: Vec<&'static str> = vec![
        "icons/status/diamond.svg",
        "icons/status/dashed-circle.svg",
        "icons/status/filled-circle.svg",
        "icons/status/hollow-circle.svg",
        "icons/status/hollow-diamond.svg",
        "icons/status/hollow-square.svg",
        "icons/status/octagon.svg",
        "icons/status/ring-spinner.svg",
        "icons/arrow-down.svg",
        "icons/arrow-left.svg",
        "icons/arrow-right.svg",
        "icons/arrow-up.svg",
        "icons/book-open.svg",
        "icons/calendar.svg",
        "icons/check.svg",
        "icons/chevron-down.svg",
        "icons/chevron-left.svg",
        "icons/chevron-right.svg",
        "icons/chevron-up.svg",
        "icons/circle-check.svg",
        "icons/close.svg",
        "icons/copy.svg",
        "icons/delete.svg",
        "icons/ellipsis.svg",
        "icons/folder.svg",
        "icons/folder-open.svg",
        "icons/globe.svg",
        "icons/grid.svg",
        "icons/info.svg",
        "icons/key.svg",
        "icons/keyboard.svg",
        "icons/magnifying-glass.svg",
        "icons/maximize.svg",
        "icons/minimize.svg",
        "icons/notebook.svg",
        "icons/palette.svg",
        "icons/panel-bottom.svg",
        "icons/panel-collapse-right.svg",
        "icons/pencil.svg",
        "icons/panel-right.svg",
        "icons/plus.svg",
        "icons/redo.svg",
        "icons/redo-2.svg",
        "icons/search.svg",
        "icons/settings.svg",
        "icons/tag.svg",
        "icons/shield-check.svg",
        "icons/square-terminal.svg",
        "icons/terminal-window.svg",
        "icons/trash.svg",
        "icons/triangle-alert.svg",
        "icons/user.svg",
        "icons/vault.svg",
        "icons/x.svg",
        "icons/a-large-small.svg",
        "icons/bell.svg",
        "icons/bot.svg",
        "icons/building-2.svg",
        "icons/circle-x.svg",
        "icons/external-link.svg",
        "icons/eye.svg",
        "icons/file.svg",
        "icons/folder-closed.svg",
        "icons/frame.svg",
        "icons/github.svg",
        "icons/house.svg",
        "icons/inbox.svg",
        "icons/inspector.svg",
        "icons/layout-dashboard.svg",
        "icons/loader-circle.svg",
        "icons/magnet.svg",
        "icons/map.svg",
        "icons/menu.svg",
        "icons/minus.svg",
        "icons/panel-left.svg",
        "icons/panel-left-close.svg",
        "icons/panel-left-open.svg",
        "icons/panel-right-close.svg",
        "icons/panel-right-open.svg",
        "icons/replace.svg",
        "icons/resize-corner.svg",
        "icons/sort-ascending.svg",
        "icons/sort-descending.svg",
        "icons/star.svg",
        "icons/undo.svg",
        "icons/undo-2.svg"
    ];
    assert(r@.map_values(|p: &str| p@) =~= icon_paths());
    r
}

/// The first place `path` stands in `paths`.
pub open spec fn position_in(paths: Seq<Seq<char>>, path: Seq<char>) -> Option<int>
    decreases paths.len(),
{
    if paths.len() == 0 {
        None
    } else {
        match position_in(paths.drop_last(), path) {
            Some(i) => Some(i),
            None => if paths.last() == path { Some(paths.len() - 1) } else { None },
        }
    }
}

/// The paths listed under `folder`: all of them for an empty folder, else those that begin with it.
pub open spec fn listed_under(paths: Seq<Seq<char>>, folder: Seq<char>) -> Seq<Seq<char>>
    decreases paths.len(),
{
    if paths.len() == 0 {
        Seq::empty()
    } else {
        let earlier = listed_under(paths.drop_last(), folder);
        if folder.len() == 0 || occurs_at(paths.last(), folder, 0) {
            earlier.push(paths.last())
        } else {
            earlier
        }
    }
}

/// The app's embedded icons.
#[derive(Clone, Copy, Debug)]
pub struct Assets;

impl Assets {
    /// Which embedded icon `path` names, by its place among `icon_paths()`; `None` when the app
    /// embeds no icon by that path.
    pub fn load(&self, path: &str) -> (r: Option<usize>)
        ensures
            match r {
                Some(i) => position_in(icon_paths(), path@) == Some(i as int),
                None => position_in(icon_paths(), path@) is None,
            },
    {
        let all = icon_path_list();
        let ghost view = all@.map_values(|p: &str| p@);
        let wanted = chars_of(path);
        let mut i: usize = 0;
        while i < all.len()
            invariant
                i <= all@.len(),
                view == all@.map_values(|p: &str| p@),
                view == icon_paths(),
                wanted@ == path@,
                position_in(view.take(i as int), path@) is None,
            decreases all@.len() - i,
        {
            let candidate = chars_of(all[i]);
            let same = candidate.len() == wanted.len() && occurs_here(candidate.as_slice(), wanted.as_slice(), 0);
            proof {
                assert(view.take(i + 1).drop_last() =~= view.take(i as int));
                assert(view.take(i + 1).last() == all@[i as int]@);
                if same {
                    assert(candidate@.subrange(0, wanted@.len() as int) =~= candidate@);
                } else if candidate@ == wanted@ {
                    assert(candidate@.subrange(0, wanted@.len() as int) =~= candidate@);
                }
            }
            if same {
                proof {
                    lemma_position_prefix(view, path@, i + 1);
                }
                return Some(i);
            }
            i = i + 1;
        }
        proof {
            assert(view.take(all@.len() as int) =~= view);
        }
        None
    }

    /// The icon paths under `folder`, in order; every one for an empty folder.
    pub fn list(&self, folder: &str) -> (r: Vec<String>)
        ensures
            r@.map_values(|p: String| p@) == listed_under(icon_paths(), folder@),
    {
        let all = icon_path_list();
        let ghost view = all@.map_values(|p: &str| p@);
        let prefix = chars_of(folder);
        let mut out: Vec<String> = Vec::new();
        let mut i: usize = 0;
        while i < all.len()
            invariant
                i <= all@.len(),
                view == all@.map_values(|p: &str| p@),
                prefix@ == folder@,
                out@.map_values(|p: String| p@) == listed_under(view.take(i as int), folder@),
            decreases all@.len() - i,
        {
            let candidate = chars_of(all[i]);
            let ghost before = out@;
            proof {
                assert(view.take(i + 1).drop_last() =~= view.take(i as int));
                assert(view.take(i + 1).last() == all@[i as int]@);
            }
            if prefix.len() == 0 || occurs_here(candidate.as_slice(), prefix.as_slice(), 0) {
                out.push(all[i].to_string());
                proof {
                    assert(out@.map_values(|p: String| p@) =~= before.map_values(|p: String| p@).push(all@[i as int]@));
                }
            }
            i = i + 1;
        }
        proof {
            assert(view.take(all@.len() as int) =~= view);
        }
        out
    }
}

/// Where the first match lies in a prefix of the paths is where it lies in them all.
proof fn lemma_position_prefix(paths: Seq<Seq<char>>, path: Seq<char>, n: int)
    requires
        0 <= n <= paths.len(),
        position_in(paths.take(n), path) is Some,
    ensures
        position_in(paths, path) == position_in(paths.take(n), path),
    decreases paths.len() - n,
{
    if n < paths.len() {
        assert(paths.take(n + 1).drop_last() =~= paths.take(n));
        lemma_position_prefix(paths, path, n + 1);
    } else {
        assert(paths.take(n) =~= paths);
    }
}

} // verus!
