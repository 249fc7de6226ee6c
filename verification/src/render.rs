//! Plain state shared with the terminal front end: what the user selected
//! for installation, which popup is open, and the part of the screen state
//! that survives a reload.

use vstd::prelude::*;

verus! {

/// A user's choice of a version to install: the dependency, the version
/// text, and the group (`kind`) it is declared under.
#[derive(Debug)]
pub struct InstallCandidate {
    pub name: String,
    pub version: String,
    pub kind: String,
}

/// Which popup the front end shows.
#[derive(Debug, Clone, Copy, PartialEq, Eq, Structural)]
pub enum PopupKind {
    Message,
    Help,
    Versions,
    SearchInput,
    SearchList,
    Closed,
}

/// The screen state carried across a reload: the selected tab, the selected
/// dependency, and which dependencies were updated this session (name and
/// the version written).
pub struct AppState {
    pub tab: usize,
    pub dep: Option<usize>,
    pub updated_items: Vec<(String, String)>,
}

/// One step out of a popup: a search-result list falls back to the search
/// prompt, a message falls back to the prompt while a search is in
/// progress, and everything else closes.
pub fn unwrap_popup(popup: &PopupKind, search_string_is_empty: bool) -> (r: PopupKind)
    ensures
        r == match popup {
            PopupKind::SearchList => PopupKind::SearchInput,
            PopupKind::Message => if !search_string_is_empty {
                PopupKind::SearchInput
            } else {
                PopupKind::Closed
            },
            _ => PopupKind::Closed,
        },
{
    match popup {
        PopupKind::SearchList => PopupKind::SearchInput,
        PopupKind::SearchInput => PopupKind::Closed,
        PopupKind::Help => PopupKind::Closed,
        PopupKind::Versions => PopupKind::Closed,
        PopupKind::Message => {
            if !search_string_is_empty {
                PopupKind::SearchInput
            } else {
                PopupKind::Closed
            }
        },
        PopupKind::Closed => PopupKind::Closed,
    }
}


/// Which dependency stays selected across a reload: nothing when nothing
/// was selected or the list is empty; the first entry when the first was
/// selected; otherwise the same index when another entry still follows it,
/// else one up.
pub fn surviving_selection(selected: Option<usize>, items_len: usize) -> (r: Option<usize>)
    ensures
        r == match selected {
            Some(m) => if m == 0 {
                if items_len == 0 {
                    None::<usize>
                } else {
                    Some(0usize)
                }
            } else {
                if items_len > m + 1 {
                    Some(m)
                } else {
                    Some((m - 1) as usize)
                }
            },
            None => None::<usize>,
        },
{
    match selected {
        Some(m) => {
            if m == 0 {
                if items_len == 0 {
                    None
                } else {
                    Some(0)
                }
            } else {
                if m < items_len && items_len - m > 1 {
                    Some(m)
                } else {
                    Some(m - 1)
                }
            }
        },
        None => None,
    }
}

} // verus!
