//! What the tray shows for a batch: the icon, and how each session's menu
//! item behaves.
use crate::session::{Entry, EntryView};
use vstd::prelude::*;

verus! {

/// The tray icon.
#[derive(Clone, Copy, Debug, PartialEq, Eq, Structural)]
pub enum Icon {
    Normal,
    Warning,
}

/// A session that is not this display's own and not marked to be ignored:
/// its presence puts the tray in the warning state.
pub open spec fn is_noteworthy(e: EntryView) -> bool {
    !e.is_current && !e.should_ignore
}

/// The icon for a batch: the warning one exactly when some session is
/// noteworthy.
pub open spec fn icon_spec(entries: Seq<Entry>) -> Icon {
    if exists|i: int| 0 <= i < entries.len() && is_noteworthy((#[trigger] entries[i])@) {
        Icon::Warning
    } else {
        Icon::Normal
    }
}

impl Icon {
    /// The icon's name in the icon theme.
    pub fn name(&self) -> (r: &'static str)
        ensures
            *self == Icon::Normal ==> r@ == "normal"@,
            *self == Icon::Warning ==> r@ == "warning"@,
    {
        match self {
            Icon::Normal => "normal",
            Icon::Warning => "warning",
        }
    }
}

pub fn indicator_icon(entries: &Vec<Entry>) -> (r: Icon)
    ensures
        r == icon_spec(entries@),
{
    let mut i: usize = 0;
    while i < entries.len()
        invariant
            i <= entries.len(),
            forall|k: int| 0 <= k < i ==> !is_noteworthy((#[trigger] entries@[k])@),
        decreases entries.len() - i,
    {
        if !entries[i].is_current && !entries[i].should_ignore {
            assert(is_noteworthy(entries@[i as int]@));
            return Icon::Warning;
        }
        i = i + 1;
    }
    Icon::Normal
}

/// How the menu item of a session behaves.
#[derive(Clone, Copy, Debug, PartialEq, Eq, Structural)]
pub enum ItemStyle {
    /// This display's own session: shown checked and disabled.
    Current,
    /// Another session: activating it kills the process, which is offered
    /// only where the monitor may signal it.
    Other { enabled: bool },
}

pub fn item_style(e: &Entry) -> (r: ItemStyle)
    ensures
        e.is_current ==> r == ItemStyle::Current,
        !e.is_current ==> r == (ItemStyle::Other { enabled: e.can_kill }),
{
    if e.is_current {
        ItemStyle::Current
    } else {
        ItemStyle::Other { enabled: e.can_kill }
    }
}

} // verus!
