//! Which panel of the right sidebar shows, and whether the sidebar is open.
use vstd::prelude::*;

verus! {

/// The panels the right sidebar can show.
#[derive(Clone, Copy, Debug, PartialEq, Eq, Structural)]
pub enum RightSidebarTab {
    Notifications,
    Assistant,
}

/// The sidebar's state: open or closed, its width in logical pixels, and its tab.
#[derive(Clone, Copy, Debug, PartialEq, Eq, Structural)]
pub struct RightSidebarState {
    pub visible: bool,
    pub width: u32,
    pub active_tab: RightSidebarTab,
}

/// The width the sidebar opens with.
pub const DEFAULT_SIDEBAR_WIDTH: u32 = 360;

/// The state after a click on `tab`: a click on the open tab closes the
/// sidebar; any other click opens it on `tab`.
pub open spec fn toggled(s: RightSidebarState, tab: RightSidebarTab) -> RightSidebarState {
    if s.visible && s.active_tab == tab {
        RightSidebarState { visible: false, ..s }
    } else {
        RightSidebarState { visible: true, active_tab: tab, ..s }
    }
}

impl Default for RightSidebarState {
    /// Closed, at the default width, on the notifications tab.
    fn default() -> (s: Self)
        ensures
            !s.visible,
            s.width == DEFAULT_SIDEBAR_WIDTH,
            s.active_tab == RightSidebarTab::Notifications,
    {
        RightSidebarState {
            visible: false,
            width: DEFAULT_SIDEBAR_WIDTH,
            active_tab: RightSidebarTab::Notifications,
        }
    }
}

impl RightSidebarState {
    /// Opens the sidebar on `tab`, or closes it when `tab` is already showing.
    pub fn toggle_tab(&mut self, tab: RightSidebarTab)
        ensures
            *final(self) == toggled(*old(self), tab),
    {
        if self.visible && self.active_tab == tab {
            self.visible = false;
        } else {
            self.visible = true;
            self.active_tab = tab;
        }
    }
}

/// Two clicks on a tab that is not showing open it and close it again:
/// the sidebar ends closed, on that tab, at its old width.
pub proof fn law_toggle_twice_closes(s: RightSidebarState, tab: RightSidebarTab)
    requires
        !(s.visible && s.active_tab == tab),
    ensures
        toggled(s, tab).visible,
        toggled(s, tab).active_tab == tab,
        toggled(toggled(s, tab), tab) == (RightSidebarState { visible: false, active_tab: tab, ..s }),
{
}

/// A click on a tab never leaves the sidebar on another tab, and never
/// changes its width.
pub proof fn law_toggle_lands_on_tab(s: RightSidebarState, tab: RightSidebarTab)
    ensures
        toggled(s, tab).active_tab == tab,
        toggled(s, tab).width == s.width,
        toggled(s, tab).visible != (s.visible && s.active_tab == tab),
{
}

} // verus!
