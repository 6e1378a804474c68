//! A workspace: a layout of tabbed panels, of which one is the active one.
//! Panels are known here by their ids; what a panel is lies with the caller.

use crate::data::PanelId;
use crate::state::Axis;
use vstd::prelude::*;

verus! {

/// A layout: children along an axis, or a set of tabs.
#[derive(Debug)]
pub enum Layout {
    Split { axis: Axis, children: Vec<Layout> },
    Tabs { tabs: Vec<PanelId>, active: Option<PanelId> },
}

/// A layout as mathematics.
pub enum LayoutView {
    Split { axis: Axis, children: Seq<LayoutView> },
    Tabs { tabs: Seq<PanelId>, active: Option<PanelId> },
}

/// Tabs without a tab.
pub open spec fn no_tabs() -> LayoutView {
    LayoutView::Tabs { tabs: Seq::empty(), active: None }
}

/// The views of the first `n` of `children`.
pub open spec fn views_of(children: Seq<Layout>, n: int) -> Seq<LayoutView>
    decreases children, n,
{
    if n <= 0 || n > children.len() {
        Seq::empty()
    } else {
        views_of(children, n - 1).push(layout_view(children[n - 1]))
    }
}

/// A layout as mathematics.
pub open spec fn layout_view(layout: Layout) -> LayoutView
    decreases layout, 0nat,
{
    match layout {
        Layout::Split { axis, children } => LayoutView::Split {
            axis,
            children: views_of(children@, children@.len() as int),
        },
        Layout::Tabs { tabs, active } => LayoutView::Tabs { tabs: tabs@, active },
    }
}

impl View for Layout {
    type V = LayoutView;

    open spec fn view(&self) -> LayoutView {
        layout_view(*self)
    }
}

/// `views_of` holds the view of each child, in order.
pub proof fn lemma_views_of(children: Seq<Layout>, n: int)
    requires
        0 <= n <= children.len(),
    ensures
        views_of(children, n).len() == n,
        forall|i: int| 0 <= i < n ==> (#[trigger] views_of(children, n)[i]) == children[i]@,
    decreases n,
{
    if n > 0 {
        lemma_views_of(children, n - 1);
    }
}

impl LayoutView {
    /// The active panel: of tabs, the tab that is marked active if it is
    /// among the tabs, else the first tab; of a split, the active panel of
    /// the first child that has one.
    pub open spec fn active_panel(self) -> Option<PanelId>
        decreases self, 0nat,
    {
        match self {
            LayoutView::Tabs { tabs, active } => if active is Some && tabs.contains(active->0) {
                active
            } else if tabs.len() > 0 {
                Some(tabs[0])
            } else {
                None
            },
            LayoutView::Split { children, .. } => first_active(children, 0),
        }
    }
}

/// The active panel of the first of `children`, from index `from` on, that
/// has one.
pub open spec fn first_active(children: Seq<LayoutView>, from: int) -> Option<PanelId>
    decreases children, children.len() - from,
{
    if from < 0 || from >= children.len() {
        None
    } else if children[from].active_panel() is Some {
        children[from].active_panel()
    } else {
        first_active(children, from + 1)
    }
}

impl Layout {
    /// The id of the active panel.
    pub fn get_active_panel(&self) -> (r: Option<PanelId>)
        ensures
            r == self@.active_panel(),
        decreases self@,
    {
        match self {
            Layout::Split { children, .. } => {
                let ghost kids = self@->children;
                proof {
                    lemma_views_of(children@, children@.len() as int);
                }
                let mut i: usize = 0;
                while i < children.len()
                    invariant
                        i <= children.len(),
                        self@ is Split,
                        kids == self@->children,
                        kids.len() == children@.len(),
                        forall|j: int| 0 <= j < children@.len() ==> (#[trigger] children@[j])@ == kids[j],
                        first_active(kids, 0) == first_active(kids, i as int),
                    decreases children.len() - i,
                {
                    let found = children[i].get_active_panel();
                    if found.is_some() {
                        return found;
                    }
                    i += 1;
                }
                None
            },
            Layout::Tabs { tabs, active } => {
                match active {
                    Some(id) => {
                        let mut i: usize = 0;
                        while i < tabs.len()
                            invariant
                                i <= tabs.len(),
                                self@ == (LayoutView::Tabs { tabs: tabs@, active: Some(*id) }),
                                forall|j: int| 0 <= j < i ==> tabs@[j] != *id,
                            decreases tabs.len() - i,
                        {
                            if tabs[i] == *id {
                                assert(tabs@.contains(*id));
                                return Some(*id);
                            }
                            i += 1;
                        }
                    },
                    None => {},
                }
                if tabs.len() > 0 {
                    Some(tabs[0])
                } else {
                    None
                }
            },
        }
    }
}

pub struct Workspace {
    layout: Layout,
    floating_panel: Option<PanelId>,
}

/// What a [`Workspace`] holds, as mathematics.
pub struct WorkspaceView {
    pub layout: LayoutView,
    pub floating_panel: Option<PanelId>,
}

impl View for Workspace {
    type V = WorkspaceView;

    closed spec fn view(&self) -> WorkspaceView {
        WorkspaceView { layout: self.layout@, floating_panel: self.floating_panel }
    }
}

impl Workspace {
    /// A workspace with no tabs and no floating panel.
    pub fn new() -> (w: Workspace)
        ensures
            w@ == (WorkspaceView { layout: no_tabs(), floating_panel: None }),
    {
        Workspace { layout: Layout::Tabs { tabs: Vec::new(), active: None }, floating_panel: None }
    }

    /// Adds a panel as the last tab and makes it the active one. A layout
    /// that is a split takes no panels: it stays as it is, and the result is
    /// `false`.
    pub fn add_panel(&mut self, panel: PanelId) -> (added: bool)
        ensures
            added == (old(self)@.layout is Tabs),
            final(self)@.floating_panel == old(self)@.floating_panel,
            final(self)@.layout == (match old(self)@.layout {
                LayoutView::Tabs { tabs, active } => LayoutView::Tabs {
                    tabs: tabs.push(panel),
                    active: Some(panel),
                },
                LayoutView::Split { .. } => old(self)@.layout,
            }),
    {
        match &mut self.layout {
            Layout::Tabs { tabs, active } => {
                tabs.push(panel);
                *active = Some(panel);
                true
            },
            _ => false,
        }
    }

    /// Sets or takes away the floating panel.
    pub fn set_floating(&mut self, floating_panel: Option<PanelId>)
        ensures
            final(self)@ == (WorkspaceView { floating_panel, ..old(self)@ }),
    {
        self.floating_panel = floating_panel;
    }

    /// The id of the active panel.
    pub fn get_active_panel(&self) -> (r: Option<PanelId>)
        ensures
            r == self@.layout.active_panel(),
    {
        self.layout.get_active_panel()
    }

    /// The id of the floating panel.
    pub fn get_floating(&self) -> (r: Option<PanelId>)
        ensures
            r == self@.floating_panel,
    {
        self.floating_panel
    }
}

} // verus!
