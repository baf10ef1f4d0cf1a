//! The state of the navigation sidebar: its entries, which of them is
//! active, and whether it is folded in.

use vstd::prelude::*;
use vstd::string::StringExecFns;

verus! {

/// The pictures that an entry can carry.
#[derive(Debug, Clone, Copy, PartialEq, Eq, Structural)]
pub enum Icon {
    Dashboard,
    Users,
    ShoppingCart,
    CreditCard,
    User,
    Logo,
    Menu,
}

/// One entry of the sidebar.
#[derive(Debug, Clone, PartialEq, Eq)]
pub struct SidebarItem {
    pub id: String,
    pub label: String,
    pub icon: Icon,
}

/// The width of the sidebar when it shows its labels, in pixels.
pub const EXPANDED_WIDTH: u32 = 260;

/// The width of the sidebar when it shows its icons only, in pixels.
pub const COLLAPSED_WIDTH: u32 = 60;

/// The sidebar. Its width follows from whether it is folded in.
pub struct Sidebar {
    items: Vec<SidebarItem>,
    active_item: String,
    is_collapsed: bool,
    width: u32,
}

impl Sidebar {
    pub closed spec fn entries(&self) -> Seq<SidebarItem> {
        self.items@
    }

    pub closed spec fn active(&self) -> Seq<char> {
        self.active_item@
    }

    pub closed spec fn collapsed(&self) -> bool {
        self.is_collapsed
    }

    pub closed spec fn spec_width(&self) -> u32 {
        self.width
    }

    /// The width is the one that goes with the fold.
    pub open spec fn wf(&self) -> bool {
        self.spec_width() == if self.collapsed() {
            COLLAPSED_WIDTH
        } else {
            EXPANDED_WIDTH
        }
    }

    /// Whether the entry at `i` has this id, label and icon.
    pub open spec fn entry_is(&self, i: int, id: Seq<char>, label: Seq<char>, icon: Icon) -> bool {
        &&& self.entries()[i].id@ == id
        &&& self.entries()[i].label@ == label
        &&& self.entries()[i].icon == icon
    }

    /// The sidebar as it first shows: five entries, the dashboard active,
    /// unfolded.
    pub fn new() -> (r: Sidebar)
        ensures
            r.wf(),
            !r.collapsed(),
            r.active() == "dashboard"@,
            r.entries().len() == 5,
            r.entry_is(0, "dashboard"@, "Dashboard"@, Icon::Dashboard),
            r.entry_is(1, "customers"@, "Customers"@, Icon::Users),
            r.entry_is(2, "sales"@, "Sales"@, Icon::ShoppingCart),
            r.entry_is(3, "purchase"@, "Purchase"@, Icon::CreditCard),
            r.entry_is(4, "users"@, "Users"@, Icon::User),
    {
        let mut items: Vec<SidebarItem> = Vec::new();
        items.push(
            SidebarItem {
                id: String::from_str("dashboard"),
                label: String::from_str("Dashboard"),
                icon: Icon::Dashboard,
            },
        );
        items.push(
            SidebarItem {
                id: String::from_str("customers"),
                label: String::from_str("Customers"),
                icon: Icon::Users,
            },
        );
        items.push(
            SidebarItem {
                id: String::from_str("sales"),
                label: String::from_str("Sales"),
                icon: Icon::ShoppingCart,
            },
        );
        items.push(
            SidebarItem {
                id: String::from_str("purchase"),
                label: String::from_str("Purchase"),
                icon: Icon::CreditCard,
            },
        );
        items.push(
            SidebarItem {
                id: String::from_str("users"),
                label: String::from_str("Users"),
                icon: Icon::User,
            },
        );
        Sidebar {
            items,
            active_item: String::from_str("dashboard"),
            is_collapsed: false,
            width: EXPANDED_WIDTH,
        }
    }

    /// Folds the sidebar in, or out again; the width follows.
    pub fn toggle_collapse(&mut self)
        ensures
            final(self).wf(),
            final(self).collapsed() == !old(self).collapsed(),
            final(self).entries() == old(self).entries(),
            final(self).active() == old(self).active(),
    {
        self.is_collapsed = !self.is_collapsed;
        if self.is_collapsed {
            self.width = COLLAPSED_WIDTH;
        } else {
            self.width = EXPANDED_WIDTH;
        }
    }

    /// Makes the entry with this id the active one.
    pub fn set_active_item(&mut self, item_id: &str)
        ensures
            final(self).active() == item_id@,
            final(self).entries() == old(self).entries(),
            final(self).collapsed() == old(self).collapsed(),
            final(self).spec_width() == old(self).spec_width(),
    {
        self.active_item = String::from_str(item_id);
    }

    /// The entries, from the top.
    pub fn items(&self) -> (r: &Vec<SidebarItem>)
        ensures
            r@ == self.entries(),
    {
        &self.items
    }

    /// The id of the active entry.
    pub fn active_item(&self) -> (r: &String)
        ensures
            r@ == self.active(),
    {
        &self.active_item
    }

    /// Whether the sidebar is folded in.
    pub fn is_collapsed(&self) -> (r: bool)
        ensures
            r == self.collapsed(),
    {
        self.is_collapsed
    }

    /// The width in pixels.
    pub fn width(&self) -> (r: u32)
        ensures
            r == self.spec_width(),
    {
        self.width
    }
}

} // verus!
