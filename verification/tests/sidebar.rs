use ledger_core::sidebar::{Icon, Sidebar, COLLAPSED_WIDTH, EXPANDED_WIDTH};

#[test]
fn the_sidebar_starts_unfolded_on_the_dashboard() {
    let sidebar = Sidebar::new();
    assert!(!sidebar.is_collapsed());
    assert_eq!(sidebar.width(), 260);
    assert_eq!(sidebar.active_item(), "dashboard");
    let items: Vec<(&str, &str, Icon)> =
        sidebar.items().iter().map(|i| (i.id.as_str(), i.label.as_str(), i.icon)).collect();
    assert_eq!(
        items,
        vec![
            ("dashboard", "Dashboard", Icon::Dashboard),
            ("customers", "Customers", Icon::Users),
            ("sales", "Sales", Icon::ShoppingCart),
            ("purchase", "Purchase", Icon::CreditCard),
            ("users", "Users", Icon::User),
        ]
    );
}

#[test]
fn folding_changes_the_width_and_back() {
    let mut sidebar = Sidebar::new();
    sidebar.toggle_collapse();
    assert!(sidebar.is_collapsed());
    assert_eq!(sidebar.width(), COLLAPSED_WIDTH);
    assert_eq!(sidebar.width(), 60);
    assert_eq!(sidebar.items().len(), 5);
    sidebar.toggle_collapse();
    assert!(!sidebar.is_collapsed());
    assert_eq!(sidebar.width(), EXPANDED_WIDTH);
}

#[test]
fn the_active_item_is_the_one_last_set() {
    let mut sidebar = Sidebar::new();
    sidebar.set_active_item("sales");
    assert_eq!(sidebar.active_item(), "sales");
    sidebar.toggle_collapse();
    sidebar.set_active_item("nowhere");
    assert_eq!(sidebar.active_item(), "nowhere");
    assert!(sidebar.is_collapsed());
    assert_eq!(sidebar.width(), 60);
}
