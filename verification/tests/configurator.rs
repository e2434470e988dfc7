use patmat::configurator::widgets::optional_setting::OptionalSetting;
use patmat::configurator::{menu_entries, ConfigurationError, ConfigurationTree, ConfigurationTreeBranch};

fn keys(keys: &[&str]) -> Vec<String> {
    keys.iter().map(|k| k.to_string()).collect()
}

fn sample() -> ConfigurationTreeBranch<u32> {
    let mut network = ConfigurationTreeBranch::new();
    network.insert("port".to_string(), ConfigurationTree::new_leaf(8080, "Port".to_string(), "Listening port".to_string()));
    network.insert("host".to_string(), ConfigurationTree::new_leaf(1, "Host".to_string(), "Host name".to_string()));
    let mut root = ConfigurationTreeBranch::new();
    root.insert("name".to_string(), ConfigurationTree::new_leaf(7, "Name".to_string(), "Project name".to_string()));
    root.insert("network".to_string(), ConfigurationTree::Branch(network));
    root.insert("empty".to_string(), ConfigurationTree::Branch(ConfigurationTreeBranch::new()));
    root
}

#[test]
fn menu_lists_every_node_in_order_with_its_cursor() {
    let items = menu_entries(&sample()).unwrap();
    let listed: Vec<(String, Vec<String>, usize)> =
        items.into_iter().map(|item| (item.name, item.cursor, item.depth)).collect();
    assert_eq!(
        listed,
        vec![
            ("name".to_string(), keys(&["name"]), 0),
            ("network".to_string(), keys(&["network"]), 0),
            ("port".to_string(), keys(&["network", "port"]), 1),
            ("host".to_string(), keys(&["network", "host"]), 1),
            ("empty".to_string(), keys(&["empty"]), 0),
        ]
    );
}

#[test]
fn every_menu_cursor_leads_to_a_node() {
    for item in menu_entries(&sample()).unwrap() {
        assert!(sample().get_node(&item.cursor).is_ok());
    }
}

#[test]
fn empty_tree_has_no_menu() {
    let empty: ConfigurationTreeBranch<u32> = ConfigurationTreeBranch::new();
    let error = menu_entries(&empty).err().unwrap();
    assert_eq!(error, ConfigurationError::NoItems);
    assert_eq!(error.message(), "Expected at least one configuration item");
}

#[test]
fn cursors_lead_to_leaves_and_branches() {
    let leaf = sample().get_leaf(&keys(&["network", "port"])).ok().unwrap();
    assert_eq!(leaf.widget, 8080);
    assert_eq!(leaf.name, "Port");
    assert_eq!(leaf.description, "Listening port");

    let branch = sample().get_branch(&keys(&["network"])).ok().unwrap();
    assert_eq!(branch.len(), 2);
    let whole = sample().get_branch(&[]).ok().unwrap();
    assert_eq!(whole.len(), 3);
}

#[test]
fn wrong_cursors_are_refused() {
    assert_eq!(sample().get_leaf(&keys(&["network"])).err(), Some(ConfigurationError::ExpectedLeaf));
    assert_eq!(sample().get_branch(&keys(&["name"])).err(), Some(ConfigurationError::ExpectedBranch));
    assert_eq!(sample().get_node(&keys(&["name", "x"])).err(), Some(ConfigurationError::ExpectedBranch));
    assert_eq!(sample().get_node(&keys(&["missing"])).err(), Some(ConfigurationError::MissingKey));
    assert_eq!(ConfigurationError::MissingKey.message(), "Expected key to exist");
    assert_eq!(ConfigurationError::ExpectedBranch.message(), "Expected branch");
    assert_eq!(ConfigurationError::ExpectedLeaf.message(), "Expected leaf");
}

#[test]
fn inserting_a_key_again_replaces_its_node_in_place() {
    let mut root = sample();
    let replaced = root.insert("name".to_string(), ConfigurationTree::new_leaf(9, "Title".to_string(), "".to_string()));
    assert!(matches!(replaced, Some(ConfigurationTree::Leaf(ref leaf)) if leaf.widget == 7));
    let items = menu_entries(&root).unwrap();
    assert_eq!(items[0].name, "name");
    assert_eq!(items.len(), 5);
    assert_eq!(root.get_leaf(&keys(&["name"])).ok().unwrap().widget, 9);
}

#[test]
fn optional_setting_switches_between_default_and_custom() {
    let mut setting = OptionalSetting::new(true);
    assert_eq!(setting.selected_index(), 0);
    assert_eq!(setting.value("Two"), None);
    setting.set_is_default(false);
    assert_eq!(setting.selected_index(), 1);
    assert_eq!(setting.value("Two"), Some("Two"));
    setting.set_is_default(true);
    assert_eq!(setting.value("Two"), None);
    assert_eq!(OptionalSetting::new(false).value("One"), Some("One"));
}
