use switch_hosts_rs::codec::parse_config;
use switch_hosts_rs::data::{ConfigItem, ConfigItemType};
use switch_hosts_rs::list::{write_failure_error, HostsList, TogglePlan};
use switch_hosts_rs::observer::Observer;
use switch_hosts_rs::HostsError;

struct Noop;

impl Observer for Noop {
    fn update(&mut self, _id: &str) {}
}

fn user_item(id: &str, on: bool, title: &str) -> ConfigItem {
    ConfigItem::new(id.to_string(), on, title.to_string(), ConfigItemType::User)
}

fn list_with(items: Vec<ConfigItem>) -> HostsList<Noop> {
    let mut list: HostsList<Noop> = HostsList::new();
    list.init(items);
    list
}

fn persisted_ids(list: &HostsList<Noop>) -> Vec<String> {
    parse_config(list.sync_config().as_str()).iter().map(|i| i.id().clone()).collect()
}

#[test]
fn init_prepends_system_and_selects_it() {
    let list = list_with(vec![user_item("a", true, "A")]);
    assert_eq!(list.get_selected_id(), &Some("system".to_string()));
    let selected = list.get_selected_item().unwrap();
    assert_eq!(selected.item_type(), &ConfigItemType::System);
    assert!(selected.is_on());
    assert_eq!(persisted_ids(&list), vec!["a".to_string()]);
}

#[test]
fn generate_hosts_content_excludes_system_and_disabled() {
    let list = list_with(vec![user_item("a", true, "A"), user_item("b", false, "B")]);
    let contents = vec!["sys".to_string(), "x".to_string(), "y".to_string()];
    let merged = list.generate_hosts_content(&"a".to_string(), true, &contents);
    assert_eq!(merged, "x");
    let merged = list.generate_hosts_content(&"b".to_string(), true, &contents);
    assert_eq!(merged, "x\ny");
    let merged = list.generate_hosts_content(&"a".to_string(), false, &contents);
    assert_eq!(merged, "");
}

#[test]
fn toggle_on_off_plans_a_write_with_the_flipped_flag() {
    let mut list = list_with(vec![user_item("a", false, "A")]);
    list.toggle_next();
    let contents = vec!["".to_string(), "x".to_string()];
    match list.toggle_on_off(&contents, false) {
        Ok(TogglePlan::Write(w)) => {
            assert_eq!(w.hosts_content, "x");
            assert!(w.new_on);
            assert!(w.update_flag);
        },
        other => panic!("expected a write plan, got {:?}", other.is_ok()),
    }
}

#[test]
fn toggle_on_off_without_selection_reports_not_found() {
    let list: HostsList<Noop> = HostsList::new();
    let contents: Vec<String> = vec![];
    assert!(matches!(list.toggle_on_off(&contents, false), Err(HostsError::NotFound)));
}

#[test]
fn content_refresh_of_a_disabled_profile_is_a_no_op() {
    let mut list = list_with(vec![user_item("a", false, "A")]);
    list.toggle_next();
    let contents = vec!["".to_string(), "x".to_string()];
    assert!(matches!(list.toggle_on_off(&contents, true), Ok(TogglePlan::Unchanged)));
}

#[test]
fn denied_write_reports_no_permission_and_keeps_the_flag() {
    let mut list = list_with(vec![]);
    let id = HostsList::<Noop>::new_item_id();
    assert_eq!(id.len(), 36);
    assert_ne!(id, "system");
    list.add_item(id.clone(), "Work".to_string(), true).unwrap();
    let persisted = parse_config(list.sync_config().as_str());
    assert_eq!(persisted.len(), 1);
    assert_eq!(persisted[0].title(), "Work");
    assert!(!persisted[0].is_on());
    assert_eq!(persisted[0].item_type(), &ConfigItemType::User);
    list.toggle_next();
    let contents = vec!["".to_string(), "".to_string()];
    match list.toggle_on_off(&contents, false) {
        Ok(TogglePlan::Write(w)) => {
            assert!(w.new_on);
            // the caller's direct write is denied: the recoverable error comes
            // back and the toggle is never committed
            assert_eq!(write_failure_error(false), HostsError::NoPermission);
            assert_eq!(write_failure_error(true), HostsError::Elevation);
        },
        _ => panic!("expected a write plan"),
    }
    assert!(!list.get_selected_item().unwrap().is_on());
}

#[test]
fn committed_toggle_updates_the_flag_in_memory() {
    let mut list = list_with(vec![user_item("a", false, "A")]);
    list.toggle_next();
    list.set_selected_on(true);
    assert!(list.get_selected_item().unwrap().is_on());
    let persisted = parse_config(list.sync_config().as_str());
    assert!(persisted[0].is_on());
}

#[test]
fn failed_content_deletion_leaves_everything_unchanged() {
    let mut list = list_with(vec![user_item("a", true, "A")]);
    list.toggle_next();
    assert!(matches!(list.delete_current_item(false), Err(HostsError::Storage)));
    assert_eq!(list.get_selected_id(), &Some("a".to_string()));
    assert_eq!(persisted_ids(&list), vec!["a".to_string()]);
}

#[test]
fn deleting_the_selected_profile_falls_back_to_the_first() {
    let mut list = list_with(vec![user_item("a", true, "A"), user_item("b", false, "B")]);
    list.toggle_next();
    assert_eq!(list.get_selected_id(), &Some("a".to_string()));
    list.delete_current_item(true).unwrap();
    assert_eq!(list.get_selected_id(), &Some("system".to_string()));
    assert_eq!(persisted_ids(&list), vec!["b".to_string()]);
}

#[test]
fn deleting_the_last_profile_clears_the_selection() {
    let mut list: HostsList<Noop> = HostsList::new();
    list.add_item("x".to_string(), "X".to_string(), true).unwrap();
    assert_eq!(list.get_selected_id(), &Some("x".to_string()));
    list.delete_item("x".to_string(), true).unwrap();
    assert_eq!(list.get_selected_id(), &None);
}

#[test]
fn move_to_previous_right_after_system_is_a_no_op() {
    let mut list = list_with(vec![user_item("a", true, "A"), user_item("b", false, "B")]);
    list.toggle_next();
    list.move_to_previous();
    assert_eq!(persisted_ids(&list), vec!["a".to_string(), "b".to_string()]);
}

#[test]
fn move_to_next_on_the_last_profile_is_a_no_op() {
    let mut list = list_with(vec![user_item("a", true, "A"), user_item("b", false, "B")]);
    list.toggle_next();
    list.toggle_next();
    list.move_to_next();
    assert_eq!(persisted_ids(&list), vec!["a".to_string(), "b".to_string()]);
}

#[test]
fn reordering_swaps_neighbours_and_persists_without_system() {
    let mut list = list_with(vec![user_item("a", true, "A"), user_item("b", false, "B")]);
    list.toggle_next();
    list.move_to_next();
    assert_eq!(persisted_ids(&list), vec!["b".to_string(), "a".to_string()]);
    list.move_to_previous();
    assert_eq!(persisted_ids(&list), vec!["a".to_string(), "b".to_string()]);
}

#[test]
fn move_to_top_and_bottom_keep_system_first() {
    let mut list = list_with(vec![
        user_item("a", true, "A"),
        user_item("b", false, "B"),
        user_item("c", false, "C"),
    ]);
    list.toggle_next();
    list.toggle_next();
    list.toggle_next();
    assert_eq!(list.get_selected_id(), &Some("c".to_string()));
    list.move_to_top();
    assert_eq!(
        persisted_ids(&list),
        vec!["c".to_string(), "a".to_string(), "b".to_string()]
    );
    list.move_to_bottom();
    assert_eq!(
        persisted_ids(&list),
        vec!["a".to_string(), "b".to_string(), "c".to_string()]
    );
}

#[test]
fn selection_moves_are_bounded() {
    let mut list = list_with(vec![user_item("a", true, "A")]);
    list.toggle_previous();
    assert_eq!(list.get_selected_id(), &Some("system".to_string()));
    list.toggle_next();
    assert_eq!(list.get_selected_id(), &Some("a".to_string()));
    list.toggle_next();
    assert_eq!(list.get_selected_id(), &Some("a".to_string()));
    list.toggle_previous();
    assert_eq!(list.get_selected_id(), &Some("system".to_string()));
}

#[test]
fn failed_store_leaves_the_list_unchanged() {
    let mut list = list_with(vec![]);
    assert!(matches!(
        list.add_item("x".to_string(), "X".to_string(), false),
        Err(HostsError::Storage)
    ));
    assert!(persisted_ids(&list).is_empty());
}

#[test]
fn rename_updates_the_selected_profile_title() {
    let mut list = list_with(vec![user_item("a", true, "A")]);
    list.toggle_next();
    list.update_item_title("Renamed".to_string()).unwrap();
    assert_eq!(list.get_selected_item().unwrap().title(), "Renamed");
    let persisted = parse_config(list.sync_config().as_str());
    assert_eq!(persisted[0].title(), "Renamed");
}

#[test]
fn the_system_profile_is_never_renamed() {
    let mut list = list_with(vec![user_item("a", true, "A")]);
    list.update_item_title("Other".to_string()).unwrap();
    assert_eq!(list.get_selected_item().unwrap().title(), "system");
}

#[test]
fn renaming_to_an_empty_title_is_rejected() {
    let mut list = list_with(vec![user_item("a", true, "A")]);
    list.toggle_next();
    assert_eq!(
        list.update_item_title("".to_string()),
        Err(HostsError::Validation)
    );
    assert_eq!(list.get_selected_item().unwrap().title(), "A");
}

#[test]
fn the_system_profile_is_never_deleted() {
    let mut list = list_with(vec![user_item("a", true, "A")]);
    assert_eq!(list.get_selected_id(), &Some("system".to_string()));
    list.delete_current_item(true).unwrap();
    let selected = list.get_selected_item().unwrap();
    assert_eq!(selected.item_type(), &ConfigItemType::System);
    assert_eq!(persisted_ids(&list), vec!["a".to_string()]);
}
