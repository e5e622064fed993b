use switch_hosts_rs::codec::{parse_config, serialize_config_items};
use switch_hosts_rs::data::{
    add_config_item, delete_config_item, find_index_of_id, get_config_path, get_data_dir,
    get_item_data_path, get_switch_hosts_rs_dir, update_config_item, ConfigItem, ConfigItemType,
};
use switch_hosts_rs::validate_title;
use switch_hosts_rs::HostsError;

fn sample_items() -> Vec<ConfigItem> {
    vec![
        ConfigItem::new("a".to_string(), true, "A".to_string(), ConfigItemType::User),
        ConfigItem::new("b".to_string(), false, "B".to_string(), ConfigItemType::User),
    ]
}

fn assert_same_items(xs: &Vec<ConfigItem>, ys: &Vec<ConfigItem>) {
    assert_eq!(xs.len(), ys.len());
    for (x, y) in xs.iter().zip(ys.iter()) {
        assert_eq!(x.id(), y.id());
        assert_eq!(x.is_on(), y.is_on());
        assert_eq!(x.title(), y.title());
        assert_eq!(x.item_type(), y.item_type());
    }
}

#[test]
fn round_trip_preserves_list_and_order() {
    let items = sample_items();
    let text = serialize_config_items(&items);
    let parsed = parse_config(text.as_str());
    assert_same_items(&items, &parsed);
}

#[test]
fn round_trip_escapes_quotes_and_backslashes() {
    let items = vec![ConfigItem::new(
        "id-1".to_string(),
        false,
        "say \"hi\" \\ done".to_string(),
        ConfigItemType::User,
    )];
    let text = serialize_config_items(&items);
    let parsed = parse_config(text.as_str());
    assert_same_items(&items, &parsed);
}

#[test]
fn empty_list_round_trips_as_empty_array() {
    let items: Vec<ConfigItem> = vec![];
    let text = serialize_config_items(&items);
    assert_eq!(text, "[]");
    let parsed = parse_config(text.as_str());
    assert!(parsed.is_empty());
}

#[test]
fn malformed_text_parses_as_empty_list() {
    assert!(parse_config("").is_empty());
    assert!(parse_config("not json at all").is_empty());
    assert!(parse_config("[{\"id\":\"a\"}]").is_empty());
    assert!(parse_config("[").is_empty());
}

#[test]
fn serialized_form_is_stable() {
    let items = vec![ConfigItem::new(
        "a".to_string(),
        true,
        "A".to_string(),
        ConfigItemType::User,
    )];
    let text = serialize_config_items(&items);
    assert_eq!(text, "[{\"id\":\"a\",\"on\":true,\"title\":\"A\",\"item_type\":1}]");
}

#[test]
fn add_config_item_appends_disabled_user_entry() {
    let mut config = sample_items();
    add_config_item(&mut config, "c".to_string(), "C".to_string());
    assert_eq!(config.len(), 3);
    assert_eq!(config[2].id(), "c");
    assert!(!config[2].is_on());
    assert_eq!(config[2].item_type(), &ConfigItemType::User);
}

#[test]
fn add_config_item_updates_title_of_existing_entry() {
    let mut config = sample_items();
    add_config_item(&mut config, "a".to_string(), "A2".to_string());
    assert_eq!(config.len(), 2);
    assert_eq!(config[0].title(), "A2");
    assert!(config[0].is_on());
}

#[test]
fn delete_config_item_removes_entry_by_id() {
    let mut config = sample_items();
    delete_config_item(&mut config, &"a".to_string());
    assert_eq!(config.len(), 1);
    assert_eq!(config[0].id(), "b");
    delete_config_item(&mut config, &"missing".to_string());
    assert_eq!(config.len(), 1);
}

#[test]
fn update_config_item_overwrites_flag_and_title() {
    let mut config = sample_items();
    let new_item = ConfigItem::new("b".to_string(), true, "B2".to_string(), ConfigItemType::User);
    update_config_item(&mut config, &"b".to_string(), &new_item);
    assert!(config[1].is_on());
    assert_eq!(config[1].title(), "B2");
}

#[test]
fn find_index_of_id_finds_first_match() {
    let config = sample_items();
    assert_eq!(find_index_of_id(&config, &"b".to_string()), Some(1));
    assert_eq!(find_index_of_id(&config, &"zz".to_string()), None);
}

#[test]
fn validate_title_rejects_empty_titles() {
    assert_eq!(validate_title(&"".to_string()), Err(HostsError::Validation));
    assert_eq!(validate_title(&"Work".to_string()), Ok(()));
}

#[test]
fn paths_follow_the_application_layout() {
    assert_eq!(get_switch_hosts_rs_dir("/home/u"), "/home/u/.SwitchHostsRs");
    assert_eq!(get_config_path("/home/u"), "/home/u/.SwitchHostsRs/config.json");
    assert_eq!(get_data_dir("/home/u"), "/home/u/.SwitchHostsRs/data");
    assert_eq!(get_item_data_path("/home/u", "abc"), "/home/u/.SwitchHostsRs/data/abc.txt");
}

#[test]
fn kind_codes_of_one_and_above_decode_to_user() {
    assert_eq!(ConfigItemType::from(1), ConfigItemType::User);
    assert_eq!(ConfigItemType::from(7), ConfigItemType::User);
    assert_eq!(ConfigItemType::from(0), ConfigItemType::System);
    assert_eq!(ConfigItemType::from(-3), ConfigItemType::System);
}

#[test]
fn parsed_kind_follows_the_persisted_code() {
    let user = parse_config("[{\"id\":\"a\",\"on\":false,\"title\":\"A\",\"item_type\":1}]");
    assert_eq!(user[0].item_type(), &ConfigItemType::User);
    let system = parse_config("[{\"id\":\"a\",\"on\":false,\"title\":\"A\",\"item_type\":0}]");
    assert_eq!(system[0].item_type(), &ConfigItemType::System);
}

#[test]
fn test_read_writer_config() {
    let data = r#"
            [
                { "id": "a", "on": true, "title": "A" },
                { "id": "b", "on": false, "title": "B" }
            ]
        "#;
    let config = parse_config(data);
    assert_eq!(config.len(), 2);
    assert_eq!(config[0].id(), &"a".to_owned());
    assert_eq!(config[1].id(), &"b".to_owned());
}

#[test]
fn reader_defaults_missing_fields_per_entry() {
    let config = parse_config("[{\"id\":\"a\",\"title\":\"A\"}]");
    assert_eq!(config.len(), 1);
    assert!(!config[0].is_on());
    assert_eq!(config[0].item_type(), &ConfigItemType::User);
}

#[test]
fn reader_accepts_any_field_order_and_unknown_scalar_keys() {
    let config = parse_config(
        "[{\"title\":\"A\",\"item_type\":0,\"note\":null,\"on\":true,\"id\":\"a\"}]",
    );
    assert_eq!(config.len(), 1);
    assert_eq!(config[0].id(), "a");
    assert!(config[0].is_on());
    assert_eq!(config[0].item_type(), &ConfigItemType::System);
}

#[test]
fn reader_defaults_non_boolean_on_and_non_numeric_kind() {
    let config = parse_config(
        "[{\"id\":\"a\",\"on\":\"yes\",\"title\":\"A\",\"item_type\":\"User\"}]",
    );
    assert_eq!(config.len(), 1);
    assert!(!config[0].is_on());
    assert_eq!(config[0].item_type(), &ConfigItemType::User);
}

#[test]
fn reader_decodes_numeric_kinds_by_the_threshold() {
    let config = parse_config(
        "[{\"id\":\"a\",\"on\":true,\"title\":\"A\",\"item_type\":12},\
         {\"id\":\"b\",\"on\":true,\"title\":\"B\",\"item_type\":-3}]",
    );
    assert_eq!(config.len(), 2);
    assert_eq!(config[0].item_type(), &ConfigItemType::User);
    assert_eq!(config[1].item_type(), &ConfigItemType::System);
}

#[test]
fn reader_takes_the_last_of_duplicated_keys() {
    let config = parse_config("[{\"id\":\"a\",\"title\":\"old\",\"title\":\"new\"}]");
    assert_eq!(config.len(), 1);
    assert_eq!(config[0].title(), "new");
}

#[test]
fn reader_refuses_entries_without_string_id_or_title() {
    assert!(parse_config("[{\"id\":1,\"title\":\"A\"}]").is_empty());
    assert!(parse_config("[{\"id\":\"a\",\"on\":true}]").is_empty());
}
