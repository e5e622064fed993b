use switch_hosts_rs::data::{ConfigItem, ConfigItemType};
use switch_hosts_rs::search::{search_hosts, SearchDetail, SearchResult};
use switch_hosts_rs::state::State;

#[test]
pub fn test_search_hosts() {
    let hosts_content = r#"
            127.0.0.1 localhost
            127.0.0.1 dev.cn
            192.167.0.1 dev2.cn
        "#;
    let result = search_hosts("127.0.0.1", hosts_content);
    assert_eq!(
        result,
        vec![
            SearchDetail(1, "127.0.0.1 localhost".to_string()),
            SearchDetail(2, "127.0.0.1 dev.cn".to_string())
        ]
    );
}

#[test]
pub fn test_take() {
    let a = vec![2, 3, 4, 5];

    let b = a
        .iter()
        .enumerate()
        .skip(2)
        .take(2)
        .map(|(index, _num)| {
            return index;
        })
        .collect::<Vec<_>>();

    println!("{:#?}", b);
}

#[test]
fn search_trims_each_matching_line() {
    let result = search_hosts("host", "  spacious host  \nno match");
    assert_eq!(result, vec![SearchDetail(0, "spacious host".to_string())]);
}

#[test]
fn search_with_no_hits_is_empty() {
    let result = search_hosts("missing", "a\nb\nc");
    assert!(result.is_empty());
}

#[test]
fn search_result_table_skips_system_and_indexes_rows() {
    let items = vec![
        ConfigItem::new(
            "system".to_string(),
            true,
            "system".to_string(),
            ConfigItemType::System,
        ),
        ConfigItem::new("a".to_string(), true, "Alpha".to_string(), ConfigItemType::User),
        ConfigItem::new("b".to_string(), false, "Beta".to_string(), ConfigItemType::User),
    ];
    let contents = vec![
        "127.0.0.1 match-in-system".to_string(),
        "127.0.0.1 one\nother line\n127.0.0.1 two".to_string(),
        "127.0.0.1 three".to_string(),
    ];
    let mut table = SearchResult::new();
    table.update(&items, &contents, "127.0.0.1".to_string());
    let rows = table.rows();
    assert_eq!(rows.len(), 3);
    assert_eq!(rows[0].index(), 1);
    assert_eq!(rows[0].row(), 1);
    assert_eq!(rows[0].item_id(), "a");
    assert_eq!(rows[0].title(), "Alpha");
    assert_eq!(rows[0].row_content(), "127.0.0.1 one");
    assert_eq!(rows[1].index(), 2);
    assert_eq!(rows[1].row(), 3);
    assert_eq!(rows[1].row_content(), "127.0.0.1 two");
    assert_eq!(rows[2].index(), 3);
    assert_eq!(rows[2].item_id(), "b");
    assert_eq!(rows[2].row(), 1);
}

#[test]
fn clearing_the_table_drops_every_row() {
    let items = vec![ConfigItem::new(
        "a".to_string(),
        true,
        "Alpha".to_string(),
        ConfigItemType::User,
    )];
    let contents = vec!["hit".to_string()];
    let mut table = SearchResult::new();
    table.update(&items, &contents, "hit".to_string());
    assert_eq!(table.rows().len(), 1);
    table.clear();
    assert!(table.rows().is_empty());
}

#[test]
fn state_init_prepends_system_and_selects_it() {
    let mut state = State::default();
    assert!(state.selected_host_item_id.is_none());
    assert!(!state.is_filter);
    state.init(vec![ConfigItem::new(
        "a".to_string(),
        false,
        "A".to_string(),
        ConfigItemType::User,
    )]);
    assert_eq!(state.selected_host_item_id, Some("system".to_string()));
    assert_eq!(state.all_hosts_item_list.len(), 2);
    assert_eq!(state.all_hosts_item_list[0].id(), "system");
    assert_eq!(state.all_hosts_item_list[1].id(), "a");
}
