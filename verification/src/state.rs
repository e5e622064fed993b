use vstd::prelude::*;
use vstd::string::StringExecFns;

use crate::data::{ConfigItem, ConfigItemType, items_view};
use crate::list::sys_item_view;

verus! {

/// The shared UI state: the profile list with its selection, and the filter
/// text with its visibility.
pub struct State {
    pub selected_host_item_id: Option<String>,
    pub all_hosts_item_list: Vec<ConfigItem>,
    pub filter_input: String,
    pub is_filter: bool,
}

impl State {
    pub fn default() -> (r: Self)
        ensures
            r.selected_host_item_id is None,
            r.all_hosts_item_list@.len() == 0,
            r.filter_input@.len() == 0,
            !r.is_filter,
    {
        State {
            selected_host_item_id: None,
            all_hosts_item_list: Vec::new(),
            filter_input: String::new(),
            is_filter: false,
        }
    }

    /// Prepend the synthetic system profile, take over the loaded user
    /// profiles, and select the first profile of the list.
    pub fn init(&mut self, config_item_list: Vec<ConfigItem>)
        ensures
            items_view(final(self).all_hosts_item_list@) == items_view(
                old(self).all_hosts_item_list@,
            ).push(sys_item_view()) + items_view(config_item_list@),
            final(self).selected_host_item_id matches Some(id) && id@ == items_view(
                final(self).all_hosts_item_list@,
            )[0].id,
            final(self).filter_input == old(self).filter_input,
            final(self).is_filter == old(self).is_filter,
    {
        let sys = ConfigItem::new(
            String::from_str("system"),
            true,
            String::from_str("system"),
            ConfigItemType::System,
        );
        self.all_hosts_item_list.push(sys);
        let mut loaded = config_item_list;
        self.all_hosts_item_list.append(&mut loaded);
        proof {
            assert(items_view(self.all_hosts_item_list@) =~= items_view(
                old(self).all_hosts_item_list@,
            ).push(sys_item_view()) + items_view(config_item_list@));
        }
        let first_id = self.all_hosts_item_list[0].id().clone();
        self.selected_host_item_id = Some(first_id);
    }
}

} // verus!
