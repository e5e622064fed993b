use vstd::prelude::*;

use crate::data::{ConfigItem, find_index_of_id, items_view, spec_find_id};

verus! {

/// The first profile carrying `id`, if any.
pub fn find_config_by_id<'a>(list: &'a Vec<ConfigItem>, id: &String) -> (r: Option<&'a ConfigItem>)
    ensures
        match spec_find_id(items_view(list@), id@, 0) {
            Some(i) => r matches Some(it) && it@ == items_view(list@)[i],
            None => r is None,
        },
{
    match find_index_of_id(list, id) {
        Some(i) => Some(&list[i]),
        None => None,
    }
}

/// The position of the first profile carrying `id`, if any.
pub fn find_selected_index(list: &Vec<ConfigItem>, id: &String) -> (r: Option<usize>)
    ensures
        match r {
            Some(i) => spec_find_id(items_view(list@), id@, 0) == Some(i as int),
            None => spec_find_id(items_view(list@), id@, 0) is None,
        },
{
    find_index_of_id(list, id)
}

} // verus!
