use vstd::prelude::*;
use vstd::string::StringExecFns;

verus! {

/// Which kind a profile is: the built-in pseudo-profile that stands for the
/// live system hosts file, or an ordinary user profile.
#[derive(Clone, Copy, Debug, PartialEq, Eq, Structural)]
pub enum ConfigItemType {
    System,
    User,
}

/// The persisted integer code decodes to `User` exactly when it is at least 1.
pub open spec fn item_type_of_code(value: i64) -> ConfigItemType {
    if value >= 1 {
        ConfigItemType::User
    } else {
        ConfigItemType::System
    }
}

impl From<i64> for ConfigItemType {
    fn from(value: i64) -> (r: Self) {
        if value >= 1 {
            ConfigItemType::User
        } else {
            ConfigItemType::System
        }
    }
}

impl vstd::std_specs::convert::FromSpecImpl<i64> for ConfigItemType {
    open spec fn obeys_from_spec() -> bool {
        true
    }

    open spec fn from_spec(value: i64) -> Self {
        item_type_of_code(value)
    }
}

/// The mathematical value of one profile entry.
#[verifier::ext_equal]
pub ghost struct ConfigItemView {
    pub id: Seq<char>,
    pub on: bool,
    pub title: Seq<char>,
    pub item_type: ConfigItemType,
}

/// One named profile: a stable id, a display title, whether its content is
/// merged into the system hosts file, and its kind.
#[derive(Clone, Debug)]
pub struct ConfigItem {
    id: String,
    on: bool,
    title: String,
    item_type: ConfigItemType,
}

impl View for ConfigItem {
    type V = ConfigItemView;

    closed spec fn view(&self) -> ConfigItemView {
        ConfigItemView { id: self.id@, on: self.on, title: self.title@, item_type: self.item_type }
    }
}

impl ConfigItem {
    pub fn new(id: String, on: bool, title: String, item_type: ConfigItemType) -> (r: Self)
        ensures
            r@ == (ConfigItemView { id: id@, on, title: title@, item_type }),
    {
        ConfigItem { id, on, title, item_type }
    }

    pub fn is_on(&self) -> (r: bool)
        ensures
            r == self@.on,
    {
        self.on
    }

    pub fn id(&self) -> (r: &String)
        ensures
            r@ == self@.id,
    {
        &self.id
    }

    pub fn set_is_on(&mut self, is_on: bool)
        ensures
            final(self)@ == (ConfigItemView { on: is_on, ..old(self)@ }),
    {
        self.on = is_on;
    }

    pub fn title(&self) -> (r: &String)
        ensures
            r@ == self@.title,
    {
        &self.title
    }

    pub fn set_title(&mut self, title: String)
        ensures
            final(self)@ == (ConfigItemView { title: title@, ..old(self)@ }),
    {
        self.title = title;
    }

    pub fn item_type(&self) -> (r: &ConfigItemType)
        ensures
            *r == self@.item_type,
    {
        &self.item_type
    }
}

/// The application directory under the user's home directory.
pub fn get_switch_hosts_rs_dir(home: &str) -> (r: String)
    ensures
        r@ == home@ + "/.SwitchHostsRs"@,
{
    let mut r = home.to_owned();
    r.append("/.SwitchHostsRs");
    r
}

/// The metadata file inside the application directory.
pub fn get_config_path(home: &str) -> (r: String)
    ensures
        r@ == home@ + "/.SwitchHostsRs"@ + "/config.json"@,
{
    let mut r = get_switch_hosts_rs_dir(home);
    r.append("/config.json");
    r
}

/// The content-file directory inside the application directory.
pub fn get_data_dir(home: &str) -> (r: String)
    ensures
        r@ == home@ + "/.SwitchHostsRs"@ + "/data"@,
{
    let mut r = get_switch_hosts_rs_dir(home);
    r.append("/data");
    r
}

/// The content file of one profile: `{id}.txt` inside the data directory.
pub fn get_item_data_path(home: &str, id: &str) -> (r: String)
    ensures
        r@ == home@ + "/.SwitchHostsRs"@ + "/data"@ + "/"@ + id@ + ".txt"@,
{
    let mut r = get_data_dir(home);
    r.append("/");
    r.append(id);
    r.append(".txt");
    r
}

/// The sequence of mathematical values behind a sequence of profile entries.
pub open spec fn items_view(s: Seq<ConfigItem>) -> Seq<ConfigItemView> {
    s.map_values(|c: ConfigItem| c@)
}

/// The position of the first entry carrying `id`, if any.
pub open spec fn spec_find_id(s: Seq<ConfigItemView>, id: Seq<char>, i: int) -> Option<int>
    decreases s.len() - i,
{
    if i < 0 || i >= s.len() {
        None
    } else if s[i].id == id {
        Some(i)
    } else {
        spec_find_id(s, id, i + 1)
    }
}

/// Upsert by id: if an entry with `id` exists, only its title changes;
/// otherwise a new disabled user entry is appended.
pub fn add_config_item(config: &mut Vec<ConfigItem>, id: String, title: String)
    ensures
        match spec_find_id(items_view(old(config)@), id@, 0) {
            Some(i) => final(config)@.len() == old(config)@.len() && items_view(final(config)@)
                =~= items_view(old(config)@).update(
                i,
                ConfigItemView { title: title@, ..items_view(old(config)@)[i] },
            ),
            None => items_view(final(config)@) =~= items_view(old(config)@).push(
                ConfigItemView { id: id@, on: false, title: title@, item_type: ConfigItemType::User },
            ),
        },
{
    match find_index_of_id(config, &id) {
        Some(i) => {
            let item = &mut config[i];
            item.set_title(title);
            proof {
                assert(items_view(config@) =~= items_view(old(config)@).update(
                    i as int,
                    ConfigItemView { title: title@, ..items_view(old(config)@)[i as int] },
                ));
            }
        },
        None => {
            let item = ConfigItem::new(id, false, title, ConfigItemType::User);
            config.push(item);
            proof {
                assert(items_view(config@) =~= items_view(old(config)@).push(config@.last()@));
            }
        },
    }
}

/// Remove the first entry carrying `id`; leave the list unchanged when none does.
pub fn delete_config_item(config: &mut Vec<ConfigItem>, id: &String)
    ensures
        match spec_find_id(items_view(old(config)@), id@, 0) {
            Some(i) => items_view(final(config)@) =~= items_view(old(config)@).remove(i),
            None => final(config)@ == old(config)@,
        },
{
    match find_index_of_id(config, id) {
        Some(i) => {
            config.remove(i);
            proof {
                assert(items_view(config@) =~= items_view(old(config)@).remove(i as int));
            }
        },
        None => {},
    }
}

/// Overwrite the enabled flag and title of the first entry carrying `id` with
/// those of `new_config`; leave the list unchanged when none does.
pub fn update_config_item(config: &mut Vec<ConfigItem>, id: &String, new_config: &ConfigItem)
    ensures
        match spec_find_id(items_view(old(config)@), id@, 0) {
            Some(i) => final(config)@.len() == old(config)@.len() && items_view(final(config)@)
                =~= items_view(old(config)@).update(
                i,
                ConfigItemView {
                    on: new_config@.on,
                    title: new_config@.title,
                    ..items_view(old(config)@)[i]
                },
            ),
            None => final(config)@ == old(config)@,
        },
{
    match find_index_of_id(config, id) {
        Some(i) => {
            let title = new_config.title().clone();
            let on = new_config.is_on();
            let item = &mut config[i];
            item.set_is_on(on);
            let item = &mut config[i];
            item.set_title(title);
            proof {
                assert(items_view(config@) =~= items_view(old(config)@).update(
                    i as int,
                    ConfigItemView {
                        on: new_config@.on,
                        title: new_config@.title,
                        ..items_view(old(config)@)[i as int]
                    },
                ));
            }
        },
        None => {},
    }
}

/// What `spec_find_id` returns is the first entry with the id: a found
/// position carries `id` and no earlier one does; `None` means none does.
pub proof fn lemma_spec_find_id_first(s: Seq<ConfigItemView>, id: Seq<char>, i: int)
    requires
        0 <= i,
    ensures
        match spec_find_id(s, id, i) {
            Some(j) => i <= j < s.len() && s[j].id == id && forall|k: int|
                i <= k < j ==> s[k].id != id,
            None => forall|k: int| i <= k < s.len() ==> s[k].id != id,
        },
    decreases s.len() - i + 1,
{
    if i < s.len() {
        if s[i].id != id {
            lemma_spec_find_id_first(s, id, i + 1);
        }
    }
}

/// The index of the first entry carrying `id`, mirroring `spec_find_id`.
pub fn find_index_of_id(list: &Vec<ConfigItem>, id: &String) -> (r: Option<usize>)
    ensures
        match r {
            Some(i) => 0 <= i < list@.len() && spec_find_id(items_view(list@), id@, 0) == Some(
                i as int,
            ),
            None => spec_find_id(items_view(list@), id@, 0) is None,
        },
{
    let mut i: usize = 0;
    while i < list.len()
        invariant
            0 <= i <= list@.len(),
            spec_find_id(items_view(list@), id@, 0) == spec_find_id(items_view(list@), id@, i as int),
        decreases list@.len() - i,
    {
        proof {
            assert(items_view(list@)[i as int] == list@[i as int]@);
        }
        if list[i].id().eq(id) {
            proof {
                assert(spec_find_id(items_view(list@), id@, i as int) == Some(i as int));
            }
            return Some(i);
        }
        proof {
            assert(spec_find_id(items_view(list@), id@, i as int) == spec_find_id(
                items_view(list@),
                id@,
                i as int + 1,
            ));
        }
        i = i + 1;
    }
    None
}

} // verus!
