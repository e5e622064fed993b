use vstd::prelude::*;
use vstd::string::StringExecFns;

use crate::HostsError;
use crate::codec::{serialize_config_items, spec_json_config};
use crate::data::{
    ConfigItem, ConfigItemType, ConfigItemView, find_index_of_id, items_view,
    lemma_spec_find_id_first, spec_find_id,
};
use crate::observer::{Observer, Subject};

verus! {

/// The built-in pseudo-profile that stands for the live system hosts file.
pub open spec fn sys_item_view() -> ConfigItemView {
    ConfigItemView {
        id: "system"@,
        on: true,
        title: "system"@,
        item_type: ConfigItemType::System,
    }
}

/// Whether one profile takes part in the merged hosts body when the profile
/// carrying `toggled_id` is hypothetically set to `toggled`: the system
/// pseudo-profile never does, the toggled one per the override, every other
/// one per its own flag.
pub open spec fn merge_includes(it: ConfigItemView, toggled_id: Seq<char>, toggled: bool) -> bool {
    it.id != "system"@ && (if it.id == toggled_id {
        toggled
    } else {
        it.on
    })
}

/// Whether any profile at or after position `i` takes part in the merge.
pub open spec fn any_included_from(
    items: Seq<ConfigItemView>,
    toggled_id: Seq<char>,
    toggled: bool,
    i: int,
) -> bool
    decreases items.len() - i,
{
    if i < 0 || i >= items.len() {
        false
    } else {
        merge_includes(items[i], toggled_id, toggled) || any_included_from(
            items,
            toggled_id,
            toggled,
            i + 1,
        )
    }
}

/// The merged hosts body built from the profiles at or after position `i`:
/// the contents of the included profiles, in list order, joined by single
/// newlines.
pub open spec fn spec_hosts_body(
    items: Seq<ConfigItemView>,
    contents: Seq<Seq<char>>,
    toggled_id: Seq<char>,
    toggled: bool,
    i: int,
) -> Seq<char>
    decreases items.len() - i,
{
    if i < 0 || i >= items.len() {
        Seq::empty()
    } else if merge_includes(items[i], toggled_id, toggled) {
        contents[i] + if any_included_from(items, toggled_id, toggled, i + 1) {
            "\n"@ + spec_hosts_body(items, contents, toggled_id, toggled, i + 1)
        } else {
            Seq::empty()
        }
    } else {
        spec_hosts_body(items, contents, toggled_id, toggled, i + 1)
    }
}

/// What a planned toggle asks the caller to do before it may be committed.
pub struct WriteAction {
    /// The merged body to place inside the managed block of the hosts file.
    pub hosts_content: String,
    /// The enabled flag the selected profile takes if the write succeeds.
    pub new_on: bool,
    /// Whether the flag is to be persisted and committed at all; a pure
    /// content refresh leaves the flag alone.
    pub update_flag: bool,
}

/// The decision `toggle_on_off` reaches: nothing to do, or a hosts write.
pub enum TogglePlan {
    Unchanged,
    Write(WriteAction),
}

/// The ordered profile collection, its selection cursor, and the observer bus
/// told about selection changes.
pub struct HostsList<O: Observer> {
    item_list: Vec<ConfigItem>,
    selected: Option<String>,
    event_subject: Option<Subject<O>>,
}

impl<O: Observer> HostsList<O> {
    /// The mathematical values of the profiles, in list order.
    pub closed spec fn items(&self) -> Seq<ConfigItemView> {
        items_view(self.item_list@)
    }

    /// The id of the selected profile, if one is selected.
    pub closed spec fn sel(&self) -> Option<Seq<char>> {
        match self.selected {
            Some(s) => Some(s@),
            None => None,
        }
    }

    /// The id the selection resolves against: the selected id, or the empty
    /// id when nothing is selected.
    pub open spec fn effective_sel_id(&self) -> Seq<char> {
        match self.sel() {
            Some(id) => id,
            None => Seq::empty(),
        }
    }

    /// The position of the selected profile in the list, if it is present.
    pub open spec fn sel_index(&self) -> Option<int> {
        spec_find_id(self.items(), self.effective_sel_id(), 0)
    }

    /// How many observers the injected subject holds; zero when none was
    /// injected.
    pub closed spec fn subject_count(&self) -> nat {
        match self.event_subject {
            Some(s) => s.count(),
            None => 0,
        }
    }

    /// Whether a subject was injected.
    pub closed spec fn has_subject(&self) -> bool {
        self.event_subject is Some
    }

    pub fn new() -> (r: Self)
        ensures
            r.items().len() == 0,
            r.sel() is None,
            !r.has_subject(),
    {
        HostsList { item_list: Vec::new(), selected: None, event_subject: None }
    }

    pub fn create_sys_item(&self) -> (r: ConfigItem)
        ensures
            r@ == sys_item_view(),
    {
        ConfigItem::new(
            String::from_str("system"),
            true,
            String::from_str("system"),
            ConfigItemType::System,
        )
    }

    /// Prepend the synthetic system profile, take over the loaded user
    /// profiles, select the first profile of the list, and tell the observers.
    pub fn init(&mut self, config_item_list: Vec<ConfigItem>)
        ensures
            final(self).items() == old(self).items().push(sys_item_view()) + items_view(
                config_item_list@,
            ),
            final(self).sel() == Some(final(self).items()[0].id),
            final(self).subject_count() == old(self).subject_count(),
            final(self).has_subject() == old(self).has_subject(),
    {
        let sys = self.create_sys_item();
        self.item_list.push(sys);
        let mut loaded = config_item_list;
        self.item_list.append(&mut loaded);
        proof {
            assert(items_view(self.item_list@) =~= items_view(old(self).item_list@).push(
                sys_item_view(),
            ) + items_view(config_item_list@));
        }
        let first_id = self.item_list[0].id().clone();
        self.selected = Some(first_id);
        self.dispatch_subject();
    }

    /// A fresh id for a profile about to be created.
    ///
    /// Relies on uuid::Uuid::new_v4 and its hyphenated Display form: a random
    /// version-4 UUID rendered as 36 characters. The value is random, so
    /// nothing more is promised of it; 36 characters in particular means the
    /// id can never collide with the 6-character literal id of the system
    /// pseudo-profile.
    #[verifier::external_body]
    pub fn new_item_id() -> (r: String)
        ensures
            r@.len() == 36,
    {
        uuid::Uuid::new_v4().to_string()
    }

    /// Take a freshly persisted profile into the in-memory list.
    ///
    /// `stored` reports whether the caller managed to persist the content
    /// file and the metadata entry first; when it could not, nothing in
    /// memory changes and the storage error is handed back, so the in-memory
    /// state never runs ahead of durable state.
    pub fn add_item(&mut self, id: String, title: String, stored: bool) -> (r: Result<
        (),
        HostsError,
    >)
        ensures
            !stored ==> r == Err::<(), HostsError>(HostsError::Storage) && *final(self) == *old(self),
            stored ==> r is Ok && final(self).items() == old(self).items().push(
                ConfigItemView {
                    id: id@,
                    on: false,
                    title: title@,
                    item_type: ConfigItemType::User,
                },
            ) && final(self).sel() == (if old(self).items().len() == 0 {
                Some(id@)
            } else {
                old(self).sel()
            }) && final(self).subject_count() == old(self).subject_count(),
    {
        if !stored {
            return Err(HostsError::Storage);
        }
        let select_it = self.item_list.len() == 0;
        let item = ConfigItem::new(id.clone(), false, title, ConfigItemType::User);
        self.item_list.push(item);
        proof {
            assert(items_view(self.item_list@) =~= items_view(old(self).item_list@).push(
                self.item_list@.last()@,
            ));
        }
        if select_it {
            self.selected = Some(id);
        }
        Ok(())
    }

    /// Remove the selected profile, after its content file was deleted.
    ///
    /// With nothing selected this does nothing and succeeds.
    pub fn delete_current_item(&mut self, content_deleted: bool) -> (r: Result<(), HostsError>)
        ensures
            old(self).sel() is None ==> r is Ok && *final(self) == *old(self),
            old(self).sel() matches Some(id) ==> delete_ensures(
                *old(self),
                *final(self),
                id,
                content_deleted,
                r,
            ),
    {
        let id = match &self.selected {
            Some(s) => s.clone(),
            None => {
                return Ok(());
            },
        };
        self.delete_item(id, content_deleted)
    }

    /// Remove the profile carrying `id` from the in-memory list, after its
    /// content file and metadata entry were removed.
    ///
    /// `content_deleted` reports whether the caller managed to delete the
    /// content file; when it could not, the list and the selection stay
    /// exactly as they were, so no metadata entry is dropped while its
    /// content file still exists. The system pseudo-profile is never
    /// deletable. When the removed profile was the selected one, the
    /// selection falls back to the first profile of the remaining list, or to
    /// none if the list became empty.
    pub fn delete_item(&mut self, id: String, content_deleted: bool) -> (r: Result<
        (),
        HostsError,
    >)
        ensures
            delete_ensures(*old(self), *final(self), id@, content_deleted, r),
    {
        if !content_deleted {
            return Err(HostsError::Storage);
        }
        let sys = String::from_str("system");
        if id.eq(&sys) {
            return Ok(());
        }
        match find_index_of_id(&self.item_list, &id) {
            None => Ok(()),
            Some(i) => {
                self.item_list.remove(i);
                proof {
                    assert(items_view(self.item_list@) =~= items_view(
                        old(self).item_list@,
                    ).remove(i as int));
                }
                let was_selected = match &self.selected {
                    Some(s) => s.eq(&id),
                    None => false,
                };
                if was_selected {
                    if self.item_list.len() > 0 {
                        let first_id = self.item_list[0].id().clone();
                        self.selected = Some(first_id);
                    } else {
                        self.selected = None;
                    }
                }
                Ok(())
            },
        }
    }

    pub fn get_selected_id(&self) -> (r: &Option<String>)
        ensures
            match r {
                Some(s) => self.sel() == Some(s@),
                None => self.sel() is None,
            },
    {
        &self.selected
    }

    pub fn get_selected_item(&self) -> (r: Option<&ConfigItem>)
        ensures
            match self.sel_index() {
                Some(i) => r matches Some(it) && it@ == self.items()[i],
                None => r is None,
            },
    {
        let id = match &self.selected {
            Some(s) => s.clone(),
            None => String::new(),
        };
        match find_index_of_id(&self.item_list, &id) {
            Some(i) => Some(&self.item_list[i]),
            None => None,
        }
    }

    /// Move the selection one position up, bounded at the top; observers are
    /// told only on an actual move.
    pub fn toggle_previous(&mut self)
        ensures
            final(self).items() == old(self).items(),
            final(self).subject_count() == old(self).subject_count(),
            final(self).has_subject() == old(self).has_subject(),
            match old(self).sel() {
                None => final(self).sel() == old(self).sel(),
                Some(id) => match spec_find_id(old(self).items(), id, 0) {
                    Some(i) => if i >= 1 {
                        final(self).sel() == Some(old(self).items()[i - 1].id)
                    } else {
                        final(self).sel() == old(self).sel()
                    },
                    None => final(self).sel() == old(self).sel(),
                },
            },
    {
        let id = match &self.selected {
            Some(s) => s.clone(),
            None => {
                return ;
            },
        };
        match find_index_of_id(&self.item_list, &id) {
            Some(i) => {
                if i >= 1 {
                    let new_id = self.item_list[i - 1].id().clone();
                    self.selected = Some(new_id);
                    self.dispatch_subject();
                }
            },
            None => {},
        }
    }

    /// Move the selection one position down, bounded at the bottom; observers
    /// are told only on an actual move.
    pub fn toggle_next(&mut self)
        ensures
            final(self).items() == old(self).items(),
            final(self).subject_count() == old(self).subject_count(),
            final(self).has_subject() == old(self).has_subject(),
            match old(self).sel() {
                None => final(self).sel() == old(self).sel(),
                Some(id) => match spec_find_id(old(self).items(), id, 0) {
                    Some(i) => if i + 1 < old(self).items().len() {
                        final(self).sel() == Some(old(self).items()[i + 1].id)
                    } else {
                        final(self).sel() == old(self).sel()
                    },
                    None => final(self).sel() == old(self).sel(),
                },
            },
    {
        let id = match &self.selected {
            Some(s) => s.clone(),
            None => {
                return ;
            },
        };
        let n = self.item_list.len();
        match find_index_of_id(&self.item_list, &id) {
            Some(i) => {
                if i + 1 < n {
                    let new_id = self.item_list[i + 1].id().clone();
                    self.selected = Some(new_id);
                    self.dispatch_subject();
                }
            },
            None => {},
        }
    }

    /// Move the selected profile one position up. The system profile at
    /// position 0 never moves, and the profile right after it stays put.
    pub fn move_to_previous(&mut self)
        ensures
            final(self).sel() == old(self).sel(),
            final(self).subject_count() == old(self).subject_count(),
            final(self).has_subject() == old(self).has_subject(),
            match old(self).sel_index() {
                Some(i) => if i >= 2 {
                    final(self).items() == old(self).items().remove(i).insert(
                        i - 1,
                        old(self).items()[i],
                    )
                } else {
                    final(self).items() == old(self).items()
                },
                None => final(self).items() == old(self).items(),
            },
    {
        let idx = self.selected_index_or_zero();
        if idx == 0 || idx == 1 {
            return ;
        }
        let item = self.item_list.remove(idx);
        self.item_list.insert(idx - 1, item);
        proof {
            assert(items_view(self.item_list@) =~= items_view(old(self).item_list@).remove(
                idx as int,
            ).insert(idx as int - 1, old(self).items()[idx as int]));
        }
    }

    /// Move the selected profile one position down. The system profile at
    /// position 0 never moves, and the last profile stays put.
    pub fn move_to_next(&mut self)
        ensures
            final(self).sel() == old(self).sel(),
            final(self).subject_count() == old(self).subject_count(),
            final(self).has_subject() == old(self).has_subject(),
            match old(self).sel_index() {
                Some(i) => if 1 <= i && i + 1 < old(self).items().len() {
                    final(self).items() == old(self).items().remove(i).insert(
                        i + 1,
                        old(self).items()[i],
                    )
                } else {
                    final(self).items() == old(self).items()
                },
                None => final(self).items() == old(self).items(),
            },
    {
        let idx = self.selected_index_or_zero();
        if idx == 0 || idx == self.item_list.len() - 1 {
            return ;
        }
        let item = self.item_list.remove(idx);
        self.item_list.insert(idx + 1, item);
        proof {
            assert(items_view(self.item_list@) =~= items_view(old(self).item_list@).remove(
                idx as int,
            ).insert(idx as int + 1, old(self).items()[idx as int]));
        }
    }

    /// Move the selected profile to the position right after the system
    /// profile. The system profile itself never moves.
    pub fn move_to_top(&mut self)
        ensures
            final(self).sel() == old(self).sel(),
            final(self).subject_count() == old(self).subject_count(),
            final(self).has_subject() == old(self).has_subject(),
            match old(self).sel_index() {
                Some(i) => if i >= 1 {
                    final(self).items() == old(self).items().remove(i).insert(
                        1,
                        old(self).items()[i],
                    )
                } else {
                    final(self).items() == old(self).items()
                },
                None => final(self).items() == old(self).items(),
            },
    {
        let idx = self.selected_index_or_zero();
        if idx == 0 {
            return ;
        }
        let item = self.item_list.remove(idx);
        self.item_list.insert(1, item);
        proof {
            assert(items_view(self.item_list@) =~= items_view(old(self).item_list@).remove(
                idx as int,
            ).insert(1, old(self).items()[idx as int]));
        }
    }

    /// Move the selected profile to the end of the list. The system profile
    /// never moves.
    pub fn move_to_bottom(&mut self)
        ensures
            final(self).sel() == old(self).sel(),
            final(self).subject_count() == old(self).subject_count(),
            final(self).has_subject() == old(self).has_subject(),
            match old(self).sel_index() {
                Some(i) => if i >= 1 {
                    final(self).items() == old(self).items().remove(i).push(old(self).items()[i])
                } else {
                    final(self).items() == old(self).items()
                },
                None => final(self).items() == old(self).items(),
            },
    {
        let idx = self.selected_index_or_zero();
        if idx == 0 {
            return ;
        }
        let item = self.item_list.remove(idx);
        let end = self.item_list.len();
        self.item_list.insert(end, item);
        proof {
            assert(items_view(self.item_list@) =~= items_view(old(self).item_list@).remove(
                idx as int,
            ).push(old(self).items()[idx as int]));
        }
    }

    /// The position the reorder commands work from: the selected profile's
    /// index, or 0 when the selection is absent or stale.
    fn selected_index_or_zero(&self) -> (r: usize)
        ensures
            match self.sel_index() {
                Some(i) => r == i,
                None => r == 0,
            },
            r < self.items().len() || r == 0,
    {
        let id = match &self.selected {
            Some(s) => s.clone(),
            None => String::new(),
        };
        match find_index_of_id(&self.item_list, &id) {
            Some(i) => i,
            None => 0,
        }
    }

    /// Build the merged hosts body under a hypothetical override of one
    /// profile's enabled flag: the contents of every included profile, in
    /// list order, joined by single newlines. `contents[i]` is the content of
    /// the profile at position `i`; the system profile's entry is never read.
    pub fn generate_hosts_content(
        &self,
        toggled_id: &String,
        toggled: bool,
        contents: &Vec<String>,
    ) -> (r: String)
        requires
            contents@.len() == self.items().len(),
        ensures
            r@ == spec_hosts_body(
                self.items(),
                contents@.map_values(|s: String| s@),
                toggled_id@,
                toggled,
                0,
            ),
    {
        let ghost itemsg = self.items();
        let ghost cg = contents@.map_values(|s: String| s@);
        let ghost tid = toggled_id@;
        let sys = String::from_str("system");
        let mut out = String::new();
        let mut started = false;
        let n = self.item_list.len();
        let mut i: usize = 0;
        while i < n
            invariant
                0 <= i <= n,
                n == self.item_list@.len(),
                itemsg == items_view(self.item_list@),
                cg == contents@.map_values(|s: String| s@),
                cg.len() == itemsg.len(),
                contents@.len() == itemsg.len(),
                tid == toggled_id@,
                sys@ == "system"@,
                !started ==> out@.len() == 0 && spec_hosts_body(itemsg, cg, tid, toggled, 0)
                    == spec_hosts_body(itemsg, cg, tid, toggled, i as int),
                started ==> spec_hosts_body(itemsg, cg, tid, toggled, 0) == out@ + (
                if any_included_from(itemsg, tid, toggled, i as int) {
                    "\n"@ + spec_hosts_body(itemsg, cg, tid, toggled, i as int)
                } else {
                    Seq::<char>::empty()
                }),
            decreases n - i,
        {
            proof {
                assert(itemsg[i as int] == self.item_list@[i as int]@);
                assert(cg[i as int] == contents@[i as int]@);
            }
            let item = &self.item_list[i];
            let included = if item.id().eq(&sys) {
                false
            } else if item.id().eq(toggled_id) {
                toggled
            } else {
                item.is_on()
            };
            proof {
                assert(included == merge_includes(itemsg[i as int], tid, toggled));
                assert(any_included_from(itemsg, tid, toggled, i as int) == (included
                    || any_included_from(itemsg, tid, toggled, i as int + 1)));
                assert(spec_hosts_body(itemsg, cg, tid, toggled, i as int) == (if included {
                    cg[i as int] + if any_included_from(itemsg, tid, toggled, i as int + 1) {
                        "\n"@ + spec_hosts_body(itemsg, cg, tid, toggled, i as int + 1)
                    } else {
                        Seq::<char>::empty()
                    }
                } else {
                    spec_hosts_body(itemsg, cg, tid, toggled, i as int + 1)
                }));
            }
            let ghost out_pre = out@;
            let ghost started_pre = started;
            if included {
                if started {
                    out.push('\n');
                }
                out.append(contents[i].as_str());
                started = true;
                proof {
                    reveal_strlit("\n");
                    if started_pre {
                        assert(out@ =~= out_pre + "\n"@ + cg[i as int]);
                        if any_included_from(itemsg, tid, toggled, i as int + 1) {
                            assert(spec_hosts_body(itemsg, cg, tid, toggled, 0) =~= out@ + ("\n"@
                                + spec_hosts_body(itemsg, cg, tid, toggled, i as int + 1)));
                        } else {
                            assert(spec_hosts_body(itemsg, cg, tid, toggled, 0) =~= out@
                                + Seq::<char>::empty());
                        }
                    } else {
                        assert(out@ == Seq::<char>::empty() + cg[i as int]);
                        if any_included_from(itemsg, tid, toggled, i as int + 1) {
                            assert(spec_hosts_body(itemsg, cg, tid, toggled, 0) =~= out@ + ("\n"@
                                + spec_hosts_body(itemsg, cg, tid, toggled, i as int + 1)));
                        } else {
                            assert(spec_hosts_body(itemsg, cg, tid, toggled, 0) =~= out@
                                + Seq::<char>::empty());
                        }
                    }
                }
            }
            i = i + 1;
        }
        proof {
            assert(!any_included_from(itemsg, tid, toggled, n as int));
            assert(spec_hosts_body(itemsg, cg, tid, toggled, n as int) == Seq::<char>::empty());
            assert(spec_hosts_body(itemsg, cg, tid, toggled, 0) =~= out@);
        }
        out
    }

    /// The serialized metadata for the current list: every profile except the
    /// system pseudo-profile, in list order. The system entry is never
    /// persisted; the caller writes the returned text over the metadata file.
    pub fn sync_config(&self) -> (r: String)
        ensures
            r@ == spec_json_config(non_system(self.items())),
    {
        let sys = String::from_str("system");
        let mut filtered: Vec<ConfigItem> = Vec::new();
        let mut i: usize = 0;
        let n = self.item_list.len();
        while i < n
            invariant
                0 <= i <= n,
                n == self.item_list@.len(),
                sys@ == "system"@,
                items_view(filtered@) == non_system(self.items().subrange(0, i as int)),
            decreases n - i,
        {
            proof {
                assert(self.items()[i as int] == self.item_list@[i as int]@);
                assert(self.items().subrange(0, i as int + 1).drop_last() =~= self.items().subrange(
                    0,
                    i as int,
                ));
                assert(self.items().subrange(0, i as int + 1).last() == self.items()[i as int]);
            }
            let item = &self.item_list[i];
            if !item.id().eq(&sys) {
                let copy = ConfigItem::new(
                    item.id().clone(),
                    item.is_on(),
                    item.title().clone(),
                    *item.item_type(),
                );
                filtered.push(copy);
                proof {
                    assert(items_view(filtered@) =~= items_view(filtered@.drop_last()).push(
                        self.items()[i as int],
                    ));
                }
            }
            i = i + 1;
        }
        proof {
            assert(self.items().subrange(0, n as int) =~= self.items());
        }
        serialize_config_items(&filtered)
    }

    /// The central operation: decide what toggling the selected profile (or
    /// refreshing its content, when `only_update_content`) asks of the
    /// caller. With a stale or absent selection nothing happens and
    /// `NotFound` is reported. Refreshing a disabled profile is a no-op.
    /// Otherwise the caller receives the merged hosts body to write, built
    /// under the candidate flag, and — for a real toggle — the flipped flag to
    /// persist and commit once the write succeeded.
    pub fn toggle_on_off(&self, contents: &Vec<String>, only_update_content: bool) -> (r: Result<
        TogglePlan,
        HostsError,
    >)
        requires
            contents@.len() == self.items().len(),
        ensures
            match r {
                Err(e) => e == HostsError::NotFound && self.sel_index() is None,
                Ok(plan) => self.sel_index() matches Some(i) && ({
                    let it = self.items()[i];
                    if only_update_content && !it.on {
                        plan == TogglePlan::Unchanged
                    } else {
                        &&& plan matches TogglePlan::Write(w)
                        &&& w.hosts_content@ == spec_hosts_body(
                            self.items(),
                            contents@.map_values(|s: String| s@),
                            it.id,
                            if only_update_content {
                                true
                            } else {
                                !it.on
                            },
                            0,
                        )
                        &&& w.new_on == (if only_update_content {
                            it.on
                        } else {
                            !it.on
                        })
                        &&& w.update_flag == !only_update_content
                    }
                }),
            },
    {
        let id = match &self.selected {
            Some(s) => s.clone(),
            None => String::new(),
        };
        match find_index_of_id(&self.item_list, &id) {
            None => Err(HostsError::NotFound),
            Some(idx) => {
                proof {
                    assert(self.items()[idx as int] == self.item_list@[idx as int]@);
                    lemma_spec_find_id_first(self.items(), id@, 0);
                }
                let on = self.item_list[idx].is_on();
                if only_update_content && !on {
                    Ok(TogglePlan::Unchanged)
                } else {
                    let toggled = if only_update_content {
                        true
                    } else {
                        !on
                    };
                    let item_id = self.item_list[idx].id().clone();
                    let body = self.generate_hosts_content(&item_id, toggled, contents);
                    Ok(
                        TogglePlan::Write(
                            WriteAction {
                                hosts_content: body,
                                new_on: if only_update_content {
                                    on
                                } else {
                                    !on
                                },
                                update_flag: !only_update_content,
                            },
                        ),
                    )
                }
            },
        }
    }

    /// Rename the selected profile. An empty title is rejected and never
    /// applied; the system pseudo-profile keeps its name; with a stale or
    /// absent selection nothing changes.
    pub fn update_item_title(&mut self, title: String) -> (r: Result<(), HostsError>)
        ensures
            final(self).sel() == old(self).sel(),
            final(self).subject_count() == old(self).subject_count(),
            final(self).has_subject() == old(self).has_subject(),
            r is Err <==> title@.len() == 0,
            r is Err ==> r == Err::<(), HostsError>(HostsError::Validation) && final(self).items()
                == old(self).items(),
            r is Ok ==> match old(self).sel() {
                None => final(self).items() == old(self).items(),
                Some(id) => if id == "system"@ {
                    final(self).items() == old(self).items()
                } else {
                    match spec_find_id(old(self).items(), id, 0) {
                        Some(i) => final(self).items() == old(self).items().update(
                            i,
                            ConfigItemView { title: title@, ..old(self).items()[i] },
                        ),
                        None => final(self).items() == old(self).items(),
                    }
                },
            },
    {
        if title.as_str().is_empty() {
            return Err(HostsError::Validation);
        }
        let id = match &self.selected {
            Some(s) => s.clone(),
            None => {
                return Ok(());
            },
        };
        let sys = String::from_str("system");
        if id.eq(&sys) {
            proof {
                lemma_spec_find_id_first(self.items(), id@, 0);
            }
            return Ok(());
        }
        match find_index_of_id(&self.item_list, &id) {
            Some(i) => {
                proof {
                    lemma_spec_find_id_first(self.items(), id@, 0);
                }
                let item = &mut self.item_list[i];
                item.set_title(title);
                proof {
                    assert(items_view(self.item_list@) =~= items_view(old(self).item_list@).update(
                        i as int,
                        ConfigItemView {
                            title: title@,
                            ..items_view(old(self).item_list@)[i as int]
                        },
                    ));
                }
                Ok(())
            },
            None => Ok(()),
        }
    }

    /// Set the selected profile's enabled flag in memory, once its new value
    /// was durably written; with a stale or absent selection nothing changes.
    pub fn set_selected_on(&mut self, new_on: bool)
        ensures
            final(self).sel() == old(self).sel(),
            final(self).subject_count() == old(self).subject_count(),
            final(self).has_subject() == old(self).has_subject(),
            match old(self).sel_index() {
                Some(i) => final(self).items() == old(self).items().update(
                    i,
                    ConfigItemView { on: new_on, ..old(self).items()[i] },
                ),
                None => final(self).items() == old(self).items(),
            },
    {
        let id = match &self.selected {
            Some(s) => s.clone(),
            None => String::new(),
        };
        match find_index_of_id(&self.item_list, &id) {
            Some(i) => {
                let item = &mut self.item_list[i];
                item.set_is_on(new_on);
                proof {
                    assert(items_view(self.item_list@) =~= items_view(old(self).item_list@).update(
                        i as int,
                        ConfigItemView { on: new_on, ..items_view(old(self).item_list@)[i as int] },
                    ));
                }
            },
            None => {},
        }
    }

    /// Hand the subject to the list; a second injection is ignored.
    pub fn inject_subject(&mut self, subject: Subject<O>)
        ensures
            final(self).items() == old(self).items(),
            final(self).sel() == old(self).sel(),
            final(self).has_subject(),
            final(self).subject_count() == (if old(self).has_subject() {
                old(self).subject_count()
            } else {
                subject.count()
            }),
    {
        if self.event_subject.is_none() {
            self.event_subject = Some(subject);
        }
    }

    /// Tell every observer which profile is selected now; with no selection
    /// the empty id is broadcast.
    pub fn dispatch_subject(&mut self)
        ensures
            final(self).items() == old(self).items(),
            final(self).sel() == old(self).sel(),
            final(self).subject_count() == old(self).subject_count(),
            final(self).has_subject() == old(self).has_subject(),
    {
        let id = match &self.selected {
            Some(s) => s.clone(),
            None => String::new(),
        };
        match &mut self.event_subject {
            Some(s) => s.notify(id.as_str()),
            None => {},
        }
    }
}

/// The error a failed hosts write reports: a denied direct write is the
/// recoverable `NoPermission`, which asks the caller to prompt for
/// credentials; a failure on the elevated path is the distinct `Elevation`
/// error, so the caller can re-prompt rather than silently give up. Either
/// way the toggle is not committed and the profile keeps its prior flag.
pub fn write_failure_error(elevated: bool) -> (r: HostsError)
    ensures
        r == (if elevated {
            HostsError::Elevation
        } else {
            HostsError::NoPermission
        }),
{
    if elevated {
        HostsError::Elevation
    } else {
        HostsError::NoPermission
    }
}

/// System-item protection under deletion: whatever `delete_item` was asked to
/// remove, and however the call went, a list whose first profile is the
/// system entry keeps it first.
pub proof fn lemma_delete_keeps_system_first<O: Observer>(
    pre: HostsList<O>,
    post: HostsList<O>,
    id: Seq<char>,
    content_deleted: bool,
    r: Result<(), HostsError>,
)
    requires
        delete_ensures(pre, post, id, content_deleted, r),
        pre.items().len() > 0,
        pre.items()[0].id == "system"@,
    ensures
        post.items().len() > 0,
        post.items()[0].id == "system"@,
{
    if content_deleted && id != "system"@ {
        match spec_find_id(pre.items(), id, 0) {
            Some(i) => {
                lemma_spec_find_id_first(pre.items(), id, 0);
                assert(i != 0);
                assert(post.items()[0] == pre.items()[0]);
            },
            None => {},
        }
    }
}

/// System-item protection under reordering: the reorder commands take a
/// profile from a position at or after 1 and put it back at or after 1 (or at
/// the end), so the first profile stays where it is.
pub proof fn lemma_reorder_keeps_system_first(items: Seq<ConfigItemView>, i: int, j: int)
    requires
        items.len() > 0,
        items[0].id == "system"@,
        1 <= i < items.len(),
        1 <= j <= items.len() - 1,
    ensures
        items.remove(i).insert(j, items[i])[0].id == "system"@,
        items.remove(i).push(items[i])[0].id == "system"@,
{
    assert(items.remove(i)[0] == items[0]);
    assert(items.remove(i).insert(j, items[i])[0] == items[0]);
}

/// The profiles that are persisted: every one but the system pseudo-profile,
/// in list order.
pub open spec fn non_system(items: Seq<ConfigItemView>) -> Seq<ConfigItemView>
    decreases items.len(),
{
    if items.len() == 0 {
        Seq::empty()
    } else {
        let rest = non_system(items.drop_last());
        if items.last().id == "system"@ {
            rest
        } else {
            rest.push(items.last())
        }
    }
}

/// How `delete_item` relates the list after the call to the list before it:
/// a failed content deletion changes nothing; the system pseudo-profile is
/// never removed; otherwise the first entry carrying the id leaves, and a
/// selection pointing at it falls back to the first remaining profile, or to
/// none.
pub open spec fn delete_ensures<O: Observer>(
    pre: HostsList<O>,
    post: HostsList<O>,
    id: Seq<char>,
    content_deleted: bool,
    r: Result<(), HostsError>,
) -> bool {
    &&& post.subject_count() == pre.subject_count()
    &&& post.has_subject() == pre.has_subject()
    &&& !content_deleted ==> r == Err::<(), HostsError>(HostsError::Storage) && post == pre
    &&& content_deleted && id == "system"@ ==> r is Ok && post.items() == pre.items() && post.sel()
        == pre.sel()
    &&& content_deleted && id != "system"@ ==> r is Ok && match spec_find_id(pre.items(), id, 0) {
        None => post.items() == pre.items() && post.sel() == pre.sel(),
        Some(i) => {
            &&& post.items() == pre.items().remove(i)
            &&& pre.sel() == Some(id) ==> post.sel() == (if post.items().len() > 0 {
                Some(post.items()[0].id)
            } else {
                None::<Seq<char>>
            })
            &&& pre.sel() != Some(id) ==> post.sel() == pre.sel()
        },
    }
}

} // verus!
