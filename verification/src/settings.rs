//! The device's settings: who it is, where files go, whom it trusts.

use crate::ids::{is_uuid_text, new_uuid};
use crate::storage::{join_path, join_path_string, PathStyle};
use crate::table::Table;
use crate::text::texts;
use vstd::prelude::*;
use vstd::string::*;

verus! {

/// A set of device ids.
pub struct DeviceSet {
    table: Table<()>,
}

impl DeviceSet {
    pub closed spec fn wf(&self) -> bool {
        self.table.wf()
    }

    pub closed spec fn view(&self) -> Set<Seq<char>> {
        self.table@.dom()
    }

    /// `ids` names every device of the set, each once.
    pub open spec fn listed_by(&self, ids: Seq<String>) -> bool {
        texts(ids).to_set() == self@ && texts(ids).no_duplicates()
    }

    /// `self` is the set of the devices that `ids` names.
    pub open spec fn built_from(&self, ids: Seq<String>) -> bool {
        self@ == texts(ids).to_set()
    }

    pub fn new() -> (s: Self)
        ensures
            s.wf(),
            s@ == Set::<Seq<char>>::empty(),
    {
        let s = DeviceSet { table: Table::new() };
        assert(s@ =~= Set::<Seq<char>>::empty());
        s
    }

    /// The set of the given ids; repeated ids count once.
    pub fn from_ids(ids: Vec<String>) -> (s: Self)
        ensures
            s.wf(),
            s.built_from(ids@),
    {
        let mut s = DeviceSet::new();
        let mut i: usize = 0;
        while i < ids.len()
            invariant
                s.wf(),
                i <= ids@.len(),
                s@ == texts(ids@.take(i as int)).to_set(),
            decreases ids@.len() - i,
        {
            let ghost before = s@;
            s.insert(ids[i].clone());
            assert(texts(ids@.take(i + 1)) =~= ids@.take(i as int).map_values(
                |id: String| id@,
            ).push(ids@[i as int]@));
            proof {
                let prefix = texts(ids@.take(i as int));
                let x = ids@[i as int]@;
                assert forall|k: Seq<char>| prefix.push(x).contains(k) == before.insert(x).contains(k) by {
                    if prefix.push(x).contains(k) {
                        let j = choose|j: int| 0 <= j < prefix.push(x).len() && prefix.push(x)[j] == k;
                        if j < prefix.len() {
                            assert(prefix[j] == k);
                        }
                    }
                    if prefix.contains(k) {
                        let j = choose|j: int| 0 <= j < prefix.len() && prefix[j] == k;
                        assert(prefix.push(x)[j] == k);
                    }
                    assert(prefix.push(x)[prefix.len() as int] == x);
                }
                assert(prefix.push(x).to_set() =~= before.insert(x));
            }
            i = i + 1;
        }
        assert(ids@.take(ids@.len() as int) =~= ids@);
        s
    }

    pub fn contains(&self, id: &str) -> (r: bool)
        requires
            self.wf(),
        ensures
            r == self@.contains(id@),
    {
        self.table.contains_key(id)
    }

    pub fn insert(&mut self, id: String)
        requires
            old(self).wf(),
        ensures
            final(self).wf(),
            final(self)@ == old(self)@.insert(id@),
    {
        self.table.insert(id, ());
        assert(self@ =~= old(self)@.insert(id@));
    }

    /// The ids, each once.
    pub fn to_ids(&self) -> (v: Vec<String>)
        requires
            self.wf(),
        ensures
            self.listed_by(v@),
    {
        proof {
            self.table.lemma_entries();
        }
        let mut v: Vec<String> = Vec::new();
        let n = self.table.len();
        let mut i: usize = 0;
        while i < n
            invariant
                self.wf(),
                n == self.table.value_seq().len(),
                self.table.key_seq().len() == n,
                i <= n,
                v@.len() == i,
                texts(v@) == self.table.key_seq().take(i as int),
            decreases n - i,
        {
            let k = self.table.key_at(i).clone();
            let ghost old_v = v@;
            v.push(k);
            assert forall|j: int| 0 <= j <= i implies #[trigger] texts(v@)[j]
                == self.table.key_seq().take(i + 1)[j] by {
                if j < i {
                    assert(v@[j] == old_v[j]);
                    assert(texts(old_v)[j] == self.table.key_seq().take(i as int)[j]);
                }
            }
            assert(texts(v@) =~= self.table.key_seq().take(i + 1));
            i = i + 1;
        }
        proof {
            self.table.lemma_entries();
            let ks = self.table.key_seq();
            assert(ks.take(n as int) =~= ks);
            assert(ks.to_set() =~= self@) by {
                assert forall|k: Seq<char>| ks.to_set().contains(k) implies self@.contains(k) by {
                    let j = choose|j: int| 0 <= j < ks.len() && ks[j] == k;
                    assert(self.table@.contains_key(ks[j]));
                }
            }
        }
        v
    }
}

/// Trust survives saving and loading: the ids that `to_ids` gives for a set
/// name each trusted device once, and `from_ids` builds the same set from them.
pub proof fn lemma_trusted_devices_round_trip(saved: DeviceSet, ids: Seq<String>, loaded: DeviceSet)
    requires
        saved.wf(),
        saved.listed_by(ids),
        loaded.built_from(ids),
    ensures
        loaded@ == saved@,
        ids.len() == saved@.len(),
{
    texts(ids).unique_seq_to_set();
}

/// The settings kept in `settings.json`.
pub struct Settings {
    pub device_id: String,
    pub device_name: String,
    pub inbox: String,
    pub trusted_devices: DeviceSet,
    pub auto_open_links: bool,
}

impl Settings {
    pub open spec fn wf(&self) -> bool {
        self.trusted_devices.wf()
    }
}

/// Where the settings file lives under the application's data directory.
pub fn settings_file(root: &str, style: PathStyle) -> (r: String)
    ensures
        r@ == join_path(root@, "settings.json"@, style),
{
    join_path_string(root, "settings.json", style)
}

/// The inbox of a new installation: `Pombo Correio` under the downloads
/// directory, or `Inbox` under the data directory when there is none.
pub fn default_inbox(root: &str, downloads: Option<String>, style: PathStyle) -> (r: String)
    ensures
        r@ == match downloads {
            Some(d) => join_path(d@, "Pombo Correio"@, style),
            None => join_path(root@, "Inbox"@, style),
        },
{
    match downloads {
        Some(d) => join_path_string(d.as_str(), "Pombo Correio", style),
        None => join_path_string(root, "Inbox", style),
    }
}

/// The host's name, or `My device` when it could not be read.
pub fn device_name_or_default(host_name: Option<String>) -> (r: String)
    ensures
        r@ == match host_name {
            Some(h) => h@,
            None => "My device"@,
        },
{
    match host_name {
        Some(h) => h,
        None => String::from_str("My device"),
    }
}

/// The settings of a new installation: a fresh random id, the host's name,
/// the default inbox, nobody trusted yet, and links not opened automatically.
pub fn new_settings(
    root: &str,
    downloads: Option<String>,
    host_name: Option<String>,
    style: PathStyle,
) -> (s: Settings)
    ensures
        s.wf(),
        is_uuid_text(s.device_id@),
        s.device_name@ == match host_name {
            Some(h) => h@,
            None => "My device"@,
        },
        s.inbox@ == match downloads {
            Some(d) => join_path(d@, "Pombo Correio"@, style),
            None => join_path(root@, "Inbox"@, style),
        },
        s.trusted_devices@ == Set::<Seq<char>>::empty(),
        !s.auto_open_links,
{
    let inbox = default_inbox(root, downloads, style);
    Settings {
        device_id: new_uuid(),
        device_name: device_name_or_default(host_name),
        inbox,
        trusted_devices: DeviceSet::new(),
        auto_open_links: false,
    }
}

} // verus!
