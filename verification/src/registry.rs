//! The persistent-state model: the folder registry (folder-set key to
//! container entry), the named-sessions registry (session name to
//! conversation identity), the last-session fallback, and the paths of the
//! backing files under the configuration root.
//!
//! The registries are modelled as association lists with unique keys; the
//! first match wins on lookup and an insert with an existing key replaces
//! that entry, as a map insert would. Loading and saving the backing files
//! is input/output and lives outside the library; these types carry the
//! in-memory state between load and save. The backing files have no
//! cross-process locking: concurrent invocations race with last-writer-wins,
//! a documented limitation of the single-operator design.

use vstd::prelude::*;
use vstd::string::StrSliceExecFns;
use vstd::string::StringExecFns;

use crate::naming::{folder_key, folder_set_key, name_prefix, sanitized};
use crate::text::{is_prefix, last_component, str_starts_with, trimmed};

verus! {

broadcast use vstd::std_specs::vec::vec_clone_deep_view_proof;

/// One registered container: its identity, the canonical paths of the
/// folders it was created for, and the creation timestamp.
#[derive(Clone, Debug)]
pub struct ContainerEntry {
    pub container_name: String,
    pub folder_paths: Vec<String>,
    pub created_at: String,
}

pub ghost struct ContainerEntryModel {
    pub container_name: Seq<char>,
    pub folder_paths: Seq<Seq<char>>,
    pub created_at: Seq<char>,
}

impl View for ContainerEntry {
    type V = ContainerEntryModel;

    open spec fn view(&self) -> ContainerEntryModel {
        ContainerEntryModel {
            container_name: self.container_name@,
            folder_paths: self.folder_paths.deep_view(),
            created_at: self.created_at@,
        }
    }
}

/// A folder-registry row: the folder-set key and its entry.
#[derive(Clone, Debug)]
pub struct KeyedEntry {
    pub key: String,
    pub entry: ContainerEntry,
}

pub ghost struct KeyedEntryModel {
    pub key: Seq<char>,
    pub entry: ContainerEntryModel,
}

impl View for KeyedEntry {
    type V = KeyedEntryModel;

    open spec fn view(&self) -> KeyedEntryModel {
        KeyedEntryModel { key: self.key@, entry: self.entry@ }
    }
}

impl DeepView for KeyedEntry {
    type V = KeyedEntryModel;

    open spec fn deep_view(&self) -> KeyedEntryModel {
        self.view()
    }
}

/// The entry the first row with the given key holds, if any.
pub open spec fn registry_lookup(
    rows: Seq<KeyedEntryModel>,
    key: Seq<char>,
) -> Option<ContainerEntryModel>
    decreases rows.len(),
{
    if rows.len() == 0 {
        None
    } else if rows[0].key == key {
        Some(rows[0].entry)
    } else {
        registry_lookup(rows.drop_first(), key)
    }
}

proof fn lemma_registry_lookup_absent(rows: Seq<KeyedEntryModel>, key: Seq<char>)
    requires
        forall|j: int| 0 <= j < rows.len() ==> (#[trigger] rows[j].key) != key,
    ensures
        registry_lookup(rows, key) is None,
    decreases rows.len(),
{
    if rows.len() > 0 {
        assert(rows[0].key != key);
        assert(forall|j: int|
            0 <= j < rows.drop_first().len() ==> (#[trigger] rows.drop_first()[j].key) != key);
        lemma_registry_lookup_absent(rows.drop_first(), key);
    }
}

proof fn lemma_registry_lookup_append(
    front: Seq<KeyedEntryModel>,
    back: Seq<KeyedEntryModel>,
    key: Seq<char>,
)
    ensures
        registry_lookup(front + back, key) == if registry_lookup(front, key) is Some {
            registry_lookup(front, key)
        } else {
            registry_lookup(back, key)
        },
    decreases front.len(),
{
    if front.len() == 0 {
        assert(front + back =~= back);
    } else {
        assert((front + back).drop_first() =~= front.drop_first() + back);
        assert((front + back)[0] == front[0]);
        lemma_registry_lookup_append(front.drop_first(), back, key);
    }
}

/// The folder registry: folder-set key to container entry, keys unique.
#[derive(Clone, Debug)]
pub struct FolderRegistry {
    rows: Vec<KeyedEntry>,
}

impl View for FolderRegistry {
    type V = Seq<KeyedEntryModel>;

    closed spec fn view(&self) -> Seq<KeyedEntryModel> {
        self.rows.deep_view()
    }
}

impl FolderRegistry {
    /// Keys are pairwise distinct, so a key addresses at most one entry.
    pub open spec fn wf(self) -> bool {
        forall|i: int, j: int|
            0 <= i < j < self@.len() ==> (#[trigger] self@[i].key) != (#[trigger] self@[j].key)
    }

    /// The empty registry, also what a missing or corrupt backing file
    /// loads as.
    pub fn new() -> (r: FolderRegistry)
        ensures
            r@ == Seq::<KeyedEntryModel>::empty(),
            r.wf(),
    {
        let r = FolderRegistry { rows: Vec::new() };
        proof {
            assert(r@ =~= Seq::<KeyedEntryModel>::empty());
        }
        r
    }

    /// The rows, in insertion order.
    pub fn rows(&self) -> (r: &Vec<KeyedEntry>)
        ensures
            r.deep_view() == self@,
    {
        &self.rows
    }

    /// Insert an entry under a key; an existing entry under the same key is
    /// replaced, any other entry is untouched.
    pub fn insert_entry(&mut self, key: String, entry: ContainerEntry)
        requires
            old(self).wf(),
        ensures
            final(self).wf(),
            registry_lookup(final(self)@, key@) == Some(entry@),
            forall|k: Seq<char>|
                k != key@ ==> #[trigger] registry_lookup(final(self)@, k) == registry_lookup(
                    old(self)@,
                    k,
                ),
            registry_lookup(old(self)@, key@) is None ==> final(self)@ == old(self)@.push(
                KeyedEntryModel { key: key@, entry: entry@ },
            ),
            registry_lookup(old(self)@, key@) is Some ==> exists|i: int|
                0 <= i < old(self)@.len() && (#[trigger] old(self)@[i]).key == key@
                    && final(self)@ == old(self)@.update(
                    i,
                    KeyedEntryModel { key: key@, entry: entry@ },
                ),
    {
        let ghost rows0 = old(self)@;
        let ghost keyv = key@;
        let ghost entryv = entry@;
        let n: usize = self.rows.len();
        let mut i: usize = 0;
        while i < n
            invariant
                i <= n,
                n == self.rows@.len(),
                rows0 == old(self)@,
                self@ == rows0,
                self.wf(),
                keyv == key@,
                entryv == entry@,
                forall|j: int| 0 <= j < i ==> (#[trigger] rows0[j].key) != keyv,
            decreases n - i,
        {
            if self.rows[i].key == key {
                let ghost found = i as int;
                self.rows.remove(i);
                self.rows.insert(i, KeyedEntry { key, entry });
                proof {
                    let rows1 = self@;
                    let e = KeyedEntryModel { key: keyv, entry: entryv };
                    assert(rows1 =~= rows0.update(found, e));
                    let front = rows0.subrange(0, found);
                    let back = rows0.subrange(found + 1, rows0.len() as int);
                    assert(rows0 =~= front + (seq![rows0[found]] + back));
                    assert(rows1 =~= front + (seq![e] + back));
                    assert forall|k: Seq<char>| true implies #[trigger] registry_lookup(
                        rows1,
                        k,
                    ) == if k == keyv {
                        Some(entryv)
                    } else {
                        registry_lookup(rows0, k)
                    } by {
                        lemma_registry_lookup_append(front, seq![rows0[found]] + back, k);
                        lemma_registry_lookup_append(front, seq![e] + back, k);
                        assert((seq![rows0[found]] + back)[0] == rows0[found]);
                        assert((seq![e] + back)[0] == e);
                        assert((seq![rows0[found]] + back).drop_first() =~= back);
                        assert((seq![e] + back).drop_first() =~= back);
                        if k == keyv {
                            assert(forall|j: int|
                                0 <= j < front.len() ==> (#[trigger] front[j].key) != k);
                            lemma_registry_lookup_absent(front, k);
                        }
                    }
                    assert forall|a: int, b: int| 0 <= a < b < rows1.len() implies (
                    #[trigger] rows1[a].key) != (#[trigger] rows1[b].key) by {
                        assert(rows0[a].key != rows0[b].key);
                        assert(rows1[a].key == rows0[a].key);
                        assert(rows1[b].key == rows0[b].key);
                    }
                    assert(registry_lookup(rows0, keyv) is Some) by {
                        lemma_registry_lookup_append(front, seq![rows0[found]] + back, keyv);
                        assert((seq![rows0[found]] + back)[0] == rows0[found]);
                        if registry_lookup(front, keyv) is Some {
                        }
                    }
                    assert(rows0[found].key == keyv && rows1 == rows0.update(found, e));
                }
                return ;
            }
            i = i + 1;
        }
        let ghost rowse = self@;
        self.rows.push(KeyedEntry { key, entry });
        proof {
            let rows1 = self@;
            let e = KeyedEntryModel { key: keyv, entry: entryv };
            assert(rows1 =~= rows0 + seq![e]);
            assert forall|k: Seq<char>| true implies #[trigger] registry_lookup(rows1, k)
                == if k == keyv {
                Some(entryv)
            } else {
                registry_lookup(rows0, k)
            } by {
                lemma_registry_lookup_append(rows0, seq![e], k);
                assert(seq![e][0] == e);
                if k == keyv {
                    lemma_registry_lookup_absent(rows0, k);
                } else {
                    if registry_lookup(rows0, k) is None {
                        assert(forall|j: int|
                            0 <= j < seq![e].len() ==> (#[trigger] seq![e][j].key) != k);
                        lemma_registry_lookup_absent(seq![e], k);
                    }
                }
            }
            assert forall|a: int, b: int| 0 <= a < b < rows1.len() implies (
            #[trigger] rows1[a].key) != (#[trigger] rows1[b].key) by {
                if b < rows0.len() {
                    assert(rows0[a].key != rows0[b].key);
                } else {
                    assert(rows1[b].key == keyv);
                    assert(rows1[a].key == rows0[a].key);
                }
            }
            lemma_registry_lookup_absent(rows0, keyv);
            assert(rows1 == rows0.push(e));
        }
    }
}

/// Relies on `chrono::Local::now` and `DateTime::to_rfc3339`: the current
/// local time as an RFC 3339 string. The value depends on the clock, so
/// nothing is assumed beyond it being non-empty.
#[verifier::external_body]
fn current_timestamp() -> (r: String)
    ensures
        r@.len() > 0,
{
    chrono::Local::now().to_rfc3339()
}

/// Register a container for a folder set: the key is built from the
/// canonical paths, and the entry records the identity, the paths, and the
/// creation time. An entry already under the same key is replaced; no
/// other entry changes.
pub fn register_container(
    registry: &mut FolderRegistry,
    container_name: &String,
    canonical_paths: &Vec<String>,
)
    requires
        old(registry).wf(),
    ensures
        final(registry).wf(),
        registry_lookup(final(registry)@, folder_set_key(canonical_paths.deep_view()))
            matches Some(e) && e.container_name == container_name@ && e.folder_paths
            == canonical_paths.deep_view(),
        forall|k: Seq<char>|
            k != folder_set_key(canonical_paths.deep_view()) ==> #[trigger] registry_lookup(
                final(registry)@,
                k,
            ) == registry_lookup(old(registry)@, k),
        registry_lookup(old(registry)@, folder_set_key(canonical_paths.deep_view())) is None
            ==> exists|ts: Seq<char>|
            final(registry)@ == old(registry)@.push(
                KeyedEntryModel {
                    key: folder_set_key(canonical_paths.deep_view()),
                    entry: ContainerEntryModel {
                        container_name: container_name@,
                        folder_paths: canonical_paths.deep_view(),
                        created_at: ts,
                    },
                },
            ),
{
    let key = folder_key(canonical_paths);
    let paths_copy = canonical_paths.clone();
    proof {
        assert(paths_copy@ =~= canonical_paths@);
        assert(paths_copy.deep_view() =~= canonical_paths.deep_view());
    }
    let entry = ContainerEntry {
        container_name: container_name.clone(),
        folder_paths: paths_copy,
        created_at: current_timestamp(),
    };
    let ghost entry_model = entry@;
    registry.insert_entry(key, entry);
    proof {
        if registry_lookup(old(registry)@, folder_set_key(canonical_paths.deep_view())) is None {
            assert(final(registry)@ == old(registry)@.push(
                KeyedEntryModel {
                    key: folder_set_key(canonical_paths.deep_view()),
                    entry: ContainerEntryModel {
                        container_name: container_name@,
                        folder_paths: canonical_paths.deep_view(),
                        created_at: entry_model.created_at,
                    },
                },
            ));
        }
    }
}

/// An entry matches a folder when the canonical path is one of its
/// registered paths, when the folder name is the final component of one of
/// its registered paths, or when its container identity starts with the
/// name the folder would derive to.
pub open spec fn entry_matches(
    e: ContainerEntryModel,
    canonical: Option<Seq<char>>,
    folder_name: Seq<char>,
) -> bool {
    ||| (canonical matches Some(c) && e.folder_paths.contains(c))
    ||| (exists|j: int|
        0 <= j < e.folder_paths.len() && last_component(#[trigger] e.folder_paths[j])
            == folder_name)
    ||| is_prefix(name_prefix() + sanitized(folder_name), e.container_name)
}

/// The container name of the first row whose entry matches, if any.
pub open spec fn first_entry_match(
    rows: Seq<KeyedEntryModel>,
    canonical: Option<Seq<char>>,
    folder_name: Seq<char>,
) -> Option<Seq<char>>
    decreases rows.len(),
{
    if rows.len() == 0 {
        None
    } else if entry_matches(rows[0].entry, canonical, folder_name) {
        Some(rows[0].entry.container_name)
    } else {
        first_entry_match(rows.drop_first(), canonical, folder_name)
    }
}

fn entry_matches_exec(
    entry: &ContainerEntry,
    canonical: Option<&String>,
    folder_name: &String,
) -> (r: bool)
    ensures
        r == entry_matches(
            entry@,
            match canonical {
                Some(c) => Some(c@),
                None => None,
            },
            folder_name@,
        ),
{
    let ghost canonical_v: Option<Seq<char>> = match canonical {
        Some(c) => Some(c@),
        None => None,
    };
    let n: usize = entry.folder_paths.len();
    let mut i: usize = 0;
    while i < n
        invariant
            i <= n,
            n == entry.folder_paths@.len(),
            canonical_v == (match canonical {
                Some(c) => Some(c@),
                None => None,
            }),
            forall|j: int|
                0 <= j < i ==> !(canonical_v matches Some(c) && (
                #[trigger] entry.folder_paths.deep_view()[j]) == c),
            forall|j: int|
                0 <= j < i ==> last_component(#[trigger] entry.folder_paths.deep_view()[j])
                    != folder_name@,
        decreases n - i,
    {
        proof {
            assert(entry.folder_paths.deep_view()[i as int] == entry.folder_paths@[i as int]@);
        }
        if let Some(c) = canonical {
            if entry.folder_paths[i].eq(c) {
                assert(entry@.folder_paths[i as int] == c@);
                assert(entry@.folder_paths.contains(c@));
                return true;
            }
        }
        let component = crate::text::final_path_component(entry.folder_paths[i].as_str());
        if component.eq(folder_name) {
            assert(last_component(entry@.folder_paths[i as int]) == folder_name@);
            return true;
        }
        i = i + 1;
    }
    proof {
        match canonical_v {
            Some(c) => {
                if entry@.folder_paths.contains(c) {
                    let j = choose|j: int|
                        0 <= j < entry@.folder_paths.len() && entry@.folder_paths[j] == c;
                    assert(!(canonical_v matches Some(cc) && entry.folder_paths.deep_view()[j]
                        == cc));
                    assert(false);
                }
            },
            None => {},
        }
        if exists|j: int|
            0 <= j < entry@.folder_paths.len() && last_component(
                #[trigger] entry@.folder_paths[j],
            ) == folder_name@ {
            let j = choose|j: int|
                0 <= j < entry@.folder_paths.len() && last_component(
                    #[trigger] entry@.folder_paths[j],
                ) == folder_name@;
            assert(false);
        }
    }
    let mut expected = String::from_str("aide-");
    proof {
        reveal_strlit("aide-");
        assert(expected@ =~= name_prefix());
    }
    let sanitized_name = crate::naming::sanitize_name(folder_name.as_str());
    expected.append(sanitized_name.as_str());
    str_starts_with(entry.container_name.as_str(), expected.as_str())
}

/// Look up a container by folder: scan the registry rows in order and
/// return the container name of the first entry that matches the folder's
/// canonical path, its name, or its derived-name pattern.
pub fn lookup_container_by_folder(
    registry: &FolderRegistry,
    canonical: Option<&String>,
    folder_name: &String,
) -> (r: Option<String>)
    ensures
        ({
            let m = first_entry_match(
                registry@,
                match canonical {
                    Some(c) => Some(c@),
                    None => None,
                },
                folder_name@,
            );
            match r {
                Some(name) => m == Some(name@),
                None => m is None,
            }
        }),
{
    let ghost canonical_v: Option<Seq<char>> = match canonical {
        Some(c) => Some(c@),
        None => None,
    };
    let ghost rows = registry@;
    let n: usize = registry.rows.len();
    let mut i: usize = 0;
    proof {
        assert(rows.skip(0) =~= rows);
    }
    while i < n
        invariant
            i <= n,
            n == rows.len(),
            rows == registry@,
            canonical_v == (match canonical {
                Some(c) => Some(c@),
                None => None,
            }),
            first_entry_match(rows, canonical_v, folder_name@) == first_entry_match(
                rows.skip(i as int),
                canonical_v,
                folder_name@,
            ),
        decreases n - i,
    {
        proof {
            assert(rows.skip(i as int)[0] == rows[i as int]);
        }
        let row = &registry.rows[i];
        if entry_matches_exec(&row.entry, canonical, folder_name) {
            return Some(row.entry.container_name.clone());
        }
        proof {
            assert(rows.skip(i as int).drop_first() =~= rows.skip(i + 1));
        }
        i = i + 1;
    }
    proof {
        assert(rows.skip(n as int).len() == 0);
    }
    None
}

/// One named session: a user-chosen label bound to a conversation identity.
#[derive(Clone, Debug)]
pub struct SessionBinding {
    pub name: String,
    pub conversation_id: String,
}

pub ghost struct SessionBindingModel {
    pub name: Seq<char>,
    pub conversation_id: Seq<char>,
}

impl View for SessionBinding {
    type V = SessionBindingModel;

    open spec fn view(&self) -> SessionBindingModel {
        SessionBindingModel { name: self.name@, conversation_id: self.conversation_id@ }
    }
}

impl DeepView for SessionBinding {
    type V = SessionBindingModel;

    open spec fn deep_view(&self) -> SessionBindingModel {
        self.view()
    }
}

/// The conversation identity the first binding with the given name holds.
pub open spec fn session_lookup(
    rows: Seq<SessionBindingModel>,
    name: Seq<char>,
) -> Option<Seq<char>>
    decreases rows.len(),
{
    if rows.len() == 0 {
        None
    } else if rows[0].name == name {
        Some(rows[0].conversation_id)
    } else {
        session_lookup(rows.drop_first(), name)
    }
}

proof fn lemma_session_lookup_absent(rows: Seq<SessionBindingModel>, name: Seq<char>)
    requires
        forall|j: int| 0 <= j < rows.len() ==> (#[trigger] rows[j].name) != name,
    ensures
        session_lookup(rows, name) is None,
    decreases rows.len(),
{
    if rows.len() > 0 {
        assert(forall|j: int|
            0 <= j < rows.drop_first().len() ==> (#[trigger] rows.drop_first()[j].name) != name);
        lemma_session_lookup_absent(rows.drop_first(), name);
    }
}

proof fn lemma_session_lookup_append(
    front: Seq<SessionBindingModel>,
    back: Seq<SessionBindingModel>,
    name: Seq<char>,
)
    ensures
        session_lookup(front + back, name) == if session_lookup(front, name) is Some {
            session_lookup(front, name)
        } else {
            session_lookup(back, name)
        },
    decreases front.len(),
{
    if front.len() == 0 {
        assert(front + back =~= back);
    } else {
        assert((front + back).drop_first() =~= front.drop_first() + back);
        assert((front + back)[0] == front[0]);
        lemma_session_lookup_append(front.drop_first(), back, name);
    }
}

/// The named-sessions registry: session name to conversation identity,
/// names unique.
#[derive(Clone, Debug)]
pub struct SessionsRegistry {
    rows: Vec<SessionBinding>,
}

impl View for SessionsRegistry {
    type V = Seq<SessionBindingModel>;

    closed spec fn view(&self) -> Seq<SessionBindingModel> {
        self.rows.deep_view()
    }
}

impl SessionsRegistry {
    pub open spec fn wf(self) -> bool {
        forall|i: int, j: int|
            0 <= i < j < self@.len() ==> (#[trigger] self@[i].name) != (#[trigger] self@[j].name)
    }

    /// The empty registry, also what a missing or corrupt backing file
    /// loads as.
    pub fn new() -> (r: SessionsRegistry)
        ensures
            r@ == Seq::<SessionBindingModel>::empty(),
            r.wf(),
    {
        let r = SessionsRegistry { rows: Vec::new() };
        proof {
            assert(r@ =~= Seq::<SessionBindingModel>::empty());
        }
        r
    }

    /// The bindings, in insertion order.
    pub fn rows(&self) -> (r: &Vec<SessionBinding>)
        ensures
            r.deep_view() == self@,
    {
        &self.rows
    }
}

/// Bind a session name to a conversation identity; an existing binding of
/// the same name is overwritten, any other binding is untouched.
pub fn save_named_session(
    registry: &mut SessionsRegistry,
    name: &String,
    conversation_id: &String,
)
    requires
        old(registry).wf(),
    ensures
        final(registry).wf(),
        session_lookup(final(registry)@, name@) == Some(conversation_id@),
        forall|m: Seq<char>|
            m != name@ ==> #[trigger] session_lookup(final(registry)@, m) == session_lookup(
                old(registry)@,
                m,
            ),
{
    let ghost rows0 = old(registry)@;
    let ghost namev = name@;
    let ghost cidv = conversation_id@;
    let n: usize = registry.rows.len();
    let mut i: usize = 0;
    while i < n
        invariant
            i <= n,
            n == registry.rows@.len(),
            rows0 == old(registry)@,
            registry@ == rows0,
            registry.wf(),
            namev == name@,
            cidv == conversation_id@,
            forall|j: int| 0 <= j < i ==> (#[trigger] rows0[j].name) != namev,
        decreases n - i,
    {
        if registry.rows[i].name.eq(name) {
            let ghost found = i as int;
            registry.rows.remove(i);
            registry.rows.insert(
                i,
                SessionBinding { name: name.clone(), conversation_id: conversation_id.clone() },
            );
            proof {
                let rows1 = registry@;
                let e = SessionBindingModel { name: namev, conversation_id: cidv };
                assert(rows1 =~= rows0.update(found, e));
                let front = rows0.subrange(0, found);
                let back = rows0.subrange(found + 1, rows0.len() as int);
                assert(rows0 =~= front + (seq![rows0[found]] + back));
                assert(rows1 =~= front + (seq![e] + back));
                assert forall|m: Seq<char>| true implies #[trigger] session_lookup(rows1, m)
                    == if m == namev {
                    Some(cidv)
                } else {
                    session_lookup(rows0, m)
                } by {
                    lemma_session_lookup_append(front, seq![rows0[found]] + back, m);
                    lemma_session_lookup_append(front, seq![e] + back, m);
                    assert((seq![rows0[found]] + back)[0] == rows0[found]);
                    assert((seq![e] + back)[0] == e);
                    assert((seq![rows0[found]] + back).drop_first() =~= back);
                    assert((seq![e] + back).drop_first() =~= back);
                    if m == namev {
                        assert(forall|j: int|
                            0 <= j < front.len() ==> (#[trigger] front[j].name) != m);
                        lemma_session_lookup_absent(front, m);
                    }
                }
                assert forall|a: int, b: int| 0 <= a < b < rows1.len() implies (
                #[trigger] rows1[a].name) != (#[trigger] rows1[b].name) by {
                    assert(rows0[a].name != rows0[b].name);
                    assert(rows1[a].name == rows0[a].name);
                    assert(rows1[b].name == rows0[b].name);
                }
            }
            return ;
        }
        i = i + 1;
    }
    registry.rows.push(
        SessionBinding { name: name.clone(), conversation_id: conversation_id.clone() },
    );
    proof {
        let rows1 = registry@;
        let e = SessionBindingModel { name: namev, conversation_id: cidv };
        assert(rows1 =~= rows0 + seq![e]);
        assert forall|m: Seq<char>| true implies #[trigger] session_lookup(rows1, m) == if m
            == namev {
            Some(cidv)
        } else {
            session_lookup(rows0, m)
        } by {
            lemma_session_lookup_append(rows0, seq![e], m);
            assert(seq![e][0] == e);
            if m == namev {
                lemma_session_lookup_absent(rows0, m);
            } else {
                if session_lookup(rows0, m) is None {
                    assert(forall|j: int|
                        0 <= j < seq![e].len() ==> (#[trigger] seq![e][j].name) != m);
                    lemma_session_lookup_absent(seq![e], m);
                }
            }
        }
        assert forall|a: int, b: int| 0 <= a < b < rows1.len() implies (
        #[trigger] rows1[a].name) != (#[trigger] rows1[b].name) by {
            if b < rows0.len() {
                assert(rows0[a].name != rows0[b].name);
            } else {
                assert(rows1[b].name == namev);
                assert(rows1[a].name == rows0[a].name);
            }
        }
    }
}

/// The conversation identity bound to a session name, if any.
pub fn get_named_session(registry: &SessionsRegistry, name: &String) -> (r: Option<String>)
    ensures
        match r {
            Some(cid) => session_lookup(registry@, name@) == Some(cid@),
            None => session_lookup(registry@, name@) is None,
        },
{
    let ghost rows = registry@;
    let n: usize = registry.rows.len();
    let mut i: usize = 0;
    proof {
        assert(rows.skip(0) =~= rows);
    }
    while i < n
        invariant
            i <= n,
            n == rows.len(),
            rows == registry@,
            session_lookup(rows, name@) == session_lookup(rows.skip(i as int), name@),
        decreases n - i,
    {
        proof {
            assert(rows.skip(i as int)[0] == rows[i as int]);
        }
        if registry.rows[i].name.eq(name) {
            return Some(registry.rows[i].conversation_id.clone());
        }
        proof {
            assert(rows.skip(i as int).drop_first() =~= rows.skip(i + 1));
        }
        i = i + 1;
    }
    proof {
        assert(rows.skip(n as int).len() == 0);
    }
    None
}

/// The default container identity, used when no last session was ever
/// recorded.
pub open spec fn default_session() -> Seq<char> {
    "aide"@
}

/// What the last-session fallback resolves to: the stored marker trimmed
/// of surrounding whitespace, or the default when the marker is missing or
/// blank.
pub open spec fn last_session_value(raw: Option<Seq<char>>) -> Seq<char> {
    match raw {
        Some(s) => if trimmed(s).len() > 0 {
            trimmed(s)
        } else {
            default_session()
        },
        None => default_session(),
    }
}

/// Resolve the stored last-session marker content to a container identity.
pub fn last_session_or_default(raw: Option<&String>) -> (r: String)
    ensures
        r@ == last_session_value(
            match raw {
                Some(s) => Some(s@),
                None => None,
            },
        ),
{
    match raw {
        Some(s) => {
            let t = crate::text::trim_spaces(s.as_str());
            if t.as_str().is_empty() {
                String::from_str("aide")
            } else {
                t
            }
        },
        None => String::from_str("aide"),
    }
}

/// The backing file of the folder registry under the configuration root.
pub fn get_folder_registry_path(config_root: &String) -> (r: String)
    ensures
        r@ == config_root@ + "/folder_registry.json"@,
{
    let mut r = config_root.clone();
    r.append("/folder_registry.json");
    r
}

/// The backing file of the named-sessions registry under the
/// configuration root.
pub fn get_sessions_registry_path(config_root: &String) -> (r: String)
    ensures
        r@ == config_root@ + "/named_sessions.json"@,
{
    let mut r = config_root.clone();
    r.append("/named_sessions.json");
    r
}

/// The per-container state directory, holding that container's isolated
/// conversation history overlay.
pub fn get_container_config_dir(config_root: &String, container_name: &String) -> (r: String)
    ensures
        r@ == config_root@ + "/containers/"@ + container_name@,
{
    let mut r = config_root.clone();
    r.append("/containers/");
    r.append(container_name.as_str());
    r
}

} // verus!
