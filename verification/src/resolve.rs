//! The target resolver: turn a user-supplied target -- a folder path, a bare
//! folder name, or a container name -- into a concrete container identity.
//!
//! The fallback order is fixed: no target resolves to the last session (or
//! the default identity); an existing directory is looked up in the folder
//! registry and otherwise freshly derived; a string carrying the namespace
//! prefix is taken literally; anything else is tried as a registered folder
//! name and finally taken literally. Directory existence is decided by the
//! caller, which passes the canonical path of the target when and only when
//! the target is an existing directory.

use vstd::prelude::*;
use vstd::string::StrSliceExecFns;
use vstd::string::StringExecFns;

use crate::errors::Error;
use crate::naming::{derive_container_name, derived_identity, kept_names};
use crate::registry::{
    entry_matches, first_entry_match, last_session_or_default, last_session_value,
    lookup_container_by_folder, ContainerEntryModel, FolderRegistry, KeyedEntryModel,
};
use crate::text::{final_path_component, is_prefix, last_component, str_starts_with};

verus! {

/// The namespace prefix that marks a target as a literal container
/// identity.
pub open spec fn bare_prefix() -> Seq<char> {
    seq!['a', 'i', 'd', 'e']
}

/// Resolve a target to a container identity.
///
/// `dir_canonical` carries the canonical path of `target` exactly when the
/// target names an existing directory; the caller decides that, since it
/// takes the file system to answer.
pub fn resolve_target_to_container(
    target: Option<&String>,
    dir_canonical: Option<&String>,
    registry: &FolderRegistry,
    last_session_raw: Option<&String>,
) -> (r: Result<String, Error>)
    requires
        target is None ==> dir_canonical is None,
    ensures
        target is None ==> (r matches Ok(s) && s@ == last_session_value(
            match last_session_raw {
                Some(x) => Some(x@),
                None => None,
            },
        )),
        target is Some ==> (dir_canonical matches Some(c) ==> (match first_entry_match(
            registry@,
            Some(c@),
            last_component(c@),
        ) {
            Some(name) => r matches Ok(s) && s@ == name,
            None => (if kept_names(seq![last_component(c@)]).len() > 0 {
                r matches Ok(s) && s@ == derived_identity(seq![last_component(c@)])
            } else {
                r matches Err(e) && e == Error::NoDerivableName
            }),
        })),
        target matches Some(t) ==> ((dir_canonical is None && is_prefix(bare_prefix(), t@))
            ==> (r matches Ok(s) && s@ == t@)),
        target matches Some(t) ==> ((dir_canonical is None && !is_prefix(bare_prefix(), t@))
            ==> (match first_entry_match(registry@, None, t@) {
            Some(name) => r matches Ok(s) && s@ == name,
            None => r matches Ok(s) && s@ == t@,
        })),
{
    match target {
        None => Ok(last_session_or_default(last_session_raw)),
        Some(t) => {
            match dir_canonical {
                Some(c) => {
                    let fname = final_path_component(c.as_str());
                    match lookup_container_by_folder(registry, Some(c), &fname) {
                        Some(name) => Ok(name),
                        None => {
                            let mut folders: Vec<String> = Vec::new();
                            folders.push(fname);
                            proof {
                                assert(folders.deep_view() =~= seq![last_component(c@)]);
                            }
                            derive_container_name(&folders)
                        },
                    }
                },
                None => {
                    let looks_literal = str_starts_with(t.as_str(), "aide");
                    proof {
                        reveal_strlit("aide");
                        assert("aide"@ =~= bare_prefix());
                    }
                    if looks_literal {
                        return Ok(t.clone());
                    }
                    match lookup_container_by_folder(registry, None, t) {
                        Some(name) => Ok(name),
                        None => Ok(t.clone()),
                    }
                },
            }
        },
    }
}

proof fn lemma_first_match_absent(
    rows: Seq<KeyedEntryModel>,
    canonical: Option<Seq<char>>,
    folder_name: Seq<char>,
)
    requires
        forall|j: int|
            0 <= j < rows.len() ==> !entry_matches(
                (#[trigger] rows[j]).entry,
                canonical,
                folder_name,
            ),
    ensures
        first_entry_match(rows, canonical, folder_name) is None,
    decreases rows.len(),
{
    if rows.len() > 0 {
        assert(!entry_matches(rows[0].entry, canonical, folder_name));
        assert(forall|j: int|
            0 <= j < rows.drop_first().len() ==> !entry_matches(
                (#[trigger] rows.drop_first()[j]).entry,
                canonical,
                folder_name,
            ));
        lemma_first_match_absent(rows.drop_first(), canonical, folder_name);
    }
}

proof fn lemma_first_match_append(
    front: Seq<KeyedEntryModel>,
    back: Seq<KeyedEntryModel>,
    canonical: Option<Seq<char>>,
    folder_name: Seq<char>,
)
    ensures
        first_entry_match(front + back, canonical, folder_name) == if first_entry_match(
            front,
            canonical,
            folder_name,
        ) is Some {
            first_entry_match(front, canonical, folder_name)
        } else {
            first_entry_match(back, canonical, folder_name)
        },
    decreases front.len(),
{
    if front.len() == 0 {
        assert(front + back =~= back);
    } else {
        assert((front + back).drop_first() =~= front.drop_first() + back);
        assert((front + back)[0] == front[0]);
        lemma_first_match_append(front.drop_first(), back, canonical, folder_name);
    }
}

/// Round trip: after registering a container entry into a registry in which
/// no existing row matches one of its folder paths, looking that folder
/// path up finds exactly the registered identity -- so resolving the path
/// returns the identity that was registered, not a freshly derived one.
pub proof fn lemma_register_then_resolve(
    rows: Seq<KeyedEntryModel>,
    key: Seq<char>,
    entry: ContainerEntryModel,
    canonical: Seq<char>,
)
    requires
        entry.folder_paths.contains(canonical),
        forall|j: int|
            0 <= j < rows.len() ==> !entry_matches(
                (#[trigger] rows[j]).entry,
                Some(canonical),
                last_component(canonical),
            ),
    ensures
        first_entry_match(
            rows.push(KeyedEntryModel { key: key, entry: entry }),
            Some(canonical),
            last_component(canonical),
        ) == Some(entry.container_name),
{
    let row = KeyedEntryModel { key: key, entry: entry };
    lemma_first_match_absent(rows, Some(canonical), last_component(canonical));
    assert(rows.push(row) =~= rows + seq![row]);
    lemma_first_match_append(rows, seq![row], Some(canonical), last_component(canonical));
    assert(seq![row][0] == row);
    assert(entry_matches(entry, Some(canonical), last_component(canonical)));
    assert(first_entry_match(seq![row], Some(canonical), last_component(canonical)) == Some(
        entry.container_name,
    ));
}

} // verus!
