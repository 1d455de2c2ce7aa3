//! The conversation detector's selection policy: among the immediate
//! subdirectories of the interactive program's conversation tree, the most
//! recently modified one names the conversation. Obtaining the listing
//! takes the container engine and lives outside the library; the policy
//! itself is decided here.

use vstd::prelude::*;
use vstd::string::StrSliceExecFns;
use vstd::string::StringExecFns;

verus! {

/// One immediate subdirectory of the conversation tree: its name and its
/// modification time, in seconds since the epoch.
#[derive(Clone, Debug)]
pub struct ConversationDir {
    pub name: String,
    pub modified_at: u64,
}

pub ghost struct ConversationDirModel {
    pub name: Seq<char>,
    pub modified_at: u64,
}

impl View for ConversationDir {
    type V = ConversationDirModel;

    open spec fn view(&self) -> ConversationDirModel {
        ConversationDirModel { name: self.name@, modified_at: self.modified_at }
    }
}

impl DeepView for ConversationDir {
    type V = ConversationDirModel;

    open spec fn deep_view(&self) -> ConversationDirModel {
        self.view()
    }
}

/// The entry at index `i` is modified no earlier than every other entry.
pub open spec fn is_latest(dirs: Seq<ConversationDirModel>, i: int) -> bool {
    &&& 0 <= i < dirs.len()
    &&& forall|j: int| 0 <= j < dirs.len() ==> (#[trigger] dirs[j].modified_at) <= dirs[
        i
    ].modified_at
}

/// Select the most recently modified conversation directory. An empty or
/// unreachable tree yields `None`: no conversation was detected, which the
/// caller surfaces as a warning, never as an error.
pub fn latest_conversation(dirs: &Vec<ConversationDir>) -> (r: Option<String>)
    ensures
        r is None <==> dirs@.len() == 0,
        r matches Some(name) ==> exists|i: int|
            is_latest(dirs.deep_view(), i) && dirs.deep_view()[i].name == name@,
{
    if dirs.len() == 0 {
        return None;
    }
    let ghost dv = dirs.deep_view();
    let mut best: usize = 0;
    let mut i: usize = 1;
    while i < dirs.len()
        invariant
            dv == dirs.deep_view(),
            dv.len() == dirs@.len(),
            0 <= best < i <= dv.len(),
            forall|j: int| 0 <= j < i ==> (#[trigger] dv[j].modified_at) <= dv[
                best as int
            ].modified_at,
        decreases dirs@.len() - i,
    {
        if dirs[i].modified_at > dirs[best].modified_at {
            best = i;
        }
        i = i + 1;
    }
    proof {
        assert(is_latest(dv, best as int));
    }
    Some(dirs[best].name.clone())
}

/// The short display form of a conversation identity: its first eight
/// characters, or all of it when it is shorter.
pub fn short_id(id: &String) -> (r: String)
    ensures
        r@ == if id@.len() <= 8 {
            id@
        } else {
            id@.subrange(0, 8)
        },
{
    let n: usize = id.as_str().unicode_len();
    if n <= 8 {
        id.clone()
    } else {
        let cut: &str = id.as_str().substring_char(0, 8);
        String::from_str(cut)
    }
}

} // verus!
