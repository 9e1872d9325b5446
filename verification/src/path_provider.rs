//! The NVMe-oF controllers that the kernel shows, each resolved to the place
//! where its status is read.

use vstd::prelude::*;
use vstd::string::StringExecFns;

verus! {

/// Where the kernel lists the controllers of the NVMe fabrics subsystem.
pub const SYSFS_NVME_CTRL_PREFIX: &'static str = "/sys/devices/virtual/nvme-fabrics/ctl/";

/// The place under which the controller `name` is listed, before links are
/// resolved.
pub open spec fn listed_at(name: Seq<char>) -> Seq<char> {
    SYSFS_NVME_CTRL_PREFIX@ + name
}

/// The path to resolve for the controller `name`.
pub fn sysfs_path(name: &str) -> (path: String)
    ensures
        path@ == listed_at(name@),
{
    String::from_str(SYSFS_NVME_CTRL_PREFIX).concat(name)
}

/// A controller handle over character sequences.
pub struct NvmePathView {
    pub name: Seq<char>,
    pub path: Seq<char>,
}

/// Handle of one NVMe controller: its name and the resolved path at which the
/// kernel reports on it.
#[derive(Debug, PartialEq, Eq)]
pub struct NvmePath {
    name: String,
    path_buffer: String,
}

impl View for NvmePath {
    type V = NvmePathView;

    closed spec fn view(&self) -> NvmePathView {
        NvmePathView { name: self.name@, path: self.path_buffer@ }
    }
}

impl Clone for NvmePath {
    fn clone(&self) -> (copy: Self)
        ensures
            copy@ == self@,
    {
        NvmePath { name: self.name.clone(), path_buffer: self.path_buffer.clone() }
    }
}

impl NvmePath {
    /// The handle of controller `name`, whose listing resolved to `path`.
    pub fn new(name: String, path: String) -> (handle: Self)
        ensures
            handle@ == (NvmePathView { name: name@, path: path@ }),
    {
        Self { name, path_buffer: path }
    }

    #[inline]
    pub fn path(&self) -> (path: &str)
        ensures
            path@ == self@.path,
    {
        self.path_buffer.as_str()
    }

    #[inline]
    pub fn name(&self) -> (name: &str)
        ensures
            name@ == self@.name,
    {
        self.name.as_str()
    }
}

/// The handles in a list, in order.
pub open spec fn handles_of(paths: Seq<NvmePath>) -> Seq<NvmePathView> {
    paths.map_values(|p: NvmePath| p@)
}

/// A source of controller handles.
pub trait NvmePathProvider {
    /// A copy of the handles this source holds, in the order in which they
    /// were found.
    fn get_entries(&self) -> Vec<NvmePath>;
}

/// The handles among the enumerated controllers: an entry that could not be
/// read or resolved is left out, the others keep their order.
pub open spec fn resolved(found: Seq<Option<NvmePath>>) -> Seq<NvmePathView>
    decreases found.len(),
{
    if found.len() == 0 {
        Seq::empty()
    } else {
        match found.last() {
            Some(handle) => resolved(found.drop_last()).push(handle@),
            None => resolved(found.drop_last()),
        }
    }
}

/// The controllers found when the kernel was last asked.
#[derive(Debug)]
pub struct CachedNvmePathProvider {
    entries: Vec<NvmePath>,
}

impl CachedNvmePathProvider {
    /// The handles this provider holds.
    pub closed spec fn entries(&self) -> Seq<NvmePathView> {
        handles_of(self.entries@)
    }

    /// Keeps the controllers that were resolved. `None` stands for a
    /// controller that vanished, or failed to be read, while the kernel's list
    /// was walked: it is skipped, and the enumeration goes on.
    pub fn new(found: Vec<Option<NvmePath>>) -> (provider: Self)
        ensures
            provider.entries() == resolved(found@),
    {
        let mut entries: Vec<NvmePath> = Vec::new();
        let mut i: usize = 0;
        assert(found@.take(0) =~= Seq::<Option<NvmePath>>::empty());
        assert(handles_of(entries@) =~= Seq::<NvmePathView>::empty());
        while i < found.len()
            invariant
                i <= found.len(),
                handles_of(entries@) == resolved(found@.take(i as int)),
            decreases found.len() - i,
        {
            let ghost before = handles_of(entries@);
            assert(found@.take(i + 1).drop_last() =~= found@.take(i as int));
            assert(found@.take(i + 1).last() == found[i as int]);
            match &found[i] {
                Some(handle) => {
                    entries.push(handle.clone());
                    assert(handles_of(entries@) =~= before.push(handle@));
                },
                None => {},
            }
            i += 1;
        }
        assert(found@.take(found.len() as int) =~= found@);
        Self { entries }
    }
}

impl NvmePathProvider for CachedNvmePathProvider {
    fn get_entries(&self) -> (entries: Vec<NvmePath>)
        ensures
            handles_of(entries@) == self.entries(),
    {
        let mut copy: Vec<NvmePath> = Vec::new();
        let mut i: usize = 0;
        while i < self.entries.len()
            invariant
                i <= self.entries.len(),
                copy.len() == i,
                forall|j: int| 0 <= j < i ==> copy[j]@ == self.entries[j]@,
            decreases self.entries.len() - i,
        {
            copy.push(self.entries[i].clone());
            i += 1;
        }
        assert(handles_of(copy@) =~= handles_of(self.entries@));
        copy
    }
}

} // verus!
