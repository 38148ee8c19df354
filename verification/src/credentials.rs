//! The user and group identities a task acts with.
use vstd::prelude::*;

verus! {

/// Real, effective, saved and filesystem user and group IDs, and supplementary groups.
#[derive(Debug, Clone)]
pub struct Credentials {
    pub uid: u32,
    pub euid: u32,
    pub suid: u32,
    pub fsuid: u32,
    pub gid: u32,
    pub egid: u32,
    pub sgid: u32,
    pub fsgid: u32,
    pub supplementary_groups: Vec<u32>,
}

impl Credentials {
    /// The credentials of root: every ID 0, no supplementary groups.
    pub fn root() -> (r: Self)
        ensures
            r.uid == 0 && r.euid == 0 && r.suid == 0 && r.fsuid == 0,
            r.gid == 0 && r.egid == 0 && r.sgid == 0 && r.fsgid == 0,
            r.supplementary_groups@.len() == 0,
    {
        Credentials {
            uid: 0,
            euid: 0,
            suid: 0,
            fsuid: 0,
            gid: 0,
            egid: 0,
            sgid: 0,
            fsgid: 0,
            supplementary_groups: Vec::new(),
        }
    }

    /// Whether the task acts as the superuser: its effective user ID is 0.
    pub fn is_superuser(&self) -> (r: bool)
        ensures
            r == (self.euid == 0),
    {
        self.euid == 0
    }
}

impl Default for Credentials {
    /// Root.
    fn default() -> (r: Self)
        ensures
            r.uid == 0 && r.euid == 0 && r.suid == 0 && r.fsuid == 0,
            r.gid == 0 && r.egid == 0 && r.sgid == 0 && r.fsgid == 0,
            r.supplementary_groups@.len() == 0,
    {
        Self::root()
    }
}

} // verus!
