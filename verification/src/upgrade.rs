//! The admin-gated upgrade contract.
//!
//! [`GrainlifyContract`] holds a single privileged admin, a version
//! number, and an opaque pointer to the currently installed code.
//! Only the admin, authenticated by the runtime and handed over as
//! `caller`, may move the pointer or the version number.

use vstd::prelude::*;

verus! {

/// Why an upgrade operation was refused.
#[derive(Clone, Copy, Debug, PartialEq, Eq, Structural)]
pub enum UpgradeError {
    /// `init` on a contract that already has an admin.
    AlreadyInitialized,
    /// A gated operation before `init`.
    NotInitialized,
    /// A gated operation by anyone but the admin.
    Unauthorized,
}

/// The version a contract starts at.
pub const VERSION: u32 = 1;

/// An upgradeable contract: one admin, one version, one code pointer.
///
/// The code pointer is an opaque handle to the installed code; the host
/// resolves it to the actual module.
#[derive(Clone, Copy, Debug, PartialEq, Eq, Structural)]
pub struct GrainlifyContract {
    admin: Option<u64>,
    version: Option<u32>,
    current_code: Option<u64>,
}

impl GrainlifyContract {
    /// The stored admin, if initialised.
    pub closed spec fn spec_admin(&self) -> Option<u64> {
        self.admin
    }

    /// The stored version, if one was ever set.
    pub closed spec fn spec_version(&self) -> Option<u32> {
        self.version
    }

    /// The stored code pointer, if an upgrade ever ran.
    pub closed spec fn spec_current_code(&self) -> Option<u64> {
        self.current_code
    }

    /// A contract that nobody has initialised yet.
    pub fn new() -> (c: Self)
        ensures
            c.spec_admin() is None,
            c.spec_version() is None,
            c.spec_current_code() is None,
    {
        GrainlifyContract { admin: None, version: None, current_code: None }
    }

    /// Stores the admin — immutably — and the initial version; single
    /// use, open to the first caller.
    pub fn init(&mut self, admin: u64) -> (r: Result<(), UpgradeError>)
        ensures
            old(self).spec_admin() is Some ==> {
                &&& r == Err::<(), UpgradeError>(UpgradeError::AlreadyInitialized)
                &&& *final(self) == *old(self)
            },
            old(self).spec_admin() is None ==> {
                &&& r == Ok::<(), UpgradeError>(())
                &&& final(self).spec_admin() == Some(admin)
                &&& final(self).spec_version() == Some(VERSION)
                &&& final(self).spec_current_code() == old(self).spec_current_code()
            },
    {
        if self.admin.is_some() {
            return Err(UpgradeError::AlreadyInitialized);
        }
        self.admin = Some(admin);
        self.version = Some(VERSION);
        Ok(())
    }

    /// Moves the code pointer to `new_code_hash`; admin only.
    pub fn upgrade(&mut self, caller: u64, new_code_hash: u64) -> (r: Result<(), UpgradeError>)
        ensures
            old(self).spec_admin() is None ==> {
                &&& r == Err::<(), UpgradeError>(UpgradeError::NotInitialized)
                &&& *final(self) == *old(self)
            },
            (old(self).spec_admin() matches Some(a) && caller != a) ==> {
                &&& r == Err::<(), UpgradeError>(UpgradeError::Unauthorized)
                &&& *final(self) == *old(self)
            },
            old(self).spec_admin() == Some(caller) ==> {
                &&& r == Ok::<(), UpgradeError>(())
                &&& final(self).spec_current_code() == Some(new_code_hash)
                &&& final(self).spec_admin() == old(self).spec_admin()
                &&& final(self).spec_version() == old(self).spec_version()
            },
    {
        let admin = match self.admin {
            None => {
                return Err(UpgradeError::NotInitialized);
            },
            Some(a) => a,
        };
        if caller != admin {
            return Err(UpgradeError::Unauthorized);
        }
        self.current_code = Some(new_code_hash);
        Ok(())
    }

    /// The current version; zero when none was ever stored.
    pub fn get_version(&self) -> (r: u32)
        ensures
            r == match self.spec_version() {
                Some(v) => v,
                None => 0u32,
            },
    {
        match self.version {
            Some(v) => v,
            None => 0,
        }
    }

    /// Records a new version number after an upgrade; admin only.
    pub fn set_version(&mut self, caller: u64, new_version: u32) -> (r: Result<(), UpgradeError>)
        ensures
            old(self).spec_admin() is None ==> {
                &&& r == Err::<(), UpgradeError>(UpgradeError::NotInitialized)
                &&& *final(self) == *old(self)
            },
            (old(self).spec_admin() matches Some(a) && caller != a) ==> {
                &&& r == Err::<(), UpgradeError>(UpgradeError::Unauthorized)
                &&& *final(self) == *old(self)
            },
            old(self).spec_admin() == Some(caller) ==> {
                &&& r == Ok::<(), UpgradeError>(())
                &&& final(self).spec_version() == Some(new_version)
                &&& final(self).spec_admin() == old(self).spec_admin()
                &&& final(self).spec_current_code() == old(self).spec_current_code()
            },
    {
        let admin = match self.admin {
            None => {
                return Err(UpgradeError::NotInitialized);
            },
            Some(a) => a,
        };
        if caller != admin {
            return Err(UpgradeError::Unauthorized);
        }
        self.version = Some(new_version);
        Ok(())
    }

    /// The installed code pointer, if an upgrade ever ran.
    pub fn current_code(&self) -> (r: Option<u64>)
        ensures
            r == self.spec_current_code(),
    {
        self.current_code
    }
}

} // verus!
