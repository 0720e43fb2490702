//! Administrator roles and role sets, kept as a small bit-set.

use vstd::prelude::*;

verus! {

/// One administrator permission.
#[derive(Debug, Clone, Copy, PartialEq, Eq, Hash)]
pub enum AdminUserRole {
    Nothing,
    ReadSecurityConfig,
    ModifySecurityConfig,
    ReadSystemConfig,
    ModifySystemConfig,
    FullAccess,
}

impl AdminUserRole {
    /// The bit pattern this role occupies inside a role set.
    pub open spec fn spec_mask(self) -> u8 {
        match self {
            AdminUserRole::Nothing => 0x00,
            AdminUserRole::ReadSecurityConfig => 0x01,
            AdminUserRole::ModifySecurityConfig => 0x02,
            AdminUserRole::ReadSystemConfig => 0x04,
            AdminUserRole::ModifySystemConfig => 0x08,
            AdminUserRole::FullAccess => 0xff,
        }
    }

    /// A short machine-readable name for the role.
    pub fn name(self) -> (r: &'static str) {
        match self {
            AdminUserRole::Nothing => "nothing",
            AdminUserRole::ReadSecurityConfig => "read_secure_config",
            AdminUserRole::ModifySecurityConfig => "mod_secure_config",
            AdminUserRole::ReadSystemConfig => "read_system_config",
            AdminUserRole::ModifySystemConfig => "mod_system_config",
            AdminUserRole::FullAccess => "full_access",
        }
    }

    /// The executable counterpart of `spec_mask`.
    pub fn mask(self) -> (r: u8)
        ensures
            r == self.spec_mask(),
    {
        match self {
            AdminUserRole::Nothing => 0x00,
            AdminUserRole::ReadSecurityConfig => 0x01,
            AdminUserRole::ModifySecurityConfig => 0x02,
            AdminUserRole::ReadSystemConfig => 0x04,
            AdminUserRole::ModifySystemConfig => 0x08,
            AdminUserRole::FullAccess => 0xff,
        }
    }
}

/// A set of administrator permissions, one bit per role.
#[derive(Debug, Clone, Copy, PartialEq, Eq, Hash)]
pub struct AdminUserRoleSet(u8);

impl AdminUserRoleSet {
    /// The raw bits of the set.
    pub closed spec fn spec_bits(self) -> u8 {
        self.0
    }

    /// Whether the set covers the given role, bit-wise.
    pub open spec fn spec_has(self, role: AdminUserRole) -> bool {
        self.spec_bits() & role.spec_mask() != 0
    }

    /// The empty role set.
    pub fn new() -> (r: Self)
        ensures
            r.spec_bits() == 0u8,
    {
        AdminUserRoleSet(0)
    }

    /// A set with exactly the given bits, for callers that persist sets.
    pub fn from_bits(bits: u8) -> (r: Self)
        ensures
            r.spec_bits() == bits,
    {
        AdminUserRoleSet(bits)
    }

    /// The raw bits of the set, for callers that persist sets.
    pub fn bits(&self) -> (r: u8)
        ensures
            r == self.spec_bits(),
    {
        self.0
    }

    /// Grants a role: all its bits are added to the set.
    pub fn add(&mut self, role: AdminUserRole)
        ensures
            final(self).spec_bits() == old(self).spec_bits() | role.spec_mask(),
    {
        self.0 = self.0 | role.mask();
    }

    /// Revokes a role: all its bits are cleared from the set.
    pub fn remove(&mut self, role: AdminUserRole)
        ensures
            final(self).spec_bits() == old(self).spec_bits() & !role.spec_mask(),
    {
        self.0 = self.0 & !role.mask();
    }

    /// Whether any bit of the given role is present in the set.
    pub fn has(&self, role: AdminUserRole) -> (r: bool)
        ensures
            r == self.spec_has(role),
    {
        self.0 & role.mask() != 0
    }
}

} // verus!
