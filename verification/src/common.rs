//! Items shared by the contracts: account identifiers, family roles,
//! coverage types and paging limits.

use vstd::prelude::*;

verus! {

/// An account (a ledger address), identified by a number that the host
/// assigns to each address; accounts are only ever compared for identity.
pub type Address = u64;

/// Current contract version reported when none was stored.
pub const CONTRACT_VERSION: u32 = 1;

/// Default page size when a caller passes a limit of zero.
pub const DEFAULT_PAGE_LIMIT: u32 = 20;

/// Largest page size handed out.
pub const MAX_PAGE_LIMIT: u32 = 50;

/// Largest batch accepted by batch operations.
pub const MAX_BATCH_SIZE: u32 = 50;

/// Roles in a family wallet, from most to least privileged.
#[derive(Clone, Copy, Debug, PartialEq, Eq, Structural)]
pub enum FamilyRole {
    Owner,
    Admin,
    Member,
    Viewer,
}

/// The rank of a role: 1 for Owner up to 4 for Viewer (lower is stronger).
pub open spec fn role_rank(role: FamilyRole) -> u32 {
    match role {
        FamilyRole::Owner => 1,
        FamilyRole::Admin => 2,
        FamilyRole::Member => 3,
        FamilyRole::Viewer => 4,
    }
}

/// The rank of a role (1 = Owner, 2 = Admin, 3 = Member, 4 = Viewer).
pub fn role_ordinal(role: FamilyRole) -> (r: u32)
    ensures
        r == role_rank(role),
{
    match role {
        FamilyRole::Owner => 1,
        FamilyRole::Admin => 2,
        FamilyRole::Member => 3,
        FamilyRole::Viewer => 4,
    }
}

/// Kinds of insurance coverage.
#[derive(Clone, Copy, Debug, PartialEq, Eq, Structural)]
pub enum CoverageType {
    Health,
    Life,
    Property,
    Auto,
    Liability,
}

} // verus!
