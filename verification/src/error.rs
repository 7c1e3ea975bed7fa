//! Error kinds shared by the vault and the registries.

use vstd::prelude::*;

verus! {

/// Why an operation was rejected. Every operation is all-or-nothing: when one
/// of these comes back, no state has changed.
#[derive(Clone, Copy, Debug, PartialEq, Eq, Structural)]
pub enum Error {
    /// Caller is not authorized, or the lifecycle state forbids the action.
    Unauthorized,
    /// Campaign does not exist.
    CampaignNotFound,
    /// Insufficient balance for the operation.
    InsufficientBalance,
    /// Beneficiary has no allocation (not whitelisted).
    BeneficiaryNotWhitelisted,
    /// Category spending limit exceeded, or category not provisioned.
    CategoryLimitExceeded,
    /// Merchant is not approved for this category.
    MerchantNotApproved,
    /// Amount is zero or negative.
    InvalidAmount,
    /// Authorization not found.
    AuthorizationNotFound,
    /// Already initialized or already registered.
    AlreadyInitialized,
    /// NGO is not registered.
    NGONotRegistered,
    /// NGO is not verified.
    NGONotVerified,
    /// Control mode does not permit the operation.
    InvalidControlMode,
    /// Beneficiary already exists.
    BeneficiaryExists,
    /// Merchant already registered.
    MerchantExists,
    /// Campaign already exists.
    CampaignExists,
}

impl Error {
    /// The stable numeric code of each error kind, as exposed to callers
    /// over the contract boundary.
    pub open spec fn spec_code(self) -> u32 {
        match self {
            Error::Unauthorized => 1,
            Error::CampaignNotFound => 2,
            Error::InsufficientBalance => 3,
            Error::BeneficiaryNotWhitelisted => 4,
            Error::CategoryLimitExceeded => 5,
            Error::MerchantNotApproved => 6,
            Error::InvalidAmount => 7,
            Error::AuthorizationNotFound => 8,
            Error::AlreadyInitialized => 9,
            Error::NGONotRegistered => 10,
            Error::NGONotVerified => 11,
            Error::InvalidControlMode => 12,
            Error::BeneficiaryExists => 13,
            Error::MerchantExists => 14,
            Error::CampaignExists => 15,
        }
    }

    /// Numeric code of this error kind.
    pub fn code(&self) -> (r: u32)
        ensures
            r == self.spec_code(),
    {
        match self {
            Error::Unauthorized => 1,
            Error::CampaignNotFound => 2,
            Error::InsufficientBalance => 3,
            Error::BeneficiaryNotWhitelisted => 4,
            Error::CategoryLimitExceeded => 5,
            Error::MerchantNotApproved => 6,
            Error::InvalidAmount => 7,
            Error::AuthorizationNotFound => 8,
            Error::AlreadyInitialized => 9,
            Error::NGONotRegistered => 10,
            Error::NGONotVerified => 11,
            Error::InvalidControlMode => 12,
            Error::BeneficiaryExists => 13,
            Error::MerchantExists => 14,
            Error::CampaignExists => 15,
        }
    }
}

} // verus!
