//! Fund custody and the controlled-spending engine.
//!
//! A [`ReliefVault`] owns four tables: campaigns, campaign donation balances,
//! per-beneficiary allocations and two-phase spending authorizations. All
//! operations are all-or-nothing: on any error the vault is unchanged.
//!
//! The host shell around the library authenticates principals and moves the
//! stablecoin; operations that accompany a token transfer are split so that
//! bookkeeping commits only after the transfer has succeeded, and capacity is
//! re-validated at commit time so that two authorizations issued against the
//! same remaining balance can never both settle.

use vstd::prelude::*;
use vstd::std_specs::vec::vec_index_mut;

use crate::beneficiary::{find_category, limit_keys, CategoryLimit};
use crate::error::Error;
use crate::lookup::{
    clone_string_vec, lemma_seq_find_at, lemma_seq_find_none, lemma_seq_find_props, seq_find,
};

verus! {

/// How a beneficiary may spend: freely, or under per-category ceilings with
/// the authorize/execute protocol.
#[derive(Clone, Copy, Debug, PartialEq, Eq, Structural)]
pub enum ControlMode {
    Direct,
    Controlled,
}

/// Lifecycle of a campaign. Only `Active` campaigns accept donations; no
/// transition away from `Active` is implemented beyond creation.
#[derive(Clone, Copy, Debug, PartialEq, Eq, Structural)]
pub enum CampaignStatus {
    Active,
    Paused,
    Closed,
}

/// Lifecycle of a spending authorization. Status is write-once after leaving
/// `Pending`; no operation produces `Cancelled`.
#[derive(Clone, Copy, Debug, PartialEq, Eq, Structural)]
pub enum AuthorizationStatus {
    Pending,
    Executed,
    Cancelled,
}

/// A relief campaign owned by one NGO.
#[derive(Clone, Debug)]
pub struct Campaign {
    pub campaign_id: String,
    pub ngo_address: String,
    pub target_amount: i128,
    pub control_mode: ControlMode,
    pub created_at: u64,
    pub status: CampaignStatus,
}

/// Collected donations of one campaign, in contract units.
#[derive(Clone, Debug)]
pub struct CampaignBalance {
    pub campaign_id: String,
    pub amount: i128,
}

/// The ceiling carved from a campaign for one beneficiary, with per-category
/// sub-limits and spent counters.
#[derive(Clone, Debug)]
pub struct BeneficiaryAllocation {
    pub beneficiary: String,
    pub campaign_id: String,
    pub total_amount: i128,
    pub spent: i128,
    pub control_mode: ControlMode,
    pub categories: Vec<String>,
    pub category_limits: Vec<CategoryLimit>,
}

/// A beneficiary-approved, not-yet-settled permission for a merchant to
/// receive a specific amount within one category.
#[derive(Clone, Debug)]
pub struct SpendingAuthorization {
    pub auth_id: u64,
    pub beneficiary: String,
    pub merchant: String,
    pub amount: i128,
    pub category: String,
    pub created_at: u64,
    pub status: AuthorizationStatus,
}

/// A fresh sub-limit table with the given ceilings and all spent counters
/// reset to zero.
fn zeroed_limits(v: &Vec<CategoryLimit>) -> (r: Vec<CategoryLimit>)
    ensures
        r@.len() == v@.len(),
        forall|j: int|
            0 <= j < v@.len() ==> {
                &&& (#[trigger] r@[j]).category == v@[j].category
                &&& r@[j].limit == v@[j].limit
                &&& r@[j].spent == 0
            },
{
    let n = v.len();
    let mut r: Vec<CategoryLimit> = Vec::new();
    let mut i: usize = 0;
    while i < n
        invariant
            n == v@.len(),
            i <= n,
            r@.len() == i,
            forall|j: int|
                0 <= j < i ==> {
                    &&& (#[trigger] r@[j]).category == v@[j].category
                    &&& r@[j].limit == v@[j].limit
                    &&& r@[j].spent == 0
                },
        decreases n - i,
    {
        r.push(CategoryLimit { category: v[i].category.clone(), limit: v[i].limit, spent: 0 });
        i += 1;
    }
    r
}

impl CategoryLimit {
    /// A category's spent counter is non-negative and within its ceiling
    /// (a ceiling below zero admits no spending at all).
    pub open spec fn wf(self) -> bool {
        &&& self.spent >= 0
        &&& self.limit >= 0 ==> self.spent <= self.limit
        &&& self.limit < 0 ==> self.spent == 0
    }
}

impl BeneficiaryAllocation {
    /// The category names of the sub-limit table, in order.
    pub open spec fn cat_keys(self) -> Seq<Seq<char>> {
        limit_keys(self.category_limits@)
    }

    /// Whether a sub-limit is provisioned for `category`.
    pub open spec fn has_category(self, category: Seq<char>) -> bool {
        seq_find(self.cat_keys(), category) >= 0
    }

    /// The sub-limit record for `category` (meaningful when present).
    pub open spec fn category_entry(self, category: Seq<char>) -> CategoryLimit {
        self.category_limits@[seq_find(self.cat_keys(), category)]
    }

    /// The ceiling for `category` (meaningful when present).
    pub open spec fn category_limit_of(self, category: Seq<char>) -> int {
        self.category_entry(category).limit as int
    }

    /// Cumulative spend within `category`; zero when no sub-limit exists.
    pub open spec fn category_spent_of(self, category: Seq<char>) -> int {
        if self.has_category(category) {
            self.category_entry(category).spent as int
        } else {
            0
        }
    }

    /// What remains of the allocation's total ceiling.
    pub open spec fn remaining(self) -> int {
        self.total_amount - self.spent
    }

    /// Spent counters are bounded: the total is within the ceiling and each
    /// category counter is within its sub-limit.
    pub open spec fn wf(self) -> bool {
        &&& self.total_amount > 0
        &&& 0 <= self.spent <= self.total_amount
        &&& forall|j: int|
            0 <= j < self.category_limits@.len() ==> (#[trigger] self.category_limits@[j]).wf()
    }
}

/// The fund-custody ledger: campaigns, donation balances, beneficiary
/// allocations and spending authorizations.
pub struct ReliefVault {
    pub admin: String,
    pub usdc_token: String,
    pub campaigns: Vec<Campaign>,
    pub balances: Vec<CampaignBalance>,
    pub allocations: Vec<BeneficiaryAllocation>,
    pub authorizations: Vec<SpendingAuthorization>,
    pub auth_counter: u64,
}

impl ReliefVault {
    pub open spec fn campaign_keys(self) -> Seq<Seq<char>> {
        self.campaigns@.map(|i: int, c: Campaign| c.campaign_id@)
    }

    pub open spec fn balance_keys(self) -> Seq<Seq<char>> {
        self.balances@.map(|i: int, b: CampaignBalance| b.campaign_id@)
    }

    pub open spec fn alloc_keys(self) -> Seq<Seq<char>> {
        self.allocations@.map(|i: int, a: BeneficiaryAllocation| a.beneficiary@)
    }

    /// Whether a campaign with this id exists.
    pub open spec fn has_campaign(self, id: Seq<char>) -> bool {
        seq_find(self.campaign_keys(), id) >= 0
    }

    /// The campaign with this id (meaningful when present).
    pub open spec fn campaign_of(self, id: Seq<char>) -> Campaign {
        self.campaigns@[seq_find(self.campaign_keys(), id)]
    }

    /// Collected donations of a campaign; zero for an unknown id, so callers
    /// cannot distinguish "no such campaign" from "zero balance".
    pub open spec fn balance_of(self, id: Seq<char>) -> int {
        let i = seq_find(self.balance_keys(), id);
        if i >= 0 {
            self.balances@[i].amount as int
        } else {
            0
        }
    }

    /// Whether the beneficiary holds an allocation.
    pub open spec fn has_allocation(self, beneficiary: Seq<char>) -> bool {
        seq_find(self.alloc_keys(), beneficiary) >= 0
    }

    /// The beneficiary's allocation (meaningful when present).
    pub open spec fn allocation_of(self, beneficiary: Seq<char>) -> BeneficiaryAllocation {
        self.allocations@[seq_find(self.alloc_keys(), beneficiary)]
    }

    /// The beneficiary's remaining balance; zero when no allocation exists.
    pub open spec fn remaining_of(self, beneficiary: Seq<char>) -> int {
        if self.has_allocation(beneficiary) {
            self.allocation_of(beneficiary).remaining()
        } else {
            0
        }
    }

    /// Whether an authorization with this id has ever been issued.
    pub open spec fn has_authorization(self, auth_id: u64) -> bool {
        1 <= auth_id <= self.authorizations@.len()
    }

    /// The authorization with this id (meaningful when present).
    pub open spec fn authorization_of(self, auth_id: u64) -> SpendingAuthorization {
        self.authorizations@[auth_id - 1]
    }

    /// Every financial invariant of the ledger: balances are non-negative and
    /// belong to existing campaigns, every allocation's spent counters stay
    /// within their ceilings, and authorization ids are exactly 1..=counter
    /// in issue order.
    pub open spec fn wf(self) -> bool {
        &&& forall|i: int|
            0 <= i < self.campaigns@.len() ==> (#[trigger] self.campaigns@[i]).target_amount > 0
        &&& forall|i: int|
            0 <= i < self.balances@.len() ==> (#[trigger] self.balances@[i]).amount >= 0
        &&& forall|i: int|
            0 <= i < self.balances@.len() ==> self.has_campaign(#[trigger] self.balance_keys()[i])
        &&& forall|i: int|
            0 <= i < self.allocations@.len() ==> (#[trigger] self.allocations@[i]).wf()
        &&& forall|i: int|
            0 <= i < self.authorizations@.len() ==> {
                &&& (#[trigger] self.authorizations@[i]).amount > 0
                &&& self.authorizations@[i].auth_id == i + 1
            }
        &&& self.auth_counter == self.authorizations@.len()
    }

    /// An empty vault, bound to its admin and stablecoin token identities.
    pub fn initialize(admin: String, usdc_token: String) -> (v: ReliefVault)
        ensures
            v.wf(),
            v.admin == admin,
            v.usdc_token == usdc_token,
            v.campaigns@ == Seq::<Campaign>::empty(),
            v.balances@ == Seq::<CampaignBalance>::empty(),
            v.allocations@ == Seq::<BeneficiaryAllocation>::empty(),
            v.authorizations@ == Seq::<SpendingAuthorization>::empty(),
            v.auth_counter == 0,
    {
        ReliefVault {
            admin,
            usdc_token,
            campaigns: Vec::new(),
            balances: Vec::new(),
            allocations: Vec::new(),
            authorizations: Vec::new(),
            auth_counter: 0,
        }
    }

    /// First index of the campaign with this id.
    fn find_campaign(&self, campaign_id: &String) -> (r: Option<usize>)
        ensures
            match r {
                Some(i) => seq_find(self.campaign_keys(), campaign_id@) == i as int,
                None => seq_find(self.campaign_keys(), campaign_id@) == -1,
            },
    {
        let n = self.campaigns.len();
        let mut i: usize = 0;
        while i < n
            invariant
                n == self.campaigns@.len(),
                i <= n,
                forall|j: int| 0 <= j < i ==> self.campaign_keys()[j] != campaign_id@,
            decreases n - i,
        {
            if self.campaigns[i].campaign_id == *campaign_id {
                proof {
                    lemma_seq_find_at(self.campaign_keys(), campaign_id@, i as int);
                }
                return Some(i);
            }
            i += 1;
        }
        proof {
            lemma_seq_find_none(self.campaign_keys(), campaign_id@);
        }
        None
    }

    /// Why `create_campaign` would reject these inputs, or `None` when it
    /// must succeed.
    pub open spec fn create_campaign_check(self, campaign_id: Seq<char>, target_amount: int) -> Option<Error> {
        if target_amount <= 0 {
            Some(Error::InvalidAmount)
        } else if self.has_campaign(campaign_id) {
            Some(Error::CampaignExists)
        } else {
            None
        }
    }

    /// Create a new relief campaign owned by `ngo_address`, with status
    /// `Active` and a zero donation balance. The caller's host has already
    /// authenticated the NGO; `created_at` is the host's clock.
    pub fn create_campaign(
        &mut self,
        ngo_address: &String,
        campaign_id: &String,
        target_amount: i128,
        control_mode: ControlMode,
        created_at: u64,
    ) -> (r: Result<(), Error>)
        requires
            old(self).wf(),
        ensures
            final(self).wf(),
            final(self).admin == old(self).admin,
            final(self).usdc_token == old(self).usdc_token,
            match old(self).create_campaign_check(campaign_id@, target_amount as int) {
                Some(e) => r == Err::<(), Error>(e) && *final(self) == *old(self),
                None => {
                    &&& r == Ok::<(), Error>(())
                    &&& final(self).campaigns@ == old(self).campaigns@.push(
                        (Campaign {
                            campaign_id: *campaign_id,
                            ngo_address: *ngo_address,
                            target_amount,
                            control_mode,
                            created_at,
                            status: CampaignStatus::Active,
                        }),
                    )
                    &&& final(self).balances@ == old(self).balances@.push(
                        (CampaignBalance { campaign_id: *campaign_id, amount: 0 }),
                    )
                    &&& final(self).allocations@ == old(self).allocations@
                    &&& final(self).authorizations@ == old(self).authorizations@
                    &&& final(self).auth_counter == old(self).auth_counter
                    &&& final(self).has_campaign(campaign_id@)
                    &&& final(self).campaign_of(campaign_id@) == (Campaign {
                        campaign_id: *campaign_id,
                        ngo_address: *ngo_address,
                        target_amount,
                        control_mode,
                        created_at,
                        status: CampaignStatus::Active,
                    })
                    &&& final(self).balance_of(campaign_id@) == 0
                    &&& forall|k: Seq<char>|
                        k != campaign_id@ ==> {
                            &&& (final(self).has_campaign(k) <==> old(self).has_campaign(k))
                            &&& (old(self).has_campaign(k) ==> final(self).campaign_of(k) == old(
                                self).campaign_of(k))
                            &&& final(self).balance_of(k) == old(self).balance_of(k)
                        }
                },
            },
    {
        if target_amount <= 0 {
            return Err(Error::InvalidAmount);
        }
        if self.find_campaign(campaign_id).is_some() {
            return Err(Error::CampaignExists);
        }
        let campaign = Campaign {
            campaign_id: campaign_id.clone(),
            ngo_address: ngo_address.clone(),
            target_amount,
            control_mode,
            created_at,
            status: CampaignStatus::Active,
        };
        let ghost pre = *self;
        self.campaigns.push(campaign);
        self.balances.push(CampaignBalance { campaign_id: campaign_id.clone(), amount: 0 });
        proof {
            assert(self.campaign_keys() =~= pre.campaign_keys().push(campaign_id@));
            assert(self.balance_keys() =~= pre.balance_keys().push(campaign_id@));
            lemma_seq_find_props(pre.campaign_keys(), campaign_id@);
            lemma_seq_find_at(self.campaign_keys(), campaign_id@, pre.campaign_keys().len() as int);
            // the new id had no campaign, so by well-formedness it had no
            // balance entry either, and the pushed entry is its first match
            assert forall|j: int| 0 <= j < pre.balance_keys().len() implies pre.balance_keys()[j]
                != campaign_id@ by {
                assert(pre.has_campaign(pre.balance_keys()[j]));
            }
            lemma_seq_find_at(self.balance_keys(), campaign_id@, pre.balance_keys().len() as int);
            assert forall|k: Seq<char>| k != campaign_id@ implies {
                &&& (self.has_campaign(k) <==> pre.has_campaign(k))
                &&& (pre.has_campaign(k) ==> self.campaign_of(k) == pre.campaign_of(k))
                &&& self.balance_of(k) == pre.balance_of(k)
            } by {
                lemma_seq_find_props(pre.campaign_keys(), k);
                if seq_find(pre.campaign_keys(), k) >= 0 {
                    lemma_seq_find_at(self.campaign_keys(), k, seq_find(pre.campaign_keys(), k));
                } else {
                    lemma_seq_find_none(self.campaign_keys(), k);
                }
                lemma_seq_find_props(pre.balance_keys(), k);
                if seq_find(pre.balance_keys(), k) >= 0 {
                    lemma_seq_find_at(self.balance_keys(), k, seq_find(pre.balance_keys(), k));
                } else {
                    lemma_seq_find_none(self.balance_keys(), k);
                }
            }
            assert forall|i: int| 0 <= i < self.balances@.len() implies self.has_campaign(
                #[trigger] self.balance_keys()[i],
            ) by {
                if i < pre.balances@.len() {
                    assert(pre.has_campaign(pre.balance_keys()[i]));
                }
            }
        }
        Ok(())
    }

    /// First index of the balance entry for this campaign id.
    fn find_balance(&self, campaign_id: &String) -> (r: Option<usize>)
        ensures
            match r {
                Some(i) => seq_find(self.balance_keys(), campaign_id@) == i as int && i
                    < self.balances@.len(),
                None => seq_find(self.balance_keys(), campaign_id@) == -1,
            },
    {
        let n = self.balances.len();
        let mut i: usize = 0;
        while i < n
            invariant
                n == self.balances@.len(),
                i <= n,
                forall|j: int| 0 <= j < i ==> self.balance_keys()[j] != campaign_id@,
            decreases n - i,
        {
            if self.balances[i].campaign_id == *campaign_id {
                proof {
                    lemma_seq_find_at(self.balance_keys(), campaign_id@, i as int);
                }
                return Some(i);
            }
            i += 1;
        }
        proof {
            lemma_seq_find_none(self.balance_keys(), campaign_id@);
        }
        None
    }

    /// Why a donation to this campaign would be rejected before the token
    /// moves, or `None` when the bookkeeping must accept it.
    pub open spec fn donate_check(self, campaign_id: Seq<char>, amount: int) -> Option<Error> {
        if amount <= 0 {
            Some(Error::InvalidAmount)
        } else if !self.has_campaign(campaign_id) {
            Some(Error::CampaignNotFound)
        } else if self.campaign_of(campaign_id).status != CampaignStatus::Active {
            Some(Error::Unauthorized)
        } else {
            None
        }
    }

    /// Pre-transfer validation of a donation: exactly the checks `donate`
    /// makes, with no state change. The host calls this, then moves the
    /// token donor-to-vault, then calls `donate` to commit.
    pub fn validate_donation(&self, campaign_id: &String, amount: i128) -> (r: Result<(), Error>)
        ensures
            match self.donate_check(campaign_id@, amount as int) {
                Some(e) => r == Err::<(), Error>(e),
                None => r == Ok::<(), Error>(()),
            },
    {
        if amount <= 0 {
            return Err(Error::InvalidAmount);
        }
        let ci = match self.find_campaign(campaign_id) {
            Some(i) => i,
            None => {
                return Err(Error::CampaignNotFound);
            },
        };
        proof {
            lemma_seq_find_props(self.campaign_keys(), campaign_id@);
        }
        if !(self.campaigns[ci].status == CampaignStatus::Active) {
            return Err(Error::Unauthorized);
        }
        Ok(())
    }

    /// Record a donation: credit the campaign's collected balance. To be
    /// called only after the external donor-to-vault transfer has succeeded;
    /// the validation is repeated here, so a failed or skipped transfer can
    /// never corrupt the bookkeeping. The donor is named by the caller's
    /// authenticated principal and does not enter the ledger.
    pub fn donate(&mut self, donor: &String, campaign_id: &String, amount: i128) -> (r: Result<
        (),
        Error,
    >)
        requires
            old(self).wf(),
            old(self).balance_of(campaign_id@) + amount <= i128::MAX,
        ensures
            final(self).wf(),
            match old(self).donate_check(campaign_id@, amount as int) {
                Some(e) => r == Err::<(), Error>(e) && *final(self) == *old(self),
                None => {
                    &&& r == Ok::<(), Error>(())
                    &&& final(self).balance_of(campaign_id@) == old(self).balance_of(campaign_id@)
                        + amount
                    &&& forall|k: Seq<char>|
                        k != campaign_id@ ==> final(self).balance_of(k) == old(self).balance_of(k)
                    &&& final(self).campaigns@ == old(self).campaigns@
                    &&& final(self).allocations@ == old(self).allocations@
                    &&& final(self).authorizations@ == old(self).authorizations@
                    &&& final(self).auth_counter == old(self).auth_counter
                    &&& final(self).admin == old(self).admin
                    &&& final(self).usdc_token == old(self).usdc_token
                },
            },
    {
        let _ = donor;
        if amount <= 0 {
            return Err(Error::InvalidAmount);
        }
        let ci = match self.find_campaign(campaign_id) {
            Some(i) => i,
            None => {
                return Err(Error::CampaignNotFound);
            },
        };
        proof {
            lemma_seq_find_props(self.campaign_keys(), campaign_id@);
        }
        if !(self.campaigns[ci].status == CampaignStatus::Active) {
            return Err(Error::Unauthorized);
        }
        let ghost pre = *self;
        match self.find_balance(campaign_id) {
            Some(bi) => {
                proof {
                    lemma_seq_find_props(self.balance_keys(), campaign_id@);
                }
                let entry = vec_index_mut(&mut self.balances, bi);
                let cur = entry.amount;
                entry.amount = cur + amount;
                proof {
                    assert(self.balance_keys() =~= pre.balance_keys());
                    assert forall|k: Seq<char>| k != campaign_id@ implies self.balance_of(k)
                        == pre.balance_of(k) by {
                        lemma_seq_find_props(pre.balance_keys(), k);
                    }
                }
            },
            None => {
                self.balances.push(CampaignBalance { campaign_id: campaign_id.clone(), amount });
                proof {
                    assert(self.balance_keys() =~= pre.balance_keys().push(campaign_id@));
                    lemma_seq_find_props(pre.balance_keys(), campaign_id@);
                    lemma_seq_find_at(
                        self.balance_keys(),
                        campaign_id@,
                        pre.balance_keys().len() as int,
                    );
                    assert forall|k: Seq<char>| k != campaign_id@ implies self.balance_of(k)
                        == pre.balance_of(k) by {
                        lemma_seq_find_props(pre.balance_keys(), k);
                        if seq_find(pre.balance_keys(), k) >= 0 {
                            lemma_seq_find_at(
                                self.balance_keys(),
                                k,
                                seq_find(pre.balance_keys(), k),
                            );
                        } else {
                            lemma_seq_find_none(self.balance_keys(), k);
                        }
                    }
                }
            },
        }
        Ok(())
    }

    /// First index of the allocation held by this beneficiary.
    fn find_allocation(&self, beneficiary: &String) -> (r: Option<usize>)
        ensures
            match r {
                Some(i) => seq_find(self.alloc_keys(), beneficiary@) == i as int && i
                    < self.allocations@.len(),
                None => seq_find(self.alloc_keys(), beneficiary@) == -1,
            },
    {
        let n = self.allocations.len();
        let mut i: usize = 0;
        while i < n
            invariant
                n == self.allocations@.len(),
                i <= n,
                forall|j: int| 0 <= j < i ==> self.alloc_keys()[j] != beneficiary@,
            decreases n - i,
        {
            if self.allocations[i].beneficiary == *beneficiary {
                proof {
                    lemma_seq_find_at(self.alloc_keys(), beneficiary@, i as int);
                }
                return Some(i);
            }
            i += 1;
        }
        proof {
            lemma_seq_find_none(self.alloc_keys(), beneficiary@);
        }
        None
    }

    /// Why `allocate_to_beneficiary` would reject these inputs, or `None`
    /// when it must succeed.
    pub open spec fn allocate_check(
        self,
        ngo_address: Seq<char>,
        campaign_id: Seq<char>,
        amount: int,
    ) -> Option<Error> {
        if amount <= 0 {
            Some(Error::InvalidAmount)
        } else if !self.has_campaign(campaign_id) {
            Some(Error::CampaignNotFound)
        } else if self.campaign_of(campaign_id).ngo_address@ != ngo_address {
            Some(Error::Unauthorized)
        } else if self.balance_of(campaign_id) < amount {
            Some(Error::InsufficientBalance)
        } else {
            None
        }
    }

    /// What an allocation looks like right after `allocate_to_beneficiary`
    /// wrote it: the given ceiling and sub-limits, with all spend history
    /// reset to zero.
    pub open spec fn is_fresh_allocation(
        a: BeneficiaryAllocation,
        beneficiary: Seq<char>,
        campaign_id: Seq<char>,
        amount: i128,
        control_mode: ControlMode,
        categories: Seq<String>,
        category_limits: Seq<CategoryLimit>,
    ) -> bool {
        &&& a.beneficiary@ == beneficiary
        &&& a.campaign_id@ == campaign_id
        &&& a.total_amount == amount
        &&& a.spent == 0
        &&& a.control_mode == control_mode
        &&& a.categories@ == categories
        &&& a.category_limits@.len() == category_limits.len()
        &&& forall|j: int|
            0 <= j < category_limits.len() ==> {
                &&& (#[trigger] a.category_limits@[j]).category == category_limits[j].category
                &&& a.category_limits@[j].limit == category_limits[j].limit
                &&& a.category_limits@[j].spent == 0
            }
    }

    /// Carve an allocation out of a campaign for one beneficiary. The
    /// campaign's balance is checked, not deducted. A prior allocation of the
    /// same beneficiary is overwritten wholesale, spend history included.
    /// The `spent` fields of the `category_limits` argument are ignored:
    /// a fresh allocation starts with zero spend in every category.
    pub fn allocate_to_beneficiary(
        &mut self,
        ngo_address: &String,
        campaign_id: &String,
        beneficiary_address: &String,
        amount: i128,
        control_mode: ControlMode,
        categories: &Vec<String>,
        category_limits: &Vec<CategoryLimit>,
    ) -> (r: Result<(), Error>)
        requires
            old(self).wf(),
        ensures
            final(self).wf(),
            match old(self).allocate_check(ngo_address@, campaign_id@, amount as int) {
                Some(e) => r == Err::<(), Error>(e) && *final(self) == *old(self),
                None => {
                    &&& r == Ok::<(), Error>(())
                    &&& final(self).has_allocation(beneficiary_address@)
                    &&& Self::is_fresh_allocation(
                        final(self).allocation_of(beneficiary_address@),
                        beneficiary_address@,
                        campaign_id@,
                        amount,
                        control_mode,
                        categories@,
                        category_limits@,
                    )
                    &&& forall|k: Seq<char>|
                        k != beneficiary_address@ ==> {
                            &&& (final(self).has_allocation(k) <==> old(self).has_allocation(k))
                            &&& (old(self).has_allocation(k) ==> final(self).allocation_of(k) == old(
                                self).allocation_of(k))
                        }
                    &&& final(self).campaigns@ == old(self).campaigns@
                    &&& final(self).balances@ == old(self).balances@
                    &&& final(self).authorizations@ == old(self).authorizations@
                    &&& final(self).auth_counter == old(self).auth_counter
                    &&& final(self).admin == old(self).admin
                    &&& final(self).usdc_token == old(self).usdc_token
                },
            },
    {
        if amount <= 0 {
            return Err(Error::InvalidAmount);
        }
        let ci = match self.find_campaign(campaign_id) {
            Some(i) => i,
            None => {
                return Err(Error::CampaignNotFound);
            },
        };
        proof {
            lemma_seq_find_props(self.campaign_keys(), campaign_id@);
        }
        if !(self.campaigns[ci].ngo_address == *ngo_address) {
            return Err(Error::Unauthorized);
        }
        if self.get_campaign_balance(campaign_id) < amount {
            return Err(Error::InsufficientBalance);
        }
        let allocation = BeneficiaryAllocation {
            beneficiary: beneficiary_address.clone(),
            campaign_id: campaign_id.clone(),
            total_amount: amount,
            spent: 0,
            control_mode,
            categories: clone_string_vec(categories),
            category_limits: zeroed_limits(category_limits),
        };
        let ghost pre = *self;
        match self.find_allocation(beneficiary_address) {
            Some(k) => {
                proof {
                    lemma_seq_find_props(self.alloc_keys(), beneficiary_address@);
                }
                *vec_index_mut(&mut self.allocations, k) = allocation;
                proof {
                    assert(self.alloc_keys() =~= pre.alloc_keys());
                    assert forall|k2: Seq<char>| k2 != beneficiary_address@ implies (
                    self.has_allocation(k2) <==> pre.has_allocation(k2)) && (pre.has_allocation(k2)
                        ==> self.allocation_of(k2) == pre.allocation_of(k2)) by {
                        lemma_seq_find_props(pre.alloc_keys(), k2);
                    }
                }
            },
            None => {
                self.allocations.push(allocation);
                proof {
                    assert(self.alloc_keys() =~= pre.alloc_keys().push(beneficiary_address@));
                    lemma_seq_find_props(pre.alloc_keys(), beneficiary_address@);
                    lemma_seq_find_at(
                        self.alloc_keys(),
                        beneficiary_address@,
                        pre.alloc_keys().len() as int,
                    );
                    assert forall|k2: Seq<char>| k2 != beneficiary_address@ implies (
                    self.has_allocation(k2) <==> pre.has_allocation(k2)) && (pre.has_allocation(k2)
                        ==> self.allocation_of(k2) == pre.allocation_of(k2)) by {
                        lemma_seq_find_props(pre.alloc_keys(), k2);
                        if seq_find(pre.alloc_keys(), k2) >= 0 {
                            lemma_seq_find_at(self.alloc_keys(), k2, seq_find(pre.alloc_keys(), k2));
                        } else {
                            lemma_seq_find_none(self.alloc_keys(), k2);
                        }
                    }
                }
            },
        }
        Ok(())
    }

    /// The beneficiary's remaining allocation balance (ceiling minus spent);
    /// zero when no allocation exists.
    pub fn get_beneficiary_balance(&self, beneficiary_address: &String) -> (r: i128)
        requires
            self.wf(),
        ensures
            r == self.remaining_of(beneficiary_address@),
    {
        match self.find_allocation(beneficiary_address) {
            Some(i) => {
                proof {
                    lemma_seq_find_props(self.alloc_keys(), beneficiary_address@);
                }
                self.allocations[i].total_amount - self.allocations[i].spent
            },
            None => 0,
        }
    }

    /// Cumulative spend of one beneficiary within one category; zero when the
    /// beneficiary has no allocation or the category no sub-limit.
    pub fn get_category_spent(&self, beneficiary_address: &String, category: &String) -> (r: i128)
        ensures
            r == if self.has_allocation(beneficiary_address@) {
                self.allocation_of(beneficiary_address@).category_spent_of(category@)
            } else {
                0
            },
    {
        match self.find_allocation(beneficiary_address) {
            Some(i) => {
                proof {
                    lemma_seq_find_props(self.alloc_keys(), beneficiary_address@);
                }
                match find_category(&self.allocations[i].category_limits, category) {
                    Some(j) => self.allocations[i].category_limits[j].spent,
                    None => 0,
                }
            },
            None => 0,
        }
    }

    /// Why `authorize_spending` would reject these inputs, or `None` when it
    /// must succeed.
    pub open spec fn authorize_check(
        self,
        beneficiary: Seq<char>,
        amount: int,
        category: Seq<char>,
    ) -> Option<Error> {
        if amount <= 0 {
            Some(Error::InvalidAmount)
        } else if !self.has_allocation(beneficiary) {
            Some(Error::BeneficiaryNotWhitelisted)
        } else {
            let a = self.allocation_of(beneficiary);
            if a.control_mode != ControlMode::Controlled {
                Some(Error::InvalidControlMode)
            } else if a.remaining() < amount {
                Some(Error::InsufficientBalance)
            } else if !a.has_category(category) {
                Some(Error::CategoryLimitExceeded)
            } else if amount > a.category_limit_of(category) - a.category_spent_of(category) {
                Some(Error::CategoryLimitExceeded)
            } else {
                None
            }
        }
    }

    /// Issue a spending authorization (controlled mode): validate the
    /// remaining allocation and the category sub-limit, persist a `Pending`
    /// authorization under the next id, and return that id. No spent counter
    /// moves at this step; capacity is validated again at execution time.
    pub fn authorize_spending(
        &mut self,
        beneficiary: &String,
        merchant: &String,
        amount: i128,
        category: &String,
        created_at: u64,
    ) -> (r: Result<u64, Error>)
        requires
            old(self).wf(),
            old(self).auth_counter < u64::MAX,
        ensures
            final(self).wf(),
            match old(self).authorize_check(beneficiary@, amount as int, category@) {
                Some(e) => r == Err::<u64, Error>(e) && *final(self) == *old(self),
                None => {
                    &&& r == Ok::<u64, Error>((old(self).auth_counter + 1) as u64)
                    &&& final(self).auth_counter == old(self).auth_counter + 1
                    &&& final(self).authorizations@ == old(self).authorizations@.push(
                        (SpendingAuthorization {
                            auth_id: (old(self).auth_counter + 1) as u64,
                            beneficiary: *beneficiary,
                            merchant: *merchant,
                            amount,
                            category: *category,
                            created_at,
                            status: AuthorizationStatus::Pending,
                        }),
                    )
                    &&& final(self).campaigns@ == old(self).campaigns@
                    &&& final(self).balances@ == old(self).balances@
                    &&& final(self).allocations@ == old(self).allocations@
                    &&& final(self).admin == old(self).admin
                    &&& final(self).usdc_token == old(self).usdc_token
                },
            },
    {
        if amount <= 0 {
            return Err(Error::InvalidAmount);
        }
        let k = match self.find_allocation(beneficiary) {
            Some(k) => k,
            None => {
                return Err(Error::BeneficiaryNotWhitelisted);
            },
        };
        proof {
            lemma_seq_find_props(self.alloc_keys(), beneficiary@);
        }
        if !(self.allocations[k].control_mode == ControlMode::Controlled) {
            return Err(Error::InvalidControlMode);
        }
        if self.allocations[k].total_amount - self.allocations[k].spent < amount {
            return Err(Error::InsufficientBalance);
        }
        let j = match find_category(&self.allocations[k].category_limits, category) {
            Some(j) => j,
            None => {
                return Err(Error::CategoryLimitExceeded);
            },
        };
        proof {
            lemma_seq_find_props(self.allocations@[k as int].cat_keys(), category@);
        }
        let limit = self.allocations[k].category_limits[j].limit;
        let cat_spent = self.allocations[k].category_limits[j].spent;
        if amount > limit - cat_spent {
            return Err(Error::CategoryLimitExceeded);
        }
        let auth_id = self.auth_counter + 1;
        self.auth_counter = auth_id;
        let authorization = SpendingAuthorization {
            auth_id,
            beneficiary: beneficiary.clone(),
            merchant: merchant.clone(),
            amount,
            category: category.clone(),
            created_at,
            status: AuthorizationStatus::Pending,
        };
        self.authorizations.push(authorization);
        proof {
            assert(self.campaign_keys() =~= old(self).campaign_keys());
            assert(self.balance_keys() =~= old(self).balance_keys());
            assert forall|i: int| 0 <= i < self.balances@.len() implies self.has_campaign(
                #[trigger] self.balance_keys()[i],
            ) by {
                assert(old(self).has_campaign(old(self).balance_keys()[i]));
            }
        }
        Ok(auth_id)
    }

    /// Why executing this authorization would be rejected, or `None` when it
    /// must succeed. Besides requiring a known, still-`Pending` authorization,
    /// execution re-validates the allocation's remaining balance and category
    /// sub-limit: two authorizations issued against the same remaining
    /// capacity can never both pass this check and settle.
    pub open spec fn execute_check(self, auth_id: u64) -> Option<Error> {
        if !self.has_authorization(auth_id) {
            Some(Error::AuthorizationNotFound)
        } else {
            let auth = self.authorization_of(auth_id);
            if auth.status != AuthorizationStatus::Pending {
                Some(Error::Unauthorized)
            } else if !self.has_allocation(auth.beneficiary@) {
                Some(Error::BeneficiaryNotWhitelisted)
            } else {
                let a = self.allocation_of(auth.beneficiary@);
                if a.remaining() < auth.amount {
                    Some(Error::InsufficientBalance)
                } else if !a.has_category(auth.category@) {
                    Some(Error::CategoryLimitExceeded)
                } else if auth.amount > a.category_limit_of(auth.category@) - a.category_spent_of(
                    auth.category@,
                ) {
                    Some(Error::CategoryLimitExceeded)
                } else {
                    None
                }
            }
        }
    }

    /// An authorization record after settlement: the same grant, `Executed`.
    pub open spec fn auth_executed(pre: SpendingAuthorization, post: SpendingAuthorization) -> bool {
        &&& post.auth_id == pre.auth_id
        &&& post.beneficiary == pre.beneficiary
        &&& post.merchant == pre.merchant
        &&& post.amount == pre.amount
        &&& post.category == pre.category
        &&& post.created_at == pre.created_at
        &&& post.status == AuthorizationStatus::Executed
    }

    /// An allocation after committing a spend of `amount` within `category`:
    /// the total and the category counter each grow by exactly `amount`, and
    /// nothing else moves.
    pub open spec fn alloc_after_spend(
        pre: BeneficiaryAllocation,
        post: BeneficiaryAllocation,
        category: Seq<char>,
        amount: int,
    ) -> bool {
        &&& post.beneficiary == pre.beneficiary
        &&& post.campaign_id == pre.campaign_id
        &&& post.total_amount == pre.total_amount
        &&& post.control_mode == pre.control_mode
        &&& post.categories@ == pre.categories@
        &&& post.spent == pre.spent + amount
        &&& post.cat_keys() == pre.cat_keys()
        &&& post.category_spent_of(category) == pre.category_spent_of(category) + amount
        &&& post.category_limit_of(category) == pre.category_limit_of(category)
        &&& forall|c: Seq<char>|
            c != category ==> #[trigger] post.category_spent_of(c) == pre.category_spent_of(c)
        &&& forall|c: Seq<char>|
            pre.has_category(c) && c != category ==> #[trigger] post.category_entry(c)
                == pre.category_entry(c)
    }

    /// Validate an execution and hand back the transfer the host must make
    /// (merchant and amount), with no state change. The host performs the
    /// vault-to-merchant transfer and, only on its success, calls
    /// `execute_spending` to commit.
    pub fn prepare_execution(&self, auth_id: u64) -> (r: Result<(String, i128), Error>)
        requires
            self.wf(),
        ensures
            match self.execute_check(auth_id) {
                Some(e) => r == Err::<(String, i128), Error>(e),
                None => r == Ok::<(String, i128), Error>(
                    (
                        self.authorization_of(auth_id).merchant,
                        self.authorization_of(auth_id).amount,
                    ),
                ),
            },
    {
        let n = self.authorizations.len();
        if auth_id < 1 || auth_id > n as u64 {
            return Err(Error::AuthorizationNotFound);
        }
        let idx = (auth_id - 1) as usize;
        if !(self.authorizations[idx].status == AuthorizationStatus::Pending) {
            return Err(Error::Unauthorized);
        }
        let k = match self.find_allocation(&self.authorizations[idx].beneficiary) {
            Some(k) => k,
            None => {
                return Err(Error::BeneficiaryNotWhitelisted);
            },
        };
        let amount = self.authorizations[idx].amount;
        if self.allocations[k].total_amount - self.allocations[k].spent < amount {
            return Err(Error::InsufficientBalance);
        }
        proof {
            lemma_seq_find_props(self.alloc_keys(), self.authorizations@[idx as int].beneficiary@);
        }
        let j = match find_category(
            &self.allocations[k].category_limits,
            &self.authorizations[idx].category,
        ) {
            Some(j) => j,
            None => {
                return Err(Error::CategoryLimitExceeded);
            },
        };
        proof {
            lemma_seq_find_props(
                self.allocations@[k as int].cat_keys(),
                self.authorizations@[idx as int].category@,
            );
        }
        let limit = self.allocations[k].category_limits[j].limit;
        let cat_spent = self.allocations[k].category_limits[j].spent;
        if amount > limit - cat_spent {
            return Err(Error::CategoryLimitExceeded);
        }
        Ok((self.authorizations[idx].merchant.clone(), amount))
    }

    /// Everything a successful settlement changes, and everything it leaves
    /// alone: the authorization becomes `Executed`, the named allocation's
    /// spent counters grow by the authorized amount, and no other record of
    /// the ledger moves.
    pub open spec fn execute_post(pre: ReliefVault, post: ReliefVault, auth_id: u64) -> bool {
        let auth = pre.authorization_of(auth_id);
        &&& post.has_authorization(auth_id)
        &&& Self::auth_executed(auth, post.authorization_of(auth_id))
        &&& post.authorizations@.len() == pre.authorizations@.len()
        &&& forall|id2: u64|
            pre.has_authorization(id2) && id2 != auth_id ==> post.authorization_of(id2)
                == pre.authorization_of(id2)
        &&& post.has_allocation(auth.beneficiary@)
        &&& Self::alloc_after_spend(
            pre.allocation_of(auth.beneficiary@),
            post.allocation_of(auth.beneficiary@),
            auth.category@,
            auth.amount as int,
        )
        &&& forall|k: Seq<char>|
            k != auth.beneficiary@ ==> {
                &&& (post.has_allocation(k) <==> pre.has_allocation(k))
                &&& (pre.has_allocation(k) ==> post.allocation_of(k) == pre.allocation_of(k))
            }
        &&& post.campaigns@ == pre.campaigns@
        &&& post.balances@ == pre.balances@
        &&& post.auth_counter == pre.auth_counter
        &&& post.admin == pre.admin
        &&& post.usdc_token == pre.usdc_token
    }

    /// Commit an executed settlement: mark the authorization `Executed` and
    /// add its amount to the allocation's total and category spent counters.
    /// To be called only after the external vault-to-merchant transfer has
    /// succeeded; every check of `prepare_execution` is repeated here, so a
    /// failed or skipped transfer can never corrupt the bookkeeping, and a
    /// settled authorization is rejected with `Unauthorized` ever after.
    pub fn execute_spending(&mut self, auth_id: u64) -> (r: Result<(), Error>)
        requires
            old(self).wf(),
        ensures
            final(self).wf(),
            match old(self).execute_check(auth_id) {
                Some(e) => r == Err::<(), Error>(e) && *final(self) == *old(self),
                None => r == Ok::<(), Error>(()) && Self::execute_post(
                    *old(self),
                    *final(self),
                    auth_id,
                ),
            },
    {
        let n = self.authorizations.len();
        if auth_id < 1 || auth_id > n as u64 {
            return Err(Error::AuthorizationNotFound);
        }
        let idx = (auth_id - 1) as usize;
        if !(self.authorizations[idx].status == AuthorizationStatus::Pending) {
            return Err(Error::Unauthorized);
        }
        let beneficiary = self.authorizations[idx].beneficiary.clone();
        let category = self.authorizations[idx].category.clone();
        let amount = self.authorizations[idx].amount;
        let k = match self.find_allocation(&beneficiary) {
            Some(k) => k,
            None => {
                return Err(Error::BeneficiaryNotWhitelisted);
            },
        };
        proof {
            lemma_seq_find_props(self.alloc_keys(), beneficiary@);
        }
        if self.allocations[k].total_amount - self.allocations[k].spent < amount {
            return Err(Error::InsufficientBalance);
        }
        let j = match find_category(&self.allocations[k].category_limits, &category) {
            Some(j) => j,
            None => {
                return Err(Error::CategoryLimitExceeded);
            },
        };
        proof {
            lemma_seq_find_props(self.allocations@[k as int].cat_keys(), category@);
        }
        let limit = self.allocations[k].category_limits[j].limit;
        let cat_spent = self.allocations[k].category_limits[j].spent;
        if amount > limit - cat_spent {
            return Err(Error::CategoryLimitExceeded);
        }
        let ghost pre = *self;
        let alloc = vec_index_mut(&mut self.allocations, k);
        let s0 = alloc.spent;
        alloc.spent = s0 + amount;
        let entry = vec_index_mut(&mut alloc.category_limits, j);
        let c0 = entry.spent;
        entry.spent = c0 + amount;
        let auth = vec_index_mut(&mut self.authorizations, idx);
        auth.status = AuthorizationStatus::Executed;
        proof {
            assert(self.campaign_keys() =~= pre.campaign_keys());
            assert(self.balance_keys() =~= pre.balance_keys());
            assert forall|i: int| 0 <= i < self.balances@.len() implies self.has_campaign(
                #[trigger] self.balance_keys()[i],
            ) by {
                assert(pre.has_campaign(pre.balance_keys()[i]));
            }
            assert(self.alloc_keys() =~= pre.alloc_keys());
            assert(self.allocations@[k as int].cat_keys() =~= pre.allocations@[k as int].cat_keys());
            let post_a = self.allocations@[k as int];
            let pre_a = pre.allocations@[k as int];
            assert forall|c: Seq<char>| c != category@ implies #[trigger] post_a.category_spent_of(
                c,
            ) == pre_a.category_spent_of(c) by {
                lemma_seq_find_props(pre_a.cat_keys(), c);
            }
            assert forall|c: Seq<char>| pre_a.has_category(c) && c != category@ implies #[trigger]
            post_a.category_entry(c) == pre_a.category_entry(c) by {
                lemma_seq_find_props(pre_a.cat_keys(), c);
            }
            assert forall|k2: Seq<char>| k2 != beneficiary@ implies {
                &&& (self.has_allocation(k2) <==> pre.has_allocation(k2))
                &&& (pre.has_allocation(k2) ==> self.allocation_of(k2) == pre.allocation_of(k2))
            } by {
                lemma_seq_find_props(pre.alloc_keys(), k2);
            }
        }
        Ok(())
    }

    /// The enumerated status of an authorization: pending, executed,
    /// cancelled, or unknown id.
    pub open spec fn auth_status_code(self, auth_id: u64) -> u32 {
        if !self.has_authorization(auth_id) {
            3
        } else {
            match self.authorization_of(auth_id).status {
                AuthorizationStatus::Pending => 0,
                AuthorizationStatus::Executed => 1,
                AuthorizationStatus::Cancelled => 2,
            }
        }
    }

    /// Status of an authorization as a stable numeric code.
    pub fn get_authorization_status(&self, auth_id: u64) -> (r: u32)
        requires
            self.wf(),
        ensures
            r == self.auth_status_code(auth_id),
    {
        let n = self.authorizations.len();
        if auth_id < 1 || auth_id > n as u64 {
            return 3;
        }
        let idx = (auth_id - 1) as usize;
        match self.authorizations[idx].status {
            AuthorizationStatus::Pending => 0,
            AuthorizationStatus::Executed => 1,
            AuthorizationStatus::Cancelled => 2,
        }
    }

    /// Collected donation balance of a campaign; zero for an unknown id.
    pub fn get_campaign_balance(&self, campaign_id: &String) -> (r: i128)
        ensures
            r == self.balance_of(campaign_id@),
    {
        match self.find_balance(campaign_id) {
            Some(i) => self.balances[i].amount,
            None => 0,
        }
    }
}

/// In every well-formed ledger state, cumulative spend within a category
/// never exceeds that category's ceiling. (A ceiling below zero admits no
/// spending at all, so its counter is pinned at zero.)
pub proof fn lemma_category_spent_within_limit(
    v: ReliefVault,
    beneficiary: Seq<char>,
    category: Seq<char>,
)
    requires
        v.wf(),
        v.has_allocation(beneficiary),
        v.allocation_of(beneficiary).has_category(category),
    ensures
        0 <= v.allocation_of(beneficiary).category_spent_of(category),
        v.allocation_of(beneficiary).category_limit_of(category) >= 0 ==> v.allocation_of(
            beneficiary,
        ).category_spent_of(category) <= v.allocation_of(beneficiary).category_limit_of(category),
        v.allocation_of(beneficiary).category_limit_of(category) < 0 ==> v.allocation_of(
            beneficiary,
        ).category_spent_of(category) == 0,
{
    lemma_seq_find_props(v.alloc_keys(), beneficiary);
    let a = v.allocation_of(beneficiary);
    lemma_seq_find_props(a.cat_keys(), category);
}

/// In every well-formed ledger state, an allocation's spent total lies
/// between zero and its ceiling, so the remaining balance does too.
pub proof fn lemma_spent_within_total(v: ReliefVault, beneficiary: Seq<char>)
    requires
        v.wf(),
        v.has_allocation(beneficiary),
    ensures
        0 <= v.allocation_of(beneficiary).spent,
        v.allocation_of(beneficiary).spent <= v.allocation_of(beneficiary).total_amount,
        0 <= v.remaining_of(beneficiary) <= v.allocation_of(beneficiary).total_amount,
{
    lemma_seq_find_props(v.alloc_keys(), beneficiary);
}

/// Across a settlement, every allocation's spent total is non-decreasing:
/// the settled beneficiary's grows by exactly the authorized (positive)
/// amount and every other allocation is untouched.
pub proof fn lemma_spent_monotone(pre: ReliefVault, post: ReliefVault, auth_id: u64)
    requires
        pre.wf(),
        pre.execute_check(auth_id) is None,
        ReliefVault::execute_post(pre, post, auth_id),
    ensures
        forall|b: Seq<char>|
            #[trigger] post.has_allocation(b) ==> pre.has_allocation(b) && pre.allocation_of(
                b,
            ).spent <= post.allocation_of(b).spent,
{
    let auth = pre.authorization_of(auth_id);
    assert(auth.amount > 0);
}

/// A settlement moves its authorization from `Pending` to `Executed` and
/// leaves every other authorization alone; settling the same authorization a
/// second time is rejected as `Unauthorized` (and, by the settlement
/// contract, rejection changes no state, so nothing can be spent twice).
pub proof fn lemma_execute_exactly_once(pre: ReliefVault, post: ReliefVault, auth_id: u64)
    requires
        pre.wf(),
        pre.execute_check(auth_id) is None,
        ReliefVault::execute_post(pre, post, auth_id),
    ensures
        pre.authorization_of(auth_id).status == AuthorizationStatus::Pending,
        post.authorization_of(auth_id).status == AuthorizationStatus::Executed,
        post.execute_check(auth_id) == Some(Error::Unauthorized),
        forall|id2: u64|
            pre.has_authorization(id2) && id2 != auth_id ==> #[trigger] post.authorization_of(
                id2,
            ).status == pre.authorization_of(id2).status,
{
}

/// Reads are stable: any two reads of a campaign balance or of a remaining
/// beneficiary balance taken from the same ledger state are equal, because
/// each read is a pure function of the state.
pub proof fn lemma_repeated_reads_identical(
    v: ReliefVault,
    campaign_id: Seq<char>,
    beneficiary: Seq<char>,
    r1: int,
    r2: int,
    s1: int,
    s2: int,
)
    requires
        r1 == v.balance_of(campaign_id),
        r2 == v.balance_of(campaign_id),
        s1 == v.remaining_of(beneficiary),
        s2 == v.remaining_of(beneficiary),
    ensures
        r1 == r2,
        s1 == s2,
{
}

/// Two pending authorizations whose amounts together exceed the remaining
/// allocation can never both settle: once one of them executes, re-validation
/// rejects the other with `InsufficientBalance`.
pub proof fn lemma_overlapping_authorizations_cannot_both_settle(
    pre: ReliefVault,
    post: ReliefVault,
    first_id: u64,
    second_id: u64,
)
    requires
        pre.wf(),
        pre.execute_check(first_id) is None,
        ReliefVault::execute_post(pre, post, first_id),
        pre.has_authorization(second_id),
        second_id != first_id,
        pre.authorization_of(second_id).status == AuthorizationStatus::Pending,
        pre.authorization_of(second_id).beneficiary@ == pre.authorization_of(
            first_id,
        ).beneficiary@,
        pre.authorization_of(first_id).amount + pre.authorization_of(second_id).amount
            > pre.remaining_of(pre.authorization_of(first_id).beneficiary@),
    ensures
        post.execute_check(second_id) == Some(Error::InsufficientBalance),
{
    let b = pre.authorization_of(first_id).beneficiary@;
    lemma_seq_find_props(pre.alloc_keys(), b);
    assert(post.authorization_of(second_id) == pre.authorization_of(second_id));
    assert(post.allocation_of(b).remaining() < pre.authorization_of(second_id).amount);
}

} // verus!
