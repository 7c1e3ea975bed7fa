//! Beneficiary registry: registration, approval and per-category ceilings.
//!
//! An identity collaborator of the vault: it tracks who applied for a
//! campaign, who was approved, and the per-category ceilings granted at
//! approval time. The vault's allocation table remains the authoritative
//! store for controlled spending; this registry serves status lookups and a
//! read view of the granted ceilings. The host shell authenticates callers.

use vstd::prelude::*;
use vstd::std_specs::vec::vec_index_mut;

use crate::error::Error;
use crate::lookup::{lemma_seq_find_at, lemma_seq_find_none, lemma_seq_find_props, seq_find, string_keys};
use crate::vault::ControlMode;

verus! {

/// One category's spending ceiling and cumulative spend.
#[derive(Clone, Debug)]
pub struct CategoryLimit {
    pub category: String,
    pub limit: i128,
    pub spent: i128,
}

/// The category names of a sub-limit table, in order.
pub open spec fn limit_keys(s: Seq<CategoryLimit>) -> Seq<Seq<char>> {
    s.map(|i: int, c: CategoryLimit| c.category@)
}

/// First index of the sub-limit record for this category.
pub(crate) fn find_category(limits: &Vec<CategoryLimit>, category: &String) -> (r: Option<usize>)
    ensures
        match r {
            Some(j) => seq_find(limit_keys(limits@), category@) == j as int && j < limits@.len(),
            None => seq_find(limit_keys(limits@), category@) == -1,
        },
{
    let n = limits.len();
    let mut i: usize = 0;
    while i < n
        invariant
            n == limits@.len(),
            i <= n,
            forall|j: int| 0 <= j < i ==> limit_keys(limits@)[j] != category@,
        decreases n - i,
    {
        if limits[i].category == *category {
            proof {
                lemma_seq_find_at(limit_keys(limits@), category@, i as int);
            }
            return Some(i);
        }
        i += 1;
    }
    proof {
        lemma_seq_find_none(limit_keys(limits@), category@);
    }
    None
}

/// Lifecycle of a beneficiary application.
#[derive(Clone, Copy, Debug, PartialEq, Eq, Structural)]
pub enum BeneficiaryStatus {
    Pending,
    Approved,
    Rejected,
    Suspended,
}

/// One beneficiary application and its approval state.
#[derive(Clone, Debug)]
pub struct BeneficiaryInfo {
    pub address: String,
    pub campaign_id: String,
    pub control_mode: ControlMode,
    pub status: BeneficiaryStatus,
    pub registered_at: u64,
    pub approved_at: u64,
    pub total_allocation: i128,
    pub spent: i128,
    pub mongodb_doc_ref: String,
    pub rejection_reason: String,
}

/// Copy one beneficiary record.
fn clone_beneficiary_info(info: &BeneficiaryInfo) -> (r: BeneficiaryInfo)
    ensures
        r == *info,
{
    BeneficiaryInfo {
        address: info.address.clone(),
        campaign_id: info.campaign_id.clone(),
        control_mode: info.control_mode,
        status: info.status,
        registered_at: info.registered_at,
        approved_at: info.approved_at,
        total_allocation: info.total_allocation,
        spent: info.spent,
        mongodb_doc_ref: info.mongodb_doc_ref.clone(),
        rejection_reason: info.rejection_reason.clone(),
    }
}

/// The applicants of one campaign still awaiting review.
#[derive(Clone, Debug)]
pub struct PendingApplications {
    pub campaign_id: String,
    pub applicants: Vec<String>,
}

/// The category ceilings granted to one beneficiary at approval time.
#[derive(Clone, Debug)]
pub struct BeneficiaryLimits {
    pub beneficiary: String,
    pub limits: Vec<CategoryLimit>,
}

/// Sum of a list of ceilings, taken left to right.
pub open spec fn sum_limits(s: Seq<i128>) -> int
    decreases s.len(),
{
    if s.len() == 0 {
        0
    } else {
        sum_limits(s.drop_last()) + s.last()
    }
}

/// The beneficiary registry: applications, approvals and granted ceilings.
pub struct BeneficiaryRegistry {
    pub admin: String,
    pub beneficiaries: Vec<BeneficiaryInfo>,
    pub pending: Vec<PendingApplications>,
    pub limits: Vec<BeneficiaryLimits>,
}

impl BeneficiaryRegistry {
    pub open spec fn benef_keys(self) -> Seq<Seq<char>> {
        self.beneficiaries@.map(|i: int, b: BeneficiaryInfo| b.address@)
    }

    pub open spec fn pending_keys(self) -> Seq<Seq<char>> {
        self.pending@.map(|i: int, p: PendingApplications| p.campaign_id@)
    }

    pub open spec fn limits_keys(self) -> Seq<Seq<char>> {
        self.limits@.map(|i: int, l: BeneficiaryLimits| l.beneficiary@)
    }

    /// Whether this address has applied.
    pub open spec fn has_beneficiary(self, address: Seq<char>) -> bool {
        seq_find(self.benef_keys(), address) >= 0
    }

    /// The application record of this address (meaningful when present).
    pub open spec fn beneficiary_of(self, address: Seq<char>) -> BeneficiaryInfo {
        self.beneficiaries@[seq_find(self.benef_keys(), address)]
    }

    /// Whether a campaign has a pending-applicant list.
    pub open spec fn has_pending_list(self, campaign_id: Seq<char>) -> bool {
        seq_find(self.pending_keys(), campaign_id) >= 0
    }

    /// The pending applicants of a campaign (meaningful when present).
    pub open spec fn pending_list_of(self, campaign_id: Seq<char>) -> Seq<String> {
        self.pending@[seq_find(self.pending_keys(), campaign_id)].applicants@
    }

    /// Whether ceilings were granted to this beneficiary.
    pub open spec fn has_limits(self, beneficiary: Seq<char>) -> bool {
        seq_find(self.limits_keys(), beneficiary) >= 0
    }

    /// The ceilings granted to this beneficiary (meaningful when present).
    pub open spec fn limits_of(self, beneficiary: Seq<char>) -> Seq<CategoryLimit> {
        self.limits@[seq_find(self.limits_keys(), beneficiary)].limits@
    }

    /// The ceiling granted within one category; zero when none was granted.
    pub open spec fn category_limit_of(self, beneficiary: Seq<char>, category: Seq<char>) -> int {
        if self.has_limits(beneficiary) && seq_find(
            limit_keys(self.limits_of(beneficiary)),
            category,
        ) >= 0 {
            self.limits_of(beneficiary)[seq_find(
                limit_keys(self.limits_of(beneficiary)),
                category,
            )].limit as int
        } else {
            0
        }
    }

    /// Cumulative spend recorded within one category; zero when no ceiling
    /// was granted.
    pub open spec fn category_spent_of(self, beneficiary: Seq<char>, category: Seq<char>) -> int {
        if self.has_limits(beneficiary) && seq_find(
            limit_keys(self.limits_of(beneficiary)),
            category,
        ) >= 0 {
            self.limits_of(beneficiary)[seq_find(
                limit_keys(self.limits_of(beneficiary)),
                category,
            )].spent as int
        } else {
            0
        }
    }

    /// An empty registry bound to its admin.
    pub fn initialize(admin: String) -> (r: BeneficiaryRegistry)
        ensures
            r.admin == admin,
            r.beneficiaries@ == Seq::<BeneficiaryInfo>::empty(),
            r.pending@ == Seq::<PendingApplications>::empty(),
            r.limits@ == Seq::<BeneficiaryLimits>::empty(),
    {
        BeneficiaryRegistry {
            admin,
            beneficiaries: Vec::new(),
            pending: Vec::new(),
            limits: Vec::new(),
        }
    }

    /// First index of the application record of this address.
    fn find_beneficiary(&self, address: &String) -> (r: Option<usize>)
        ensures
            match r {
                Some(i) => seq_find(self.benef_keys(), address@) == i as int && i
                    < self.beneficiaries@.len(),
                None => seq_find(self.benef_keys(), address@) == -1,
            },
    {
        let n = self.beneficiaries.len();
        let mut i: usize = 0;
        while i < n
            invariant
                n == self.beneficiaries@.len(),
                i <= n,
                forall|j: int| 0 <= j < i ==> self.benef_keys()[j] != address@,
            decreases n - i,
        {
            if self.beneficiaries[i].address == *address {
                proof {
                    lemma_seq_find_at(self.benef_keys(), address@, i as int);
                }
                return Some(i);
            }
            i += 1;
        }
        proof {
            lemma_seq_find_none(self.benef_keys(), address@);
        }
        None
    }

    /// First index of a campaign's pending-applicant list.
    fn find_pending(&self, campaign_id: &String) -> (r: Option<usize>)
        ensures
            match r {
                Some(i) => seq_find(self.pending_keys(), campaign_id@) == i as int && i
                    < self.pending@.len(),
                None => seq_find(self.pending_keys(), campaign_id@) == -1,
            },
    {
        let n = self.pending.len();
        let mut i: usize = 0;
        while i < n
            invariant
                n == self.pending@.len(),
                i <= n,
                forall|j: int| 0 <= j < i ==> self.pending_keys()[j] != campaign_id@,
            decreases n - i,
        {
            if self.pending[i].campaign_id == *campaign_id {
                proof {
                    lemma_seq_find_at(self.pending_keys(), campaign_id@, i as int);
                }
                return Some(i);
            }
            i += 1;
        }
        proof {
            lemma_seq_find_none(self.pending_keys(), campaign_id@);
        }
        None
    }

    /// First index of a beneficiary's granted ceilings.
    fn find_limits(&self, beneficiary: &String) -> (r: Option<usize>)
        ensures
            match r {
                Some(i) => seq_find(self.limits_keys(), beneficiary@) == i as int && i
                    < self.limits@.len(),
                None => seq_find(self.limits_keys(), beneficiary@) == -1,
            },
    {
        let n = self.limits.len();
        let mut i: usize = 0;
        while i < n
            invariant
                n == self.limits@.len(),
                i <= n,
                forall|j: int| 0 <= j < i ==> self.limits_keys()[j] != beneficiary@,
            decreases n - i,
        {
            if self.limits[i].beneficiary == *beneficiary {
                proof {
                    lemma_seq_find_at(self.limits_keys(), beneficiary@, i as int);
                }
                return Some(i);
            }
            i += 1;
        }
        proof {
            lemma_seq_find_none(self.limits_keys(), beneficiary@);
        }
        None
    }

    /// When one application record changes in place, every other address
    /// still resolves to its old record.
    proof fn lemma_benef_frame(
        pre: BeneficiaryRegistry,
        post: BeneficiaryRegistry,
        address: Seq<char>,
        i: int,
    )
        requires
            post.benef_keys() == pre.benef_keys(),
            post.beneficiaries@.len() == pre.beneficiaries@.len(),
            0 <= i < pre.beneficiaries@.len(),
            seq_find(pre.benef_keys(), address) == i,
            forall|j: int|
                0 <= j < pre.beneficiaries@.len() && j != i ==> post.beneficiaries@[j]
                    == pre.beneficiaries@[j],
        ensures
            forall|k: Seq<char>|
                k != address ==> {
                    &&& (post.has_beneficiary(k) <==> pre.has_beneficiary(k))
                    &&& (pre.has_beneficiary(k) ==> post.beneficiary_of(k) == pre.beneficiary_of(
                        k))
                },
    {
        lemma_seq_find_props(pre.benef_keys(), address);
        assert forall|k: Seq<char>| k != address implies {
            &&& (post.has_beneficiary(k) <==> pre.has_beneficiary(k))
            &&& (pre.has_beneficiary(k) ==> post.beneficiary_of(k) == pre.beneficiary_of(k))
        } by {
            lemma_seq_find_props(pre.benef_keys(), k);
        }
    }

    /// Two states with the same application table resolve every address
    /// alike.
    proof fn lemma_benef_transfer(a: BeneficiaryRegistry, b: BeneficiaryRegistry)
        requires
            a.beneficiaries@ == b.beneficiaries@,
        ensures
            forall|k: Seq<char>| #![trigger a.has_beneficiary(k)] #![trigger b.has_beneficiary(k)] {
                &&& (a.has_beneficiary(k) <==> b.has_beneficiary(k))
                &&& (a.has_beneficiary(k) ==> a.beneficiary_of(k) == b.beneficiary_of(k))
            },
    {
        assert(a.benef_keys() =~= b.benef_keys());
        assert forall|k: Seq<char>| {
            &&& (a.has_beneficiary(k) <==> b.has_beneficiary(k))
            &&& (a.has_beneficiary(k) ==> a.beneficiary_of(k) == b.beneficiary_of(k))
        } by {
            assert(seq_find(a.benef_keys(), k) == seq_find(b.benef_keys(), k));
        }
    }

    /// Two states with the same pending table resolve every campaign alike.
    proof fn lemma_pending_transfer(a: BeneficiaryRegistry, b: BeneficiaryRegistry)
        requires
            a.pending@ == b.pending@,
        ensures
            forall|k: Seq<char>|
                #![trigger a.has_pending_list(k)]
                #![trigger b.has_pending_list(k)]
            {
                &&& (a.has_pending_list(k) <==> b.has_pending_list(k))
                &&& (a.has_pending_list(k) ==> a.pending_list_of(k) == b.pending_list_of(k))
            },
    {
        assert(a.pending_keys() =~= b.pending_keys());
        assert forall|k: Seq<char>| {
            &&& (a.has_pending_list(k) <==> b.has_pending_list(k))
            &&& (a.has_pending_list(k) ==> a.pending_list_of(k) == b.pending_list_of(k))
        } by {
            assert(seq_find(a.pending_keys(), k) == seq_find(b.pending_keys(), k));
        }
    }

    /// Two states with the same grant table resolve every beneficiary alike.
    proof fn lemma_limits_transfer(a: BeneficiaryRegistry, b: BeneficiaryRegistry)
        requires
            a.limits@ == b.limits@,
        ensures
            forall|k: Seq<char>| #![trigger a.has_limits(k)] #![trigger b.has_limits(k)] {
                &&& (a.has_limits(k) <==> b.has_limits(k))
                &&& (a.has_limits(k) ==> a.limits_of(k) == b.limits_of(k))
            },
    {
        assert(a.limits_keys() =~= b.limits_keys());
        assert forall|k: Seq<char>| {
            &&& (a.has_limits(k) <==> b.has_limits(k))
            &&& (a.has_limits(k) ==> a.limits_of(k) == b.limits_of(k))
        } by {
            assert(seq_find(a.limits_keys(), k) == seq_find(b.limits_keys(), k));
        }
    }

    /// What a fresh application record holds.
    pub open spec fn is_fresh_application(
        b: BeneficiaryInfo,
        address: Seq<char>,
        campaign_id: Seq<char>,
        doc_ref: Seq<char>,
        now: u64,
    ) -> bool {
        &&& b.address@ == address
        &&& b.campaign_id@ == campaign_id
        &&& b.control_mode == ControlMode::Controlled
        &&& b.status == BeneficiaryStatus::Pending
        &&& b.registered_at == now
        &&& b.approved_at == 0
        &&& b.total_allocation == 0
        &&& b.spent == 0
        &&& b.mongodb_doc_ref@ == doc_ref
        &&& b.rejection_reason@ == Seq::<char>::empty()
    }

    /// A beneficiary applies for a campaign: a `Pending`, controlled-mode
    /// record is created and the address joins the campaign's pending list.
    /// Fails `AlreadyInitialized` when the address has already applied.
    pub fn register_for_campaign(
        &mut self,
        beneficiary: &String,
        campaign_id: &String,
        mongodb_doc_id: &String,
        now: u64,
    ) -> (r: Result<(), Error>)
        ensures
            final(self).admin == old(self).admin,
            if old(self).has_beneficiary(beneficiary@) {
                r == Err::<(), Error>(Error::AlreadyInitialized) && *final(self) == *old(self)
            } else {
                &&& r == Ok::<(), Error>(())
                &&& final(self).beneficiaries@.len() == old(self).beneficiaries@.len() + 1
                &&& final(self).beneficiaries@.subrange(0, old(self).beneficiaries@.len() as int)
                    == old(self).beneficiaries@
                &&& Self::is_fresh_application(
                    final(self).beneficiaries@.last(),
                    beneficiary@,
                    campaign_id@,
                    mongodb_doc_id@,
                    now,
                )
                &&& final(self).has_beneficiary(beneficiary@)
                &&& final(self).beneficiary_of(beneficiary@) == final(self).beneficiaries@.last()
                &&& final(self).has_pending_list(campaign_id@)
                &&& string_keys(final(self).pending_list_of(campaign_id@)) == if old(
                    self,
                ).has_pending_list(campaign_id@) {
                    string_keys(old(self).pending_list_of(campaign_id@)).push(beneficiary@)
                } else {
                    Seq::<Seq<char>>::empty().push(beneficiary@)
                }
                &&& forall|k: Seq<char>|
                    k != campaign_id@ ==> {
                        &&& (final(self).has_pending_list(k) <==> old(self).has_pending_list(k))
                        &&& (old(self).has_pending_list(k) ==> final(self).pending_list_of(k)
                            == old(self).pending_list_of(k))
                    }
                &&& final(self).limits@ == old(self).limits@
            },
    {
        if self.find_beneficiary(beneficiary).is_some() {
            return Err(Error::AlreadyInitialized);
        }
        let info = BeneficiaryInfo {
            address: beneficiary.clone(),
            campaign_id: campaign_id.clone(),
            control_mode: ControlMode::Controlled,
            status: BeneficiaryStatus::Pending,
            registered_at: now,
            approved_at: 0,
            total_allocation: 0,
            spent: 0,
            mongodb_doc_ref: mongodb_doc_id.clone(),
            rejection_reason: String::new(),
        };
        let ghost pre = *self;
        self.beneficiaries.push(info);
        proof {
            assert(self.beneficiaries@.subrange(0, pre.beneficiaries@.len() as int)
                =~= pre.beneficiaries@);
            assert(self.benef_keys() =~= pre.benef_keys().push(beneficiary@));
            lemma_seq_find_props(pre.benef_keys(), beneficiary@);
            lemma_seq_find_at(self.benef_keys(), beneficiary@, pre.benef_keys().len() as int);
        }
        let ghost mid = *self;
        match self.find_pending(campaign_id) {
            Some(p) => {
                proof {
                    lemma_seq_find_props(mid.pending_keys(), campaign_id@);
                }
                let entry = vec_index_mut(&mut self.pending, p);
                entry.applicants.push(beneficiary.clone());
                proof {
                    assert(self.pending_keys() =~= mid.pending_keys());
                    assert(string_keys(self.pending@[p as int].applicants@) =~= string_keys(
                        mid.pending@[p as int].applicants@,
                    ).push(beneficiary@));
                    assert forall|k: Seq<char>| k != campaign_id@ implies {
                        &&& (self.has_pending_list(k) <==> mid.has_pending_list(k))
                        &&& (mid.has_pending_list(k) ==> self.pending_list_of(k)
                            == mid.pending_list_of(k))
                    } by {
                        lemma_seq_find_props(mid.pending_keys(), k);
                    }
                }
            },
            None => {
                let mut applicants: Vec<String> = Vec::new();
                applicants.push(beneficiary.clone());
                self.pending.push(
                    PendingApplications { campaign_id: campaign_id.clone(), applicants },
                );
                proof {
                    assert(self.pending_keys() =~= mid.pending_keys().push(campaign_id@));
                    lemma_seq_find_props(mid.pending_keys(), campaign_id@);
                    lemma_seq_find_at(
                        self.pending_keys(),
                        campaign_id@,
                        mid.pending_keys().len() as int,
                    );
                    assert(string_keys(self.pending_list_of(campaign_id@)) =~= Seq::<
                        Seq<char>,
                    >::empty().push(beneficiary@));
                    assert forall|k: Seq<char>| k != campaign_id@ implies {
                        &&& (self.has_pending_list(k) <==> mid.has_pending_list(k))
                        &&& (mid.has_pending_list(k) ==> self.pending_list_of(k)
                            == mid.pending_list_of(k))
                    } by {
                        lemma_seq_find_props(mid.pending_keys(), k);
                        if seq_find(mid.pending_keys(), k) >= 0 {
                            lemma_seq_find_at(
                                self.pending_keys(),
                                k,
                                seq_find(mid.pending_keys(), k),
                            );
                        } else {
                            lemma_seq_find_none(self.pending_keys(), k);
                        }
                    }
                }
            },
        }
        proof {
            Self::lemma_benef_transfer(mid, *self);
            Self::lemma_pending_transfer(*old(self), mid);
        }
        Ok(())
    }

    /// Why an approval or rejection of this application would be refused, or
    /// `None`: the address must have applied and still be `Pending`.
    pub open spec fn review_check(self, beneficiary: Seq<char>) -> Option<Error> {
        if !self.has_beneficiary(beneficiary) {
            Some(Error::BeneficiaryNotWhitelisted)
        } else if self.beneficiary_of(beneficiary).status != BeneficiaryStatus::Pending {
            Some(Error::InvalidControlMode)
        } else {
            None
        }
    }

    /// What the granted ceilings look like right after approval: one record
    /// per requested category, each with the matching requested ceiling (zero
    /// when fewer ceilings than categories were supplied) and no spend.
    pub open spec fn is_fresh_grant(
        records: Seq<CategoryLimit>,
        categories: Seq<String>,
        limits: Seq<i128>,
    ) -> bool {
        &&& records.len() == categories.len()
        &&& forall|j: int|
            0 <= j < categories.len() ==> {
                &&& (#[trigger] records[j]).category == categories[j]
                &&& records[j].limit == if j < limits.len() {
                    limits[j] as int
                } else {
                    0
                }
                &&& records[j].spent == 0
            }
    }

    /// Remove every occurrence of one applicant from a list.
    pub open spec fn without_applicant(s: Seq<String>, applicant: Seq<char>) -> Seq<String> {
        s.filter(|x: String| x@ != applicant)
    }

    /// NGO review: approve a `Pending` application, granting per-category
    /// ceilings. The beneficiary's total allocation becomes the sum of the
    /// granted ceilings, the grant is stored (replacing any prior grant), the
    /// address leaves its campaign's pending list, and the sum is returned.
    /// The host has authenticated `ngo_address`.
    pub fn approve_beneficiary(
        &mut self,
        ngo_address: &String,
        beneficiary: &String,
        categories: &Vec<String>,
        limits: &Vec<i128>,
        now: u64,
    ) -> (r: Result<i128, Error>)
        requires
            forall|k: int|
                0 <= k <= limits@.len() ==> i128::MIN <= sum_limits(
                    #[trigger] limits@.subrange(0, k),
                ) <= i128::MAX,
        ensures
            final(self).admin == old(self).admin,
            match old(self).review_check(beneficiary@) {
                Some(e) => r == Err::<i128, Error>(e) && *final(self) == *old(self),
                None => {
                    &&& r == Ok::<i128, Error>(sum_limits(limits@) as i128)
                    &&& final(self).has_beneficiary(beneficiary@)
                    &&& final(self).beneficiary_of(beneficiary@) == (BeneficiaryInfo {
                        status: BeneficiaryStatus::Approved,
                        approved_at: now,
                        total_allocation: sum_limits(limits@) as i128,
                        ..old(self).beneficiary_of(beneficiary@)
                    })
                    &&& forall|k: Seq<char>|
                        k != beneficiary@ ==> {
                            &&& (final(self).has_beneficiary(k) <==> old(self).has_beneficiary(k))
                            &&& (old(self).has_beneficiary(k) ==> final(self).beneficiary_of(k)
                                == old(self).beneficiary_of(k))
                        }
                    &&& final(self).has_limits(beneficiary@)
                    &&& Self::is_fresh_grant(
                        final(self).limits_of(beneficiary@),
                        categories@,
                        limits@,
                    )
                    &&& forall|k: Seq<char>|
                        k != beneficiary@ ==> {
                            &&& (final(self).has_limits(k) <==> old(self).has_limits(k))
                            &&& (old(self).has_limits(k) ==> final(self).limits_of(k) == old(
                                self).limits_of(k))
                        }
                    &&& ({
                        let cid = old(self).beneficiary_of(beneficiary@).campaign_id@;
                        &&& (final(self).has_pending_list(cid) <==> old(self).has_pending_list(
                            cid))
                        &&& (old(self).has_pending_list(cid) ==> final(self).pending_list_of(cid)
                            == Self::without_applicant(
                            old(self).pending_list_of(cid),
                            beneficiary@,
                        ))
                        &&& forall|k: Seq<char>|
                            k != cid ==> {
                                &&& (final(self).has_pending_list(k) <==> old(
                                    self).has_pending_list(k))
                                &&& (old(self).has_pending_list(k)
                                    ==> final(self).pending_list_of(k) == old(
                                    self).pending_list_of(k))
                            }
                    })
                },
            },
    {
        let _ = ngo_address;
        let i = match self.find_beneficiary(beneficiary) {
            Some(i) => i,
            None => {
                return Err(Error::BeneficiaryNotWhitelisted);
            },
        };
        proof {
            lemma_seq_find_props(self.benef_keys(), beneficiary@);
        }
        if !(self.beneficiaries[i].status == BeneficiaryStatus::Pending) {
            return Err(Error::InvalidControlMode);
        }
        // total allocation granted: the sum of the requested ceilings
        let nl = limits.len();
        let mut total: i128 = 0;
        let mut t: usize = 0;
        while t < nl
            invariant
                nl == limits@.len(),
                t <= nl,
                total == sum_limits(limits@.subrange(0, t as int)),
                forall|k: int|
                    0 <= k <= limits@.len() ==> i128::MIN <= sum_limits(
                        #[trigger] limits@.subrange(0, k),
                    ) <= i128::MAX,
            decreases nl - t,
        {
            proof {
                let next = limits@.subrange(0, t + 1 as int);
                assert(next.drop_last() =~= limits@.subrange(0, t as int));
                assert(next.last() == limits@[t as int]);
            }
            total = total + limits[t];
            t += 1;
        }
        proof {
            assert(limits@.subrange(0, nl as int) =~= limits@);
        }
        // the granted ceilings, one record per category, spend reset
        let nc = categories.len();
        let mut records: Vec<CategoryLimit> = Vec::new();
        let mut c: usize = 0;
        while c < nc
            invariant
                nc == categories@.len(),
                c <= nc,
                records@.len() == c,
                forall|j: int|
                    0 <= j < c ==> {
                        &&& (#[trigger] records@[j]).category == categories@[j]
                        &&& records@[j].limit == if j < limits@.len() {
                            limits@[j] as int
                        } else {
                            0
                        }
                        &&& records@[j].spent == 0
                    },
            decreases nc - c,
        {
            let limit: i128 = if c < limits.len() {
                limits[c]
            } else {
                0
            };
            records.push(CategoryLimit { category: categories[c].clone(), limit, spent: 0 });
            c += 1;
        }
        let ghost pre = *self;
        // update the application record
        let info = vec_index_mut(&mut self.beneficiaries, i);
        info.status = BeneficiaryStatus::Approved;
        info.approved_at = now;
        info.total_allocation = total;
        let campaign = self.beneficiaries[i].campaign_id.clone();
        proof {
            assert(self.benef_keys() =~= pre.benef_keys());
            Self::lemma_benef_frame(pre, *self, beneficiary@, i as int);
        }
        // store the grant, replacing any prior one
        let ghost mid = *self;
        match self.find_limits(beneficiary) {
            Some(li) => {
                proof {
                    lemma_seq_find_props(mid.limits_keys(), beneficiary@);
                }
                *vec_index_mut(&mut self.limits, li) = BeneficiaryLimits {
                    beneficiary: beneficiary.clone(),
                    limits: records,
                };
                proof {
                    assert(self.limits_keys() =~= mid.limits_keys());
                    assert forall|k: Seq<char>| k != beneficiary@ implies {
                        &&& (self.has_limits(k) <==> mid.has_limits(k))
                        &&& (mid.has_limits(k) ==> self.limits_of(k) == mid.limits_of(k))
                    } by {
                        lemma_seq_find_props(mid.limits_keys(), k);
                    }
                }
            },
            None => {
                self.limits.push(
                    BeneficiaryLimits { beneficiary: beneficiary.clone(), limits: records },
                );
                proof {
                    assert(self.limits_keys() =~= mid.limits_keys().push(beneficiary@));
                    lemma_seq_find_props(mid.limits_keys(), beneficiary@);
                    lemma_seq_find_at(
                        self.limits_keys(),
                        beneficiary@,
                        mid.limits_keys().len() as int,
                    );
                    assert forall|k: Seq<char>| k != beneficiary@ implies {
                        &&& (self.has_limits(k) <==> mid.has_limits(k))
                        &&& (mid.has_limits(k) ==> self.limits_of(k) == mid.limits_of(k))
                    } by {
                        lemma_seq_find_props(mid.limits_keys(), k);
                        if seq_find(mid.limits_keys(), k) >= 0 {
                            lemma_seq_find_at(
                                self.limits_keys(),
                                k,
                                seq_find(mid.limits_keys(), k),
                            );
                        } else {
                            lemma_seq_find_none(self.limits_keys(), k);
                        }
                    }
                }
            },
        }
        // leave the campaign's pending list
        let ghost late = *self;
        self.drop_from_pending(&campaign, beneficiary);
        proof {
            // neither the grant store nor the pending list touches the
            // application table, and only the last phase touches the lists
            Self::lemma_benef_transfer(mid, *self);
            Self::lemma_limits_transfer(pre, mid);
            Self::lemma_limits_transfer(late, *self);
            Self::lemma_pending_transfer(pre, late);
            assert(campaign@ == pre.beneficiaries@[i as int].campaign_id@);
        }
        Ok(total)
    }

    /// Remove an applicant from one campaign's pending list, when that list
    /// exists; other lists stay as they are.
    fn drop_from_pending(&mut self, campaign_id: &String, applicant: &String)
        ensures
            final(self).admin == old(self).admin,
            final(self).beneficiaries@ == old(self).beneficiaries@,
            final(self).limits@ == old(self).limits@,
            (final(self).has_pending_list(campaign_id@) <==> old(self).has_pending_list(
                campaign_id@,
            )),
            old(self).has_pending_list(campaign_id@) ==> final(self).pending_list_of(campaign_id@)
                == Self::without_applicant(old(self).pending_list_of(campaign_id@), applicant@),
            forall|k: Seq<char>|
                k != campaign_id@ ==> {
                    &&& (final(self).has_pending_list(k) <==> old(self).has_pending_list(k))
                    &&& (old(self).has_pending_list(k) ==> final(self).pending_list_of(k) == old(
                        self).pending_list_of(k))
                },
    {
        let p = match self.find_pending(campaign_id) {
            Some(p) => p,
            None => {
                return ;
            },
        };
        proof {
            lemma_seq_find_props(self.pending_keys(), campaign_id@);
        }
        let ghost old_list = self.pending@[p as int].applicants@;
        let n = self.pending[p].applicants.len();
        let mut kept: Vec<String> = Vec::new();
        let mut t: usize = 0;
        while t < n
            invariant
                p < self.pending@.len(),
                n == self.pending@[p as int].applicants@.len(),
                old_list == self.pending@[p as int].applicants@,
                t <= n,
                kept@ == old_list.subrange(0, t as int).filter((|x: String| x@ != applicant@)),
            decreases n - t,
        {
            let ghost prefix = old_list.subrange(0, t as int);
            if !(self.pending[p].applicants[t] == *applicant) {
                kept.push(self.pending[p].applicants[t].clone());
            }
            proof {
                reveal(Seq::filter);
                let next = old_list.subrange(0, t + 1 as int);
                assert(next.drop_last() =~= prefix);
                assert(next.last() == old_list[t as int]);
            }
            t += 1;
        }
        proof {
            assert(old_list.subrange(0, n as int) =~= old_list);
        }
        let ghost pre = *self;
        let entry = vec_index_mut(&mut self.pending, p);
        entry.applicants = kept;
        proof {
            assert(self.pending_keys() =~= pre.pending_keys());
            assert forall|k: Seq<char>| k != campaign_id@ implies {
                &&& (self.has_pending_list(k) <==> pre.has_pending_list(k))
                &&& (pre.has_pending_list(k) ==> self.pending_list_of(k) == pre.pending_list_of(k))
            } by {
                lemma_seq_find_props(pre.pending_keys(), k);
            }
        }
    }

    /// NGO review: reject a `Pending` application, recording the reason; the
    /// address leaves its campaign's pending list. The host has authenticated
    /// `ngo_address`.
    pub fn reject_beneficiary(
        &mut self,
        ngo_address: &String,
        beneficiary: &String,
        reason: &String,
    ) -> (r: Result<(), Error>)
        ensures
            final(self).admin == old(self).admin,
            match old(self).review_check(beneficiary@) {
                Some(e) => r == Err::<(), Error>(e) && *final(self) == *old(self),
                None => {
                    &&& r == Ok::<(), Error>(())
                    &&& final(self).has_beneficiary(beneficiary@)
                    &&& final(self).beneficiary_of(beneficiary@) == (BeneficiaryInfo {
                        status: BeneficiaryStatus::Rejected,
                        rejection_reason: *reason,
                        ..old(self).beneficiary_of(beneficiary@)
                    })
                    &&& forall|k: Seq<char>|
                        k != beneficiary@ ==> {
                            &&& (final(self).has_beneficiary(k) <==> old(self).has_beneficiary(k))
                            &&& (old(self).has_beneficiary(k) ==> final(self).beneficiary_of(k)
                                == old(self).beneficiary_of(k))
                        }
                    &&& final(self).limits@ == old(self).limits@
                    &&& ({
                        let cid = old(self).beneficiary_of(beneficiary@).campaign_id@;
                        &&& (final(self).has_pending_list(cid) <==> old(self).has_pending_list(
                            cid))
                        &&& (old(self).has_pending_list(cid) ==> final(self).pending_list_of(cid)
                            == Self::without_applicant(
                            old(self).pending_list_of(cid),
                            beneficiary@,
                        ))
                        &&& forall|k: Seq<char>|
                            k != cid ==> {
                                &&& (final(self).has_pending_list(k) <==> old(
                                    self).has_pending_list(k))
                                &&& (old(self).has_pending_list(k)
                                    ==> final(self).pending_list_of(k) == old(
                                    self).pending_list_of(k))
                            }
                    })
                },
            },
    {
        let _ = ngo_address;
        let i = match self.find_beneficiary(beneficiary) {
            Some(i) => i,
            None => {
                return Err(Error::BeneficiaryNotWhitelisted);
            },
        };
        proof {
            lemma_seq_find_props(self.benef_keys(), beneficiary@);
        }
        if !(self.beneficiaries[i].status == BeneficiaryStatus::Pending) {
            return Err(Error::InvalidControlMode);
        }
        let ghost pre = *self;
        let info = vec_index_mut(&mut self.beneficiaries, i);
        info.status = BeneficiaryStatus::Rejected;
        info.rejection_reason = reason.clone();
        let campaign = self.beneficiaries[i].campaign_id.clone();
        proof {
            assert(self.benef_keys() =~= pre.benef_keys());
            Self::lemma_benef_frame(pre, *self, beneficiary@, i as int);
        }
        let ghost late = *self;
        self.drop_from_pending(&campaign, beneficiary);
        proof {
            Self::lemma_benef_transfer(late, *self);
            Self::lemma_pending_transfer(pre, late);
            assert(campaign@ == pre.beneficiaries@[i as int].campaign_id@);
        }
        Ok(())
    }

    /// NGO review: suspend a beneficiary's access outright, in whatever
    /// status the record is. The host has authenticated `ngo_address`.
    pub fn revoke_beneficiary(&mut self, ngo_address: &String, beneficiary: &String) -> (r: Result<
        (),
        Error,
    >)
        ensures
            final(self).admin == old(self).admin,
            if !old(self).has_beneficiary(beneficiary@) {
                r == Err::<(), Error>(Error::BeneficiaryNotWhitelisted) && *final(self) == *old(
                    self,
                )
            } else {
                &&& r == Ok::<(), Error>(())
                &&& final(self).has_beneficiary(beneficiary@)
                &&& final(self).beneficiary_of(beneficiary@) == (BeneficiaryInfo {
                    status: BeneficiaryStatus::Suspended,
                    ..old(self).beneficiary_of(beneficiary@)
                })
                &&& forall|k: Seq<char>|
                    k != beneficiary@ ==> {
                        &&& (final(self).has_beneficiary(k) <==> old(self).has_beneficiary(k))
                        &&& (old(self).has_beneficiary(k) ==> final(self).beneficiary_of(k) == old(
                            self).beneficiary_of(k))
                    }
                &&& final(self).pending@ == old(self).pending@
                &&& final(self).limits@ == old(self).limits@
            },
    {
        let _ = ngo_address;
        let i = match self.find_beneficiary(beneficiary) {
            Some(i) => i,
            None => {
                return Err(Error::BeneficiaryNotWhitelisted);
            },
        };
        proof {
            lemma_seq_find_props(self.benef_keys(), beneficiary@);
        }
        let ghost pre = *self;
        let info = vec_index_mut(&mut self.beneficiaries, i);
        info.status = BeneficiaryStatus::Suspended;
        proof {
            assert(self.benef_keys() =~= pre.benef_keys());
            Self::lemma_benef_frame(pre, *self, beneficiary@, i as int);
        }
        Ok(())
    }

    /// Whether an address holds an approved application.
    pub fn is_approved(&self, beneficiary: &String) -> (r: bool)
        ensures
            r == (self.has_beneficiary(beneficiary@) && self.beneficiary_of(beneficiary@).status
                == BeneficiaryStatus::Approved),
    {
        match self.find_beneficiary(beneficiary) {
            Some(i) => {
                proof {
                    lemma_seq_find_props(self.benef_keys(), beneficiary@);
                }
                self.beneficiaries[i].status == BeneficiaryStatus::Approved
            },
            None => false,
        }
    }

    /// Whether an address is whitelisted for controlled spending; an alias
    /// of `is_approved`.
    pub fn is_whitelisted(&self, beneficiary: &String) -> (r: bool)
        ensures
            r == (self.has_beneficiary(beneficiary@) && self.beneficiary_of(beneficiary@).status
                == BeneficiaryStatus::Approved),
    {
        self.is_approved(beneficiary)
    }

    /// The application record of an address, if any.
    pub fn get_application_status(&self, beneficiary: &String) -> (r: Option<BeneficiaryInfo>)
        ensures
            match r {
                Some(info) => self.has_beneficiary(beneficiary@) && info == self.beneficiary_of(
                    beneficiary@,
                ),
                None => !self.has_beneficiary(beneficiary@),
            },
    {
        match self.find_beneficiary(beneficiary) {
            Some(i) => {
                proof {
                    lemma_seq_find_props(self.benef_keys(), beneficiary@);
                }
                Some(clone_beneficiary_info(&self.beneficiaries[i]))
            },
            None => None,
        }
    }

    /// The applications of a campaign's pending list that resolve to a
    /// record, in list order.
    pub open spec fn resolve_applicants(self, ks: Seq<String>) -> Seq<BeneficiaryInfo>
        decreases ks.len(),
    {
        if ks.len() == 0 {
            Seq::empty()
        } else {
            let rest = self.resolve_applicants(ks.drop_last());
            if self.has_beneficiary(ks.last()@) {
                rest.push(self.beneficiary_of(ks.last()@))
            } else {
                rest
            }
        }
    }

    /// The pending applications of one campaign, in application order.
    pub fn get_pending_applications(&self, campaign_id: &String) -> (r: Vec<BeneficiaryInfo>)
        ensures
            r@ == if self.has_pending_list(campaign_id@) {
                self.resolve_applicants(self.pending_list_of(campaign_id@))
            } else {
                Seq::<BeneficiaryInfo>::empty()
            },
    {
        let p = match self.find_pending(campaign_id) {
            Some(p) => p,
            None => {
                return Vec::new();
            },
        };
        proof {
            lemma_seq_find_props(self.pending_keys(), campaign_id@);
        }
        let ghost list = self.pending@[p as int].applicants@;
        let n = self.pending[p].applicants.len();
        let mut r: Vec<BeneficiaryInfo> = Vec::new();
        let mut t: usize = 0;
        while t < n
            invariant
                p < self.pending@.len(),
                n == self.pending@[p as int].applicants@.len(),
                list == self.pending@[p as int].applicants@,
                t <= n,
                r@ == self.resolve_applicants(list.subrange(0, t as int)),
            decreases n - t,
        {
            let ghost prefix = list.subrange(0, t as int);
            match self.find_beneficiary(&self.pending[p].applicants[t]) {
                Some(i) => {
                    proof {
                        lemma_seq_find_props(self.benef_keys(), list[t as int]@);
                    }
                    r.push(clone_beneficiary_info(&self.beneficiaries[i]));
                },
                None => {},
            }
            proof {
                let next = list.subrange(0, t + 1 as int);
                assert(next.drop_last() =~= prefix);
                assert(next.last() == list[t as int]);
            }
            t += 1;
        }
        proof {
            assert(list.subrange(0, n as int) =~= list);
        }
        r
    }

    /// The addresses approved for one campaign, in application order.
    pub open spec fn approved_for_campaign(
        s: Seq<BeneficiaryInfo>,
        campaign_id: Seq<char>,
    ) -> Seq<String>
        decreases s.len(),
    {
        if s.len() == 0 {
            Seq::empty()
        } else {
            let rest = Self::approved_for_campaign(s.drop_last(), campaign_id);
            if s.last().status == BeneficiaryStatus::Approved && s.last().campaign_id@
                == campaign_id {
                rest.push(s.last().address)
            } else {
                rest
            }
        }
    }

    /// The approved beneficiaries of one campaign, in application order.
    pub fn get_approved_beneficiaries(&self, campaign_id: &String) -> (r: Vec<String>)
        ensures
            r@ == Self::approved_for_campaign(self.beneficiaries@, campaign_id@),
    {
        let n = self.beneficiaries.len();
        let mut r: Vec<String> = Vec::new();
        let mut t: usize = 0;
        while t < n
            invariant
                n == self.beneficiaries@.len(),
                t <= n,
                r@ == Self::approved_for_campaign(
                    self.beneficiaries@.subrange(0, t as int),
                    campaign_id@,
                ),
            decreases n - t,
        {
            let ghost prefix = self.beneficiaries@.subrange(0, t as int);
            if self.beneficiaries[t].status == BeneficiaryStatus::Approved
                && self.beneficiaries[t].campaign_id == *campaign_id {
                r.push(self.beneficiaries[t].address.clone());
            }
            proof {
                let next = self.beneficiaries@.subrange(0, t + 1 as int);
                assert(next.drop_last() =~= prefix);
                assert(next.last() == self.beneficiaries@[t as int]);
            }
            t += 1;
        }
        proof {
            assert(self.beneficiaries@.subrange(0, n as int) =~= self.beneficiaries@);
        }
        r
    }

    /// The ceiling granted to a beneficiary within one category; zero when
    /// none was granted.
    pub fn get_category_limit(&self, beneficiary: &String, category: &String) -> (r: i128)
        ensures
            r == self.category_limit_of(beneficiary@, category@),
    {
        let li = match self.find_limits(beneficiary) {
            Some(li) => li,
            None => {
                return 0;
            },
        };
        proof {
            lemma_seq_find_props(self.limits_keys(), beneficiary@);
        }
        match find_category(&self.limits[li].limits, category) {
            Some(j) => self.limits[li].limits[j].limit,
            None => 0,
        }
    }

    /// The spend recorded against a beneficiary within one category; zero
    /// when no ceiling was granted.
    pub fn get_category_spent(&self, beneficiary: &String, category: &String) -> (r: i128)
        ensures
            r == self.category_spent_of(beneficiary@, category@),
    {
        let li = match self.find_limits(beneficiary) {
            Some(li) => li,
            None => {
                return 0;
            },
        };
        proof {
            lemma_seq_find_props(self.limits_keys(), beneficiary@);
        }
        match find_category(&self.limits[li].limits, category) {
            Some(j) => self.limits[li].limits[j].spent,
            None => 0,
        }
    }

    /// What remains of a granted ceiling within one category; zero when no
    /// ceiling was granted.
    pub fn get_category_balance(&self, beneficiary: &String, category: &String) -> (r: i128)
        requires
            i128::MIN <= self.category_limit_of(beneficiary@, category@) - self.category_spent_of(
                beneficiary@,
                category@,
            ) <= i128::MAX,
        ensures
            r == self.category_limit_of(beneficiary@, category@) - self.category_spent_of(
                beneficiary@,
                category@,
            ),
    {
        let li = match self.find_limits(beneficiary) {
            Some(li) => li,
            None => {
                return 0;
            },
        };
        proof {
            lemma_seq_find_props(self.limits_keys(), beneficiary@);
        }
        match find_category(&self.limits[li].limits, category) {
            Some(j) => self.limits[li].limits[j].limit - self.limits[li].limits[j].spent,
            None => 0,
        }
    }

    /// Why recording a spend against a granted ceiling would be refused, or
    /// `None` when it must go through.
    pub open spec fn update_spending_check(
        self,
        beneficiary: Seq<char>,
        category: Seq<char>,
        amount: int,
    ) -> Option<Error> {
        if !self.has_limits(beneficiary) {
            Some(Error::BeneficiaryNotWhitelisted)
        } else if seq_find(limit_keys(self.limits_of(beneficiary)), category) < 0 {
            Some(Error::CategoryLimitExceeded)
        } else if self.category_spent_of(beneficiary, category) + amount > self.category_limit_of(
            beneficiary,
            category,
        ) {
            Some(Error::CategoryLimitExceeded)
        } else if !self.has_beneficiary(beneficiary) {
            Some(Error::BeneficiaryNotWhitelisted)
        } else {
            None
        }
    }

    /// Record a spend against a granted ceiling: the category's counter and
    /// the application record's total spent each grow by `amount`.
    pub fn update_spending(
        &mut self,
        beneficiary: &String,
        category: &String,
        amount: i128,
    ) -> (r: Result<(), Error>)
        requires
            i128::MIN <= old(self).category_spent_of(beneficiary@, category@) + amount
                <= i128::MAX,
            old(self).has_beneficiary(beneficiary@) ==> i128::MIN <= old(self).beneficiary_of(
                beneficiary@,
            ).spent + amount <= i128::MAX,
        ensures
            final(self).admin == old(self).admin,
            match old(self).update_spending_check(beneficiary@, category@, amount as int) {
                Some(e) => r == Err::<(), Error>(e) && *final(self) == *old(self),
                None => {
                    &&& r == Ok::<(), Error>(())
                    &&& final(self).has_limits(beneficiary@)
                    &&& final(self).category_spent_of(beneficiary@, category@) == old(
                        self,
                    ).category_spent_of(beneficiary@, category@) + amount
                    &&& final(self).category_limit_of(beneficiary@, category@) == old(
                        self,
                    ).category_limit_of(beneficiary@, category@)
                    &&& forall|c: Seq<char>|
                        c != category@ ==> {
                            &&& #[trigger] final(self).category_spent_of(beneficiary@, c) == old(
                                self,
                            ).category_spent_of(beneficiary@, c)
                            &&& final(self).category_limit_of(beneficiary@, c) == old(
                                self,
                            ).category_limit_of(beneficiary@, c)
                        }
                    &&& forall|k: Seq<char>|
                        k != beneficiary@ ==> {
                            &&& (final(self).has_limits(k) <==> old(self).has_limits(k))
                            &&& (old(self).has_limits(k) ==> final(self).limits_of(k) == old(
                                self).limits_of(k))
                        }
                    &&& final(self).has_beneficiary(beneficiary@)
                    &&& final(self).beneficiary_of(beneficiary@) == (BeneficiaryInfo {
                        spent: (old(self).beneficiary_of(beneficiary@).spent + amount) as i128,
                        ..old(self).beneficiary_of(beneficiary@)
                    })
                    &&& forall|k: Seq<char>|
                        k != beneficiary@ ==> {
                            &&& (final(self).has_beneficiary(k) <==> old(self).has_beneficiary(k))
                            &&& (old(self).has_beneficiary(k) ==> final(self).beneficiary_of(k)
                                == old(self).beneficiary_of(k))
                        }
                    &&& final(self).pending@ == old(self).pending@
                },
            },
    {
        let li = match self.find_limits(beneficiary) {
            Some(li) => li,
            None => {
                return Err(Error::BeneficiaryNotWhitelisted);
            },
        };
        proof {
            lemma_seq_find_props(self.limits_keys(), beneficiary@);
        }
        let j = match find_category(&self.limits[li].limits, category) {
            Some(j) => j,
            None => {
                return Err(Error::CategoryLimitExceeded);
            },
        };
        proof {
            lemma_seq_find_props(limit_keys(self.limits@[li as int].limits@), category@);
        }
        let spent = self.limits[li].limits[j].spent;
        let limit = self.limits[li].limits[j].limit;
        if spent + amount > limit {
            return Err(Error::CategoryLimitExceeded);
        }
        let i = match self.find_beneficiary(beneficiary) {
            Some(i) => i,
            None => {
                return Err(Error::BeneficiaryNotWhitelisted);
            },
        };
        proof {
            lemma_seq_find_props(self.benef_keys(), beneficiary@);
        }
        let ghost pre = *self;
        let entry = vec_index_mut(&mut self.limits, li);
        let cl = vec_index_mut(&mut entry.limits, j);
        cl.spent = spent + amount;
        let info = vec_index_mut(&mut self.beneficiaries, i);
        let s0 = info.spent;
        info.spent = s0 + amount;
        proof {
            assert(self.limits_keys() =~= pre.limits_keys());
            assert(self.benef_keys() =~= pre.benef_keys());
            assert(limit_keys(self.limits@[li as int].limits@) =~= limit_keys(
                pre.limits@[li as int].limits@,
            ));
            assert forall|c: Seq<char>| c != category@ implies {
                &&& #[trigger] self.category_spent_of(beneficiary@, c) == pre.category_spent_of(
                    beneficiary@,
                    c,
                )
                &&& self.category_limit_of(beneficiary@, c) == pre.category_limit_of(
                    beneficiary@,
                    c,
                )
            } by {
                lemma_seq_find_props(limit_keys(pre.limits@[li as int].limits@), c);
            }
            assert forall|k: Seq<char>| k != beneficiary@ implies {
                &&& (self.has_limits(k) <==> pre.has_limits(k))
                &&& (pre.has_limits(k) ==> self.limits_of(k) == pre.limits_of(k))
            } by {
                lemma_seq_find_props(pre.limits_keys(), k);
            }
            Self::lemma_benef_frame(pre, *self, beneficiary@, i as int);
        }
        Ok(())
    }

    /// Why a pre-transaction enforcement probe would refuse, or `None`: the
    /// beneficiary must be approved, hold a granted ceiling for the category,
    /// and the spend must fit under it.
    pub open spec fn enforce_check(
        self,
        beneficiary: Seq<char>,
        category: Seq<char>,
        amount: int,
    ) -> Option<Error> {
        if !(self.has_beneficiary(beneficiary) && self.beneficiary_of(beneficiary).status
            == BeneficiaryStatus::Approved) {
            Some(Error::BeneficiaryNotWhitelisted)
        } else if !self.has_limits(beneficiary) {
            Some(Error::BeneficiaryNotWhitelisted)
        } else if seq_find(limit_keys(self.limits_of(beneficiary)), category) < 0 {
            Some(Error::CategoryLimitExceeded)
        } else if self.category_spent_of(beneficiary, category) + amount > self.category_limit_of(
            beneficiary,
            category,
        ) {
            Some(Error::CategoryLimitExceeded)
        } else {
            None
        }
    }

    /// Probe whether a spend would be admissible, changing nothing.
    pub fn enforce_category_spending(
        &self,
        beneficiary: &String,
        category: &String,
        amount: i128,
    ) -> (r: Result<(), Error>)
        requires
            i128::MIN <= self.category_spent_of(beneficiary@, category@) + amount <= i128::MAX,
        ensures
            match self.enforce_check(beneficiary@, category@, amount as int) {
                Some(e) => r == Err::<(), Error>(e),
                None => r == Ok::<(), Error>(()),
            },
    {
        if !self.is_approved(beneficiary) {
            return Err(Error::BeneficiaryNotWhitelisted);
        }
        let li = match self.find_limits(beneficiary) {
            Some(li) => li,
            None => {
                return Err(Error::BeneficiaryNotWhitelisted);
            },
        };
        proof {
            lemma_seq_find_props(self.limits_keys(), beneficiary@);
        }
        let j = match find_category(&self.limits[li].limits, category) {
            Some(j) => j,
            None => {
                return Err(Error::CategoryLimitExceeded);
            },
        };
        proof {
            lemma_seq_find_props(limit_keys(self.limits@[li as int].limits@), category@);
        }
        let spent = self.limits[li].limits[j].spent;
        let limit = self.limits[li].limits[j].limit;
        if spent + amount > limit {
            return Err(Error::CategoryLimitExceeded);
        }
        Ok(())
    }

    /// Why raising or lowering a granted ceiling would be refused, or `None`.
    pub open spec fn update_limit_check(
        self,
        beneficiary: Seq<char>,
        category: Seq<char>,
    ) -> Option<Error> {
        if !self.has_limits(beneficiary) {
            Some(Error::BeneficiaryNotWhitelisted)
        } else if seq_find(limit_keys(self.limits_of(beneficiary)), category) < 0 {
            Some(Error::CategoryLimitExceeded)
        } else if !self.has_beneficiary(beneficiary) {
            Some(Error::BeneficiaryNotWhitelisted)
        } else {
            None
        }
    }

    /// Replace one granted ceiling and move the beneficiary's total
    /// allocation by the difference. The host has authenticated
    /// `ngo_address`.
    pub fn update_category_limit(
        &mut self,
        ngo_address: &String,
        beneficiary: &String,
        category: &String,
        new_limit: i128,
    ) -> (r: Result<(), Error>)
        requires
            i128::MIN <= new_limit - old(self).category_limit_of(beneficiary@, category@)
                <= i128::MAX,
            old(self).has_beneficiary(beneficiary@) ==> i128::MIN <= old(self).beneficiary_of(
                beneficiary@,
            ).total_allocation + (new_limit - old(self).category_limit_of(
                beneficiary@,
                category@,
            )) <= i128::MAX,
        ensures
            final(self).admin == old(self).admin,
            match old(self).update_limit_check(beneficiary@, category@) {
                Some(e) => r == Err::<(), Error>(e) && *final(self) == *old(self),
                None => {
                    &&& r == Ok::<(), Error>(())
                    &&& final(self).has_limits(beneficiary@)
                    &&& final(self).category_limit_of(beneficiary@, category@) == new_limit
                    &&& final(self).category_spent_of(beneficiary@, category@) == old(
                        self,
                    ).category_spent_of(beneficiary@, category@)
                    &&& forall|c: Seq<char>|
                        c != category@ ==> {
                            &&& #[trigger] final(self).category_spent_of(beneficiary@, c) == old(
                                self,
                            ).category_spent_of(beneficiary@, c)
                            &&& final(self).category_limit_of(beneficiary@, c) == old(
                                self,
                            ).category_limit_of(beneficiary@, c)
                        }
                    &&& forall|k: Seq<char>|
                        k != beneficiary@ ==> {
                            &&& (final(self).has_limits(k) <==> old(self).has_limits(k))
                            &&& (old(self).has_limits(k) ==> final(self).limits_of(k) == old(
                                self).limits_of(k))
                        }
                    &&& final(self).has_beneficiary(beneficiary@)
                    &&& final(self).beneficiary_of(beneficiary@) == (BeneficiaryInfo {
                        total_allocation: (old(self).beneficiary_of(beneficiary@).total_allocation
                            + (new_limit - old(self).category_limit_of(
                            beneficiary@,
                            category@,
                        ))) as i128,
                        ..old(self).beneficiary_of(beneficiary@)
                    })
                    &&& forall|k: Seq<char>|
                        k != beneficiary@ ==> {
                            &&& (final(self).has_beneficiary(k) <==> old(self).has_beneficiary(k))
                            &&& (old(self).has_beneficiary(k) ==> final(self).beneficiary_of(k)
                                == old(self).beneficiary_of(k))
                        }
                    &&& final(self).pending@ == old(self).pending@
                },
            },
    {
        let _ = ngo_address;
        let li = match self.find_limits(beneficiary) {
            Some(li) => li,
            None => {
                return Err(Error::BeneficiaryNotWhitelisted);
            },
        };
        proof {
            lemma_seq_find_props(self.limits_keys(), beneficiary@);
        }
        let j = match find_category(&self.limits[li].limits, category) {
            Some(j) => j,
            None => {
                return Err(Error::CategoryLimitExceeded);
            },
        };
        proof {
            lemma_seq_find_props(limit_keys(self.limits@[li as int].limits@), category@);
        }
        let i = match self.find_beneficiary(beneficiary) {
            Some(i) => i,
            None => {
                return Err(Error::BeneficiaryNotWhitelisted);
            },
        };
        proof {
            lemma_seq_find_props(self.benef_keys(), beneficiary@);
        }
        let old_limit = self.limits[li].limits[j].limit;
        let diff = new_limit - old_limit;
        let ghost pre = *self;
        let entry = vec_index_mut(&mut self.limits, li);
        let cl = vec_index_mut(&mut entry.limits, j);
        cl.limit = new_limit;
        let info = vec_index_mut(&mut self.beneficiaries, i);
        let t0 = info.total_allocation;
        info.total_allocation = t0 + diff;
        proof {
            assert(self.limits_keys() =~= pre.limits_keys());
            assert(self.benef_keys() =~= pre.benef_keys());
            assert(limit_keys(self.limits@[li as int].limits@) =~= limit_keys(
                pre.limits@[li as int].limits@,
            ));
            assert forall|c: Seq<char>| c != category@ implies {
                &&& #[trigger] self.category_spent_of(beneficiary@, c) == pre.category_spent_of(
                    beneficiary@,
                    c,
                )
                &&& self.category_limit_of(beneficiary@, c) == pre.category_limit_of(
                    beneficiary@,
                    c,
                )
            } by {
                lemma_seq_find_props(limit_keys(pre.limits@[li as int].limits@), c);
            }
            assert forall|k: Seq<char>| k != beneficiary@ implies {
                &&& (self.has_limits(k) <==> pre.has_limits(k))
                &&& (pre.has_limits(k) ==> self.limits_of(k) == pre.limits_of(k))
            } by {
                lemma_seq_find_props(pre.limits_keys(), k);
            }
            Self::lemma_benef_frame(pre, *self, beneficiary@, i as int);
        }
        Ok(())
    }

    /// Copy the granted ceilings of one beneficiary; empty when none were
    /// granted.
    pub fn get_all_category_limits(&self, beneficiary: &String) -> (r: Vec<CategoryLimit>)
        ensures
            r@ == if self.has_limits(beneficiary@) {
                self.limits_of(beneficiary@)
            } else {
                Seq::<CategoryLimit>::empty()
            },
    {
        let li = match self.find_limits(beneficiary) {
            Some(li) => li,
            None => {
                return Vec::new();
            },
        };
        proof {
            lemma_seq_find_props(self.limits_keys(), beneficiary@);
        }
        let n = self.limits[li].limits.len();
        let mut r: Vec<CategoryLimit> = Vec::new();
        let mut t: usize = 0;
        while t < n
            invariant
                li < self.limits@.len(),
                n == self.limits@[li as int].limits@.len(),
                t <= n,
                r@ == self.limits@[li as int].limits@.subrange(0, t as int),
            decreases n - t,
        {
            let c = &self.limits[li].limits[t];
            r.push(CategoryLimit { category: c.category.clone(), limit: c.limit, spent: c.spent });
            proof {
                assert(r@ =~= self.limits@[li as int].limits@.subrange(0, t + 1 as int));
            }
            t += 1;
        }
        proof {
            assert(r@ =~= self.limits@[li as int].limits@);
        }
        r
    }
}

} // verus!
