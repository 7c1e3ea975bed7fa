//! Merchant registry: approved merchants and their category approvals.
//!
//! An identity collaborator of the vault: it answers whether a merchant may
//! receive settlements within a category. The host shell authenticates
//! callers; admin-gated operations compare the caller's authenticated
//! identity against the stored admin.

use vstd::prelude::*;
use vstd::std_specs::vec::vec_index_mut;

use crate::error::Error;
use crate::lookup::{
    clone_string_vec, find_string, lemma_seq_find_at, lemma_seq_find_none, lemma_seq_find_props,
    seq_find, string_keys,
};

verus! {

/// Lifecycle of a registered merchant.
#[derive(Clone, Copy, Debug, PartialEq, Eq, Structural)]
pub enum MerchantStatus {
    Pending,
    Approved,
    Suspended,
    Revoked,
}

/// One registered merchant.
#[derive(Clone, Debug)]
pub struct MerchantInfo {
    pub address: String,
    pub name: String,
    pub approved_categories: Vec<String>,
    pub status: MerchantStatus,
    pub registered_at: u64,
    pub total_received: i128,
    pub transaction_count: u32,
}

/// Field-for-field agreement of two merchant records (the category lists
/// agree as sequences; their backing vectors may be distinct copies).
pub open spec fn merchant_like(a: MerchantInfo, b: MerchantInfo) -> bool {
    &&& a.address == b.address
    &&& a.name == b.name
    &&& a.approved_categories@ == b.approved_categories@
    &&& a.status == b.status
    &&& a.registered_at == b.registered_at
    &&& a.total_received == b.total_received
    &&& a.transaction_count == b.transaction_count
}

/// Copy one merchant record.
fn clone_merchant_info(info: &MerchantInfo) -> (r: MerchantInfo)
    ensures
        merchant_like(r, *info),
{
    MerchantInfo {
        address: info.address.clone(),
        name: info.name.clone(),
        approved_categories: clone_string_vec(&info.approved_categories),
        status: info.status,
        registered_at: info.registered_at,
        total_received: info.total_received,
        transaction_count: info.transaction_count,
    }
}

/// The merchant registry: a table of merchant records kept by one admin.
pub struct MerchantRegistry {
    pub admin: String,
    pub merchants: Vec<MerchantInfo>,
}

impl MerchantInfo {
    /// Whether this merchant carries an approval for `category`.
    pub open spec fn has_category(self, category: Seq<char>) -> bool {
        seq_find(string_keys(self.approved_categories@), category) >= 0
    }
}

impl MerchantRegistry {
    pub open spec fn merchant_keys(self) -> Seq<Seq<char>> {
        self.merchants@.map(|i: int, m: MerchantInfo| m.address@)
    }

    /// Whether this address is registered.
    pub open spec fn has_merchant(self, address: Seq<char>) -> bool {
        seq_find(self.merchant_keys(), address) >= 0
    }

    /// The record registered under this address (meaningful when present).
    pub open spec fn merchant_of(self, address: Seq<char>) -> MerchantInfo {
        self.merchants@[seq_find(self.merchant_keys(), address)]
    }

    /// The records still awaiting review, in registration order.
    pub open spec fn pending_merchants(self) -> Seq<MerchantInfo> {
        self.merchants@.filter(|m: MerchantInfo| m.status == MerchantStatus::Pending)
    }

    /// The approved merchants carrying an approval for `category`, in
    /// registration order.
    pub open spec fn merchants_with_category(self, category: Seq<char>) -> Seq<MerchantInfo> {
        self.merchants@.filter(
            |m: MerchantInfo| m.status == MerchantStatus::Approved && m.has_category(category),
        )
    }

    /// An empty registry bound to its admin.
    pub fn initialize(admin: String) -> (r: MerchantRegistry)
        ensures
            r.admin == admin,
            r.merchants@ == Seq::<MerchantInfo>::empty(),
    {
        MerchantRegistry { admin, merchants: Vec::new() }
    }

    /// First index of the record registered under this address.
    fn find_merchant(&self, address: &String) -> (r: Option<usize>)
        ensures
            match r {
                Some(i) => seq_find(self.merchant_keys(), address@) == i as int && i
                    < self.merchants@.len(),
                None => seq_find(self.merchant_keys(), address@) == -1,
            },
    {
        let n = self.merchants.len();
        let mut i: usize = 0;
        while i < n
            invariant
                n == self.merchants@.len(),
                i <= n,
                forall|j: int| 0 <= j < i ==> self.merchant_keys()[j] != address@,
            decreases n - i,
        {
            if self.merchants[i].address == *address {
                proof {
                    lemma_seq_find_at(self.merchant_keys(), address@, i as int);
                }
                return Some(i);
            }
            i += 1;
        }
        proof {
            lemma_seq_find_none(self.merchant_keys(), address@);
        }
        None
    }

    /// What a fresh merchant record holds.
    pub open spec fn is_fresh_merchant(
        m: MerchantInfo,
        address: Seq<char>,
        name: Seq<char>,
        categories: Seq<String>,
        status: MerchantStatus,
        now: u64,
    ) -> bool {
        &&& m.address@ == address
        &&& m.name@ == name
        &&& m.approved_categories@ == categories
        &&& m.status == status
        &&& m.registered_at == now
        &&& m.total_received == 0
        &&& m.transaction_count == 0
    }

    /// Why registration by the admin would be rejected, or `None`.
    pub open spec fn register_check(self, caller: Seq<char>, address: Seq<char>) -> Option<Error> {
        if caller != self.admin@ {
            Some(Error::Unauthorized)
        } else if self.has_merchant(address) {
            Some(Error::AlreadyInitialized)
        } else {
            None
        }
    }

    /// Register a merchant, immediately `Approved` for the given categories.
    /// Admin only.
    pub fn register_merchant(
        &mut self,
        caller: &String,
        merchant_address: &String,
        name: &String,
        categories: &Vec<String>,
        now: u64,
    ) -> (r: Result<(), Error>)
        ensures
            final(self).admin == old(self).admin,
            match old(self).register_check(caller@, merchant_address@) {
                Some(e) => r == Err::<(), Error>(e) && *final(self) == *old(self),
                None => {
                    &&& r == Ok::<(), Error>(())
                    &&& final(self).merchants@.len() == old(self).merchants@.len() + 1
                    &&& final(self).merchants@.subrange(0, old(self).merchants@.len() as int)
                        == old(self).merchants@
                    &&& Self::is_fresh_merchant(
                        final(self).merchants@.last(),
                        merchant_address@,
                        name@,
                        categories@,
                        MerchantStatus::Approved,
                        now,
                    )
                    &&& final(self).has_merchant(merchant_address@)
                    &&& final(self).merchant_of(merchant_address@) == final(self).merchants@.last()
                },
            },
    {
        if !(*caller == self.admin) {
            return Err(Error::Unauthorized);
        }
        self.insert_merchant(merchant_address, name, categories, MerchantStatus::Approved, now)
    }

    /// Self-registration: record the merchant as `Pending` until the admin
    /// approves it. The host has authenticated the merchant's address.
    pub fn register_merchant_pending(
        &mut self,
        merchant_address: &String,
        name: &String,
        categories: &Vec<String>,
        now: u64,
    ) -> (r: Result<(), Error>)
        ensures
            final(self).admin == old(self).admin,
            if old(self).has_merchant(merchant_address@) {
                r == Err::<(), Error>(Error::AlreadyInitialized) && *final(self) == *old(self)
            } else {
                &&& r == Ok::<(), Error>(())
                &&& final(self).merchants@.len() == old(self).merchants@.len() + 1
                &&& final(self).merchants@.subrange(0, old(self).merchants@.len() as int) == old(
                    self,
                ).merchants@
                &&& Self::is_fresh_merchant(
                    final(self).merchants@.last(),
                    merchant_address@,
                    name@,
                    categories@,
                    MerchantStatus::Pending,
                    now,
                )
                &&& final(self).has_merchant(merchant_address@)
                &&& final(self).merchant_of(merchant_address@) == final(self).merchants@.last()
            },
    {
        self.insert_merchant(merchant_address, name, categories, MerchantStatus::Pending, now)
    }

    /// Append a fresh record unless the address is taken.
    fn insert_merchant(
        &mut self,
        merchant_address: &String,
        name: &String,
        categories: &Vec<String>,
        status: MerchantStatus,
        now: u64,
    ) -> (r: Result<(), Error>)
        ensures
            final(self).admin == old(self).admin,
            if old(self).has_merchant(merchant_address@) {
                r == Err::<(), Error>(Error::AlreadyInitialized) && *final(self) == *old(self)
            } else {
                &&& r == Ok::<(), Error>(())
                &&& final(self).merchants@.len() == old(self).merchants@.len() + 1
                &&& final(self).merchants@.subrange(0, old(self).merchants@.len() as int) == old(
                    self,
                ).merchants@
                &&& Self::is_fresh_merchant(
                    final(self).merchants@.last(),
                    merchant_address@,
                    name@,
                    categories@,
                    status,
                    now,
                )
                &&& final(self).has_merchant(merchant_address@)
                &&& final(self).merchant_of(merchant_address@) == final(self).merchants@.last()
            },
    {
        if self.find_merchant(merchant_address).is_some() {
            return Err(Error::AlreadyInitialized);
        }
        let info = MerchantInfo {
            address: merchant_address.clone(),
            name: name.clone(),
            approved_categories: clone_string_vec(categories),
            status,
            registered_at: now,
            total_received: 0,
            transaction_count: 0,
        };
        let ghost pre = *self;
        self.merchants.push(info);
        proof {
            assert(self.merchants@.subrange(0, pre.merchants@.len() as int) =~= pre.merchants@);
            assert(self.merchant_keys() =~= pre.merchant_keys().push(merchant_address@));
            lemma_seq_find_props(pre.merchant_keys(), merchant_address@);
            lemma_seq_find_at(self.merchant_keys(), merchant_address@, pre.merchant_keys().len() as int);
        }
        Ok(())
    }

    /// Point an operation at the record of one address, when the caller is
    /// the admin: the error it reports otherwise, `None` when it may proceed.
    pub open spec fn admin_lookup_check(self, caller: Seq<char>, address: Seq<char>) -> Option<
        Error,
    > {
        if caller != self.admin@ {
            Some(Error::Unauthorized)
        } else if !self.has_merchant(address) {
            Some(Error::MerchantNotApproved)
        } else {
            None
        }
    }

    /// When one record changes in place, every other address still resolves
    /// to its old record.
    proof fn lemma_same_keys_frame(
        pre: MerchantRegistry,
        post: MerchantRegistry,
        address: Seq<char>,
        i: int,
    )
        requires
            post.merchant_keys() == pre.merchant_keys(),
            post.merchants@.len() == pre.merchants@.len(),
            0 <= i < pre.merchants@.len(),
            seq_find(pre.merchant_keys(), address) == i,
            forall|j: int|
                0 <= j < pre.merchants@.len() && j != i ==> post.merchants@[j] == pre.merchants@[j],
        ensures
            forall|k: Seq<char>|
                k != address ==> {
                    &&& (post.has_merchant(k) <==> pre.has_merchant(k))
                    &&& (pre.has_merchant(k) ==> post.merchant_of(k) == pre.merchant_of(k))
                },
    {
        lemma_seq_find_props(pre.merchant_keys(), address);
        assert forall|k: Seq<char>| k != address implies {
            &&& (post.has_merchant(k) <==> pre.has_merchant(k))
            &&& (pre.has_merchant(k) ==> post.merchant_of(k) == pre.merchant_of(k))
        } by {
            lemma_seq_find_props(pre.merchant_keys(), k);
        }
    }

    /// Set the status of one merchant record, leaving everything else as is.
    fn set_status(&mut self, i: usize, status: MerchantStatus)
        requires
            i < old(self).merchants@.len(),
        ensures
            final(self).admin == old(self).admin,
            final(self).merchants@.len() == old(self).merchants@.len(),
            forall|j: int|
                0 <= j < old(self).merchants@.len() && j != i ==> final(self).merchants@[j] == old(
                    self,
                ).merchants@[j],
            final(self).merchants@[i as int] == (MerchantInfo {
                status,
                ..old(self).merchants@[i as int]
            }),
            final(self).merchant_keys() == old(self).merchant_keys(),
    {
        let ghost pre = *self;
        let info = vec_index_mut(&mut self.merchants, i);
        info.status = status;
        proof {
            assert(self.merchant_keys() =~= pre.merchant_keys());
        }
    }

    /// Mark a merchant `Approved`. Admin only.
    pub fn approve_merchant(&mut self, caller: &String, merchant_address: &String) -> (r: Result<
        (),
        Error,
    >)
        ensures
            final(self).admin == old(self).admin,
            match old(self).admin_lookup_check(caller@, merchant_address@) {
                Some(e) => r == Err::<(), Error>(e) && *final(self) == *old(self),
                None => {
                    &&& r == Ok::<(), Error>(())
                    &&& final(self).has_merchant(merchant_address@)
                    &&& final(self).merchant_of(merchant_address@) == (MerchantInfo {
                        status: MerchantStatus::Approved,
                        ..old(self).merchant_of(merchant_address@)
                    })
                    &&& forall|k: Seq<char>|
                        k != merchant_address@ ==> {
                            &&& (final(self).has_merchant(k) <==> old(self).has_merchant(k))
                            &&& (old(self).has_merchant(k) ==> final(self).merchant_of(k) == old(
                                self).merchant_of(k))
                        }
                },
            },
    {
        if !(*caller == self.admin) {
            return Err(Error::Unauthorized);
        }
        let i = match self.find_merchant(merchant_address) {
            Some(i) => i,
            None => {
                return Err(Error::MerchantNotApproved);
            },
        };
        proof {
            lemma_seq_find_props(self.merchant_keys(), merchant_address@);
        }
        let ghost pre = *self;
        self.set_status(i, MerchantStatus::Approved);
        proof {
            Self::lemma_same_keys_frame(pre, *self, merchant_address@, i as int);
        }
        Ok(())
    }

    /// Mark a merchant `Revoked`. Admin only.
    pub fn revoke_merchant(&mut self, caller: &String, merchant_address: &String) -> (r: Result<
        (),
        Error,
    >)
        ensures
            final(self).admin == old(self).admin,
            match old(self).admin_lookup_check(caller@, merchant_address@) {
                Some(e) => r == Err::<(), Error>(e) && *final(self) == *old(self),
                None => {
                    &&& r == Ok::<(), Error>(())
                    &&& final(self).has_merchant(merchant_address@)
                    &&& final(self).merchant_of(merchant_address@) == (MerchantInfo {
                        status: MerchantStatus::Revoked,
                        ..old(self).merchant_of(merchant_address@)
                    })
                    &&& forall|k: Seq<char>|
                        k != merchant_address@ ==> {
                            &&& (final(self).has_merchant(k) <==> old(self).has_merchant(k))
                            &&& (old(self).has_merchant(k) ==> final(self).merchant_of(k) == old(
                                self).merchant_of(k))
                        }
                },
            },
    {
        if !(*caller == self.admin) {
            return Err(Error::Unauthorized);
        }
        let i = match self.find_merchant(merchant_address) {
            Some(i) => i,
            None => {
                return Err(Error::MerchantNotApproved);
            },
        };
        proof {
            lemma_seq_find_props(self.merchant_keys(), merchant_address@);
        }
        let ghost pre = *self;
        self.set_status(i, MerchantStatus::Revoked);
        proof {
            Self::lemma_same_keys_frame(pre, *self, merchant_address@, i as int);
        }
        Ok(())
    }

    /// Mark a merchant `Suspended`. Admin only.
    pub fn suspend_merchant(&mut self, caller: &String, merchant_address: &String) -> (r: Result<
        (),
        Error,
    >)
        ensures
            final(self).admin == old(self).admin,
            match old(self).admin_lookup_check(caller@, merchant_address@) {
                Some(e) => r == Err::<(), Error>(e) && *final(self) == *old(self),
                None => {
                    &&& r == Ok::<(), Error>(())
                    &&& final(self).has_merchant(merchant_address@)
                    &&& final(self).merchant_of(merchant_address@) == (MerchantInfo {
                        status: MerchantStatus::Suspended,
                        ..old(self).merchant_of(merchant_address@)
                    })
                    &&& forall|k: Seq<char>|
                        k != merchant_address@ ==> {
                            &&& (final(self).has_merchant(k) <==> old(self).has_merchant(k))
                            &&& (old(self).has_merchant(k) ==> final(self).merchant_of(k) == old(
                                self).merchant_of(k))
                        }
                },
            },
    {
        if !(*caller == self.admin) {
            return Err(Error::Unauthorized);
        }
        let i = match self.find_merchant(merchant_address) {
            Some(i) => i,
            None => {
                return Err(Error::MerchantNotApproved);
            },
        };
        proof {
            lemma_seq_find_props(self.merchant_keys(), merchant_address@);
        }
        let ghost pre = *self;
        self.set_status(i, MerchantStatus::Suspended);
        proof {
            Self::lemma_same_keys_frame(pre, *self, merchant_address@, i as int);
        }
        Ok(())
    }

    /// Add a category approval to a merchant; approving a category the
    /// merchant already carries changes nothing. Admin only.
    pub fn approve_for_category(
        &mut self,
        caller: &String,
        merchant_address: &String,
        category: &String,
    ) -> (r: Result<(), Error>)
        ensures
            final(self).admin == old(self).admin,
            match old(self).admin_lookup_check(caller@, merchant_address@) {
                Some(e) => r == Err::<(), Error>(e) && *final(self) == *old(self),
                None => {
                    &&& r == Ok::<(), Error>(())
                    &&& final(self).has_merchant(merchant_address@)
                    &&& if old(self).merchant_of(merchant_address@).has_category(category@) {
                        *final(self) == *old(self)
                    } else {
                        final(self).merchant_of(merchant_address@) == (MerchantInfo {
                            approved_categories: final(self).merchant_of(
                                merchant_address@,
                            ).approved_categories,
                            ..old(self).merchant_of(merchant_address@)
                        }) && final(self).merchant_of(merchant_address@).approved_categories@
                            == old(self).merchant_of(merchant_address@).approved_categories@.push(
                            *category,
                        )
                    }
                    &&& final(self).merchant_of(merchant_address@).has_category(category@)
                    &&& forall|k: Seq<char>|
                        k != merchant_address@ ==> {
                            &&& (final(self).has_merchant(k) <==> old(self).has_merchant(k))
                            &&& (old(self).has_merchant(k) ==> final(self).merchant_of(k) == old(
                                self).merchant_of(k))
                        }
                },
            },
    {
        if !(*caller == self.admin) {
            return Err(Error::Unauthorized);
        }
        let i = match self.find_merchant(merchant_address) {
            Some(i) => i,
            None => {
                return Err(Error::MerchantNotApproved);
            },
        };
        proof {
            lemma_seq_find_props(self.merchant_keys(), merchant_address@);
        }
        match find_string(&self.merchants[i].approved_categories, category) {
            Some(_) => {
                proof {
                    lemma_seq_find_props(
                        string_keys(self.merchants@[i as int].approved_categories@),
                        category@,
                    );
                }
                Ok(())
            },
            None => {
                let ghost pre = *self;
                let info = vec_index_mut(&mut self.merchants, i);
                info.approved_categories.push(category.clone());
                proof {
                    assert(self.merchant_keys() =~= pre.merchant_keys());
                    let cats = self.merchants@[i as int].approved_categories@;
                    assert(string_keys(cats) =~= string_keys(
                        pre.merchants@[i as int].approved_categories@,
                    ).push(category@));
                    lemma_seq_find_props(
                        string_keys(pre.merchants@[i as int].approved_categories@),
                        category@,
                    );
                    lemma_seq_find_at(
                        string_keys(cats),
                        category@,
                        pre.merchants@[i as int].approved_categories@.len() as int,
                    );
                    Self::lemma_same_keys_frame(pre, *self, merchant_address@, i as int);
                }
                Ok(())
            },
        }
    }

    /// Remove every approval for `category` from a merchant, keeping the
    /// other approvals in order. Admin only.
    pub fn remove_category(
        &mut self,
        caller: &String,
        merchant_address: &String,
        category: &String,
    ) -> (r: Result<(), Error>)
        ensures
            final(self).admin == old(self).admin,
            match old(self).admin_lookup_check(caller@, merchant_address@) {
                Some(e) => r == Err::<(), Error>(e) && *final(self) == *old(self),
                None => {
                    &&& r == Ok::<(), Error>(())
                    &&& final(self).has_merchant(merchant_address@)
                    &&& final(self).merchant_of(merchant_address@) == (MerchantInfo {
                        approved_categories: final(self).merchant_of(
                            merchant_address@,
                        ).approved_categories,
                        ..old(self).merchant_of(merchant_address@)
                    })
                    &&& final(self).merchant_of(merchant_address@).approved_categories@ == old(
                        self,
                    ).merchant_of(merchant_address@).approved_categories@.filter(
                        |c: String| c@ != category@,
                    )
                    &&& !final(self).merchant_of(merchant_address@).has_category(category@)
                    &&& forall|k: Seq<char>|
                        k != merchant_address@ ==> {
                            &&& (final(self).has_merchant(k) <==> old(self).has_merchant(k))
                            &&& (old(self).has_merchant(k) ==> final(self).merchant_of(k) == old(
                                self).merchant_of(k))
                        }
                },
            },
    {
        if !(*caller == self.admin) {
            return Err(Error::Unauthorized);
        }
        let i = match self.find_merchant(merchant_address) {
            Some(i) => i,
            None => {
                return Err(Error::MerchantNotApproved);
            },
        };
        proof {
            lemma_seq_find_props(self.merchant_keys(), merchant_address@);
        }
        let ghost old_cats = self.merchants@[i as int].approved_categories@;
        let n = self.merchants[i].approved_categories.len();
        let mut kept: Vec<String> = Vec::new();
        let mut t: usize = 0;
        while t < n
            invariant
                i < self.merchants@.len(),
                n == self.merchants@[i as int].approved_categories@.len(),
                old_cats == self.merchants@[i as int].approved_categories@,
                t <= n,
                kept@ == old_cats.subrange(0, t as int).filter((|c: String| c@ != category@)),
            decreases n - t,
        {
            let ghost prefix = old_cats.subrange(0, t as int);
            if !(self.merchants[i].approved_categories[t] == *category) {
                kept.push(self.merchants[i].approved_categories[t].clone());
            }
            proof {
                reveal(Seq::filter);
                let next = old_cats.subrange(0, t + 1 as int);
                assert(next.drop_last() =~= prefix);
                assert(next.last() == old_cats[t as int]);
            }
            t += 1;
        }
        proof {
            assert(old_cats.subrange(0, n as int) =~= old_cats);
        }
        let ghost pre = *self;
        let info = vec_index_mut(&mut self.merchants, i);
        info.approved_categories = kept;
        proof {
            assert(self.merchant_keys() =~= pre.merchant_keys());
            let cats = self.merchants@[i as int].approved_categories@;
            assert forall|j: int| 0 <= j < string_keys(cats).len() implies string_keys(cats)[j]
                != category@ by {
                old_cats.lemma_filter_pred((|c: String| c@ != category@), j);
            }
            lemma_seq_find_none(string_keys(cats), category@);
            Self::lemma_same_keys_frame(pre, *self, merchant_address@, i as int);
        }
        Ok(())
    }

    /// Whether an address is a registered, approved merchant carrying an
    /// approval for `category`.
    pub fn is_approved_for_category(&self, merchant_address: &String, category: &String) -> (r:
        bool)
        ensures
            r == (self.has_merchant(merchant_address@) && self.merchant_of(
                merchant_address@,
            ).status == MerchantStatus::Approved && self.merchant_of(
                merchant_address@,
            ).has_category(category@)),
    {
        let i = match self.find_merchant(merchant_address) {
            Some(i) => i,
            None => {
                return false;
            },
        };
        proof {
            lemma_seq_find_props(self.merchant_keys(), merchant_address@);
        }
        if !(self.merchants[i].status == MerchantStatus::Approved) {
            return false;
        }
        self.find_string_in(i, category)
    }

    /// Whether the record at `i` carries `category`.
    fn find_string_in(&self, i: usize, category: &String) -> (r: bool)
        requires
            i < self.merchants@.len(),
        ensures
            r == self.merchants@[i as int].has_category(category@),
    {
        find_string(&self.merchants[i].approved_categories, category).is_some()
    }

    /// Whether an address is a registered, approved merchant.
    pub fn is_approved(&self, merchant_address: &String) -> (r: bool)
        ensures
            r == (self.has_merchant(merchant_address@) && self.merchant_of(
                merchant_address@,
            ).status == MerchantStatus::Approved),
    {
        match self.find_merchant(merchant_address) {
            Some(i) => {
                proof {
                    lemma_seq_find_props(self.merchant_keys(), merchant_address@);
                }
                self.merchants[i].status == MerchantStatus::Approved
            },
            None => false,
        }
    }

    /// The record registered under an address, if any.
    pub fn get_merchant_info(&self, merchant_address: &String) -> (r: Option<MerchantInfo>)
        ensures
            match r {
                Some(info) => self.has_merchant(merchant_address@) && merchant_like(
                    info,
                    self.merchant_of(merchant_address@),
                ),
                None => !self.has_merchant(merchant_address@),
            },
    {
        match self.find_merchant(merchant_address) {
            Some(i) => {
                proof {
                    lemma_seq_find_props(self.merchant_keys(), merchant_address@);
                }
                Some(clone_merchant_info(&self.merchants[i]))
            },
            None => None,
        }
    }

    /// Record a settlement paid to a merchant: its lifetime received total
    /// grows by `amount` and its transaction count by one.
    pub fn update_received(&mut self, merchant_address: &String, amount: i128) -> (r: Result<
        (),
        Error,
    >)
        requires
            old(self).has_merchant(merchant_address@) ==> {
                &&& i128::MIN <= old(self).merchant_of(merchant_address@).total_received + amount
                    <= i128::MAX
                &&& old(self).merchant_of(merchant_address@).transaction_count < u32::MAX
            },
        ensures
            final(self).admin == old(self).admin,
            if !old(self).has_merchant(merchant_address@) {
                r == Err::<(), Error>(Error::MerchantNotApproved) && *final(self) == *old(self)
            } else {
                &&& r == Ok::<(), Error>(())
                &&& final(self).has_merchant(merchant_address@)
                &&& final(self).merchant_of(merchant_address@) == (MerchantInfo {
                    total_received: (old(self).merchant_of(merchant_address@).total_received
                        + amount) as i128,
                    transaction_count: (old(self).merchant_of(merchant_address@).transaction_count
                        + 1) as u32,
                    ..old(self).merchant_of(merchant_address@)
                })
                &&& forall|k: Seq<char>|
                    k != merchant_address@ ==> {
                        &&& (final(self).has_merchant(k) <==> old(self).has_merchant(k))
                        &&& (old(self).has_merchant(k) ==> final(self).merchant_of(k) == old(
                            self).merchant_of(k))
                    }
            },
    {
        let i = match self.find_merchant(merchant_address) {
            Some(i) => i,
            None => {
                return Err(Error::MerchantNotApproved);
            },
        };
        proof {
            lemma_seq_find_props(self.merchant_keys(), merchant_address@);
        }
        let ghost pre = *self;
        let info = vec_index_mut(&mut self.merchants, i);
        let received = info.total_received;
        info.total_received = received + amount;
        let count = info.transaction_count;
        info.transaction_count = count + 1;
        proof {
            assert(self.merchant_keys() =~= pre.merchant_keys());
            Self::lemma_same_keys_frame(pre, *self, merchant_address@, i as int);
        }
        Ok(())
    }

    /// All registered merchant records, in registration order.
    pub fn get_all_merchants(&self) -> (r: Vec<MerchantInfo>)
        ensures
            r@.len() == self.merchants@.len(),
            forall|j: int|
                0 <= j < r@.len() ==> merchant_like(#[trigger] r@[j], self.merchants@[j]),
    {
        let n = self.merchants.len();
        let mut r: Vec<MerchantInfo> = Vec::new();
        let mut i: usize = 0;
        while i < n
            invariant
                n == self.merchants@.len(),
                i <= n,
                r@.len() == i,
                forall|j: int|
                    0 <= j < i ==> merchant_like(#[trigger] r@[j], self.merchants@[j]),
            decreases n - i,
        {
            r.push(clone_merchant_info(&self.merchants[i]));
            i += 1;
        }
        r
    }

    /// The approved merchants carrying an approval for `category`, in
    /// registration order.
    pub fn get_merchants_by_category(&self, category: &String) -> (r: Vec<MerchantInfo>)
        ensures
            r@.len() == self.merchants_with_category(category@).len(),
            forall|j: int|
                0 <= j < r@.len() ==> merchant_like(
                    #[trigger] r@[j],
                    self.merchants_with_category(category@)[j],
                ),
    {
        let n = self.merchants.len();
        let mut r: Vec<MerchantInfo> = Vec::new();
        let mut i: usize = 0;
        while i < n
            invariant
                n == self.merchants@.len(),
                i <= n,
                r@.len() == self.merchants@.subrange(0, i as int).filter(
                    (|m: MerchantInfo| m.status == MerchantStatus::Approved && m.has_category(
                        category@,
                    )),
                ).len(),
                forall|j: int|
                    0 <= j < r@.len() ==> merchant_like(
                        #[trigger] r@[j],
                        self.merchants@.subrange(0, i as int).filter(
                            (|m: MerchantInfo| m.status == MerchantStatus::Approved
                                && m.has_category(category@)),
                        )[j],
                    ),
            decreases n - i,
        {
            let ghost prefix = self.merchants@.subrange(0, i as int);
            if self.merchants[i].status == MerchantStatus::Approved && self.find_string_in(
                i,
                category,
            ) {
                r.push(clone_merchant_info(&self.merchants[i]));
            }
            proof {
                reveal(Seq::filter);
                let next = self.merchants@.subrange(0, i + 1 as int);
                assert(next.drop_last() =~= prefix);
                assert(next.last() == self.merchants@[i as int]);
            }
            i += 1;
        }
        proof {
            assert(self.merchants@.subrange(0, n as int) =~= self.merchants@);
        }
        r
    }

    /// The records still awaiting review, in registration order.
    pub fn get_pending_merchants(&self) -> (r: Vec<MerchantInfo>)
        ensures
            r@.len() == self.pending_merchants().len(),
            forall|j: int|
                0 <= j < r@.len() ==> merchant_like(#[trigger] r@[j], self.pending_merchants()[j]),
    {
        let n = self.merchants.len();
        let mut r: Vec<MerchantInfo> = Vec::new();
        let mut i: usize = 0;
        while i < n
            invariant
                n == self.merchants@.len(),
                i <= n,
                r@.len() == self.merchants@.subrange(0, i as int).filter(
                    (|m: MerchantInfo| m.status == MerchantStatus::Pending),
                ).len(),
                forall|j: int|
                    0 <= j < r@.len() ==> merchant_like(
                        #[trigger] r@[j],
                        self.merchants@.subrange(0, i as int).filter(
                            (|m: MerchantInfo| m.status == MerchantStatus::Pending),
                        )[j],
                    ),
            decreases n - i,
        {
            let ghost prefix = self.merchants@.subrange(0, i as int);
            if self.merchants[i].status == MerchantStatus::Pending {
                r.push(clone_merchant_info(&self.merchants[i]));
            }
            proof {
                reveal(Seq::filter);
                let next = self.merchants@.subrange(0, i + 1 as int);
                assert(next.drop_last() =~= prefix);
                assert(next.last() == self.merchants@[i as int]);
            }
            i += 1;
        }
        proof {
            assert(self.merchants@.subrange(0, n as int) =~= self.merchants@);
        }
        r
    }
}

} // verus!
