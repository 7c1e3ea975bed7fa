//! NGO registry: registration, verification and campaign counting.
//!
//! The registry is an identity collaborator of the vault: it answers status
//! lookups (`is_verified`) and is maintained by its admin. The host shell
//! authenticates callers; admin-gated operations here compare the caller's
//! authenticated identity against the stored admin.

use vstd::prelude::*;
use vstd::std_specs::vec::vec_index_mut;

use crate::error::Error;
use crate::lookup::{lemma_seq_find_at, lemma_seq_find_none, lemma_seq_find_props, seq_find};

verus! {

/// Lifecycle of a registered NGO.
#[derive(Clone, Copy, Debug, PartialEq, Eq, Structural)]
pub enum NGOStatus {
    Pending,
    Verified,
    Suspended,
    Revoked,
}

impl NGOStatus {
    /// The stable numeric code of each status, as exposed to callers.
    pub open spec fn spec_code(self) -> u32 {
        match self {
            NGOStatus::Pending => 0,
            NGOStatus::Verified => 1,
            NGOStatus::Suspended => 2,
            NGOStatus::Revoked => 3,
        }
    }
}

/// One registered NGO.
#[derive(Clone, Debug)]
pub struct NGOInfo {
    pub address: String,
    pub name: String,
    pub registration_number: String,
    pub country: String,
    pub status: NGOStatus,
    pub registered_at: u64,
    pub verified_at: u64,
    pub total_campaigns: u32,
}

/// Copy one NGO record.
fn clone_ngo_info(info: &NGOInfo) -> (r: NGOInfo)
    ensures
        r == *info,
{
    NGOInfo {
        address: info.address.clone(),
        name: info.name.clone(),
        registration_number: info.registration_number.clone(),
        country: info.country.clone(),
        status: info.status,
        registered_at: info.registered_at,
        verified_at: info.verified_at,
        total_campaigns: info.total_campaigns,
    }
}

/// The NGO registry: a table of NGO records maintained by one admin.
pub struct NGORegistry {
    pub admin: String,
    pub ngos: Vec<NGOInfo>,
}

impl NGORegistry {
    pub open spec fn ngo_keys(self) -> Seq<Seq<char>> {
        self.ngos@.map(|i: int, n: NGOInfo| n.address@)
    }

    /// Whether this address is registered.
    pub open spec fn has_ngo(self, address: Seq<char>) -> bool {
        seq_find(self.ngo_keys(), address) >= 0
    }

    /// The record registered under this address (meaningful when present).
    pub open spec fn ngo_of(self, address: Seq<char>) -> NGOInfo {
        self.ngos@[seq_find(self.ngo_keys(), address)]
    }

    /// The pending records of the registry, in registration order.
    pub open spec fn pending_ngos(self) -> Seq<NGOInfo> {
        self.ngos@.filter(|n: NGOInfo| n.status == NGOStatus::Pending)
    }

    /// An empty registry bound to its admin.
    pub fn initialize(admin: String) -> (r: NGORegistry)
        ensures
            r.admin == admin,
            r.ngos@ == Seq::<NGOInfo>::empty(),
    {
        NGORegistry { admin, ngos: Vec::new() }
    }

    /// First index of the record registered under this address.
    fn find_ngo(&self, address: &String) -> (r: Option<usize>)
        ensures
            match r {
                Some(i) => seq_find(self.ngo_keys(), address@) == i as int && i < self.ngos@.len(),
                None => seq_find(self.ngo_keys(), address@) == -1,
            },
    {
        let n = self.ngos.len();
        let mut i: usize = 0;
        while i < n
            invariant
                n == self.ngos@.len(),
                i <= n,
                forall|j: int| 0 <= j < i ==> self.ngo_keys()[j] != address@,
            decreases n - i,
        {
            if self.ngos[i].address == *address {
                proof {
                    lemma_seq_find_at(self.ngo_keys(), address@, i as int);
                }
                return Some(i);
            }
            i += 1;
        }
        proof {
            lemma_seq_find_none(self.ngo_keys(), address@);
        }
        None
    }

    /// What a fresh registration record holds.
    pub open spec fn is_fresh_ngo(
        n: NGOInfo,
        address: Seq<char>,
        name: Seq<char>,
        registration_number: Seq<char>,
        country: Seq<char>,
        now: u64,
    ) -> bool {
        &&& n.address@ == address
        &&& n.name@ == name
        &&& n.registration_number@ == registration_number
        &&& n.country@ == country
        &&& n.status == NGOStatus::Pending
        &&& n.registered_at == now
        &&& n.verified_at == 0
        &&& n.total_campaigns == 0
    }

    /// Register an NGO under the address the host authenticated for the
    /// call (self-registration). Fails `AlreadyInitialized` when the address
    /// is already registered; otherwise appends a `Pending` record.
    pub fn register_ngo(
        &mut self,
        ngo_address: &String,
        name: &String,
        registration_number: &String,
        country: &String,
        now: u64,
    ) -> (r: Result<(), Error>)
        ensures
            final(self).admin == old(self).admin,
            if old(self).has_ngo(ngo_address@) {
                r == Err::<(), Error>(Error::AlreadyInitialized) && *final(self) == *old(self)
            } else {
                &&& r == Ok::<(), Error>(())
                &&& final(self).ngos@.len() == old(self).ngos@.len() + 1
                &&& final(self).ngos@.subrange(0, old(self).ngos@.len() as int) == old(self).ngos@
                &&& Self::is_fresh_ngo(
                    final(self).ngos@.last(),
                    ngo_address@,
                    name@,
                    registration_number@,
                    country@,
                    now,
                )
                &&& final(self).has_ngo(ngo_address@)
                &&& final(self).ngo_of(ngo_address@) == final(self).ngos@.last()
            },
    {
        self.register_ngo_with_address(ngo_address, name, registration_number, country, now)
    }

    /// Register an NGO under an explicitly named address; the host has
    /// authenticated that address as the caller.
    pub fn register_ngo_with_address(
        &mut self,
        ngo_address: &String,
        name: &String,
        registration_number: &String,
        country: &String,
        now: u64,
    ) -> (r: Result<(), Error>)
        ensures
            final(self).admin == old(self).admin,
            if old(self).has_ngo(ngo_address@) {
                r == Err::<(), Error>(Error::AlreadyInitialized) && *final(self) == *old(self)
            } else {
                &&& r == Ok::<(), Error>(())
                &&& final(self).ngos@.len() == old(self).ngos@.len() + 1
                &&& final(self).ngos@.subrange(0, old(self).ngos@.len() as int) == old(self).ngos@
                &&& Self::is_fresh_ngo(
                    final(self).ngos@.last(),
                    ngo_address@,
                    name@,
                    registration_number@,
                    country@,
                    now,
                )
                &&& final(self).has_ngo(ngo_address@)
                &&& final(self).ngo_of(ngo_address@) == final(self).ngos@.last()
            },
    {
        if self.find_ngo(ngo_address).is_some() {
            return Err(Error::AlreadyInitialized);
        }
        let info = NGOInfo {
            address: ngo_address.clone(),
            name: name.clone(),
            registration_number: registration_number.clone(),
            country: country.clone(),
            status: NGOStatus::Pending,
            registered_at: now,
            verified_at: 0,
            total_campaigns: 0,
        };
        let ghost pre = *self;
        self.ngos.push(info);
        proof {
            assert(self.ngos@.subrange(0, pre.ngos@.len() as int) =~= pre.ngos@);
            assert(self.ngo_keys() =~= pre.ngo_keys().push(ngo_address@));
            lemma_seq_find_props(pre.ngo_keys(), ngo_address@);
            lemma_seq_find_at(self.ngo_keys(), ngo_address@, pre.ngo_keys().len() as int);
        }
        Ok(())
    }

    /// Point an operation at the record of one address, when the caller is
    /// the admin: the error it reports otherwise, `None` when it may proceed.
    pub open spec fn admin_lookup_check(self, caller: Seq<char>, address: Seq<char>) -> Option<
        Error,
    > {
        if caller != self.admin@ {
            Some(Error::Unauthorized)
        } else if !self.has_ngo(address) {
            Some(Error::NGONotRegistered)
        } else {
            None
        }
    }

    /// Set the status of one NGO record, leaving everything else in place.
    /// Used by the admin-gated status transitions below.
    fn set_status(&mut self, i: usize, status: NGOStatus, verified_at: Option<u64>)
        requires
            i < old(self).ngos@.len(),
        ensures
            final(self).admin == old(self).admin,
            final(self).ngos@.len() == old(self).ngos@.len(),
            forall|j: int|
                0 <= j < old(self).ngos@.len() && j != i ==> final(self).ngos@[j] == old(
                    self,
                ).ngos@[j],
            ({
                let pre = old(self).ngos@[i as int];
                let post = final(self).ngos@[i as int];
                &&& post.address == pre.address
                &&& post.name == pre.name
                &&& post.registration_number == pre.registration_number
                &&& post.country == pre.country
                &&& post.status == status
                &&& post.registered_at == pre.registered_at
                &&& post.verified_at == match verified_at {
                    Some(t) => t,
                    None => pre.verified_at,
                }
                &&& post.total_campaigns == pre.total_campaigns
            }),
            final(self).ngo_keys() == old(self).ngo_keys(),
    {
        let ghost pre = *self;
        let info = vec_index_mut(&mut self.ngos, i);
        info.status = status;
        match verified_at {
            Some(t) => {
                info.verified_at = t;
            },
            None => {},
        }
        proof {
            assert(self.ngo_keys() =~= pre.ngo_keys());
        }
    }

    /// Mark an NGO `Verified`, recording the verification time. Admin only.
    pub fn verify_ngo(&mut self, caller: &String, ngo_address: &String, now: u64) -> (r: Result<
        (),
        Error,
    >)
        ensures
            final(self).admin == old(self).admin,
            match old(self).admin_lookup_check(caller@, ngo_address@) {
                Some(e) => r == Err::<(), Error>(e) && *final(self) == *old(self),
                None => {
                    &&& r == Ok::<(), Error>(())
                    &&& final(self).has_ngo(ngo_address@)
                    &&& final(self).ngo_of(ngo_address@) == (NGOInfo {
                        status: NGOStatus::Verified,
                        verified_at: now,
                        ..old(self).ngo_of(ngo_address@)
                    })
                    &&& forall|k: Seq<char>|
                        k != ngo_address@ ==> {
                            &&& (final(self).has_ngo(k) <==> old(self).has_ngo(k))
                            &&& (old(self).has_ngo(k) ==> final(self).ngo_of(k) == old(self).ngo_of(
                                k))
                        }
                },
            },
    {
        if !(*caller == self.admin) {
            return Err(Error::Unauthorized);
        }
        let i = match self.find_ngo(ngo_address) {
            Some(i) => i,
            None => {
                return Err(Error::NGONotRegistered);
            },
        };
        proof {
            lemma_seq_find_props(self.ngo_keys(), ngo_address@);
        }
        let ghost pre = *self;
        self.set_status(i, NGOStatus::Verified, Some(now));
        proof {
            Self::lemma_same_keys_frame(pre, *self, ngo_address@, i as int);
        }
        Ok(())
    }

    /// Mark an NGO `Revoked`. Admin only.
    pub fn revoke_ngo(&mut self, caller: &String, ngo_address: &String) -> (r: Result<(), Error>)
        ensures
            final(self).admin == old(self).admin,
            match old(self).admin_lookup_check(caller@, ngo_address@) {
                Some(e) => r == Err::<(), Error>(e) && *final(self) == *old(self),
                None => {
                    &&& r == Ok::<(), Error>(())
                    &&& final(self).has_ngo(ngo_address@)
                    &&& final(self).ngo_of(ngo_address@) == (NGOInfo {
                        status: NGOStatus::Revoked,
                        ..old(self).ngo_of(ngo_address@)
                    })
                    &&& forall|k: Seq<char>|
                        k != ngo_address@ ==> {
                            &&& (final(self).has_ngo(k) <==> old(self).has_ngo(k))
                            &&& (old(self).has_ngo(k) ==> final(self).ngo_of(k) == old(self).ngo_of(
                                k))
                        }
                },
            },
    {
        if !(*caller == self.admin) {
            return Err(Error::Unauthorized);
        }
        let i = match self.find_ngo(ngo_address) {
            Some(i) => i,
            None => {
                return Err(Error::NGONotRegistered);
            },
        };
        proof {
            lemma_seq_find_props(self.ngo_keys(), ngo_address@);
        }
        let ghost pre = *self;
        self.set_status(i, NGOStatus::Revoked, None);
        proof {
            Self::lemma_same_keys_frame(pre, *self, ngo_address@, i as int);
        }
        Ok(())
    }

    /// Mark an NGO `Suspended`. Admin only.
    pub fn suspend_ngo(&mut self, caller: &String, ngo_address: &String) -> (r: Result<(), Error>)
        ensures
            final(self).admin == old(self).admin,
            match old(self).admin_lookup_check(caller@, ngo_address@) {
                Some(e) => r == Err::<(), Error>(e) && *final(self) == *old(self),
                None => {
                    &&& r == Ok::<(), Error>(())
                    &&& final(self).has_ngo(ngo_address@)
                    &&& final(self).ngo_of(ngo_address@) == (NGOInfo {
                        status: NGOStatus::Suspended,
                        ..old(self).ngo_of(ngo_address@)
                    })
                    &&& forall|k: Seq<char>|
                        k != ngo_address@ ==> {
                            &&& (final(self).has_ngo(k) <==> old(self).has_ngo(k))
                            &&& (old(self).has_ngo(k) ==> final(self).ngo_of(k) == old(self).ngo_of(
                                k))
                        }
                },
            },
    {
        if !(*caller == self.admin) {
            return Err(Error::Unauthorized);
        }
        let i = match self.find_ngo(ngo_address) {
            Some(i) => i,
            None => {
                return Err(Error::NGONotRegistered);
            },
        };
        proof {
            lemma_seq_find_props(self.ngo_keys(), ngo_address@);
        }
        let ghost pre = *self;
        self.set_status(i, NGOStatus::Suspended, None);
        proof {
            Self::lemma_same_keys_frame(pre, *self, ngo_address@, i as int);
        }
        Ok(())
    }

    /// When one record changes in place, every other address still resolves
    /// to its old record.
    proof fn lemma_same_keys_frame(pre: NGORegistry, post: NGORegistry, address: Seq<char>, i: int)
        requires
            post.ngo_keys() == pre.ngo_keys(),
            post.ngos@.len() == pre.ngos@.len(),
            0 <= i < pre.ngos@.len(),
            seq_find(pre.ngo_keys(), address) == i,
            forall|j: int| 0 <= j < pre.ngos@.len() && j != i ==> post.ngos@[j] == pre.ngos@[j],
        ensures
            forall|k: Seq<char>|
                k != address ==> {
                    &&& (post.has_ngo(k) <==> pre.has_ngo(k))
                    &&& (pre.has_ngo(k) ==> post.ngo_of(k) == pre.ngo_of(k))
                },
    {
        lemma_seq_find_props(pre.ngo_keys(), address);
        assert forall|k: Seq<char>| k != address implies {
            &&& (post.has_ngo(k) <==> pre.has_ngo(k))
            &&& (pre.has_ngo(k) ==> post.ngo_of(k) == pre.ngo_of(k))
        } by {
            lemma_seq_find_props(pre.ngo_keys(), k);
        }
    }

    /// Whether an address is a registered, verified NGO.
    pub fn is_verified(&self, ngo_address: &String) -> (r: bool)
        ensures
            r == (self.has_ngo(ngo_address@) && self.ngo_of(ngo_address@).status
                == NGOStatus::Verified),
    {
        match self.find_ngo(ngo_address) {
            Some(i) => {
                proof {
                    lemma_seq_find_props(self.ngo_keys(), ngo_address@);
                }
                self.ngos[i].status == NGOStatus::Verified
            },
            None => false,
        }
    }

    /// Status code of an address; an unregistered address reads as the
    /// `Pending` code, so callers cannot distinguish the two.
    pub fn get_status(&self, ngo_address: &String) -> (r: u32)
        ensures
            r == if self.has_ngo(ngo_address@) {
                self.ngo_of(ngo_address@).status.spec_code()
            } else {
                0
            },
    {
        match self.find_ngo(ngo_address) {
            Some(i) => {
                proof {
                    lemma_seq_find_props(self.ngo_keys(), ngo_address@);
                }
                match self.ngos[i].status {
                    NGOStatus::Pending => 0,
                    NGOStatus::Verified => 1,
                    NGOStatus::Suspended => 2,
                    NGOStatus::Revoked => 3,
                }
            },
            None => 0,
        }
    }

    /// The record registered under an address, if any.
    pub fn get_ngo_info(&self, ngo_address: &String) -> (r: Option<NGOInfo>)
        ensures
            match r {
                Some(info) => self.has_ngo(ngo_address@) && info == self.ngo_of(ngo_address@),
                None => !self.has_ngo(ngo_address@),
            },
    {
        match self.find_ngo(ngo_address) {
            Some(i) => {
                proof {
                    lemma_seq_find_props(self.ngo_keys(), ngo_address@);
                }
                Some(clone_ngo_info(&self.ngos[i]))
            },
            None => None,
        }
    }

    /// Count one more campaign against an NGO.
    pub fn increment_campaign_count(&mut self, ngo_address: &String) -> (r: Result<(), Error>)
        requires
            old(self).has_ngo(ngo_address@) ==> old(self).ngo_of(ngo_address@).total_campaigns
                < u32::MAX,
        ensures
            final(self).admin == old(self).admin,
            if !old(self).has_ngo(ngo_address@) {
                r == Err::<(), Error>(Error::NGONotRegistered) && *final(self) == *old(self)
            } else {
                &&& r == Ok::<(), Error>(())
                &&& final(self).has_ngo(ngo_address@)
                &&& final(self).ngo_of(ngo_address@) == (NGOInfo {
                    total_campaigns: (old(self).ngo_of(ngo_address@).total_campaigns + 1) as u32,
                    ..old(self).ngo_of(ngo_address@)
                })
                &&& forall|k: Seq<char>|
                    k != ngo_address@ ==> {
                        &&& (final(self).has_ngo(k) <==> old(self).has_ngo(k))
                        &&& (old(self).has_ngo(k) ==> final(self).ngo_of(k) == old(self).ngo_of(k))
                    }
            },
    {
        let i = match self.find_ngo(ngo_address) {
            Some(i) => i,
            None => {
                return Err(Error::NGONotRegistered);
            },
        };
        proof {
            lemma_seq_find_props(self.ngo_keys(), ngo_address@);
        }
        let ghost pre = *self;
        let info = vec_index_mut(&mut self.ngos, i);
        let c = info.total_campaigns;
        info.total_campaigns = c + 1;
        proof {
            assert(self.ngo_keys() =~= pre.ngo_keys());
            Self::lemma_same_keys_frame(pre, *self, ngo_address@, i as int);
        }
        Ok(())
    }

    /// All registered NGO records, in registration order.
    pub fn get_all_ngos(&self) -> (r: Vec<NGOInfo>)
        ensures
            r@ == self.ngos@,
    {
        let n = self.ngos.len();
        let mut r: Vec<NGOInfo> = Vec::new();
        let mut i: usize = 0;
        while i < n
            invariant
                n == self.ngos@.len(),
                i <= n,
                r@ == self.ngos@.subrange(0, i as int),
            decreases n - i,
        {
            r.push(clone_ngo_info(&self.ngos[i]));
            proof {
                assert(r@ =~= self.ngos@.subrange(0, i + 1 as int));
            }
            i += 1;
        }
        proof {
            assert(r@ =~= self.ngos@);
        }
        r
    }

    /// The records still awaiting review, in registration order.
    pub fn get_pending_ngos(&self) -> (r: Vec<NGOInfo>)
        ensures
            r@ == self.pending_ngos(),
    {
        let n = self.ngos.len();
        let mut r: Vec<NGOInfo> = Vec::new();
        let mut i: usize = 0;
        while i < n
            invariant
                n == self.ngos@.len(),
                i <= n,
                r@ == self.ngos@.subrange(0, i as int).filter(
                    |x: NGOInfo| x.status == NGOStatus::Pending,
                ),
            decreases n - i,
        {
            let ghost prefix = self.ngos@.subrange(0, i as int);
            if self.ngos[i].status == NGOStatus::Pending {
                r.push(clone_ngo_info(&self.ngos[i]));
            }
            proof {
                reveal(Seq::filter);
                let next = self.ngos@.subrange(0, i + 1 as int);
                assert(next.drop_last() =~= prefix);
                assert(next.last() == self.ngos@[i as int]);
            }
            i += 1;
        }
        proof {
            assert(self.ngos@.subrange(0, n as int) =~= self.ngos@);
        }
        r
    }
}

} // verus!
