//! The registry contract: issuers and buyers register a profile, which the
//! admin may revoke or verify again; every other contract asks it whether
//! an address is verified.

use vstd::prelude::*;
use crate::ledger::{Address, CallContext};
use crate::table::Table;

verus! {

/// The most entries one batch registration accepts.
pub const MAX_BATCH_SIZE: usize = 50;

/// The failures of the registry contract.
#[derive(PartialEq, Eq, Structural, Clone, Copy, Debug)]
pub enum RegistryError {
    AlreadyInitialized,
    AlreadyRegistered,
    NotFound,
    BatchSizeExceeded,
    /// A required authorization is missing from the invocation.
    Unauthorized,
}

impl RegistryError {
    /// The contract error number, for the failures that have one.
    pub open spec fn spec_code(self) -> Option<u32> {
        match self {
            RegistryError::AlreadyInitialized => Some(1),
            RegistryError::AlreadyRegistered => Some(2),
            RegistryError::NotFound => Some(3),
            RegistryError::BatchSizeExceeded => Some(5),
            RegistryError::Unauthorized => None,
        }
    }

    /// The contract error number, for the failures that have one.
    pub fn code(&self) -> (r: Option<u32>)
        ensures
            r == self.spec_code(),
    {
        match self {
            RegistryError::AlreadyInitialized => Some(1),
            RegistryError::AlreadyRegistered => Some(2),
            RegistryError::NotFound => Some(3),
            RegistryError::BatchSizeExceeded => Some(5),
            RegistryError::Unauthorized => None,
        }
    }
}

/// The part an address plays in the protocol.
#[derive(PartialEq, Eq, Structural, Clone, Copy, Debug)]
pub enum Role {
    Issuer,
    Buyer,
}

/// Whether an address is registered and, if so, whether its profile is verified.
#[derive(PartialEq, Eq, Structural, Clone, Copy, Debug)]
pub enum VerificationStatus {
    Unregistered,
    Verified,
    Revoked,
}

/// Free-form descriptive pairs attached to a profile.
pub type Metadata = Vec<(String, String)>;

/// Metadata, each text taken by its characters.
pub open spec fn metadata_view(m: Seq<(String, String)>) -> Seq<(Seq<char>, Seq<char>)> {
    m.map_values(|e: (String, String)| (e.0@, e.1@))
}

/// Whether no key occurs twice in `m`, as in a map from texts to texts.
pub open spec fn keys_distinct(m: Seq<(Seq<char>, Seq<char>)>) -> bool {
    forall|i: int, j: int| 0 <= i < j < m.len() ==> #[trigger] m[i].0 != #[trigger] m[j].0
}

/// Whether every entry of a batch carries metadata with distinct keys.
pub open spec fn entries_keys_distinct(es: Seq<(Address, Metadata)>) -> bool {
    forall|i: int| 0 <= i < es.len() ==> keys_distinct(#[trigger] metadata_view(es[i].1@))
}

/// A registered party.
#[derive(Debug, PartialEq, Eq)]
pub struct Profile {
    pub address: Address,
    pub role: Role,
    pub verified: bool,
    pub registered_at: u64,
    pub metadata: Metadata,
}

/// A profile, its address and texts taken by their encodings.
pub struct ProfileView {
    pub address: Seq<u8>,
    pub role: Role,
    pub verified: bool,
    pub registered_at: u64,
    pub metadata: Seq<(Seq<char>, Seq<char>)>,
}

impl View for Profile {
    type V = ProfileView;

    open spec fn view(&self) -> ProfileView {
        ProfileView {
            address: self.address@,
            role: self.role,
            verified: self.verified,
            registered_at: self.registered_at,
            metadata: metadata_view(self.metadata@),
        }
    }
}

/// Batch entries, taken by their views.
pub open spec fn entries_view(es: Seq<(Address, Metadata)>) -> Seq<(Seq<u8>, Seq<(Seq<char>, Seq<char>)>)> {
    es.map_values(|e: (Address, Metadata)| (e.0@, metadata_view(e.1@)))
}

/// The profile that registering `address` with `metadata` as `role` at `now` creates.
pub open spec fn new_profile(address: Seq<u8>, role: Role, now: u64, metadata: Seq<(Seq<char>, Seq<char>)>) -> ProfileView {
    ProfileView { address, role, verified: true, registered_at: now, metadata }
}

/// The profiles after registering the entries of a batch as issuers in
/// order, and the addresses skipped because they were registered already.
pub open spec fn batch_apply(
    profiles: Map<Seq<u8>, ProfileView>,
    entries: Seq<(Seq<u8>, Seq<(Seq<char>, Seq<char>)>)>,
    now: u64,
) -> (Map<Seq<u8>, ProfileView>, Seq<Seq<u8>>)
    decreases entries.len(),
{
    if entries.len() == 0 {
        (profiles, Seq::empty())
    } else {
        let a = entries[0].0;
        let rest = entries.drop_first();
        if profiles.contains_key(a) {
            let (m, skipped) = batch_apply(profiles, rest, now);
            (m, seq![a] + skipped)
        } else {
            batch_apply(profiles.insert(a, new_profile(a, Role::Issuer, now, entries[0].1)), rest, now)
        }
    }
}

/// The state of the registry contract.
pub struct RegistryContract {
    pub admin: Option<Address>,
    pub profiles: Table<Address, Profile>,
}

impl RegistryContract {
    /// The profiles, each taken by its view.
    pub open spec fn profile_views(&self) -> Map<Seq<u8>, ProfileView> {
        self.profiles@.map_values(|p: Profile| p@)
    }

    /// Whether `a` is registered with a verified profile.
    pub open spec fn verified(&self, a: Seq<u8>) -> bool {
        self.profile_views().contains_key(a) && self.profile_views()[a].verified
    }

    /// The verification status of `a`.
    pub open spec fn status(&self, a: Seq<u8>) -> VerificationStatus {
        if !self.profile_views().contains_key(a) {
            VerificationStatus::Unregistered
        } else if self.profile_views()[a].verified {
            VerificationStatus::Verified
        } else {
            VerificationStatus::Revoked
        }
    }

    /// The consistency the contract keeps: each profile is stored under its
    /// own address, and no metadata key occurs twice in a profile.
    pub open spec fn wf(&self) -> bool {
        &&& self.profiles.wf()
        &&& forall|k: Seq<u8>| #[trigger]
            self.profiles@.contains_key(k) ==> self.profiles@[k].address@ == k
                && keys_distinct(metadata_view(self.profiles@[k].metadata@))
    }

    /// A registry that has not been initialized.
    pub fn new() -> (r: Self)
        ensures
            r.wf(),
            r.admin is None,
            r.profiles@ == Map::<Seq<u8>, Profile>::empty(),
            r.profile_views() == Map::<Seq<u8>, ProfileView>::empty(),
    {
        let r = RegistryContract { admin: None, profiles: Table::new() };
        assert(r.profile_views() =~= Map::<Seq<u8>, ProfileView>::empty());
        r
    }

    /// Records the admin.
    pub fn initialize(&mut self, ctx: &CallContext, admin: Address) -> (r: Result<(), RegistryError>)
        requires
            old(self).wf(),
        ensures
            final(self).wf(),
            old(self).admin is Some ==> r == Err::<(), RegistryError>(RegistryError::AlreadyInitialized),
            old(self).admin is None && !ctx.authorized(admin@) ==> r == Err::<(), RegistryError>(
                RegistryError::Unauthorized,
            ),
            old(self).admin is None && ctx.authorized(admin@) ==> (r is Ok),
            r is Err ==> *final(self) == *old(self),
            r is Ok ==> {
                &&& final(self).admin matches Some(a) && a@ == admin@
                &&& final(self).profiles == old(self).profiles
            },
    {
        if self.admin.is_some() {
            return Err(RegistryError::AlreadyInitialized);
        }
        if !ctx.has_signed(&admin) {
            return Err(RegistryError::Unauthorized);
        }
        self.admin = Some(admin);
        Ok(())
    }

    /// What registering `address` meets: the failure, if any.
    pub open spec fn register_outcome(&self, ctx: &CallContext, address: Seq<u8>) -> Result<(), RegistryError> {
        if !ctx.authorized(address) {
            Err(RegistryError::Unauthorized)
        } else if self.profile_views().contains_key(address) {
            Err(RegistryError::AlreadyRegistered)
        } else {
            Ok(())
        }
    }

    fn register(&mut self, ctx: &CallContext, address: Address, role: Role, metadata: Metadata) -> (r: Result<
        (),
        RegistryError,
    >)
        requires
            old(self).wf(),
            keys_distinct(metadata_view(metadata@)),
        ensures
            final(self).wf(),
            r == old(self).register_outcome(ctx, address@),
            r is Err ==> *final(self) == *old(self),
            r is Ok ==> {
                &&& final(self).profile_views() == old(self).profile_views().insert(
                    address@,
                    new_profile(address@, role, ctx.now, metadata_view(metadata@)),
                )
                &&& final(self).admin == old(self).admin
            },
    {
        if !ctx.has_signed(&address) {
            return Err(RegistryError::Unauthorized);
        }
        if self.profiles.contains(&address) {
            return Err(RegistryError::AlreadyRegistered);
        }
        let key = address.duplicate();
        let profile = Profile { address, role, verified: true, registered_at: ctx.now, metadata };
        let ghost v = profile@;
        self.profiles.insert(key, profile);
        proof {
            assert(self.profile_views() =~= old(self).profile_views().insert(key@, v));
        }
        Ok(())
    }

    /// Registers `address`, which must authorize the call, as a verified
    /// issuer with `metadata`. An address registers once.
    pub fn register_issuer(&mut self, ctx: &CallContext, address: Address, metadata: Metadata) -> (r:
        Result<(), RegistryError>)
        requires
            old(self).wf(),
            keys_distinct(metadata_view(metadata@)),
        ensures
            final(self).wf(),
            r == old(self).register_outcome(ctx, address@),
            r is Err ==> *final(self) == *old(self),
            r is Ok ==> {
                &&& final(self).profile_views() == old(self).profile_views().insert(
                    address@,
                    new_profile(address@, Role::Issuer, ctx.now, metadata_view(metadata@)),
                )
                &&& final(self).admin == old(self).admin
                &&& final(self).verified(address@)
                &&& final(self).status(address@) == VerificationStatus::Verified
            },
    {
        self.register(ctx, address, Role::Issuer, metadata)
    }

    /// Registers `address`, which must authorize the call, as a verified
    /// buyer with `metadata`. An address registers once.
    pub fn register_buyer(&mut self, ctx: &CallContext, address: Address, metadata: Metadata) -> (r:
        Result<(), RegistryError>)
        requires
            old(self).wf(),
            keys_distinct(metadata_view(metadata@)),
        ensures
            final(self).wf(),
            r == old(self).register_outcome(ctx, address@),
            r is Err ==> *final(self) == *old(self),
            r is Ok ==> {
                &&& final(self).profile_views() == old(self).profile_views().insert(
                    address@,
                    new_profile(address@, Role::Buyer, ctx.now, metadata_view(metadata@)),
                )
                &&& final(self).admin == old(self).admin
                &&& final(self).verified(address@)
                &&& final(self).status(address@) == VerificationStatus::Verified
            },
    {
        self.register(ctx, address, Role::Buyer, metadata)
    }

    /// What an admin-only call meets before it acts.
    pub open spec fn admin_outcome(&self, ctx: &CallContext) -> Result<(), RegistryError> {
        if self.admin is None {
            Err(RegistryError::NotFound)
        } else if !ctx.authorized(self.admin->0@) {
            Err(RegistryError::Unauthorized)
        } else {
            Ok(())
        }
    }

    fn check_admin(&self, ctx: &CallContext) -> (r: Result<(), RegistryError>)
        ensures
            r == self.admin_outcome(ctx),
    {
        match &self.admin {
            Some(a) => {
                if ctx.has_signed(a) {
                    Ok(())
                } else {
                    Err(RegistryError::Unauthorized)
                }
            },
            None => Err(RegistryError::NotFound),
        }
    }

    /// Registers each entry as a verified issuer, in order, skipping the
    /// addresses registered already. At most the batch limit of entries.
    /// Admin only. Returns the skipped addresses, in order.
    pub fn batch_register_issuers(&mut self, ctx: &CallContext, entries: Vec<(Address, Metadata)>) -> (r:
        Result<Vec<Address>, RegistryError>)
        requires
            old(self).wf(),
            entries_keys_distinct(entries@),
        ensures
            final(self).wf(),
            entries@.len() > MAX_BATCH_SIZE ==> r == Err::<Vec<Address>, RegistryError>(
                RegistryError::BatchSizeExceeded,
            ),
            entries@.len() <= MAX_BATCH_SIZE ==> match r {
                Ok(_) => old(self).admin_outcome(ctx) is Ok,
                Err(e) => old(self).admin_outcome(ctx) == Err::<(), RegistryError>(e),
            },
            r is Err ==> *final(self) == *old(self),
            r matches Ok(skipped) ==> {
                let (m, sk) = batch_apply(old(self).profile_views(), entries_view(entries@), ctx.now);
                &&& final(self).profile_views() == m
                &&& skipped@.map_values(|a: Address| a@) == sk
                &&& final(self).admin == old(self).admin
            },
    {
        if entries.len() > MAX_BATCH_SIZE {
            return Err(RegistryError::BatchSizeExceeded);
        }
        self.check_admin(ctx)?;
        let ghost goal = batch_apply(old(self).profile_views(), entries_view(entries@), ctx.now);
        let mut rest = entries;
        let mut skipped: Vec<Address> = Vec::new();
        while rest.len() > 0
            invariant
                self.wf(),
                entries_keys_distinct(rest@),
                self.admin == old(self).admin,
                goal.0 == batch_apply(self.profile_views(), entries_view(rest@), ctx.now).0,
                goal.1 == skipped@.map_values(|a: Address| a@) + batch_apply(
                    self.profile_views(),
                    entries_view(rest@),
                    ctx.now,
                ).1,
            decreases rest@.len(),
        {
            let ghost before = self.profile_views();
            let ghost rem = entries_view(rest@);
            let ghost prev_skipped = skipped@.map_values(|a: Address| a@);
            let (address, metadata) = rest.remove(0);
            proof {
                assert(entries_view(rest@) =~= rem.drop_first());
            }
            if self.profiles.contains(&address) {
                skipped.push(address);
                proof {
                    assert(skipped@.map_values(|a: Address| a@) =~= prev_skipped.push(rem[0].0));
                    let (m, sk) = batch_apply(before, rem.drop_first(), ctx.now);
                    assert(prev_skipped + (seq![rem[0].0] + sk) =~= prev_skipped.push(rem[0].0) + sk);
                }
            } else {
                let key = address.duplicate();
                let profile = Profile {
                    address,
                    role: Role::Issuer,
                    verified: true,
                    registered_at: ctx.now,
                    metadata,
                };
                let ghost v = profile@;
                self.profiles.insert(key, profile);
                proof {
                    assert(self.profile_views() =~= before.insert(rem[0].0, v));
                }
            }
        }
        proof {
            assert(entries_view(rest@) =~= Seq::<(Seq<u8>, Seq<(Seq<char>, Seq<char>)>)>::empty());
            assert(skipped@.map_values(|a: Address| a@) + Seq::<Seq<u8>>::empty() =~= skipped@.map_values(
                |a: Address| a@,
            ));
        }
        Ok(skipped)
    }

    /// What a change to the profile of `address` by its holder meets: the failure, if any.
    pub open spec fn update_outcome(&self, ctx: &CallContext, address: Seq<u8>) -> Result<(), RegistryError> {
        if !ctx.authorized(address) {
            Err(RegistryError::Unauthorized)
        } else if !self.profile_views().contains_key(address) {
            Err(RegistryError::NotFound)
        } else {
            Ok(())
        }
    }

    /// Replaces the metadata of the registered `address`, which must
    /// authorize the call.
    pub fn update_metadata(&mut self, ctx: &CallContext, address: &Address, metadata: Metadata) -> (r:
        Result<(), RegistryError>)
        requires
            old(self).wf(),
            keys_distinct(metadata_view(metadata@)),
        ensures
            final(self).wf(),
            r == old(self).update_outcome(ctx, address@),
            r is Err ==> *final(self) == *old(self),
            r is Ok ==> {
                &&& final(self).profile_views() == old(self).profile_views().insert(
                    address@,
                    ProfileView {
                        metadata: metadata_view(metadata@),
                        ..old(self).profile_views()[address@]
                    },
                )
                &&& final(self).admin == old(self).admin
            },
    {
        if !ctx.has_signed(address) {
            return Err(RegistryError::Unauthorized);
        }
        let mut profile = match self.profiles.remove(address) {
            Some(p) => p,
            None => {
                return Err(RegistryError::NotFound);
            },
        };
        profile.metadata = metadata;
        let ghost v = profile@;
        self.profiles.insert(address.duplicate(), profile);
        proof {
            assert(self.profile_views() =~= old(self).profile_views().insert(address@, v));
        }
        Ok(())
    }

    /// What setting the verification of `address` by the admin meets: the failure, if any.
    pub open spec fn verify_outcome(&self, ctx: &CallContext, address: Seq<u8>) -> Result<(), RegistryError> {
        if self.admin_outcome(ctx) is Err {
            self.admin_outcome(ctx)
        } else if !self.profile_views().contains_key(address) {
            Err(RegistryError::NotFound)
        } else {
            Ok(())
        }
    }

    /// Marks the profile of `address` verified or not. Admin only.
    pub fn verify_profile(&mut self, ctx: &CallContext, address: &Address, verify: bool) -> (r: Result<
        (),
        RegistryError,
    >)
        requires
            old(self).wf(),
        ensures
            final(self).wf(),
            r == old(self).verify_outcome(ctx, address@),
            r is Err ==> *final(self) == *old(self),
            r is Ok ==> {
                &&& final(self).profile_views() == old(self).profile_views().insert(
                    address@,
                    ProfileView { verified: verify, ..old(self).profile_views()[address@] },
                )
                &&& final(self).admin == old(self).admin
                &&& final(self).verified(address@) == verify
                &&& final(self).status(address@) == if verify {
                    VerificationStatus::Verified
                } else {
                    VerificationStatus::Revoked
                }
                &&& forall|k: Seq<u8>| k != address@ ==> #[trigger] final(self).status(k) == old(self).status(k)
            },
    {
        self.check_admin(ctx)?;
        let mut profile = match self.profiles.remove(address) {
            Some(p) => p,
            None => {
                return Err(RegistryError::NotFound);
            },
        };
        profile.verified = verify;
        let ghost v = profile@;
        self.profiles.insert(address.duplicate(), profile);
        proof {
            assert(self.profile_views() =~= old(self).profile_views().insert(address@, v));
        }
        Ok(())
    }

    /// Marks the profile of `address` no longer verified. Admin only.
    pub fn revoke(&mut self, ctx: &CallContext, address: &Address) -> (r: Result<(), RegistryError>)
        requires
            old(self).wf(),
        ensures
            final(self).wf(),
            r == old(self).verify_outcome(ctx, address@),
            r is Err ==> *final(self) == *old(self),
            r is Ok ==> {
                &&& final(self).profile_views() == old(self).profile_views().insert(
                    address@,
                    ProfileView { verified: false, ..old(self).profile_views()[address@] },
                )
                &&& final(self).admin == old(self).admin
                &&& !final(self).verified(address@)
                &&& final(self).status(address@) == VerificationStatus::Revoked
                &&& forall|k: Seq<u8>| k != address@ ==> #[trigger] final(self).status(k) == old(self).status(k)
            },
    {
        self.verify_profile(ctx, address, false)
    }

    /// The profile of `address`.
    pub fn get_profile(&self, address: &Address) -> (r: Result<&Profile, RegistryError>)
        requires
            self.wf(),
        ensures
            match r {
                Ok(p) => self.profile_views().contains_key(address@) && p@ == self.profile_views()[address@],
                Err(e) => !self.profile_views().contains_key(address@) && e == RegistryError::NotFound,
            },
    {
        match self.profiles.get(address) {
            Some(p) => Ok(p),
            None => Err(RegistryError::NotFound),
        }
    }

    /// Whether `address` is registered with a verified profile.
    pub fn is_verified(&self, address: &Address) -> (r: bool)
        requires
            self.wf(),
        ensures
            r == self.verified(address@),
    {
        match self.profiles.get(address) {
            Some(p) => p.verified,
            None => false,
        }
    }

    /// Whether `address` is unregistered, verified, or registered but not verified.
    pub fn get_verification_status(&self, address: &Address) -> (r: VerificationStatus)
        requires
            self.wf(),
        ensures
            r == self.status(address@),
    {
        match self.profiles.get(address) {
            None => VerificationStatus::Unregistered,
            Some(p) => {
                if p.verified {
                    VerificationStatus::Verified
                } else {
                    VerificationStatus::Revoked
                }
            },
        }
    }

    /// The admin.
    pub fn get_admin(&self) -> (r: Result<&Address, RegistryError>)
        ensures
            match r {
                Ok(a) => self.admin matches Some(x) && a@ == x@,
                Err(e) => self.admin is None && e == RegistryError::NotFound,
            },
    {
        match &self.admin {
            Some(a) => Ok(a),
            None => Err(RegistryError::NotFound),
        }
    }

    /// What handing the admin role to `new_admin` meets: the failure, if any.
    pub open spec fn transfer_outcome(&self, ctx: &CallContext, new_admin: Seq<u8>) -> Result<(), RegistryError> {
        if self.admin_outcome(ctx) is Err {
            self.admin_outcome(ctx)
        } else if !ctx.authorized(new_admin) {
            Err(RegistryError::Unauthorized)
        } else {
            Ok(())
        }
    }

    /// Hands the admin role to `new_admin`. Both the admin and `new_admin`
    /// must authorize the call.
    pub fn transfer_ownership(&mut self, ctx: &CallContext, new_admin: Address) -> (r: Result<
        (),
        RegistryError,
    >)
        requires
            old(self).wf(),
        ensures
            final(self).wf(),
            r == old(self).transfer_outcome(ctx, new_admin@),
            r is Err ==> *final(self) == *old(self),
            r is Ok ==> {
                &&& final(self).admin matches Some(a) && a@ == new_admin@
                &&& final(self).profiles == old(self).profiles
            },
    {
        self.check_admin(ctx)?;
        if !ctx.has_signed(&new_admin) {
            return Err(RegistryError::Unauthorized);
        }
        self.admin = Some(new_admin);
        Ok(())
    }

    /// An address is verified exactly when its status is verified; in
    /// particular an unregistered address is never verified.
    pub proof fn lemma_verified_matches_status(&self, a: Seq<u8>)
        ensures
            self.verified(a) <==> self.status(a) == VerificationStatus::Verified,
            self.status(a) == VerificationStatus::Unregistered ==> !self.verified(a),
    {
    }
}


/// A batch registers every address it names: after it, each entry's
/// address has a profile, and profiles that existed before are left as
/// they were.
pub proof fn lemma_batch_registers_every_entry(
    profiles: Map<Seq<u8>, ProfileView>,
    entries: Seq<(Seq<u8>, Seq<(Seq<char>, Seq<char>)>)>,
    now: u64,
)
    ensures
        forall|i: int|
            0 <= i < entries.len() ==> #[trigger] batch_apply(profiles, entries, now).0.contains_key(
                entries[i].0,
            ),
        forall|k: Seq<u8>|
            #[trigger] profiles.contains_key(k) ==> batch_apply(profiles, entries, now).0.contains_key(k)
                && batch_apply(profiles, entries, now).0[k] == profiles[k],
    decreases entries.len(),
{
    if entries.len() > 0 {
        let a = entries[0].0;
        let rest = entries.drop_first();
        if profiles.contains_key(a) {
            lemma_batch_registers_every_entry(profiles, rest, now);
            let (m, sk) = batch_apply(profiles, rest, now);
            assert forall|i: int| 0 <= i < entries.len() implies #[trigger] batch_apply(
                profiles,
                entries,
                now,
            ).0.contains_key(entries[i].0) by {
                if i > 0 {
                    assert(entries[i] == rest[i - 1]);
                }
            }
        } else {
            let m1 = profiles.insert(a, new_profile(a, Role::Issuer, now, entries[0].1));
            lemma_batch_registers_every_entry(m1, rest, now);
            assert(batch_apply(profiles, entries, now) == batch_apply(m1, rest, now));
            assert forall|i: int| 0 <= i < entries.len() implies #[trigger] batch_apply(
                profiles,
                entries,
                now,
            ).0.contains_key(entries[i].0) by {
                if i > 0 {
                    assert(entries[i] == rest[i - 1]);
                } else {
                    assert(m1.contains_key(a));
                }
            }
            assert forall|k: Seq<u8>| #[trigger] profiles.contains_key(k) implies batch_apply(
                profiles,
                entries,
                now,
            ).0.contains_key(k) && batch_apply(profiles, entries, now).0[k] == profiles[k] by {
                assert(m1.contains_key(k) && m1[k] == profiles[k]);
            }
        }
    }
}

} // verus!
