//! The four contracts deployed side by side on one ledger, with the token
//! of the pool's asset. An invocation that crosses contracts runs here as
//! one transaction: it completes every call it makes, or changes nothing.

use vstd::prelude::*;
use crate::ledger::{Address, CallContext, InvoiceId};
use crate::registry::{keys_distinct, metadata_view, new_profile, Metadata, RegistryContract, RegistryError, Role};
use crate::invoice::{
    id_preimage, opt_view, sha256_digest, InvoiceContract, InvoiceError, InvoiceStatus, InvoiceView,
};
use crate::escrow::{EscrowContract, EscrowError, EscrowRecord};
use crate::pool::{pro_rata, InvoiceTerms, LpAccount, PoolContract, PoolError};
use crate::token::{MockToken, TokenError};

verus! {

/// The failure of an invocation, by the contract that refused it.
#[derive(PartialEq, Eq, Structural, Clone, Copy, Debug)]
pub enum ProtocolError {
    Registry(RegistryError),
    Invoice(InvoiceError),
    Escrow(EscrowError),
    Pool(PoolError),
    Token(TokenError),
}

/// Whether an invoice in `status` has a funding outstanding: funded, and
/// neither repaid nor in default.
pub open spec fn in_flight(status: InvoiceStatus) -> bool {
    status == InvoiceStatus::Funded || status == InvoiceStatus::Active || status
        == InvoiceStatus::Confirmed
}

/// The contracts, their addresses, and the token of the pool's asset.
pub struct Protocol {
    pub registry_address: Address,
    pub invoice_address: Address,
    pub escrow_address: Address,
    pub pool_address: Address,
    pub usdc_address: Address,
    pub registry: RegistryContract,
    pub invoices: InvoiceContract,
    pub escrow: EscrowContract,
    pub pool: PoolContract,
    pub usdc: MockToken,
}

impl Protocol {
    /// Whether `a` is the address of the pool or of the escrow, the two
    /// contracts that hold the asset.
    pub open spec fn is_vault(&self, a: Seq<u8>) -> bool {
        a == self.pool_address@ || a == self.escrow_address@
    }

    /// Each contract knows the others by their addresses, and all have been
    /// initialized with the same asset.
    pub open spec fn wired(&self) -> bool {
        &&& self.registry_address@ != self.invoice_address@
        &&& self.registry_address@ != self.escrow_address@
        &&& self.registry_address@ != self.pool_address@
        &&& self.invoice_address@ != self.escrow_address@
        &&& self.invoice_address@ != self.pool_address@
        &&& self.escrow_address@ != self.pool_address@
        &&& self.invoices.admin is Some
        &&& opt_view(self.invoices.registry_contract) == Some(self.registry_address@)
        &&& opt_view(self.invoices.pool_contract) == Some(self.pool_address@)
        &&& self.pool.admin is Some
        &&& opt_view(self.pool.invoice_contract) == Some(self.invoice_address@)
        &&& opt_view(self.pool.escrow_contract) == Some(self.escrow_address@)
        &&& opt_view(self.pool.usdc_asset) == Some(self.usdc_address@)
        &&& self.escrow.admin is Some
        &&& opt_view(self.escrow.pool_contract) == Some(self.pool_address@)
        &&& opt_view(self.escrow.usdc_asset) == Some(self.usdc_address@)
    }

    /// Every funding the pool has outstanding is held in escrow for the same
    /// amount, and belongs to an invoice funded by this pool in its asset,
    /// for at most its face value, and not yet repaid or in default; every
    /// such invoice is one the pool has outstanding; and the escrow holds
    /// only for invoices that are funded or were repaid.
    pub open spec fn fundings_consistent(&self) -> bool {
        let views = self.invoices.invoice_views();
        &&& forall|id: Seq<u8>| #[trigger]
            self.pool.funded@.contains_key(id) ==> {
                &&& self.escrow.records@.contains_key(id)
                &&& self.escrow.records@[id].amount == self.pool.funded@[id]
                &&& self.invoices.invoices@.contains_key(id)
                &&& in_flight(views[id].status)
                &&& views[id].funding_pool == Some(self.pool_address@)
                &&& views[id].funding_asset == self.usdc_address@
                &&& views[id].funded_amount == self.pool.funded@[id]
                &&& self.pool.funded@[id] <= views[id].face_value
            }
        &&& forall|id: Seq<u8>| #[trigger]
            self.invoices.invoices@.contains_key(id) && in_flight(views[id].status)
                ==> self.pool.funded@.contains_key(id)
        &&& forall|id: Seq<u8>| #[trigger]
            self.escrow.records@.contains_key(id) ==> self.invoices.invoices@.contains_key(id) && (
            in_flight(views[id].status) || views[id].status == InvoiceStatus::Repaid)
    }

    /// The pool holds at least its free liquidity, and the escrow holds
    /// exactly what its records say.
    pub open spec fn balances_cover(&self) -> bool {
        &&& self.usdc.balance_of(self.pool_address@) >= self.pool.available()
        &&& self.usdc.balance_of(self.escrow_address@) == self.escrow.held()
    }

    /// Whether invoice `id` has funds committed to it: it is funded and
    /// outstanding, or it was repaid.
    pub open spec fn committed(&self, id: Seq<u8>) -> bool {
        &&& self.invoices.invoices@.contains_key(id)
        &&& (in_flight(self.invoices.invoice_views()[id].status)
            || self.invoices.invoice_views()[id].status == InvoiceStatus::Repaid)
    }

    /// The consistency the deployment keeps.
    pub open spec fn wf(&self) -> bool {
        &&& self.registry.wf()
        &&& self.invoices.wf()
        &&& self.escrow.wf()
        &&& self.pool.wf()
        &&& self.usdc.wf()
        &&& self.wired()
        &&& self.fundings_consistent()
        &&& self.balances_cover()
    }

    /// Deploys the four contracts at the given addresses, with nobody
    /// holding any of the asset, and initializes them with `admin`, who must
    /// authorize the call, and with each other: the invoice contract
    /// consults the registry and is funded by the pool, and the pool locks
    /// its fundings in the escrow.
    pub fn deploy(
        ctx: &CallContext,
        admin: Address,
        registry_address: Address,
        invoice_address: Address,
        escrow_address: Address,
        pool_address: Address,
        usdc_address: Address,
    ) -> (r: Result<Protocol, ProtocolError>)
        requires
            registry_address@ != invoice_address@,
            registry_address@ != escrow_address@,
            registry_address@ != pool_address@,
            invoice_address@ != escrow_address@,
            invoice_address@ != pool_address@,
            escrow_address@ != pool_address@,
        ensures
            (r is Ok) == ctx.authorized(admin@),
            r is Err ==> r == Err::<Protocol, ProtocolError>(ProtocolError::Registry(RegistryError::Unauthorized)),
            r matches Ok(p) ==> {
                &&& p.wf()
                &&& p.registry_address@ == registry_address@
                &&& p.invoice_address@ == invoice_address@
                &&& p.escrow_address@ == escrow_address@
                &&& p.pool_address@ == pool_address@
                &&& p.usdc_address@ == usdc_address@
                &&& opt_view(p.registry.admin) == Some(admin@)
                &&& opt_view(p.invoices.admin) == Some(admin@)
                &&& opt_view(p.escrow.admin) == Some(admin@)
                &&& opt_view(p.pool.admin) == Some(admin@)
                &&& p.registry.profile_views() == Map::<Seq<u8>, crate::registry::ProfileView>::empty()
                &&& p.invoices.invoice_views() == Map::<Seq<u8>, InvoiceView>::empty()
                &&& p.escrow.records@ == Map::<Seq<u8>, EscrowRecord>::empty()
                &&& p.pool.lps@ == Map::<Seq<u8>, LpAccount>::empty()
                &&& p.pool.funded@ == Map::<Seq<u8>, u128>::empty()
                &&& p.pool.total_deposits == 0
                &&& p.pool.total_shares == 0
                &&& forall|a: Seq<u8>| p.usdc.balance_of(a) == 0
            },
    {
        let mut registry = RegistryContract::new();
        match registry.initialize(ctx, admin.duplicate()) {
            Ok(()) => {},
            Err(e) => {
                return Err(ProtocolError::Registry(e));
            },
        }
        let mut invoices = InvoiceContract::new();
        let _ = invoices.initialize(ctx, admin.duplicate(), registry_address.duplicate());
        let _ = invoices.set_pool_contract(ctx, pool_address.duplicate());
        let mut pool = PoolContract::new();
        let _ = pool.initialize(
            ctx,
            admin.duplicate(),
            invoice_address.duplicate(),
            escrow_address.duplicate(),
            usdc_address.duplicate(),
        );
        let mut escrow = EscrowContract::new();
        let ghost fresh = escrow;
        let _ = escrow.initialize(
            ctx,
            admin,
            pool_address.duplicate(),
            invoice_address.duplicate(),
            usdc_address.duplicate(),
        );
        let usdc = MockToken::new();
        let p = Protocol {
            registry_address,
            invoice_address,
            escrow_address,
            pool_address,
            usdc_address,
            registry,
            invoices,
            escrow,
            pool,
            usdc,
        };
        proof {
            assert forall|k: Seq<u8>| !p.escrow.records@.contains_key(k) by {
                assert(fresh.locked(k) == 0);
                assert(p.escrow.records == fresh.records);
            }
            p.escrow.records.lemma_len();
            assert(p.escrow.records@ =~= Map::<Seq<u8>, EscrowRecord>::empty());
            assert(p.escrow.records.entries@.len() == 0);
            assert(p.escrow.held() == 0);
            assert(p.invoices.invoice_views() == Map::<Seq<u8>, InvoiceView>::empty());
            assert(p.fundings_consistent());
        }
        Ok(p)
    }

    /// A step of the invoice contract alone keeps the deployment consistent
    /// when it writes one invoice `v` under `id`, keeping its funding terms,
    /// and neither takes it into or out of flight nor makes it repaid; or,
    /// for a new identifier, writes an invoice neither in flight nor repaid.
    proof fn lemma_invoice_step(old_p: Protocol, new_p: Protocol, id: Seq<u8>, v: InvoiceView)
        requires
            old_p.wf(),
            new_p.invoices.wf(),
            new_p == (Protocol { invoices: new_p.invoices, ..old_p }),
            new_p.invoices.admin == old_p.invoices.admin,
            new_p.invoices.registry_contract == old_p.invoices.registry_contract,
            new_p.invoices.pool_contract == old_p.invoices.pool_contract,
            new_p.invoices.invoice_views() == old_p.invoices.invoice_views().insert(id, v),
            old_p.committed(id) ==> {
                let before = old_p.invoices.invoice_views()[id];
                &&& v.funding_pool == before.funding_pool
                &&& v.funding_asset == before.funding_asset
                &&& v.funded_amount == before.funded_amount
                &&& v.face_value == before.face_value
                &&& in_flight(v.status) == in_flight(before.status)
                &&& (v.status == InvoiceStatus::Repaid) == (before.status == InvoiceStatus::Repaid)
            },
            !old_p.committed(id) ==> !in_flight(v.status) && v.status != InvoiceStatus::Repaid,
        ensures
            new_p.wf(),
    {
        let ov = old_p.invoices.invoice_views();
        let nv = new_p.invoices.invoice_views();
        assert(new_p.invoices.invoices@.dom() == nv.dom());
        assert(old_p.invoices.invoices@.dom() == ov.dom());
        assert forall|k: Seq<u8>| #[trigger] new_p.pool.funded@.contains_key(k) implies {
            &&& new_p.escrow.records@.contains_key(k)
            &&& new_p.escrow.records@[k].amount == new_p.pool.funded@[k]
            &&& new_p.invoices.invoices@.contains_key(k)
            &&& in_flight(nv[k].status)
            &&& nv[k].funding_pool == Some(new_p.pool_address@)
            &&& nv[k].funding_asset == new_p.usdc_address@
            &&& nv[k].funded_amount == new_p.pool.funded@[k]
            &&& new_p.pool.funded@[k] <= nv[k].face_value
        } by {
            assert(old_p.pool.funded@.contains_key(k));
            assert(ov.contains_key(k));
        }
        assert forall|k: Seq<u8>| #[trigger]
            new_p.invoices.invoices@.contains_key(k) && in_flight(nv[k].status) implies new_p.pool.funded@.contains_key(
            k,
        ) by {
            if k == id {
                assert(old_p.invoices.invoices@.contains_key(k));
            } else {
                assert(ov.contains_key(k));
                assert(old_p.invoices.invoices@.contains_key(k));
            }
        }
        assert forall|k: Seq<u8>| #[trigger] new_p.escrow.records@.contains_key(k) implies new_p.invoices.invoices@.contains_key(
            k,
        ) && (in_flight(nv[k].status) || nv[k].status == InvoiceStatus::Repaid) by {
            assert(old_p.escrow.records@.contains_key(k));
            assert(old_p.invoices.invoices@.contains_key(k));
        }
        assert(new_p.fundings_consistent());
    }

    /// Whatever the registry does, within its own consistency, leaves the
    /// rest of the deployment consistent.
    pub proof fn lemma_registry_step(old_p: Protocol, new_p: Protocol)
        requires
            old_p.wf(),
            new_p.registry.wf(),
            new_p == (Protocol { registry: new_p.registry, ..old_p }),
        ensures
            new_p.wf(),
    {
    }

    /// Registers `address`, which must authorize the call, as a verified issuer.
    pub fn register_issuer(&mut self, ctx: &CallContext, address: Address, metadata: Metadata) -> (r:
        Result<(), RegistryError>)
        requires
            old(self).wf(),
            keys_distinct(metadata_view(metadata@)),
        ensures
            final(self).wf(),
            r == old(self).registry.register_outcome(ctx, address@),
            r is Err ==> *final(self) == *old(self),
            r is Ok ==> {
                &&& final(self).registry.profile_views() == old(self).registry.profile_views().insert(
                    address@,
                    new_profile(address@, Role::Issuer, ctx.now, metadata_view(metadata@)),
                )
                &&& final(self).registry.admin == old(self).registry.admin
                &&& final(self).registry.verified(address@)
            },
            *final(self) == (Protocol { registry: final(self).registry, ..*old(self) }),
    {
        self.registry.register_issuer(ctx, address, metadata)
    }

    /// Registers `address`, which must authorize the call, as a verified buyer.
    pub fn register_buyer(&mut self, ctx: &CallContext, address: Address, metadata: Metadata) -> (r:
        Result<(), RegistryError>)
        requires
            old(self).wf(),
            keys_distinct(metadata_view(metadata@)),
        ensures
            final(self).wf(),
            r == old(self).registry.register_outcome(ctx, address@),
            r is Err ==> *final(self) == *old(self),
            r is Ok ==> {
                &&& final(self).registry.profile_views() == old(self).registry.profile_views().insert(
                    address@,
                    new_profile(address@, Role::Buyer, ctx.now, metadata_view(metadata@)),
                )
                &&& final(self).registry.admin == old(self).registry.admin
                &&& final(self).registry.verified(address@)
            },
            *final(self) == (Protocol { registry: final(self).registry, ..*old(self) }),
    {
        self.registry.register_buyer(ctx, address, metadata)
    }

    /// Lets `asset` fund new invoices. The admin must authorize the call.
    pub fn add_supported_asset(&mut self, ctx: &CallContext, asset: Address) -> (r: Result<
        (),
        InvoiceError,
    >)
        requires
            old(self).wf(),
        ensures
            final(self).wf(),
            r == old(self).invoices.admin_outcome(ctx),
            r is Err ==> *final(self) == *old(self),
            r is Ok ==> {
                &&& final(self).invoices.supported_assets@.dom() == old(self).invoices.supported_assets@.dom().insert(
                    asset@,
                )
                &&& final(self).invoices == (InvoiceContract {
                    supported_assets: final(self).invoices.supported_assets,
                    ..old(self).invoices
                })
            },
            *final(self) == (Protocol { invoices: final(self).invoices, ..*old(self) }),
    {
        self.invoices.add_supported_asset(ctx, asset)
    }

    /// Creates an invoice of `issuer`, who must authorize the call, on
    /// `buyer`, once the registry has answered whether each is verified.
    /// The new invoice takes the place of any invoice its identifier names
    /// already; the deployment stays consistent unless that invoice had funds
    /// committed to it.
    pub fn create_invoice(
        &mut self,
        env: &soroban_sdk::Env,
        ctx: &CallContext,
        issuer: Address,
        buyer: Address,
        face_value: u128,
        due_date: u64,
        funding_asset: Address,
    ) -> (r: Result<InvoiceId, InvoiceError>)
        requires
            old(self).wf(),
        ensures
            !(r matches Ok(id) && old(self).committed(id@)) ==> final(self).wf(),
            ({
                let outcome = old(self).invoices.create_outcome(
                    ctx,
                    issuer@,
                    buyer@,
                    face_value,
                    due_date,
                    funding_asset@,
                    old(self).registry.verified(issuer@),
                    old(self).registry.verified(buyer@),
                );
                match r {
                    Ok(id) => {
                        &&& outcome == Ok::<(), InvoiceError>(())
                        &&& id@ == sha256_digest(
                            id_preimage(
                                issuer@,
                                buyer@,
                                face_value,
                                due_date,
                                old(self).invoices.counter->0,
                                funding_asset@,
                            ),
                        )
                        &&& final(self).invoices.invoice_views() == old(self).invoices.invoice_views().insert(
                            id@,
                            InvoiceView {
                                id: id@,
                                issuer: issuer@,
                                buyer: buyer@,
                                face_value,
                                discount_bps: 0,
                                funded_amount: 0,
                                due_date,
                                status: InvoiceStatus::Created,
                                created_at: ctx.now,
                                listed_at: None,
                                funded_at: None,
                                shipped_at: None,
                                issuer_confirmed: false,
                                buyer_confirmed: false,
                                repaid_amount: 0,
                                repaid_at: None,
                                funding_asset: funding_asset@,
                                funding_pool: None,
                            },
                        )
                        &&& final(self).invoices.counter == Some((old(self).invoices.counter->0 + 1) as u64)
                    },
                    Err(e) => outcome == Err::<(), InvoiceError>(e) && *final(self) == *old(self),
                }
            }),
            *final(self) == (Protocol { invoices: final(self).invoices, ..*old(self) }),
    {
        let ghost before = *self;
        let issuer_verified = self.registry.is_verified(&issuer);
        let buyer_verified = self.registry.is_verified(&buyer);
        let r = self.invoices.create(
            env,
            ctx,
            issuer,
            buyer,
            face_value,
            due_date,
            funding_asset,
            issuer_verified,
            buyer_verified,
        );
        proof {
            if let Ok(id) = r {
                if !before.committed(id@) {
                    Self::lemma_invoice_step(before, *self, id@, self.invoices.invoice_views()[id@]);
                }
            }
        }
        r
    }

    /// Lists a created invoice for financing at `discount_bps`. The issuer
    /// must authorize the call.
    pub fn list_for_financing(&mut self, ctx: &CallContext, invoice_id: &InvoiceId, discount_bps: u32) -> (r:
        Result<(), InvoiceError>)
        requires
            old(self).wf(),
        ensures
            final(self).wf(),
            r == old(self).invoices.list_outcome(ctx, invoice_id@, discount_bps),
            r is Err ==> *final(self) == *old(self),
            r is Ok ==> {
                let before = old(self).invoices.invoice_views()[invoice_id@];
                final(self).invoices.invoice_views() == old(self).invoices.invoice_views().insert(
                    invoice_id@,
                    InvoiceView {
                        status: InvoiceStatus::Listed,
                        discount_bps,
                        listed_at: Some(ctx.now),
                        ..before
                    },
                )
            },
            *final(self) == (Protocol { invoices: final(self).invoices, ..*old(self) }),
    {
        let ghost before = *self;
        let r = self.invoices.list_for_financing(ctx, invoice_id, discount_bps);
        proof {
            if r is Ok {
                Self::lemma_invoice_step(
                    before,
                    *self,
                    invoice_id@,
                    self.invoices.invoice_views()[invoice_id@],
                );
            }
        }
        r
    }

    /// Records the shipment of a funded invoice. The issuer must authorize the call.
    pub fn mark_shipped(&mut self, ctx: &CallContext, invoice_id: &InvoiceId) -> (r: Result<
        (),
        InvoiceError,
    >)
        requires
            old(self).wf(),
        ensures
            final(self).wf(),
            r == old(self).invoices.ship_outcome(ctx, invoice_id@),
            r is Err ==> *final(self) == *old(self),
            r is Ok ==> {
                let before = old(self).invoices.invoice_views()[invoice_id@];
                final(self).invoices.invoice_views() == old(self).invoices.invoice_views().insert(
                    invoice_id@,
                    InvoiceView { status: InvoiceStatus::Active, shipped_at: Some(ctx.now), ..before },
                )
            },
            *final(self) == (Protocol { invoices: final(self).invoices, ..*old(self) }),
    {
        let ghost before = *self;
        let r = self.invoices.mark_shipped(ctx, invoice_id);
        proof {
            if r is Ok {
                Self::lemma_invoice_step(
                    before,
                    *self,
                    invoice_id@,
                    self.invoices.invoice_views()[invoice_id@],
                );
            }
        }
        r
    }

    /// Records the confirmation of delivery by `confirmer`, the issuer or the
    /// buyer, who must authorize the call.
    pub fn confirm_delivery(&mut self, ctx: &CallContext, invoice_id: &InvoiceId, confirmer: &Address) -> (r:
        Result<(), InvoiceError>)
        requires
            old(self).wf(),
        ensures
            final(self).wf(),
            r == old(self).invoices.confirm_outcome(ctx, invoice_id@, confirmer@),
            r is Err ==> *final(self) == *old(self),
            r is Ok ==> {
                let before = old(self).invoices.invoice_views()[invoice_id@];
                let issuer_done = before.issuer_confirmed || confirmer@ == before.issuer;
                let buyer_done = before.buyer_confirmed || confirmer@ == before.buyer;
                final(self).invoices.invoice_views() == old(self).invoices.invoice_views().insert(
                    invoice_id@,
                    InvoiceView {
                        status: if issuer_done && buyer_done {
                            InvoiceStatus::Confirmed
                        } else {
                            InvoiceStatus::Active
                        },
                        issuer_confirmed: issuer_done,
                        buyer_confirmed: buyer_done,
                        ..before
                    },
                )
            },
            *final(self) == (Protocol { invoices: final(self).invoices, ..*old(self) }),
    {
        let ghost before = *self;
        let r = self.invoices.confirm_delivery(ctx, invoice_id, confirmer);
        proof {
            if r is Ok {
                Self::lemma_invoice_step(
                    before,
                    *self,
                    invoice_id@,
                    self.invoices.invoice_views()[invoice_id@],
                );
            }
        }
        r
    }

    /// Returns a confirmed invoice to active. Both parties, or else the
    /// admin, must authorize the call.
    pub fn unconfirm_delivery(&mut self, ctx: &CallContext, invoice_id: &InvoiceId) -> (r: Result<
        (),
        InvoiceError,
    >)
        requires
            old(self).wf(),
        ensures
            final(self).wf(),
            r == old(self).invoices.unconfirm_outcome(ctx, invoice_id@),
            r is Err ==> *final(self) == *old(self),
            r is Ok ==> {
                let before = old(self).invoices.invoice_views()[invoice_id@];
                final(self).invoices.invoice_views() == old(self).invoices.invoice_views().insert(
                    invoice_id@,
                    InvoiceView {
                        status: InvoiceStatus::Active,
                        issuer_confirmed: false,
                        buyer_confirmed: false,
                        ..before
                    },
                )
            },
            *final(self) == (Protocol { invoices: final(self).invoices, ..*old(self) }),
    {
        let ghost before = *self;
        let r = self.invoices.unconfirm_delivery(ctx, invoice_id);
        proof {
            if r is Ok {
                Self::lemma_invoice_step(
                    before,
                    *self,
                    invoice_id@,
                    self.invoices.invoice_views()[invoice_id@],
                );
            }
        }
        r
    }

    /// Expires a listing that stayed open past the expiry window. The issuer
    /// or the admin must authorize the call.
    pub fn expire_listing(&mut self, ctx: &CallContext, invoice_id: &InvoiceId) -> (r: Result<
        (),
        InvoiceError,
    >)
        requires
            old(self).wf(),
        ensures
            final(self).wf(),
            r == old(self).invoices.expire_outcome(ctx, invoice_id@),
            r is Err ==> *final(self) == *old(self),
            r is Ok ==> {
                let before = old(self).invoices.invoice_views()[invoice_id@];
                final(self).invoices.invoice_views() == old(self).invoices.invoice_views().insert(
                    invoice_id@,
                    InvoiceView { status: InvoiceStatus::Expired, ..before },
                )
            },
            *final(self) == (Protocol { invoices: final(self).invoices, ..*old(self) }),
    {
        let ghost before = *self;
        let r = self.invoices.expire_listing(ctx, invoice_id);
        proof {
            if r is Ok {
                Self::lemma_invoice_step(
                    before,
                    *self,
                    invoice_id@,
                    self.invoices.invoice_views()[invoice_id@],
                );
            }
        }
        r
    }

    /// Sets the pool's utilization cap. The call must carry the authorization of `admin`.
    pub fn set_max_utilization(&mut self, ctx: &CallContext, admin: &Address, new_cap_bps: u32) -> (r:
        Result<(), PoolError>)
        requires
            old(self).wf(),
        ensures
            final(self).wf(),
            !ctx.authorized(admin@) ==> r == Err::<(), PoolError>(PoolError::Unauthorized),
            ctx.authorized(admin@) && new_cap_bps > 10000 ==> r == Err::<(), PoolError>(
                PoolError::InvalidAmount,
            ),
            ctx.authorized(admin@) && new_cap_bps <= 10000 ==> (r is Ok),
            r is Err ==> *final(self) == *old(self),
            r is Ok ==> final(self).pool == (PoolContract { max_utilization_bps: new_cap_bps, ..old(self).pool }),
            *final(self) == (Protocol { pool: final(self).pool, ..*old(self) }),
    {
        self.pool.set_max_utilization(ctx, admin, new_cap_bps)
    }

    /// What a deposit of `amount` by `lp` yields: the shares minted, or the
    /// failure. The pool and the escrow cannot deposit: a contract's
    /// authorization comes only with the calls it makes itself.
    pub open spec fn deposit_outcome(&self, ctx: &CallContext, lp: Seq<u8>, amount: u128) -> Result<
        u128,
        ProtocolError,
    > {
        if self.is_vault(lp) || !ctx.authorized(lp) {
            Err(ProtocolError::Pool(PoolError::Unauthorized))
        } else if amount == 0 {
            Err(ProtocolError::Pool(PoolError::InvalidAmount))
        } else if amount > i128::MAX {
            Err(ProtocolError::Token(TokenError::Overflow))
        } else if !self.usdc.transfer_fits(lp, self.pool_address@, amount as i128) {
            Err(ProtocolError::Token(self.usdc.transfer_error(lp, self.pool_address@, amount as i128)))
        } else {
            match self.pool.deposit_outcome(ctx, lp, amount) {
                Ok(shares) => Ok(shares),
                Err(e) => Err(ProtocolError::Pool(e)),
            }
        }
    }

    /// `lp`, who must authorize the call, pays `usdc_amount` of the asset
    /// into the pool for shares at the current share price.
    pub fn deposit(&mut self, ctx: &CallContext, lp: &Address, usdc_amount: u128) -> (r: Result<
        u128,
        ProtocolError,
    >)
        requires
            old(self).wf(),
        ensures
            final(self).wf(),
            r == old(self).deposit_outcome(ctx, lp@, usdc_amount),
            r is Err ==> *final(self) == *old(self),
            r matches Ok(shares) ==> {
                let acct = old(self).pool.account(lp@);
                &&& final(self).pool.lps@ == old(self).pool.lps@.insert(
                    lp@,
                    LpAccount {
                        shares: (acct.shares + shares) as u128,
                        deposit_count: (acct.deposit_count + 1) as u32,
                        initial_deposit: (acct.initial_deposit + usdc_amount) as u128,
                        yield_earned: acct.yield_earned,
                    },
                )
                &&& final(self).pool.total_shares == old(self).pool.total_shares + shares
                &&& final(self).pool.total_deposits == old(self).pool.total_deposits + usdc_amount
                &&& final(self).pool.funded == old(self).pool.funded
                &&& final(self).usdc.balance_of(lp@) == old(self).usdc.balance_of(lp@) - usdc_amount
                &&& final(self).usdc.balance_of(final(self).pool_address@) == old(self).usdc.balance_of(
                    old(self).pool_address@,
                ) + usdc_amount
                &&& forall|a: Seq<u8>|
                    a != lp@ && a != old(self).pool_address@ ==> #[trigger] final(self).usdc.balance_of(a)
                        == old(self).usdc.balance_of(a)
            },
            *final(self) == (Protocol { pool: final(self).pool, usdc: final(self).usdc, ..*old(self) }),
    {
        if lp.same(&self.pool_address) || lp.same(&self.escrow_address) || !ctx.has_signed(lp) {
            return Err(ProtocolError::Pool(PoolError::Unauthorized));
        }
        if usdc_amount == 0 {
            return Err(ProtocolError::Pool(PoolError::InvalidAmount));
        }
        if usdc_amount > i128::MAX as u128 {
            return Err(ProtocolError::Token(TokenError::Overflow));
        }
        let amount = usdc_amount as i128;
        if let Err(e) = self.usdc.check_transfer(lp, &self.pool_address, amount) {
            return Err(ProtocolError::Token(e));
        }
        let pool_ctx = ctx.invoke(&self.pool_address, None);
        assert(self.pool.deposit_outcome(&pool_ctx, lp@, usdc_amount) == self.pool.deposit_outcome(
            ctx,
            lp@,
            usdc_amount,
        ));
        let (shares, t) = match self.pool.deposit(&pool_ctx, lp, usdc_amount) {
            Ok(x) => x,
            Err(e) => {
                return Err(ProtocolError::Pool(e));
            },
        };
        let _ = self.usdc.transfer(&t.from, &t.to, amount);
        Ok(shares)
    }

    /// What a withdrawal of `shares` by `lp` yields: the amount paid out, or
    /// the failure.
    pub open spec fn withdraw_outcome(&self, ctx: &CallContext, lp: Seq<u8>, shares: u128) -> Result<
        u128,
        ProtocolError,
    > {
        if self.is_vault(lp) {
            Err(ProtocolError::Pool(PoolError::Unauthorized))
        } else {
            match self.pool.withdraw_outcome(ctx, lp, shares) {
                Err(e) => Err(ProtocolError::Pool(e)),
                Ok(usdc) => if !self.usdc.transfer_fits(self.pool_address@, lp, usdc as i128) {
                    Err(ProtocolError::Token(self.usdc.transfer_error(self.pool_address@, lp, usdc as i128)))
                } else {
                    Ok(usdc)
                },
            }
        }
    }

    /// `lp`, who must authorize the call, redeems `shares` for their value
    /// at the current share price, paid out of the pool's free liquidity.
    pub fn withdraw(&mut self, ctx: &CallContext, lp: &Address, shares: u128) -> (r: Result<
        u128,
        ProtocolError,
    >)
        requires
            old(self).wf(),
        ensures
            final(self).wf(),
            r == old(self).withdraw_outcome(ctx, lp@, shares),
            r is Err ==> *final(self) == *old(self),
            r matches Ok(usdc) ==> {
                &&& final(self).pool.total_shares == old(self).pool.total_shares - shares
                &&& final(self).pool.total_deposits == old(self).pool.total_deposits - usdc
                &&& final(self).pool.account(lp@).shares == old(self).pool.account(lp@).shares - shares
                &&& final(self).pool.lps@ == old(self).pool.lps@.insert(
                    lp@,
                    ({
                        let acct = old(self).pool.lps@[lp@];
                        let principal = pro_rata(
                            shares as int,
                            acct.initial_deposit as int,
                            acct.shares as int,
                        );
                        let gain = if usdc > principal { usdc - principal } else { 0 };
                        LpAccount {
                            shares: (acct.shares - shares) as u128,
                            deposit_count: acct.deposit_count,
                            initial_deposit: (acct.initial_deposit - principal) as u128,
                            yield_earned: (acct.yield_earned + gain) as u128,
                        }
                    }),
                )
                &&& final(self).pool.funded == old(self).pool.funded
                &&& final(self).usdc.balance_of(lp@) == old(self).usdc.balance_of(lp@) + usdc
                &&& final(self).usdc.balance_of(final(self).pool_address@) == old(self).usdc.balance_of(
                    old(self).pool_address@,
                ) - usdc
                &&& forall|a: Seq<u8>|
                    a != lp@ && a != old(self).pool_address@ ==> #[trigger] final(self).usdc.balance_of(a)
                        == old(self).usdc.balance_of(a)
            },
            *final(self) == (Protocol { pool: final(self).pool, usdc: final(self).usdc, ..*old(self) }),
    {
        if lp.same(&self.pool_address) || lp.same(&self.escrow_address) {
            return Err(ProtocolError::Pool(PoolError::Unauthorized));
        }
        let pool_ctx = ctx.invoke(&self.pool_address, None);
        assert(self.pool.withdraw_outcome(&pool_ctx, lp@, shares) == self.pool.withdraw_outcome(
            ctx,
            lp@,
            shares,
        ));
        let usdc = match self.pool.check_withdrawal(&pool_ctx, lp, shares) {
            Ok(u) => u,
            Err(e) => {
                return Err(ProtocolError::Pool(e));
            },
        };
        assert(usdc <= self.pool.available());
        assert(usdc <= i128::MAX);
        let amount = usdc as i128;
        if let Err(e) = self.usdc.check_transfer(&self.pool_address, lp, amount) {
            return Err(ProtocolError::Token(e));
        }
        let (paid, t) = match self.pool.withdraw(&pool_ctx, lp, shares) {
            Ok(x) => x,
            Err(e) => {
                return Err(ProtocolError::Pool(e));
            },
        };
        let _ = self.usdc.transfer(&t.from, &t.to, amount);
        Ok(paid)
    }

    /// The terms the invoice contract reports of invoice `id`.
    pub open spec fn terms_of(&self, id: Seq<u8>) -> InvoiceTerms {
        let inv = self.invoices.invoices@[id];
        InvoiceTerms {
            status: inv.status.spec_code(),
            asset: inv.funding_asset,
            face_value: inv.face_value,
            discount_bps: inv.discount_bps,
        }
    }

    /// What funding invoice `id` yields: the amount funded, or the failure.
    pub open spec fn fund_outcome(&self, id: Seq<u8>) -> Result<u128, ProtocolError> {
        if !self.invoices.invoices@.contains_key(id) {
            Err(ProtocolError::Invoice(InvoiceError::NotFound))
        } else {
            match self.pool.fund_outcome(&self.terms_of(id)) {
                Err(e) => Err(ProtocolError::Pool(e)),
                Ok(amount) => if amount == 0 {
                    Err(ProtocolError::Escrow(EscrowError::InvalidAmount))
                } else if !self.usdc.transfer_fits(
                    self.pool_address@,
                    self.escrow_address@,
                    amount as i128,
                ) {
                    Err(
                        ProtocolError::Token(
                            self.usdc.transfer_error(self.pool_address@, self.escrow_address@, amount as i128),
                        ),
                    )
                } else {
                    Ok(amount)
                },
            }
        }
    }

    /// Funds a listed invoice out of the pool: the pool commits the face
    /// value less the discount, the escrow locks that amount, moved to it
    /// from the pool, and the invoice is marked funded by the pool. Anyone
    /// may ask. Returns the amount funded.
    pub fn fund_invoice(&mut self, ctx: &CallContext, invoice_id: &InvoiceId) -> (r: Result<
        u128,
        ProtocolError,
    >)
        requires
            old(self).wf(),
        ensures
            final(self).wf(),
            r == old(self).fund_outcome(invoice_id@),
            r is Err ==> *final(self) == *old(self),
            r matches Ok(amount) ==> {
                let before = old(self).invoices.invoice_views()[invoice_id@];
                &&& final(self).pool.funded@ == old(self).pool.funded@.insert(invoice_id@, amount)
                &&& final(self).pool.lps@ == old(self).pool.lps@
                &&& final(self).pool.total_funded == old(self).pool.total_funded + amount
                &&& final(self).pool.total_deposits == old(self).pool.total_deposits
                &&& final(self).escrow.locked(invoice_id@) == amount
                &&& final(self).invoices.invoice_views() == old(self).invoices.invoice_views().insert(
                    invoice_id@,
                    InvoiceView {
                        status: InvoiceStatus::Funded,
                        funded_amount: amount,
                        funded_at: Some(ctx.now),
                        funding_pool: Some(old(self).pool_address@),
                        ..before
                    },
                )
                &&& final(self).usdc.balance_of(final(self).pool_address@) == old(self).usdc.balance_of(
                    old(self).pool_address@,
                ) - amount
                &&& final(self).usdc.balance_of(final(self).escrow_address@) == old(self).usdc.balance_of(
                    old(self).escrow_address@,
                ) + amount
            },
            final(self).registry == old(self).registry,
            final(self).registry_address == old(self).registry_address,
            final(self).invoice_address == old(self).invoice_address,
            final(self).escrow_address == old(self).escrow_address,
            final(self).pool_address == old(self).pool_address,
            final(self).usdc_address == old(self).usdc_address,
    {
        let status = match self.invoices.get_status(invoice_id) {
            Ok(c) => c,
            Err(e) => {
                return Err(ProtocolError::Invoice(e));
            },
        };
        let asset = match self.invoices.get_funding_asset(invoice_id) {
            Ok(a) => a.duplicate(),
            Err(e) => {
                return Err(ProtocolError::Invoice(e));
            },
        };
        let face_value = match self.invoices.get_face_value(invoice_id) {
            Ok(v) => v,
            Err(e) => {
                return Err(ProtocolError::Invoice(e));
            },
        };
        let discount_bps = match self.invoices.get_discount_bps(invoice_id) {
            Ok(v) => v,
            Err(e) => {
                return Err(ProtocolError::Invoice(e));
            },
        };
        let terms = InvoiceTerms { status, asset, face_value, discount_bps };
        assert(self.pool.fund_outcome(&terms) == self.pool.fund_outcome(&self.terms_of(invoice_id@)));
        let amount = match self.pool.check_funding(&terms) {
            Ok(a) => a,
            Err(e) => {
                return Err(ProtocolError::Pool(e));
            },
        };
        if amount == 0 {
            return Err(ProtocolError::Escrow(EscrowError::InvalidAmount));
        }
        let value = amount as i128;
        if let Err(e) = self.usdc.check_transfer(&self.pool_address, &self.escrow_address, value) {
            return Err(ProtocolError::Token(e));
        }
        let ghost before = *self;
        let ghost inv_view = self.invoices.invoice_views()[invoice_id@];
        assert(inv_view.status == InvoiceStatus::Listed);
        assert(!self.escrow.records@.contains_key(invoice_id@));
        assert(!self.pool.funded@.contains_key(invoice_id@));
        let funding = match self.pool.fund_invoice(invoice_id, &terms) {
            Ok(f) => f,
            Err(e) => {
                return Err(ProtocolError::Pool(e));
            },
        };
        let escrow_ctx = ctx.invoke(&self.escrow_address, Some(&self.pool_address));
        let t = match self.escrow.lock(&escrow_ctx, invoice_id, funding.amount) {
            Ok(t) => t,
            Err(e) => {
                return Err(ProtocolError::Escrow(e));
            },
        };
        let _ = self.usdc.transfer(&t.from, &t.to, value);
        let invoice_ctx = ctx.invoke(&self.invoice_address, Some(&self.pool_address));
        let _ = self.invoices.mark_funded(
            &invoice_ctx,
            invoice_id,
            &self.pool_address,
            &funding.asset,
            funding.amount,
        );
        proof {
            let id = invoice_id@;
            let ov = before.invoices.invoice_views();
            let nv = self.invoices.invoice_views();
            assert(self.wired());
            assert forall|k: Seq<u8>| #[trigger] self.pool.funded@.contains_key(k) implies {
                &&& self.escrow.records@.contains_key(k)
                &&& self.escrow.records@[k].amount == self.pool.funded@[k]
                &&& self.invoices.invoices@.contains_key(k)
                &&& in_flight(nv[k].status)
                &&& nv[k].funding_pool == Some(self.pool_address@)
                &&& nv[k].funding_asset == self.usdc_address@
                &&& nv[k].funded_amount == self.pool.funded@[k]
                &&& self.pool.funded@[k] <= nv[k].face_value
            } by {
                if k != id {
                    assert(before.pool.funded@.contains_key(k));
                    assert(before.invoices.invoices@.contains_key(k));
                    assert(ov.contains_key(k));
                    assert(nv[k] == ov[k]);
                } else {
                    assert(self.escrow.records@[k].amount == amount);
                    assert(self.pool.funded@[k] == amount);
                    assert(nv.contains_key(k));
                    assert(nv[k].status == InvoiceStatus::Funded);
                    assert(nv[k].funding_pool == Some(self.pool_address@));
                    assert(terms.asset@ == self.usdc_address@);
                    assert(nv[k].funding_asset == self.usdc_address@);
                }
            }
            assert forall|k: Seq<u8>| #[trigger]
                self.invoices.invoices@.contains_key(k) && in_flight(nv[k].status) implies self.pool.funded@.contains_key(
                k,
            ) by {
                assert(nv.contains_key(k));
                if k != id {
                    assert(ov.contains_key(k));
                    assert(before.invoices.invoices@.contains_key(k));
                    assert(nv[k] == ov[k]);
                }
            }
            assert forall|k: Seq<u8>| #[trigger] self.escrow.records@.contains_key(k) implies self.invoices.invoices@.contains_key(
                k,
            ) && (in_flight(nv[k].status) || nv[k].status == InvoiceStatus::Repaid) by {
                if k != id {
                    assert(before.escrow.records@.contains_key(k));
                    assert(before.invoices.invoices@.contains_key(k));
                    assert(ov.contains_key(k));
                    assert(nv[k] == ov[k]);
                } else {
                    assert(nv.contains_key(k));
                }
            }
            assert(self.fundings_consistent());
            assert(self.escrow.held() == before.escrow.held() + amount);
            assert(self.balances_cover());
        }
        Ok(amount)
    }

    /// What repaying invoice `id` meets: the failure, if any. The pool and
    /// the escrow cannot repay as buyers: a contract's authorization comes
    /// only with the calls it makes itself.
    pub open spec fn repay_outcome(&self, ctx: &CallContext, id: Seq<u8>) -> Result<(), ProtocolError> {
        match self.invoices.repay_outcome(ctx, id) {
            Err(e) => Err(ProtocolError::Invoice(e)),
            Ok(()) => {
                let inv = self.invoices.invoice_views()[id];
                let gain = inv.face_value - self.pool.funded@[id];
                if self.is_vault(inv.buyer) {
                    Err(ProtocolError::Invoice(InvoiceError::Unauthorized))
                } else if inv.face_value > i128::MAX {
                    Err(ProtocolError::Token(TokenError::Overflow))
                } else if !self.usdc.transfer_fits(inv.buyer, self.pool_address@, inv.face_value as i128) {
                    Err(
                        ProtocolError::Token(
                            self.usdc.transfer_error(inv.buyer, self.pool_address@, inv.face_value as i128),
                        ),
                    )
                } else if self.pool.total_deposits + gain > u128::MAX
                    || self.pool.total_yield_distributed + gain > u128::MAX {
                    Err(ProtocolError::Pool(PoolError::Overflow))
                } else {
                    Ok(())
                }
            },
        }
    }

    /// The buyer of a confirmed invoice, who must authorize the call, pays
    /// its face value to the pool; the pool settles the funding, and what the
    /// payment exceeds it by is yield for the liquidity providers.
    pub fn repay(&mut self, ctx: &CallContext, invoice_id: &InvoiceId) -> (r: Result<(), ProtocolError>)
        requires
            old(self).wf(),
        ensures
            final(self).wf(),
            r == old(self).repay_outcome(ctx, invoice_id@),
            r is Err ==> *final(self) == *old(self),
            r is Ok ==> {
                let before = old(self).invoices.invoice_views()[invoice_id@];
                let funded = old(self).pool.funded@[invoice_id@];
                let gain = before.face_value - funded;
                &&& final(self).invoices.invoice_views() == old(self).invoices.invoice_views().insert(
                    invoice_id@,
                    InvoiceView {
                        status: InvoiceStatus::Repaid,
                        repaid_amount: (before.repaid_amount + before.face_value) as u128,
                        repaid_at: Some(ctx.now),
                        ..before
                    },
                )
                &&& final(self).invoices.invoice_views()[invoice_id@].repaid_amount == before.face_value
                &&& final(self).pool.funded@ == old(self).pool.funded@.remove(invoice_id@)
                &&& final(self).pool.lps@ == old(self).pool.lps@
                &&& final(self).pool.total_funded == old(self).pool.total_funded - funded
                &&& final(self).pool.total_deposits == old(self).pool.total_deposits + gain
                &&& final(self).pool.total_yield_distributed == old(self).pool.total_yield_distributed
                    + gain
                &&& final(self).pool.total_shares == old(self).pool.total_shares
                &&& final(self).escrow == old(self).escrow
                &&& final(self).usdc.balance_of(before.buyer) == old(self).usdc.balance_of(before.buyer)
                    - before.face_value
                &&& final(self).usdc.balance_of(final(self).pool_address@) == old(self).usdc.balance_of(
                    old(self).pool_address@,
                ) + before.face_value
            },
            final(self).registry == old(self).registry,
            final(self).registry_address == old(self).registry_address,
            final(self).invoice_address == old(self).invoice_address,
            final(self).escrow_address == old(self).escrow_address,
            final(self).pool_address == old(self).pool_address,
            final(self).usdc_address == old(self).usdc_address,
    {
        let invoice_ctx = ctx.invoke(&self.invoice_address, None);
        assert(self.invoices.repay_outcome(&invoice_ctx, invoice_id@) == self.invoices.repay_outcome(
            ctx,
            invoice_id@,
        ));
        match self.invoices.check_repay(&invoice_ctx, invoice_id) {
            Ok(()) => {},
            Err(e) => {
                return Err(ProtocolError::Invoice(e));
            },
        }
        let (buyer, face_value) = match self.invoices.get(invoice_id) {
            Ok(inv) => (inv.buyer.duplicate(), inv.face_value),
            Err(e) => {
                return Err(ProtocolError::Invoice(e));
            },
        };
        if buyer.same(&self.pool_address) || buyer.same(&self.escrow_address) {
            return Err(ProtocolError::Invoice(InvoiceError::Unauthorized));
        }
        if face_value > i128::MAX as u128 {
            return Err(ProtocolError::Token(TokenError::Overflow));
        }
        let value = face_value as i128;
        if let Err(e) = self.usdc.check_transfer(&buyer, &self.pool_address, value) {
            return Err(ProtocolError::Token(e));
        }
        let ghost before = *self;
        assert(self.pool.funded@.contains_key(invoice_id@));
        proof {
            self.pool.lemma_funded_bounded(invoice_id@);
        }
        let pool_ctx = ctx.invoke(&self.pool_address, Some(&self.invoice_address));
        match self.pool.check_repayment(&pool_ctx, invoice_id, face_value) {
            Ok(_) => {},
            Err(e) => {
                return Err(ProtocolError::Pool(e));
            },
        }
        let payment = match self.invoices.repay(&invoice_ctx, invoice_id) {
            Ok(p) => p,
            Err(e) => {
                return Err(ProtocolError::Invoice(e));
            },
        };
        let _ = self.usdc.transfer(&payment.transfer.from, &payment.transfer.to, value);
        let _ = self.pool.receive_repayment(&pool_ctx, invoice_id, payment.amount);
        proof {
            let id = invoice_id@;
            let ov = before.invoices.invoice_views();
            let nv = self.invoices.invoice_views();
            assert forall|k: Seq<u8>| #[trigger] self.pool.funded@.contains_key(k) implies {
                &&& self.escrow.records@.contains_key(k)
                &&& self.escrow.records@[k].amount == self.pool.funded@[k]
                &&& self.invoices.invoices@.contains_key(k)
                &&& in_flight(nv[k].status)
                &&& nv[k].funding_pool == Some(self.pool_address@)
                &&& nv[k].funding_asset == self.usdc_address@
                &&& nv[k].funded_amount == self.pool.funded@[k]
                &&& self.pool.funded@[k] <= nv[k].face_value
            } by {
                assert(before.pool.funded@.contains_key(k));
                assert(before.invoices.invoices@.contains_key(k));
                assert(ov.contains_key(k));
                assert(nv[k] == ov[k]);
            }
            assert forall|k: Seq<u8>| #[trigger]
                self.invoices.invoices@.contains_key(k) && in_flight(nv[k].status) implies self.pool.funded@.contains_key(
                k,
            ) by {
                assert(nv.contains_key(k));
                if k != id {
                    assert(ov.contains_key(k));
                    assert(before.invoices.invoices@.contains_key(k));
                    assert(nv[k] == ov[k]);
                }
            }
            assert forall|k: Seq<u8>| #[trigger] self.escrow.records@.contains_key(k) implies self.invoices.invoices@.contains_key(
                k,
            ) && (in_flight(nv[k].status) || nv[k].status == InvoiceStatus::Repaid) by {
                assert(before.escrow.records@.contains_key(k));
                assert(before.invoices.invoices@.contains_key(k));
                assert(ov.contains_key(k));
                if k != id {
                    assert(nv[k] == ov[k]);
                }
            }
            assert(self.fundings_consistent());
            assert(self.balances_cover());
        }
        Ok(())
    }

    /// What declaring invoice `id` in default meets: the failure, if any.
    pub open spec fn default_outcome(&self, ctx: &CallContext, id: Seq<u8>) -> Result<(), ProtocolError> {
        match self.invoices.default_outcome(ctx, id) {
            Err(e) => Err(ProtocolError::Invoice(e)),
            Ok(()) => if !self.usdc.transfer_fits(
                self.escrow_address@,
                self.pool_address@,
                self.pool.funded@[id] as i128,
            ) {
                Err(
                    ProtocolError::Token(
                        self.usdc.transfer_error(
                            self.escrow_address@,
                            self.pool_address@,
                            self.pool.funded@[id] as i128,
                        ),
                    ),
                )
            } else {
                Ok(())
            },
        }
    }

    /// Declares a funded invoice past its due date in default; the admin
    /// must authorize the call. The pool writes the funding off, and the
    /// escrow returns what it held for the invoice to the pool.
    pub fn trigger_default(&mut self, ctx: &CallContext, invoice_id: &InvoiceId) -> (r: Result<
        (),
        ProtocolError,
    >)
        requires
            old(self).wf(),
        ensures
            final(self).wf(),
            r == old(self).default_outcome(ctx, invoice_id@),
            r is Err ==> *final(self) == *old(self),
            r is Ok ==> {
                let before = old(self).invoices.invoice_views()[invoice_id@];
                let funded = old(self).pool.funded@[invoice_id@];
                &&& final(self).invoices.invoice_views() == old(self).invoices.invoice_views().insert(
                    invoice_id@,
                    InvoiceView { status: InvoiceStatus::Defaulted, ..before },
                )
                &&& final(self).pool.funded@ == old(self).pool.funded@.remove(invoice_id@)
                &&& final(self).pool.lps@ == old(self).pool.lps@
                &&& final(self).pool.total_funded == old(self).pool.total_funded - funded
                &&& final(self).pool.total_deposits == old(self).pool.total_deposits - funded
                &&& final(self).pool.total_shares == old(self).pool.total_shares
                &&& final(self).escrow.records@ == old(self).escrow.records@.remove(invoice_id@)
                &&& final(self).usdc.balance_of(final(self).escrow_address@) == old(self).usdc.balance_of(
                    old(self).escrow_address@,
                ) - funded
                &&& final(self).usdc.balance_of(final(self).pool_address@) == old(self).usdc.balance_of(
                    old(self).pool_address@,
                ) + funded
            },
            final(self).registry == old(self).registry,
            final(self).registry_address == old(self).registry_address,
            final(self).invoice_address == old(self).invoice_address,
            final(self).escrow_address == old(self).escrow_address,
            final(self).pool_address == old(self).pool_address,
            final(self).usdc_address == old(self).usdc_address,
    {
        let invoice_ctx = ctx.invoke(&self.invoice_address, None);
        assert(self.invoices.default_outcome(&invoice_ctx, invoice_id@) == self.invoices.default_outcome(
            ctx,
            invoice_id@,
        ));
        match self.invoices.check_default(&invoice_ctx, invoice_id) {
            Ok(()) => {},
            Err(e) => {
                return Err(ProtocolError::Invoice(e));
            },
        }
        assert(self.pool.funded@.contains_key(invoice_id@));
        let amount = self.escrow.get_locked(invoice_id);
        proof {
            self.pool.lemma_funded_bounded(invoice_id@);
            self.escrow.records.lemma_total_bounds(invoice_id@, EscrowContract::amount_term());
        }
        let value = amount as i128;
        if let Err(e) = self.usdc.check_transfer(&self.escrow_address, &self.pool_address, value) {
            return Err(ProtocolError::Token(e));
        }
        let ghost before = *self;
        let _ = self.invoices.trigger_default(&invoice_ctx, invoice_id);
        let pool_ctx = ctx.invoke(&self.pool_address, Some(&self.invoice_address));
        let _ = self.pool.handle_default(&pool_ctx, invoice_id);
        let escrow_ctx = ctx.invoke(&self.escrow_address, Some(&self.pool_address));
        let t = match self.escrow.handle_default(&escrow_ctx, invoice_id) {
            Ok(Some(t)) => t,
            _ => {
                return Err(ProtocolError::Escrow(EscrowError::NotFound));
            },
        };
        let _ = self.usdc.transfer(&t.from, &t.to, value);
        proof {
            let id = invoice_id@;
            let ov = before.invoices.invoice_views();
            let nv = self.invoices.invoice_views();
            assert forall|k: Seq<u8>| #[trigger] self.pool.funded@.contains_key(k) implies {
                &&& self.escrow.records@.contains_key(k)
                &&& self.escrow.records@[k].amount == self.pool.funded@[k]
                &&& self.invoices.invoices@.contains_key(k)
                &&& in_flight(nv[k].status)
                &&& nv[k].funding_pool == Some(self.pool_address@)
                &&& nv[k].funding_asset == self.usdc_address@
                &&& nv[k].funded_amount == self.pool.funded@[k]
                &&& self.pool.funded@[k] <= nv[k].face_value
            } by {
                assert(before.pool.funded@.contains_key(k));
                assert(before.invoices.invoices@.contains_key(k));
                assert(ov.contains_key(k));
                assert(nv[k] == ov[k]);
            }
            assert forall|k: Seq<u8>| #[trigger]
                self.invoices.invoices@.contains_key(k) && in_flight(nv[k].status) implies self.pool.funded@.contains_key(
                k,
            ) by {
                assert(nv.contains_key(k));
                if k != id {
                    assert(ov.contains_key(k));
                    assert(before.invoices.invoices@.contains_key(k));
                    assert(nv[k] == ov[k]);
                }
            }
            assert forall|k: Seq<u8>| #[trigger] self.escrow.records@.contains_key(k) implies self.invoices.invoices@.contains_key(
                k,
            ) && (in_flight(nv[k].status) || nv[k].status == InvoiceStatus::Repaid) by {
                assert(before.escrow.records@.contains_key(k));
                assert(before.invoices.invoices@.contains_key(k));
                assert(ov.contains_key(k));
                assert(nv[k] == ov[k]);
            }
            assert(self.fundings_consistent());
            assert(self.balances_cover());
        }
        Ok(())
    }

    /// Whatever the pool has outstanding on an invoice, the escrow holds for
    /// it, to the unit; and the invoice is funded by this pool, in its asset,
    /// for that amount, and neither repaid nor in default.
    pub proof fn lemma_funding_is_escrowed(&self, id: Seq<u8>)
        requires
            self.wf(),
            self.pool.funded@.contains_key(id),
        ensures
            self.escrow.locked(id) == self.pool.funded@[id],
            in_flight(self.invoices.invoice_views()[id].status),
            self.invoices.invoice_views()[id].funding_pool == Some(self.pool_address@),
            self.invoices.invoice_views()[id].funding_asset == self.usdc_address@,
            self.invoices.invoice_views()[id].funded_amount == self.pool.funded@[id],
    {
    }

    /// An invoice that is funded, active or confirmed has a funding the pool
    /// still counts as outstanding.
    pub proof fn lemma_in_flight_invoice_is_outstanding(&self, id: Seq<u8>)
        requires
            self.wf(),
            self.invoices.invoices@.contains_key(id),
            in_flight(self.invoices.invoice_views()[id].status),
        ensures
            self.pool.funded@.contains_key(id),
    {
    }

    /// The pool's balance of its asset always covers its free liquidity, so
    /// every withdrawal the pool accepts can be paid.
    pub proof fn lemma_pool_covers_free_liquidity(&self)
        requires
            self.wf(),
        ensures
            self.usdc.balance_of(self.pool_address@) >= self.pool.available(),
    {
    }

    /// The escrow's balance of the asset is exactly the sum of its records.
    pub proof fn lemma_escrow_balance_matches_records(&self)
        requires
            self.wf(),
        ensures
            self.usdc.balance_of(self.escrow_address@) == self.escrow.held(),
    {
    }
}

} // verus!
