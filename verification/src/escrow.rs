//! The escrow contract: it holds the amount a pool funded an invoice with,
//! until it is released to the issuer, returned to the pool as repayment, or
//! returned to the pool on default.

use vstd::prelude::*;
use crate::ledger::{Address, CallContext, InvoiceId, Transfer, TransferView};
use crate::table::Table;

verus! {

/// The failures of the escrow contract.
#[derive(PartialEq, Eq, Structural, Clone, Copy, Debug)]
pub enum EscrowError {
    AlreadyInitialized,
    NotFound,
    AlreadyLocked,
    InvalidAmount,
    NotInitialized,
    /// A required authorization is missing from the invocation.
    Unauthorized,
}

impl EscrowError {
    /// The contract error number, for the failures that have one.
    pub open spec fn spec_code(self) -> Option<u32> {
        match self {
            EscrowError::AlreadyInitialized => Some(1),
            EscrowError::NotFound => Some(2),
            EscrowError::AlreadyLocked => Some(4),
            EscrowError::InvalidAmount => Some(5),
            EscrowError::NotInitialized => Some(6),
            EscrowError::Unauthorized => None,
        }
    }

    /// The contract error number, for the failures that have one.
    pub fn code(&self) -> (r: Option<u32>)
        ensures
            r == self.spec_code(),
    {
        match self {
            EscrowError::AlreadyInitialized => Some(1),
            EscrowError::NotFound => Some(2),
            EscrowError::AlreadyLocked => Some(4),
            EscrowError::InvalidAmount => Some(5),
            EscrowError::NotInitialized => Some(6),
            EscrowError::Unauthorized => None,
        }
    }
}

/// What happened to escrowed funds.
#[derive(PartialEq, Eq, Structural, Clone, Copy, Debug)]
pub enum EscrowAction {
    Locked,
    ReleasedToIssuer,
    ReleasedToPool,
    DefaultHandled,
}

/// One entry of an invoice's escrow history.
#[derive(PartialEq, Eq, Clone, Copy, Debug)]
pub struct EscrowEvent {
    pub invoice_id: InvoiceId,
    pub action: EscrowAction,
    pub amount: u128,
    pub timestamp: u64,
}

/// The funds held for one invoice.
#[derive(PartialEq, Eq, Clone, Copy, Debug)]
pub struct EscrowRecord {
    pub invoice_id: InvoiceId,
    pub amount: u128,
    pub locked_at: u64,
}

/// The state of the escrow contract.
pub struct EscrowContract {
    pub admin: Option<Address>,
    pub pool_contract: Option<Address>,
    pub invoice_contract: Option<Address>,
    pub usdc_asset: Option<Address>,
    pub records: Table<InvoiceId, EscrowRecord>,
    pub history: Table<InvoiceId, Vec<EscrowEvent>>,
}

impl EscrowContract {
    /// The consistency the contract keeps: every record is stored under its
    /// own invoice and holds a positive amount.
    pub open spec fn wf(&self) -> bool {
        &&& self.records.wf()
        &&& self.history.wf()
        &&& forall|k: Seq<u8>| #[trigger]
            self.records@.contains_key(k) ==> self.records@[k].invoice_id@ == k
                && self.records@[k].amount > 0
    }

    /// The amount held for invoice `id`; nothing where none is held.
    pub open spec fn locked(&self, id: Seq<u8>) -> u128 {
        if self.records@.contains_key(id) {
            self.records@[id].amount
        } else {
            0
        }
    }

    /// A record, as a term of the total held.
    pub open spec fn amount_term() -> spec_fn(EscrowRecord) -> int {
        |rec: EscrowRecord| rec.amount as int
    }

    /// The total the records say the escrow holds.
    pub open spec fn held(&self) -> int {
        self.records.total(Self::amount_term())
    }

    /// The history of invoice `id`, oldest first.
    pub open spec fn history_of(&self, id: Seq<u8>) -> Seq<EscrowEvent> {
        if self.history@.contains_key(id) {
            self.history@[id]@
        } else {
            Seq::empty()
        }
    }

    /// A contract that has not been initialized.
    pub fn new() -> (r: Self)
        ensures
            r.wf(),
            r.admin is None,
            r.pool_contract is None,
            r.invoice_contract is None,
            r.usdc_asset is None,
            r.records@ == Map::<Seq<u8>, EscrowRecord>::empty(),
            r.history@ == Map::<Seq<u8>, Vec<EscrowEvent>>::empty(),
            forall|id: Seq<u8>| r.locked(id) == 0 && r.history_of(id) == Seq::<EscrowEvent>::empty(),
    {
        EscrowContract {
            admin: None,
            pool_contract: None,
            invoice_contract: None,
            usdc_asset: None,
            records: Table::new(),
            history: Table::new(),
        }
    }

    /// Records the admin, the pool and invoice contracts and the asset held.
    pub fn initialize(
        &mut self,
        ctx: &CallContext,
        admin: Address,
        pool_contract: Address,
        invoice_contract: Address,
        usdc_asset: Address,
    ) -> (r: Result<(), EscrowError>)
        requires
            old(self).wf(),
        ensures
            final(self).wf(),
            old(self).admin is Some ==> r == Err::<(), EscrowError>(EscrowError::AlreadyInitialized),
            old(self).admin is None && !ctx.authorized(admin@) ==> r == Err::<(), EscrowError>(
                EscrowError::Unauthorized,
            ),
            old(self).admin is None && ctx.authorized(admin@) ==> (r is Ok),
            r is Err ==> *final(self) == *old(self),
            r is Ok ==> {
                &&& final(self).admin matches Some(a) && a@ == admin@
                &&& final(self).pool_contract matches Some(a) && a@ == pool_contract@
                &&& final(self).invoice_contract matches Some(a) && a@ == invoice_contract@
                &&& final(self).usdc_asset matches Some(a) && a@ == usdc_asset@
                &&& final(self).records == old(self).records
                &&& final(self).history == old(self).history
            },
    {
        if self.admin.is_some() {
            return Err(EscrowError::AlreadyInitialized);
        }
        if !ctx.has_signed(&admin) {
            return Err(EscrowError::Unauthorized);
        }
        self.admin = Some(admin);
        self.pool_contract = Some(pool_contract);
        self.invoice_contract = Some(invoice_contract);
        self.usdc_asset = Some(usdc_asset);
        Ok(())
    }

    fn append_history(&mut self, id: &InvoiceId, event: EscrowEvent)
        requires
            old(self).history.wf(),
        ensures
            final(self).history.wf(),
            forall|k: Seq<u8>|
                #[trigger] final(self).history_of(k) == if k == id@ {
                    old(self).history_of(k).push(event)
                } else {
                    old(self).history_of(k)
                },
            *final(self) == (EscrowContract { history: final(self).history, ..*old(self) }),
    {
        let mut list = match self.history.remove(id) {
            Some(v) => v,
            None => Vec::new(),
        };
        list.push(event);
        self.history.insert(id.duplicate(), list);
    }

    /// What locking `amount` for `id` meets: the failure, if any.
    pub open spec fn lock_outcome(&self, ctx: &CallContext, id: Seq<u8>, amount: u128) -> Result<
        (),
        EscrowError,
    > {
        if self.pool_contract is None {
            Err(EscrowError::NotInitialized)
        } else if !ctx.authorized(self.pool_contract->0@) {
            Err(EscrowError::Unauthorized)
        } else if amount == 0 {
            Err(EscrowError::InvalidAmount)
        } else if self.records@.contains_key(id) {
            Err(EscrowError::AlreadyLocked)
        } else if self.usdc_asset is None {
            Err(EscrowError::NotInitialized)
        } else {
            Ok(())
        }
    }

    /// Locks `amount`, taken from the pool, against a funded invoice; an
    /// invoice is locked once. Only the pool may call. Returns the transfer
    /// that brings the funds in.
    pub fn lock(&mut self, ctx: &CallContext, invoice_id: &InvoiceId, amount: u128) -> (r: Result<
        Transfer,
        EscrowError,
    >)
        requires
            old(self).wf(),
        ensures
            final(self).wf(),
            r is Ok <==> old(self).lock_outcome(ctx, invoice_id@, amount) is Ok,
            r matches Err(e) ==> old(self).lock_outcome(ctx, invoice_id@, amount) == Err::<(), EscrowError>(e),
            r is Err ==> *final(self) == *old(self),
            r matches Ok(t) ==> {
                let event = EscrowEvent {
                    invoice_id: *invoice_id,
                    action: EscrowAction::Locked,
                    amount,
                    timestamp: ctx.now,
                };
                &&& t@ == TransferView {
                    asset: old(self).usdc_asset->0@,
                    from: old(self).pool_contract->0@,
                    to: ctx.this@,
                    amount,
                }
                &&& final(self).records@ == old(self).records@.insert(
                    invoice_id@,
                    EscrowRecord { invoice_id: *invoice_id, amount, locked_at: ctx.now },
                )
                &&& final(self).locked(invoice_id@) == amount
                &&& final(self).held() == old(self).held() + amount
                &&& forall|k: Seq<u8>| k != invoice_id@ ==> #[trigger] final(self).locked(k) == old(self).locked(k)
                &&& forall|k: Seq<u8>|
                    #[trigger] final(self).history_of(k) == if k == invoice_id@ {
                        old(self).history_of(k).push(event)
                    } else {
                        old(self).history_of(k)
                    }
                &&& *final(self) == (EscrowContract {
                    records: final(self).records,
                    history: final(self).history,
                    ..*old(self)
                })
            },
    {
        let pool = match &self.pool_contract {
            Some(p) => p.duplicate(),
            None => {
                return Err(EscrowError::NotInitialized);
            },
        };
        if !ctx.has_signed(&pool) {
            return Err(EscrowError::Unauthorized);
        }
        if amount == 0 {
            return Err(EscrowError::InvalidAmount);
        }
        if self.records.contains(invoice_id) {
            return Err(EscrowError::AlreadyLocked);
        }
        let usdc = match &self.usdc_asset {
            Some(a) => a.duplicate(),
            None => {
                return Err(EscrowError::NotInitialized);
            },
        };
        self.records.insert(
            invoice_id.duplicate(),
            EscrowRecord { invoice_id: *invoice_id, amount, locked_at: ctx.now },
        );
        self.append_history(
            invoice_id,
            EscrowEvent { invoice_id: *invoice_id, action: EscrowAction::Locked, amount, timestamp: ctx.now },
        );
        Ok(Transfer { asset: usdc, from: pool, to: ctx.this.duplicate(), amount })
    }

    /// What a release of the funds held for `id` meets: the failure, if any.
    pub open spec fn release_outcome(&self, ctx: &CallContext, id: Seq<u8>) -> Result<(), EscrowError> {
        if self.pool_contract is None {
            Err(EscrowError::NotInitialized)
        } else if !ctx.authorized(self.pool_contract->0@) {
            Err(EscrowError::Unauthorized)
        } else if !self.records@.contains_key(id) {
            Err(EscrowError::NotFound)
        } else if self.usdc_asset is None {
            Err(EscrowError::NotInitialized)
        } else {
            Ok(())
        }
    }

    /// Pays everything held for an invoice to `issuer` and closes the
    /// record. Only the pool may call. Returns the transfer that pays it.
    pub fn release_to_issuer(&mut self, ctx: &CallContext, invoice_id: &InvoiceId, issuer: &Address) -> (r:
        Result<Transfer, EscrowError>)
        requires
            old(self).wf(),
        ensures
            final(self).wf(),
            r is Ok <==> old(self).release_outcome(ctx, invoice_id@) is Ok,
            r matches Err(e) ==> old(self).release_outcome(ctx, invoice_id@) == Err::<(), EscrowError>(e),
            r is Err ==> *final(self) == *old(self),
            r matches Ok(t) ==> {
                let amount = old(self).locked(invoice_id@);
                let event = EscrowEvent {
                    invoice_id: *invoice_id,
                    action: EscrowAction::ReleasedToIssuer,
                    amount,
                    timestamp: ctx.now,
                };
                &&& t@ == TransferView {
                    asset: old(self).usdc_asset->0@,
                    from: ctx.this@,
                    to: issuer@,
                    amount,
                }
                &&& final(self).records@ == old(self).records@.remove(invoice_id@)
                &&& final(self).locked(invoice_id@) == 0
                &&& final(self).held() == old(self).held() - amount
                &&& forall|k: Seq<u8>| k != invoice_id@ ==> #[trigger] final(self).locked(k) == old(self).locked(k)
                &&& forall|k: Seq<u8>|
                    #[trigger] final(self).history_of(k) == if k == invoice_id@ {
                        old(self).history_of(k).push(event)
                    } else {
                        old(self).history_of(k)
                    }
                &&& *final(self) == (EscrowContract {
                    records: final(self).records,
                    history: final(self).history,
                    ..*old(self)
                })
            },
    {
        let pool = match &self.pool_contract {
            Some(p) => p,
            None => {
                return Err(EscrowError::NotInitialized);
            },
        };
        if !ctx.has_signed(pool) {
            return Err(EscrowError::Unauthorized);
        }
        let amount = match self.records.get(invoice_id) {
            Some(rec) => rec.amount,
            None => {
                return Err(EscrowError::NotFound);
            },
        };
        let usdc = match &self.usdc_asset {
            Some(a) => a.duplicate(),
            None => {
                return Err(EscrowError::NotInitialized);
            },
        };
        self.append_history(
            invoice_id,
            EscrowEvent {
                invoice_id: *invoice_id,
                action: EscrowAction::ReleasedToIssuer,
                amount,
                timestamp: ctx.now,
            },
        );
        let ghost mid = *self;
        self.records.remove(invoice_id);
        assert(forall|k: Seq<u8>| #[trigger] self.history_of(k) == mid.history_of(k));
        Ok(Transfer { asset: usdc, from: ctx.this.duplicate(), to: issuer.duplicate(), amount })
    }

    /// What returning `repayment` for `id` to the pool meets: the failure, if any.
    pub open spec fn return_outcome(&self, ctx: &CallContext, id: Seq<u8>, repayment: u128) -> Result<
        (),
        EscrowError,
    > {
        if self.pool_contract is None {
            Err(EscrowError::NotInitialized)
        } else if !ctx.authorized(self.pool_contract->0@) {
            Err(EscrowError::Unauthorized)
        } else if !self.records@.contains_key(id) {
            Err(EscrowError::NotFound)
        } else if repayment == 0 {
            Err(EscrowError::InvalidAmount)
        } else if self.usdc_asset is None {
            Err(EscrowError::NotInitialized)
        } else {
            Ok(())
        }
    }

    /// Pays `repayment` to the pool for an invoice. A repayment of at least
    /// what is held closes the record; a smaller one leaves the rest held.
    /// Only the pool may call. Returns the transfer that pays it.
    pub fn release_to_pool(&mut self, ctx: &CallContext, invoice_id: &InvoiceId, repayment_amount: u128) -> (r:
        Result<Transfer, EscrowError>)
        requires
            old(self).wf(),
        ensures
            final(self).wf(),
            r is Ok <==> old(self).return_outcome(ctx, invoice_id@, repayment_amount) is Ok,
            r matches Err(e) ==> old(self).return_outcome(ctx, invoice_id@, repayment_amount) == Err::<
                (),
                EscrowError,
            >(e),
            r is Err ==> *final(self) == *old(self),
            r matches Ok(t) ==> {
                let held = old(self).records@[invoice_id@];
                let event = EscrowEvent {
                    invoice_id: *invoice_id,
                    action: EscrowAction::ReleasedToPool,
                    amount: repayment_amount,
                    timestamp: ctx.now,
                };
                &&& t@ == TransferView {
                    asset: old(self).usdc_asset->0@,
                    from: ctx.this@,
                    to: old(self).pool_contract->0@,
                    amount: repayment_amount,
                }
                &&& final(self).records@ == if repayment_amount >= held.amount {
                    old(self).records@.remove(invoice_id@)
                } else {
                    old(self).records@.insert(
                        invoice_id@,
                        EscrowRecord { amount: (held.amount - repayment_amount) as u128, ..held },
                    )
                }
                &&& final(self).locked(invoice_id@) == if repayment_amount >= held.amount {
                    0
                } else {
                    (held.amount - repayment_amount) as u128
                }
                &&& final(self).held() == old(self).held() - if repayment_amount >= held.amount {
                    held.amount
                } else {
                    repayment_amount
                }
                &&& forall|k: Seq<u8>| k != invoice_id@ ==> #[trigger] final(self).locked(k) == old(self).locked(k)
                &&& forall|k: Seq<u8>|
                    #[trigger] final(self).history_of(k) == if k == invoice_id@ {
                        old(self).history_of(k).push(event)
                    } else {
                        old(self).history_of(k)
                    }
                &&& *final(self) == (EscrowContract {
                    records: final(self).records,
                    history: final(self).history,
                    ..*old(self)
                })
            },
    {
        let pool = match &self.pool_contract {
            Some(p) => p.duplicate(),
            None => {
                return Err(EscrowError::NotInitialized);
            },
        };
        if !ctx.has_signed(&pool) {
            return Err(EscrowError::Unauthorized);
        }
        let held = match self.records.get(invoice_id) {
            Some(rec) => *rec,
            None => {
                return Err(EscrowError::NotFound);
            },
        };
        if repayment_amount == 0 {
            return Err(EscrowError::InvalidAmount);
        }
        let usdc = match &self.usdc_asset {
            Some(a) => a.duplicate(),
            None => {
                return Err(EscrowError::NotInitialized);
            },
        };
        if repayment_amount >= held.amount {
            self.records.remove(invoice_id);
        } else {
            self.records.insert(
                invoice_id.duplicate(),
                EscrowRecord { amount: held.amount - repayment_amount, ..held },
            );
        }
        self.append_history(
            invoice_id,
            EscrowEvent {
                invoice_id: *invoice_id,
                action: EscrowAction::ReleasedToPool,
                amount: repayment_amount,
                timestamp: ctx.now,
            },
        );
        Ok(Transfer { asset: usdc, from: ctx.this.duplicate(), to: pool, amount: repayment_amount })
    }

    /// What settling the default of `id` meets: none where nothing is held,
    /// or the failure, if any.
    pub open spec fn default_outcome(&self, ctx: &CallContext, id: Seq<u8>) -> Result<bool, EscrowError> {
        if !self.records@.contains_key(id) {
            Ok(false)
        } else if self.admin is None || self.pool_contract is None {
            Err(EscrowError::NotInitialized)
        } else if !(ctx.authorized(self.admin->0@) || ctx.authorized(self.pool_contract->0@)) {
            Err(EscrowError::Unauthorized)
        } else if self.usdc_asset is None {
            Err(EscrowError::NotInitialized)
        } else {
            Ok(true)
        }
    }

    /// Returns everything held for a defaulted invoice to the pool and
    /// closes the record; where nothing is held, does nothing. The admin or
    /// the pool must authorize the call. Returns the transfer, if any.
    pub fn handle_default(&mut self, ctx: &CallContext, invoice_id: &InvoiceId) -> (r: Result<
        Option<Transfer>,
        EscrowError,
    >)
        requires
            old(self).wf(),
        ensures
            final(self).wf(),
            match r {
                Ok(Some(_)) => old(self).default_outcome(ctx, invoice_id@) == Ok::<bool, EscrowError>(true),
                Ok(None) => old(self).default_outcome(ctx, invoice_id@) == Ok::<bool, EscrowError>(false),
                Err(e) => old(self).default_outcome(ctx, invoice_id@) == Err::<bool, EscrowError>(e),
            },
            !(r matches Ok(Some(_))) ==> *final(self) == *old(self),
            r matches Ok(Some(t)) ==> {
                let amount = old(self).locked(invoice_id@);
                let event = EscrowEvent {
                    invoice_id: *invoice_id,
                    action: EscrowAction::DefaultHandled,
                    amount,
                    timestamp: ctx.now,
                };
                &&& t@ == TransferView {
                    asset: old(self).usdc_asset->0@,
                    from: ctx.this@,
                    to: old(self).pool_contract->0@,
                    amount,
                }
                &&& final(self).records@ == old(self).records@.remove(invoice_id@)
                &&& final(self).locked(invoice_id@) == 0
                &&& final(self).held() == old(self).held() - amount
                &&& forall|k: Seq<u8>| k != invoice_id@ ==> #[trigger] final(self).locked(k) == old(self).locked(k)
                &&& forall|k: Seq<u8>|
                    #[trigger] final(self).history_of(k) == if k == invoice_id@ {
                        old(self).history_of(k).push(event)
                    } else {
                        old(self).history_of(k)
                    }
                &&& *final(self) == (EscrowContract {
                    records: final(self).records,
                    history: final(self).history,
                    ..*old(self)
                })
            },
    {
        let amount = match self.records.get(invoice_id) {
            Some(rec) => rec.amount,
            None => {
                return Ok(None);
            },
        };
        let (admin, pool) = match (&self.admin, &self.pool_contract) {
            (Some(a), Some(p)) => (a, p.duplicate()),
            _ => {
                return Err(EscrowError::NotInitialized);
            },
        };
        if !ctx.has_signed(admin) && !ctx.has_signed(&pool) {
            return Err(EscrowError::Unauthorized);
        }
        let usdc = match &self.usdc_asset {
            Some(a) => a.duplicate(),
            None => {
                return Err(EscrowError::NotInitialized);
            },
        };
        self.append_history(
            invoice_id,
            EscrowEvent {
                invoice_id: *invoice_id,
                action: EscrowAction::DefaultHandled,
                amount,
                timestamp: ctx.now,
            },
        );
        let ghost mid = *self;
        self.records.remove(invoice_id);
        assert(forall|k: Seq<u8>| #[trigger] self.history_of(k) == mid.history_of(k));
        Ok(Some(Transfer { asset: usdc, from: ctx.this.duplicate(), to: pool, amount }))
    }

    /// The amount held for an invoice; nothing where none is held.
    pub fn get_locked(&self, invoice_id: &InvoiceId) -> (r: u128)
        requires
            self.wf(),
        ensures
            r == self.locked(invoice_id@),
    {
        match self.records.get(invoice_id) {
            Some(rec) => rec.amount,
            None => 0,
        }
    }

    /// The history of an invoice's escrow, oldest first.
    pub fn get_history(&self, invoice_id: &InvoiceId) -> (r: Vec<EscrowEvent>)
        requires
            self.wf(),
        ensures
            r@ == self.history_of(invoice_id@),
    {
        let mut out: Vec<EscrowEvent> = Vec::new();
        match self.history.get(invoice_id) {
            Some(list) => {
                let n = list.len();
                let mut i: usize = 0;
                while i < n
                    invariant
                        n == list@.len(),
                        i <= n,
                        out@ == list@.subrange(0, i as int),
                    decreases n - i,
                {
                    out.push(list[i]);
                    i = i + 1;
                }
                assert(list@.subrange(0, n as int) =~= list@);
            },
            None => {},
        }
        out
    }

    /// Something is held for an invoice exactly when the escrow has a record of it.
    pub proof fn lemma_locked_iff_recorded(&self, id: Seq<u8>)
        requires
            self.wf(),
        ensures
            (self.locked(id) > 0) == self.records@.contains_key(id),
    {
    }
}

} // verus!
