//! The liquidity pool: liquidity providers deposit the stable asset for
//! shares, the pool funds listed invoices out of its free liquidity, and
//! repayments raise the value of every share.

use vstd::prelude::*;
use vstd::arithmetic::div_mod::{
    lemma_div_is_ordered, lemma_div_multiples_vanish, lemma_div_pos_is_pos,
    lemma_fundamental_div_mod, lemma_mod_pos_bound,
};
use vstd::arithmetic::mul::{lemma_mul_inequality, lemma_mul_is_commutative};
use crate::ledger::{Address, CallContext, InvoiceId, Transfer, TransferView};
use crate::table::{sum_values, Table};

verus! {

/// Basis points in one whole.
pub const BPS_DENOMINATOR: u128 = 10000;

/// The utilization cap a freshly initialized pool starts with, in basis points.
pub const DEFAULT_MAX_UTILIZATION_BPS: u32 = 8500;

/// The status code under which the invoice contract reports a listed invoice.
pub const LISTED_STATUS_CODE: u32 = 1;

/// The failures of the pool contract.
#[derive(PartialEq, Eq, Structural, Clone, Copy, Debug)]
pub enum PoolError {
    AlreadyInitialized,
    NotInitialized,
    InvalidAmount,
    InsufficientLiquidity,
    NoShares,
    InsufficientShares,
    InvoiceNotFound,
    InvoiceNotListed,
    AssetMismatch,
    UtilizationCapExceeded,
    MinimumDeposit,
    /// A required authorization is missing from the invocation.
    Unauthorized,
    /// An amount left the range of its integer type.
    Overflow,
}

impl PoolError {
    /// The contract error number, for the failures that have one.
    pub open spec fn spec_code(self) -> Option<u32> {
        match self {
            PoolError::AlreadyInitialized => Some(1),
            PoolError::InvalidAmount => Some(4),
            PoolError::InsufficientLiquidity => Some(5),
            PoolError::NoShares => Some(6),
            PoolError::InsufficientShares => Some(7),
            PoolError::InvoiceNotFound => Some(8),
            PoolError::InvoiceNotListed => Some(9),
            PoolError::AssetMismatch => Some(11),
            PoolError::UtilizationCapExceeded => Some(12),
            PoolError::MinimumDeposit => Some(14),
            _ => None,
        }
    }

    /// The contract error number, for the failures that have one.
    pub fn code(&self) -> (r: Option<u32>)
        ensures
            r == self.spec_code(),
    {
        match self {
            PoolError::AlreadyInitialized => Some(1),
            PoolError::InvalidAmount => Some(4),
            PoolError::InsufficientLiquidity => Some(5),
            PoolError::NoShares => Some(6),
            PoolError::InsufficientShares => Some(7),
            PoolError::InvoiceNotFound => Some(8),
            PoolError::InvoiceNotListed => Some(9),
            PoolError::AssetMismatch => Some(11),
            PoolError::UtilizationCapExceeded => Some(12),
            PoolError::MinimumDeposit => Some(14),
            _ => None,
        }
    }
}

/// Pool-wide figures.
#[derive(Clone, Copy, Debug, PartialEq, Eq)]
pub struct PoolStats {
    pub total_deposits: u128,
    pub total_funded: u128,
    pub available_liquidity: u128,
    pub utilization_rate_bps: u32,
    pub total_yield_distributed: u128,
    pub active_invoice_count: u32,
    pub total_shares: u128,
    pub max_utilization_bps: u32,
}

/// One liquidity provider's holding.
#[derive(Clone, Copy, Debug, PartialEq, Eq)]
pub struct LPPosition {
    pub shares: u128,
    pub usdc_value: u128,
    pub yield_earned: u128,
    pub deposit_count: u32,
}

/// What remains outstanding of one funded invoice.
#[derive(Clone, Copy, Debug, PartialEq, Eq)]
pub struct FundedInvoiceData {
    pub remaining_funded: u128,
    pub remaining_face_value: u128,
}

/// What the pool records of one liquidity provider.
#[derive(Clone, Copy, Debug, PartialEq, Eq)]
pub struct LpAccount {
    pub shares: u128,
    pub deposit_count: u32,
    /// The part of the provider's deposits not yet withdrawn, at cost.
    pub initial_deposit: u128,
    pub yield_earned: u128,
}

/// An account with nothing in it.
pub open spec fn empty_account() -> LpAccount {
    LpAccount { shares: 0, deposit_count: 0, initial_deposit: 0, yield_earned: 0 }
}

/// What the invoice contract reports of an invoice the pool is asked to fund.
pub struct InvoiceTerms {
    pub status: u32,
    pub asset: Address,
    pub face_value: u128,
    pub discount_bps: u32,
}

/// The calls that complete a funding: the escrow contract locks `amount`
/// for the invoice, and the invoice contract records it as funded by this
/// pool in `asset`.
pub struct Funding {
    pub amount: u128,
    pub escrow: Address,
    pub invoice_contract: Address,
    pub asset: Address,
}

/// The call that completes a default: the escrow contract settles the
/// invoice, whose funding of `amount` the pool has written off.
pub struct DefaultSettlement {
    pub escrow: Address,
    pub amount: u128,
}

/// The shares minted for `amount` when the pool holds `deposits` against `shares`.
pub open spec fn shares_for(amount: int, shares: int, deposits: int) -> int {
    if shares == 0 || deposits == 0 {
        amount
    } else {
        (amount * shares) / deposits
    }
}

/// The part of `whole` that `part` out of `out_of` stands for, rounded down.
pub open spec fn pro_rata(part: int, whole: int, out_of: int) -> int {
    (part * whole) / out_of
}

/// The amount funded for an invoice of `face_value` at a discount of `discount_bps`.
pub open spec fn funded_amount_for(face_value: int, discount_bps: int) -> int {
    (face_value * (10000 - discount_bps)) / 10000
}

proof fn lemma_floor_div(x: int, d: int)
    requires
        0 <= x,
        0 < d,
    ensures
        0 <= x / d,
        (x / d) * d <= x,
{
    lemma_fundamental_div_mod(x, d);
    lemma_mod_pos_bound(x, d);
    lemma_div_pos_is_pos(x, d);
    lemma_mul_is_commutative(d, x / d);
}

proof fn lemma_pro_rata_bound(part: int, whole: int, out_of: int)
    requires
        0 <= part <= out_of,
        0 < out_of,
        0 <= whole,
    ensures
        0 <= pro_rata(part, whole, out_of) <= whole,
{
    lemma_mul_inequality(part, out_of, whole);
    lemma_div_is_ordered(part * whole, out_of * whole, out_of);
    lemma_div_multiples_vanish(whole, out_of);
    lemma_mul_is_commutative(out_of, whole);
    assert(0 <= part * whole) by (nonlinear_arith)
        requires
            0 <= part,
            0 <= whole,
    ;
    lemma_div_pos_is_pos(part * whole, out_of);
}

/// The state of the pool contract.
pub struct PoolContract {
    pub admin: Option<Address>,
    pub invoice_contract: Option<Address>,
    pub escrow_contract: Option<Address>,
    pub usdc_asset: Option<Address>,
    pub total_shares: u128,
    pub total_deposits: u128,
    pub total_funded: u128,
    pub total_yield_distributed: u128,
    pub active_invoice_count: u32,
    pub max_utilization_bps: u32,
    pub lps: Table<Address, LpAccount>,
    /// The amount funded for each invoice whose funding is outstanding.
    pub funded: Table<InvoiceId, u128>,
}

impl PoolContract {
    /// The shares of a provider, as a term of the share total.
    pub open spec fn share_term() -> spec_fn(LpAccount) -> int {
        |a: LpAccount| a.shares as int
    }

    /// An outstanding funding, as a term of the funded total.
    pub open spec fn funded_term() -> spec_fn(u128) -> int {
        |v: u128| v as int
    }

    /// The sum of all providers' shares.
    pub open spec fn share_sum(&self) -> int {
        self.lps.total(Self::share_term())
    }

    /// The sum of all outstanding fundings.
    pub open spec fn funded_sum(&self) -> int {
        self.funded.total(Self::funded_term())
    }

    /// The account of `lp`, empty where the pool has none.
    pub open spec fn account(&self, lp: Seq<u8>) -> LpAccount {
        if self.lps@.contains_key(lp) {
            self.lps@[lp]
        } else {
            empty_account()
        }
    }

    /// The liquidity not committed to outstanding fundings.
    pub open spec fn available(&self) -> int {
        self.total_deposits - self.total_funded
    }

    /// The accounting the pool keeps consistent.
    pub open spec fn wf(&self) -> bool {
        &&& self.lps.wf()
        &&& self.funded.wf()
        &&& self.total_funded <= self.total_deposits
        &&& self.share_sum() == self.total_shares
        &&& self.funded_sum() <= self.total_funded
        &&& self.funded.entries@.len() <= self.active_invoice_count
        &&& self.admin is None ==> {
            &&& self.invoice_contract is None
            &&& self.escrow_contract is None
            &&& self.usdc_asset is None
            &&& self.lps@ == Map::<Seq<u8>, LpAccount>::empty()
            &&& self.funded@ == Map::<Seq<u8>, u128>::empty()
            &&& self.total_shares == 0
            &&& self.total_deposits == 0
            &&& self.total_funded == 0
            &&& self.total_yield_distributed == 0
            &&& self.active_invoice_count == 0
        }
    }

    /// No provider holds more shares than the pool has issued.
    pub proof fn lemma_account_shares_bounded(&self, lp: Seq<u8>)
        requires
            self.wf(),
        ensures
            self.account(lp).shares <= self.total_shares,
    {
        if self.lps@.contains_key(lp) {
            self.lps.lemma_total_bounds(lp, Self::share_term());
        }
    }

    /// An outstanding funding is part of the pool's funded total, and counts
    /// among its active invoices.
    pub proof fn lemma_funded_bounded(&self, id: Seq<u8>)
        requires
            self.wf(),
            self.funded@.contains_key(id),
        ensures
            self.funded@[id] <= self.total_funded,
            1 <= self.active_invoice_count,
    {
        self.funded.lemma_total_bounds(id, Self::funded_term());
        assert(self.funded.keys().contains(id));
    }

    /// A pool that has not been initialized.
    pub fn new() -> (r: Self)
        ensures
            r.wf(),
            r.admin is None,
            r.max_utilization_bps == DEFAULT_MAX_UTILIZATION_BPS,
            r.total_shares == 0,
            r.total_deposits == 0,
            r.total_funded == 0,
            r.total_yield_distributed == 0,
            r.active_invoice_count == 0,
            r.lps@ == Map::<Seq<u8>, LpAccount>::empty(),
            r.funded@ == Map::<Seq<u8>, u128>::empty(),
    {
        let r = PoolContract {
            admin: None,
            invoice_contract: None,
            escrow_contract: None,
            usdc_asset: None,
            total_shares: 0,
            total_deposits: 0,
            total_funded: 0,
            total_yield_distributed: 0,
            active_invoice_count: 0,
            max_utilization_bps: DEFAULT_MAX_UTILIZATION_BPS,
            lps: Table::new(),
            funded: Table::new(),
        };
        r
    }

    /// Records the admin, the contracts the pool works with and its asset.
    pub fn initialize(
        &mut self,
        ctx: &CallContext,
        admin: Address,
        invoice_contract: Address,
        escrow_contract: Address,
        usdc_asset: Address,
    ) -> (r: Result<(), PoolError>)
        requires
            old(self).wf(),
        ensures
            final(self).wf(),
            old(self).admin is Some ==> r == Err::<(), PoolError>(PoolError::AlreadyInitialized),
            old(self).admin is None && !ctx.authorized(admin@) ==> r == Err::<(), PoolError>(
                PoolError::Unauthorized,
            ),
            old(self).admin is None && ctx.authorized(admin@) ==> (r is Ok),
            r is Err ==> *final(self) == *old(self),
            r is Ok ==> {
                &&& final(self).admin matches Some(a) && a@ == admin@
                &&& final(self).invoice_contract matches Some(a) && a@ == invoice_contract@
                &&& final(self).escrow_contract matches Some(a) && a@ == escrow_contract@
                &&& final(self).usdc_asset matches Some(a) && a@ == usdc_asset@
                &&& final(self).total_shares == 0
                &&& final(self).total_deposits == 0
                &&& final(self).total_funded == 0
                &&& final(self).total_yield_distributed == 0
                &&& final(self).active_invoice_count == 0
                &&& final(self).max_utilization_bps == DEFAULT_MAX_UTILIZATION_BPS
                &&& final(self).lps@ == old(self).lps@
                &&& final(self).funded@ == old(self).funded@
            },
    {
        if self.admin.is_some() {
            return Err(PoolError::AlreadyInitialized);
        }
        if !ctx.has_signed(&admin) {
            return Err(PoolError::Unauthorized);
        }
        self.admin = Some(admin);
        self.invoice_contract = Some(invoice_contract);
        self.escrow_contract = Some(escrow_contract);
        self.usdc_asset = Some(usdc_asset);
        self.total_shares = 0;
        self.total_deposits = 0;
        self.total_funded = 0;
        self.total_yield_distributed = 0;
        self.active_invoice_count = 0;
        self.max_utilization_bps = DEFAULT_MAX_UTILIZATION_BPS;
        Ok(())
    }

    /// The asset the pool holds.
    pub fn get_usdc_asset(&self) -> (r: Result<&Address, PoolError>)
        ensures
            match self.usdc_asset {
                Some(a) => r == Ok::<&Address, PoolError>(&a),
                None => r == Err::<&Address, PoolError>(PoolError::NotInitialized),
            },
    {
        match &self.usdc_asset {
            Some(a) => Ok(a),
            None => Err(PoolError::NotInitialized),
        }
    }

    fn account_of(&self, lp: &Address) -> (r: LpAccount)
        requires
            self.lps.wf(),
        ensures
            r == self.account(lp@),
    {
        match self.lps.get(lp) {
            Some(a) => *a,
            None => LpAccount { shares: 0, deposit_count: 0, initial_deposit: 0, yield_earned: 0 },
        }
    }

    /// What a deposit of `amount` by `lp` yields: the shares minted, or the failure.
    pub open spec fn deposit_outcome(&self, ctx: &CallContext, lp: Seq<u8>, amount: u128) -> Result<
        u128,
        PoolError,
    > {
        let ts = self.total_shares as int;
        let td = self.total_deposits as int;
        let acct = self.account(lp);
        if !ctx.authorized(lp) {
            Err(PoolError::Unauthorized)
        } else if amount == 0 {
            Err(PoolError::InvalidAmount)
        } else if self.usdc_asset is None {
            Err(PoolError::NotInitialized)
        } else if ts != 0 && td != 0 && amount * ts > u128::MAX {
            Err(PoolError::Overflow)
        } else {
            let shares = shares_for(amount as int, ts, td);
            if shares == 0 {
                Err(PoolError::MinimumDeposit)
            } else if ts + shares > u128::MAX || td + amount > u128::MAX || acct.deposit_count + 1
                > u32::MAX || acct.initial_deposit + amount > u128::MAX {
                Err(PoolError::Overflow)
            } else {
                Ok(shares as u128)
            }
        }
    }

    /// Takes `usdc_amount` of the pool's asset from `lp` and mints shares for
    /// it at the current share price (one for one while the pool is empty).
    /// Returns the shares minted and the transfer that brings the deposit in.
    pub fn deposit(&mut self, ctx: &CallContext, lp: &Address, usdc_amount: u128) -> (r: Result<
        (u128, Transfer),
        PoolError,
    >)
        requires
            old(self).wf(),
        ensures
            final(self).wf(),
            match r {
                Ok((shares, t)) => {
                    let acct = old(self).account(lp@);
                    &&& old(self).deposit_outcome(ctx, lp@, usdc_amount) == Ok::<u128, PoolError>(shares)
                    &&& shares >= 1
                    &&& t@ == TransferView {
                        asset: old(self).usdc_asset->0@,
                        from: lp@,
                        to: ctx.this@,
                        amount: usdc_amount,
                    }
                    &&& final(self).lps@ == old(self).lps@.insert(
                        lp@,
                        LpAccount {
                            shares: (acct.shares + shares) as u128,
                            deposit_count: (acct.deposit_count + 1) as u32,
                            initial_deposit: (acct.initial_deposit + usdc_amount) as u128,
                            yield_earned: acct.yield_earned,
                        },
                    )
                    &&& *final(self) == PoolContract {
                        total_shares: (old(self).total_shares + shares) as u128,
                        total_deposits: (old(self).total_deposits + usdc_amount) as u128,
                        lps: final(self).lps,
                        ..*old(self)
                    }
                    &&& old(self).total_shares > 0 ==> final(self).total_deposits
                        * old(self).total_shares >= old(self).total_deposits
                        * final(self).total_shares
                },
                Err(e) => {
                    &&& old(self).deposit_outcome(ctx, lp@, usdc_amount) == Err::<u128, PoolError>(e)
                    &&& *final(self) == *old(self)
                },
            },
    {
        if !ctx.has_signed(lp) {
            return Err(PoolError::Unauthorized);
        }
        if usdc_amount == 0 {
            return Err(PoolError::InvalidAmount);
        }
        let usdc = match &self.usdc_asset {
            Some(a) => a.duplicate(),
            None => {
                return Err(PoolError::NotInitialized);
            },
        };
        let ts = self.total_shares;
        let td = self.total_deposits;
        let shares = if ts == 0 || td == 0 {
            usdc_amount
        } else {
            match usdc_amount.checked_mul(ts) {
                Some(p) => p / td,
                None => {
                    return Err(PoolError::Overflow);
                },
            }
        };
        if shares == 0 {
            return Err(PoolError::MinimumDeposit);
        }
        let new_ts = match ts.checked_add(shares) {
            Some(v) => v,
            None => {
                return Err(PoolError::Overflow);
            },
        };
        let new_td = match td.checked_add(usdc_amount) {
            Some(v) => v,
            None => {
                return Err(PoolError::Overflow);
            },
        };
        let acct = self.account_of(lp);
        let new_count = match acct.deposit_count.checked_add(1) {
            Some(v) => v,
            None => {
                return Err(PoolError::Overflow);
            },
        };
        let new_init = match acct.initial_deposit.checked_add(usdc_amount) {
            Some(v) => v,
            None => {
                return Err(PoolError::Overflow);
            },
        };
        proof {
            self.lemma_account_shares_bounded(lp@);
            if ts != 0 && td != 0 {
                lemma_floor_div(usdc_amount * ts, td as int);
                assert((td + usdc_amount) * ts >= td * (ts + shares)) by (nonlinear_arith)
                    requires
                        shares * td <= usdc_amount * ts,
                ;
            }
        }
        let new_acct = LpAccount {
            shares: acct.shares + shares,
            deposit_count: new_count,
            initial_deposit: new_init,
            yield_earned: acct.yield_earned,
        };
        self.total_shares = new_ts;
        self.total_deposits = new_td;
        self.lps.insert(lp.duplicate(), new_acct);
        Ok((shares, Transfer { asset: usdc, from: lp.duplicate(), to: ctx.this.duplicate(), amount: usdc_amount }))
    }

    /// What a withdrawal of `shares` by `lp` yields: the amount paid out, or the failure.
    pub open spec fn withdraw_outcome(&self, ctx: &CallContext, lp: Seq<u8>, shares: u128) -> Result<
        u128,
        PoolError,
    > {
        let ts = self.total_shares as int;
        let td = self.total_deposits as int;
        let acct = self.lps@[lp];
        if !ctx.authorized(lp) {
            Err(PoolError::Unauthorized)
        } else if shares == 0 {
            Err(PoolError::InvalidAmount)
        } else if !self.lps@.contains_key(lp) {
            Err(PoolError::NoShares)
        } else if shares > acct.shares {
            Err(PoolError::InsufficientShares)
        } else if shares * td > u128::MAX {
            Err(PoolError::Overflow)
        } else {
            let usdc = pro_rata(shares as int, td, ts);
            if usdc > self.available() {
                Err(PoolError::InsufficientLiquidity)
            } else if self.usdc_asset is None {
                Err(PoolError::NotInitialized)
            } else if shares * acct.initial_deposit > u128::MAX {
                Err(PoolError::Overflow)
            } else {
                let principal = pro_rata(shares as int, acct.initial_deposit as int, acct.shares as int);
                let gain = if usdc > principal { usdc - principal } else { 0 };
                if acct.yield_earned + gain > u128::MAX {
                    Err(PoolError::Overflow)
                } else {
                    Ok(usdc as u128)
                }
            }
        }
    }

    /// Burns `shares` of `lp` and pays out their value at the current share
    /// price, out of the liquidity not committed to fundings. The withdrawn
    /// part of the provider's principal leaves its cost basis, and whatever
    /// the payout exceeds it by is booked as the provider's yield.
    /// Returns the amount paid out and the transfer that pays it.
    pub fn withdraw(&mut self, ctx: &CallContext, lp: &Address, shares: u128) -> (r: Result<
        (u128, Transfer),
        PoolError,
    >)
        requires
            old(self).wf(),
        ensures
            final(self).wf(),
            match r {
                Ok((usdc, t)) => {
                    let acct = old(self).lps@[lp@];
                    let principal = pro_rata(
                        shares as int,
                        acct.initial_deposit as int,
                        acct.shares as int,
                    );
                    let gain = if usdc > principal { usdc - principal } else { 0 };
                    &&& old(self).withdraw_outcome(ctx, lp@, shares) == Ok::<u128, PoolError>(usdc)
                    &&& usdc <= old(self).available()
                    &&& t@ == TransferView {
                        asset: old(self).usdc_asset->0@,
                        from: ctx.this@,
                        to: lp@,
                        amount: usdc,
                    }
                    &&& final(self).lps@ == old(self).lps@.insert(
                        lp@,
                        LpAccount {
                            shares: (acct.shares - shares) as u128,
                            deposit_count: acct.deposit_count,
                            initial_deposit: (acct.initial_deposit - principal) as u128,
                            yield_earned: (acct.yield_earned + gain) as u128,
                        },
                    )
                    &&& *final(self) == PoolContract {
                        total_shares: (old(self).total_shares - shares) as u128,
                        total_deposits: (old(self).total_deposits - usdc) as u128,
                        lps: final(self).lps,
                        ..*old(self)
                    }
                    &&& final(self).total_deposits * old(self).total_shares
                        >= old(self).total_deposits * final(self).total_shares
                },
                Err(e) => {
                    &&& old(self).withdraw_outcome(ctx, lp@, shares) == Err::<u128, PoolError>(e)
                    &&& *final(self) == *old(self)
                },
            },
    {
        let usdc = self.check_withdrawal(ctx, lp, shares)?;
        let acct = match self.lps.get(lp) {
            Some(a) => *a,
            None => {
                return Err(PoolError::NoShares);
            },
        };
        let asset = match &self.usdc_asset {
            Some(a) => a.duplicate(),
            None => {
                return Err(PoolError::NotInitialized);
            },
        };
        let ts = self.total_shares;
        let td = self.total_deposits;
        proof {
            self.lemma_account_shares_bounded(lp@);
            lemma_pro_rata_bound(shares as int, td as int, ts as int);
            lemma_pro_rata_bound(shares as int, acct.initial_deposit as int, acct.shares as int);
            lemma_floor_div(shares * td, ts as int);
            assert((td - usdc) * ts >= td * (ts - shares)) by (nonlinear_arith)
                requires
                    usdc * ts <= shares * td,
            ;
        }
        let principal = (shares * acct.initial_deposit) / acct.shares;
        let gain = usdc.saturating_sub(principal);
        self.total_shares = ts - shares;
        self.total_deposits = td - usdc;
        self.lps.insert(
            lp.duplicate(),
            LpAccount {
                shares: acct.shares - shares,
                deposit_count: acct.deposit_count,
                initial_deposit: acct.initial_deposit - principal,
                yield_earned: acct.yield_earned + gain,
            },
        );
        Ok((usdc, Transfer { asset, from: ctx.this.duplicate(), to: lp.duplicate(), amount: usdc }))
    }

    /// Decides, without changing anything, whether `lp` may withdraw
    /// `shares`, and for how much.
    pub fn check_withdrawal(&self, ctx: &CallContext, lp: &Address, shares: u128) -> (r: Result<
        u128,
        PoolError,
    >)
        requires
            self.wf(),
        ensures
            r == self.withdraw_outcome(ctx, lp@, shares),
            r matches Ok(usdc) ==> {
                &&& usdc <= self.available()
                &&& shares <= self.account(lp@).shares <= self.total_shares
            },
    {
        if !ctx.has_signed(lp) {
            return Err(PoolError::Unauthorized);
        }
        if shares == 0 {
            return Err(PoolError::InvalidAmount);
        }
        let acct = match self.lps.get(lp) {
            Some(a) => *a,
            None => {
                return Err(PoolError::NoShares);
            },
        };
        if shares > acct.shares {
            return Err(PoolError::InsufficientShares);
        }
        let ts = self.total_shares;
        let td = self.total_deposits;
        let tf = self.total_funded;
        proof {
            self.lemma_account_shares_bounded(lp@);
        }
        let available = td - tf;
        let usdc = match shares.checked_mul(td) {
            Some(p) => p / ts,
            None => {
                return Err(PoolError::Overflow);
            },
        };
        if usdc > available {
            return Err(PoolError::InsufficientLiquidity);
        }
        if self.usdc_asset.is_none() {
            return Err(PoolError::NotInitialized);
        }
        let principal = match shares.checked_mul(acct.initial_deposit) {
            Some(p) => p / acct.shares,
            None => {
                return Err(PoolError::Overflow);
            },
        };
        let gain = usdc.saturating_sub(principal);
        if acct.yield_earned.checked_add(gain).is_none() {
            return Err(PoolError::Overflow);
        }
        Ok(usdc)
    }

    /// What funding an invoice with `terms` yields: the amount funded, or the failure.
    pub open spec fn fund_outcome(&self, terms: &InvoiceTerms) -> Result<u128, PoolError> {
        let td = self.total_deposits as int;
        let tf = self.total_funded as int;
        if self.invoice_contract is None {
            Err(PoolError::NotInitialized)
        } else if terms.status != LISTED_STATUS_CODE {
            Err(PoolError::InvoiceNotListed)
        } else if self.usdc_asset is None {
            Err(PoolError::NotInitialized)
        } else if terms.asset@ != self.usdc_asset->0@ {
            Err(PoolError::AssetMismatch)
        } else if terms.discount_bps > 10000 || terms.face_value * (10000 - terms.discount_bps)
            > u128::MAX {
            Err(PoolError::Overflow)
        } else {
            let amount = funded_amount_for(terms.face_value as int, terms.discount_bps as int);
            if amount > self.available() {
                Err(PoolError::InsufficientLiquidity)
            } else if (tf + amount) * 10000 > u128::MAX {
                Err(PoolError::Overflow)
            } else if td != 0 && ((tf + amount) * 10000) / td > self.max_utilization_bps {
                Err(PoolError::UtilizationCapExceeded)
            } else if self.escrow_contract is None {
                Err(PoolError::NotInitialized)
            } else if self.active_invoice_count + 1 > u32::MAX {
                Err(PoolError::Overflow)
            } else {
                Ok(amount as u128)
            }
        }
    }

    /// Funds a listed invoice, whose terms the invoice contract reported as
    /// `terms`, at its face value less its discount, when the pool has the
    /// liquidity and stays within its utilization cap. Anyone may ask.
    /// Returns the calls that lock the amount in escrow and mark the invoice funded.
    pub fn fund_invoice(&mut self, invoice_id: &InvoiceId, terms: &InvoiceTerms) -> (r: Result<
        Funding,
        PoolError,
    >)
        requires
            old(self).wf(),
        ensures
            final(self).wf(),
            match r {
                Ok(f) => {
                    &&& old(self).fund_outcome(terms) == Ok::<u128, PoolError>(f.amount)
                    &&& f.escrow@ == old(self).escrow_contract->0@
                    &&& f.invoice_contract@ == old(self).invoice_contract->0@
                    &&& f.asset@ == old(self).usdc_asset->0@
                    &&& final(self).funded@ == old(self).funded@.insert(invoice_id@, f.amount)
                    &&& *final(self) == PoolContract {
                        total_funded: (old(self).total_funded + f.amount) as u128,
                        active_invoice_count: (old(self).active_invoice_count + 1) as u32,
                        funded: final(self).funded,
                        ..*old(self)
                    }
                    &&& final(self).total_deposits != 0 ==> pro_rata(
                        final(self).total_funded as int,
                        10000,
                        final(self).total_deposits as int,
                    ) <= final(self).max_utilization_bps
                },
                Err(e) => {
                    &&& old(self).fund_outcome(terms) == Err::<u128, PoolError>(e)
                    &&& *final(self) == *old(self)
                },
            },
    {
        let amount = self.check_funding(terms)?;
        let invoice_contract = match &self.invoice_contract {
            Some(a) => a.duplicate(),
            None => {
                return Err(PoolError::NotInitialized);
            },
        };
        let usdc = match &self.usdc_asset {
            Some(a) => a.duplicate(),
            None => {
                return Err(PoolError::NotInitialized);
            },
        };
        let escrow = match &self.escrow_contract {
            Some(a) => a.duplicate(),
            None => {
                return Err(PoolError::NotInitialized);
            },
        };
        proof {
            if self.funded@.contains_key(invoice_id@) {
                self.lemma_funded_bounded(invoice_id@);
            }
            self.funded.lemma_len();
        }
        self.total_funded = self.total_funded + amount;
        self.active_invoice_count = self.active_invoice_count + 1;
        self.funded.insert(invoice_id.duplicate(), amount);
        proof {
            self.funded.lemma_len();
            assert(self.funded@.dom() =~= old(self).funded@.dom().insert(invoice_id@));
        }
        Ok(Funding { amount, escrow, invoice_contract, asset: usdc })
    }

    /// Decides, without changing anything, whether the pool would fund an
    /// invoice with `terms`, and for how much.
    pub fn check_funding(&self, terms: &InvoiceTerms) -> (r: Result<u128, PoolError>)
        requires
            self.wf(),
        ensures
            r == self.fund_outcome(terms),
            r matches Ok(amount) ==> {
                &&& self.total_funded + amount <= self.total_deposits
                &&& self.total_deposits != 0 ==> pro_rata(
                    self.total_funded + amount,
                    10000,
                    self.total_deposits as int,
                ) <= self.max_utilization_bps
                &&& amount <= terms.face_value
            },
    {
        if self.invoice_contract.is_none() {
            return Err(PoolError::NotInitialized);
        }
        if terms.status != LISTED_STATUS_CODE {
            return Err(PoolError::InvoiceNotListed);
        }
        let usdc = match &self.usdc_asset {
            Some(a) => a,
            None => {
                return Err(PoolError::NotInitialized);
            },
        };
        if !terms.asset.same(usdc) {
            return Err(PoolError::AssetMismatch);
        }
        if terms.discount_bps > 10000 {
            return Err(PoolError::Overflow);
        }
        let keep_bps: u128 = 10000 - terms.discount_bps as u128;
        let amount = match terms.face_value.checked_mul(keep_bps) {
            Some(p) => p / BPS_DENOMINATOR,
            None => {
                return Err(PoolError::Overflow);
            },
        };
        proof {
            lemma_pro_rata_bound(keep_bps as int, terms.face_value as int, 10000);
            lemma_mul_is_commutative(keep_bps as int, terms.face_value as int);
        }
        let td = self.total_deposits;
        let tf = self.total_funded;
        let available = td - tf;
        if amount > available {
            return Err(PoolError::InsufficientLiquidity);
        }
        let new_total_funded = tf + amount;
        let scaled = match new_total_funded.checked_mul(BPS_DENOMINATOR) {
            Some(p) => p,
            None => {
                return Err(PoolError::Overflow);
            },
        };
        let utilization_after: u128 = if td == 0 {
            0
        } else {
            scaled / td
        };
        if utilization_after > self.max_utilization_bps as u128 {
            return Err(PoolError::UtilizationCapExceeded);
        }
        if self.escrow_contract.is_none() {
            return Err(PoolError::NotInitialized);
        }
        if self.active_invoice_count == u32::MAX {
            return Err(PoolError::Overflow);
        }
        Ok(amount)
    }

    /// What a repayment of `amount` for `invoice_id` yields: the yield it
    /// brings the pool, or the failure.
    pub open spec fn repayment_outcome(&self, ctx: &CallContext, invoice_id: Seq<u8>, amount: u128) -> Result<
        u128,
        PoolError,
    > {
        if self.invoice_contract is None {
            Err(PoolError::NotInitialized)
        } else if !ctx.authorized(self.invoice_contract->0@) {
            Err(PoolError::Unauthorized)
        } else if !self.funded@.contains_key(invoice_id) {
            Err(PoolError::InvoiceNotFound)
        } else if amount < self.funded@[invoice_id] {
            Err(PoolError::InvalidAmount)
        } else {
            let gain = amount - self.funded@[invoice_id];
            if self.total_deposits + gain > u128::MAX || self.total_yield_distributed + gain
                > u128::MAX {
                Err(PoolError::Overflow)
            } else {
                Ok(gain as u128)
            }
        }
    }

    /// Settles a funded invoice repaid with `amount`, at least what was
    /// funded: the funding is no longer outstanding and the excess is yield
    /// that raises the value of every share. Only the invoice contract may call.
    /// Returns the yield.
    pub fn receive_repayment(&mut self, ctx: &CallContext, invoice_id: &InvoiceId, amount: u128) -> (r:
        Result<u128, PoolError>)
        requires
            old(self).wf(),
        ensures
            final(self).wf(),
            r == old(self).repayment_outcome(ctx, invoice_id@, amount),
            match r {
                Ok(gain) => {
                    let funded = old(self).funded@[invoice_id@];
                    &&& final(self).funded@ == old(self).funded@.remove(invoice_id@)
                    &&& *final(self) == PoolContract {
                        total_deposits: (old(self).total_deposits + gain) as u128,
                        total_yield_distributed: (old(self).total_yield_distributed + gain) as u128,
                        total_funded: (old(self).total_funded - funded) as u128,
                        active_invoice_count: (old(self).active_invoice_count - 1) as u32,
                        funded: final(self).funded,
                        ..*old(self)
                    }
                },
                Err(_) => *final(self) == *old(self),
            },
    {
        let gain = self.check_repayment(ctx, invoice_id, amount)?;
        let funded = match self.funded.get(invoice_id) {
            Some(v) => *v,
            None => {
                return Err(PoolError::InvoiceNotFound);
            },
        };
        proof {
            self.lemma_funded_bounded(invoice_id@);
            self.funded.lemma_len();
        }
        self.total_deposits = self.total_deposits + gain;
        self.total_yield_distributed = self.total_yield_distributed + gain;
        self.total_funded = self.total_funded - funded;
        self.active_invoice_count = self.active_invoice_count - 1;
        self.funded.remove(invoice_id);
        proof {
            self.funded.lemma_len();
            assert(self.funded@.dom() =~= old(self).funded@.dom().remove(invoice_id@));
        }
        Ok(gain)
    }

    /// Decides, without changing anything, whether a repayment of `amount`
    /// for `invoice_id` would be accepted, and the yield it would bring.
    pub fn check_repayment(&self, ctx: &CallContext, invoice_id: &InvoiceId, amount: u128) -> (r: Result<
        u128,
        PoolError,
    >)
        requires
            self.wf(),
        ensures
            r == self.repayment_outcome(ctx, invoice_id@, amount),
    {
        let invoice_contract = match &self.invoice_contract {
            Some(a) => a,
            None => {
                return Err(PoolError::NotInitialized);
            },
        };
        if !ctx.has_signed(invoice_contract) {
            return Err(PoolError::Unauthorized);
        }
        let funded = match self.funded.get(invoice_id) {
            Some(v) => *v,
            None => {
                return Err(PoolError::InvoiceNotFound);
            },
        };
        if amount < funded {
            return Err(PoolError::InvalidAmount);
        }
        let gain = amount - funded;
        if self.total_deposits.checked_add(gain).is_none() {
            return Err(PoolError::Overflow);
        }
        if self.total_yield_distributed.checked_add(gain).is_none() {
            return Err(PoolError::Overflow);
        }
        Ok(gain)
    }

    /// What handling the default of `invoice_id` yields: the funding written
    /// off, none where the invoice has no outstanding funding, or the failure.
    pub open spec fn default_outcome(&self, ctx: &CallContext, invoice_id: Seq<u8>) -> Result<
        Option<u128>,
        PoolError,
    > {
        if self.invoice_contract is None {
            Err(PoolError::NotInitialized)
        } else if !ctx.authorized(self.invoice_contract->0@) {
            Err(PoolError::Unauthorized)
        } else if !self.funded@.contains_key(invoice_id) {
            Ok(None)
        } else if self.escrow_contract is None {
            Err(PoolError::NotInitialized)
        } else {
            Ok(Some(self.funded@[invoice_id]))
        }
    }

    /// Writes off the funding of a defaulted invoice: the funded amount
    /// leaves both the outstanding fundings and the pool's deposits, while
    /// the shares issued stay as they were, so a default lowers the share
    /// price and the providers bear the loss pro rata. The funds the escrow
    /// sends back are not added to the deposits. Only the invoice contract
    /// may call. Returns the call that settles the escrow, or none where the
    /// invoice has no outstanding funding.
    pub fn handle_default(&mut self, ctx: &CallContext, invoice_id: &InvoiceId) -> (r: Result<
        Option<DefaultSettlement>,
        PoolError,
    >)
        requires
            old(self).wf(),
        ensures
            final(self).wf(),
            match r {
                Ok(Some(d)) => {
                    let funded = old(self).funded@[invoice_id@];
                    &&& old(self).default_outcome(ctx, invoice_id@) == Ok::<Option<u128>, PoolError>(
                        Some(d.amount),
                    )
                    &&& d.escrow@ == old(self).escrow_contract->0@
                    &&& final(self).funded@ == old(self).funded@.remove(invoice_id@)
                    &&& *final(self) == PoolContract {
                        total_deposits: (old(self).total_deposits - funded) as u128,
                        total_funded: (old(self).total_funded - funded) as u128,
                        active_invoice_count: (old(self).active_invoice_count - 1) as u32,
                        funded: final(self).funded,
                        ..*old(self)
                    }
                },
                Ok(None) => {
                    &&& old(self).default_outcome(ctx, invoice_id@) == Ok::<Option<u128>, PoolError>(
                        None,
                    )
                    &&& *final(self) == *old(self)
                },
                Err(e) => {
                    &&& old(self).default_outcome(ctx, invoice_id@) == Err::<Option<u128>, PoolError>(
                        e,
                    )
                    &&& *final(self) == *old(self)
                },
            },
    {
        let invoice_contract = match &self.invoice_contract {
            Some(a) => a,
            None => {
                return Err(PoolError::NotInitialized);
            },
        };
        if !ctx.has_signed(invoice_contract) {
            return Err(PoolError::Unauthorized);
        }
        let funded = match self.funded.get(invoice_id) {
            Some(v) => *v,
            None => {
                return Ok(None);
            },
        };
        let escrow = match &self.escrow_contract {
            Some(a) => a.duplicate(),
            None => {
                return Err(PoolError::NotInitialized);
            },
        };
        proof {
            self.lemma_funded_bounded(invoice_id@);
            self.funded.lemma_len();
        }
        self.total_funded = self.total_funded - funded;
        self.total_deposits = self.total_deposits - funded;
        self.active_invoice_count = self.active_invoice_count - 1;
        self.funded.remove(invoice_id);
        proof {
            self.funded.lemma_len();
            assert(self.funded@.dom() =~= old(self).funded@.dom().remove(invoice_id@));
        }
        Ok(Some(DefaultSettlement { escrow, amount: funded }))
    }

    /// The pool-wide figures; they cannot be given where the utilization
    /// leaves the range of its integer type.
    pub fn get_stats(&self) -> (r: Result<PoolStats, PoolError>)
        requires
            self.wf(),
        ensures
            self.total_funded * 10000 > u128::MAX <==> r == Err::<PoolStats, PoolError>(
                PoolError::Overflow,
            ),
            self.total_funded * 10000 <= u128::MAX ==> r is Ok,
            r matches Ok(st) ==> {
                &&& st.total_deposits == self.total_deposits
                &&& st.total_funded == self.total_funded
                &&& st.available_liquidity == self.available()
                &&& st.utilization_rate_bps == (if self.total_deposits == 0 {
                    0
                } else {
                    pro_rata(self.total_funded as int, 10000, self.total_deposits as int)
                })
                &&& st.total_yield_distributed == self.total_yield_distributed
                &&& st.active_invoice_count == self.active_invoice_count
                &&& st.total_shares == self.total_shares
                &&& st.max_utilization_bps == self.max_utilization_bps
            },
    {
        let td = self.total_deposits;
        let tf = self.total_funded;
        let scaled = match tf.checked_mul(BPS_DENOMINATOR) {
            Some(p) => p,
            None => {
                return Err(PoolError::Overflow);
            },
        };
        let utilization: u32 = if td == 0 {
            0
        } else {
            proof {
                lemma_pro_rata_bound(tf as int, 10000, td as int);
            }
            (scaled / td) as u32
        };
        Ok(PoolStats {
            total_deposits: td,
            total_funded: tf,
            available_liquidity: td - tf,
            utilization_rate_bps: utilization,
            total_yield_distributed: self.total_yield_distributed,
            active_invoice_count: self.active_invoice_count,
            total_shares: self.total_shares,
            max_utilization_bps: self.max_utilization_bps,
        })
    }

    /// The value of an account's shares when the pool holds `deposits`
    /// against `shares` issued.
    pub open spec fn value_term(shares: int, deposits: int) -> spec_fn(LpAccount) -> int {
        |a: LpAccount|
            if shares > 0 && a.shares > 0 {
                pro_rata(a.shares as int, deposits, shares)
            } else {
                0
            }
    }

    /// The value of `lp`'s shares at the current share price.
    pub open spec fn position_value(&self, lp: Seq<u8>) -> int {
        Self::value_term(self.total_shares as int, self.total_deposits as int)(self.account(lp))
    }

    /// The sum of the values of all providers' positions.
    pub open spec fn positions_value(&self) -> int {
        self.lps.total(Self::value_term(self.total_shares as int, self.total_deposits as int))
    }

    proof fn lemma_values_scaled(s: Seq<(Address, LpAccount)>, ts: int, td: int)
        requires
            ts > 0,
            td >= 0,
        ensures
            sum_values(s, Self::value_term(ts, td)) * ts <= sum_values(s, Self::share_term()) * td,
            sum_values(s, Self::value_term(ts, td)) >= 0,
        decreases s.len(),
    {
        if s.len() > 0 {
            let rest = s.drop_last();
            Self::lemma_values_scaled(rest, ts, td);
            let a = s.last().1;
            let v = Self::value_term(ts, td)(a);
            let x = a.shares as int;
            let sv = sum_values(rest, Self::value_term(ts, td));
            let sx = sum_values(rest, Self::share_term());
            if x > 0 {
                lemma_floor_div(x * td, ts);
                assert(x * td >= 0) by (nonlinear_arith)
                    requires
                        x > 0,
                        td >= 0,
                ;
            }
            assert(v * ts <= x * td);
            assert(v >= 0);
            assert((sv + v) * ts <= (sx + x) * td) by (nonlinear_arith)
                requires
                    sv * ts <= sx * td,
                    v * ts <= x * td,
            ;
        }
    }

    /// The positions of all providers, each valued at the current share
    /// price, add up to at most the pool's deposits: the rounding of share
    /// values never hands providers more than the pool holds.
    pub proof fn lemma_positions_within_deposits(&self)
        requires
            self.wf(),
        ensures
            0 <= self.positions_value() <= self.total_deposits,
    {
        let ts = self.total_shares as int;
        let td = self.total_deposits as int;
        if ts > 0 {
            Self::lemma_values_scaled(self.lps.entries@, ts, td);
            let total = self.positions_value();
            assert(total * ts <= ts * td);
            assert(total <= td) by (nonlinear_arith)
                requires
                    total * ts <= ts * td,
                    ts > 0,
            ;
        } else {
            Self::lemma_values_zero(self.lps.entries@, td);
        }
    }

    proof fn lemma_values_zero(s: Seq<(Address, LpAccount)>, td: int)
        ensures
            sum_values(s, Self::value_term(0, td)) == 0,
        decreases s.len(),
    {
        if s.len() > 0 {
            Self::lemma_values_zero(s.drop_last(), td);
        }
    }

    /// The holding of `lp`, valued at the current share price; it cannot be
    /// given where that value leaves the range of its integer type.
    pub fn get_lp_position(&self, lp: &Address) -> (r: Result<LPPosition, PoolError>)
        requires
            self.wf(),
        ensures
            (self.total_shares > 0 && self.account(lp@).shares > 0 && self.account(lp@).shares
                * self.total_deposits > u128::MAX) <==> r == Err::<LPPosition, PoolError>(
                PoolError::Overflow,
            ),
            !(self.total_shares > 0 && self.account(lp@).shares > 0 && self.account(lp@).shares
                * self.total_deposits > u128::MAX) ==> r is Ok,
            r matches Ok(p) ==> {
                &&& p.shares == self.account(lp@).shares
                &&& p.usdc_value == self.position_value(lp@)
                &&& p.yield_earned == self.account(lp@).yield_earned
                &&& p.deposit_count == self.account(lp@).deposit_count
            },
    {
        let acct = self.account_of(lp);
        let ts = self.total_shares;
        let usdc_value = if ts > 0 && acct.shares > 0 {
            proof {
                self.lemma_account_shares_bounded(lp@);
            }
            match acct.shares.checked_mul(self.total_deposits) {
                Some(p) => {
                    proof {
                        lemma_pro_rata_bound(acct.shares as int, self.total_deposits as int, ts as int);
                    }
                    p / ts
                },
                None => {
                    return Err(PoolError::Overflow);
                },
            }
        } else {
            0
        };
        Ok(LPPosition {
            shares: acct.shares,
            usdc_value,
            yield_earned: acct.yield_earned,
            deposit_count: acct.deposit_count,
        })
    }

    /// The share of the deposits committed to fundings, in basis points; it
    /// cannot be given where the computation leaves the range of its integer type.
    pub fn get_utilization_rate(&self) -> (r: Result<u32, PoolError>)
        requires
            self.wf(),
        ensures
            (self.total_deposits != 0 && self.total_funded * 10000 > u128::MAX) <==> r == Err::<
                u32,
                PoolError,
            >(PoolError::Overflow),
            !(self.total_deposits != 0 && self.total_funded * 10000 > u128::MAX) ==> r is Ok,
            r matches Ok(u) ==> u == (if self.total_deposits == 0 {
                0
            } else {
                pro_rata(self.total_funded as int, 10000, self.total_deposits as int)
            }),
            r matches Ok(u) ==> u <= 10000,
    {
        let td = self.total_deposits;
        if td == 0 {
            return Ok(0);
        }
        match self.total_funded.checked_mul(BPS_DENOMINATOR) {
            Some(p) => {
                proof {
                    lemma_pro_rata_bound(self.total_funded as int, 10000, td as int);
                }
                Ok((p / td) as u32)
            },
            None => Err(PoolError::Overflow),
        }
    }

    /// Sets the utilization cap to `new_cap_bps`, at most the whole.
    /// The call must carry the authorization of `admin`.
    pub fn set_max_utilization(&mut self, ctx: &CallContext, admin: &Address, new_cap_bps: u32) -> (r:
        Result<(), PoolError>)
        requires
            old(self).wf(),
        ensures
            final(self).wf(),
            !ctx.authorized(admin@) ==> r == Err::<(), PoolError>(PoolError::Unauthorized),
            ctx.authorized(admin@) && new_cap_bps > 10000 ==> r == Err::<(), PoolError>(
                PoolError::InvalidAmount,
            ),
            ctx.authorized(admin@) && new_cap_bps <= 10000 ==> (r is Ok),
            r is Ok ==> (*final(self) == (PoolContract { max_utilization_bps: new_cap_bps, ..*old(self) })),
            r is Err ==> *final(self) == *old(self),
    {
        if !ctx.has_signed(admin) {
            return Err(PoolError::Unauthorized);
        }
        if new_cap_bps > 10000 {
            return Err(PoolError::InvalidAmount);
        }
        self.max_utilization_bps = new_cap_bps;
        Ok(())
    }
}

} // verus!
