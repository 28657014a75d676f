use trusttrove::escrow::{EscrowAction, EscrowContract, EscrowError};
use trusttrove::ledger::{Address, CallContext, InvoiceId, Transfer};
use std::collections::HashMap;

/// The token the escrow's tests run against: it moves an amount without
/// looking at the sender's balance, and a missing balance reads as zero.
struct LooseToken {
    balances: HashMap<Vec<u8>, i128>,
}

impl LooseToken {
    fn new() -> LooseToken {
        LooseToken { balances: HashMap::new() }
    }

    fn set_balance(&mut self, a: &Address, amount: i128) {
        self.balances.insert(a.xdr.clone(), amount);
    }

    fn balance(&self, a: &Address) -> i128 {
        *self.balances.get(&a.xdr).unwrap_or(&0)
    }

    fn transfer(&mut self, from: &Address, to: &Address, amount: i128) {
        let from_bal = self.balance(from);
        let to_bal = self.balance(to);
        self.set_balance(from, from_bal - amount);
        self.set_balance(to, to_bal + amount);
    }
}

fn account(n: u8) -> Address {
    let mut xdr = vec![0u8, 0, 0, 18, 0, 0, 0, 0, 0, 0, 0, 0];
    xdr.extend([n; 32]);
    Address::from_xdr(xdr)
}

fn contract(n: u8) -> Address {
    let mut xdr = vec![0u8, 0, 0, 18, 0, 0, 0, 1];
    xdr.extend([n; 32]);
    Address::from_xdr(xdr)
}

struct Setup {
    escrow: EscrowContract,
    token: LooseToken,
    admin: Address,
    pool: Address,
    usdc: Address,
    escrow_address: Address,
    now: u64,
}

impl Setup {
    fn new() -> Setup {
        let admin = account(1);
        let pool = account(2);
        let usdc = contract(50);
        let escrow_address = contract(40);
        let mut token = LooseToken::new();
        token.set_balance(&pool, 10_000_000_000_000);
        let mut escrow = EscrowContract::new();
        let ctx = CallContext { now: 0, signers: vec![admin.duplicate()], this: escrow_address.duplicate() };
        escrow
            .initialize(&ctx, admin.duplicate(), pool.duplicate(), pool.duplicate(), usdc.duplicate())
            .unwrap();
        Setup { escrow, token, admin, pool, usdc, escrow_address, now: 0 }
    }

    /// A context carrying every party's authorization, as the contract sees it.
    fn all(&self) -> CallContext {
        CallContext {
            now: self.now,
            signers: vec![self.admin.duplicate(), self.pool.duplicate()],
            this: self.escrow_address.duplicate(),
        }
    }

    fn apply(&mut self, t: &Transfer) {
        assert_eq!(t.asset, self.usdc);
        self.token.transfer(&t.from, &t.to, t.amount as i128);
    }

    fn lock(&mut self, id: &InvoiceId, amount: u128) -> Result<(), EscrowError> {
        let ctx = self.all();
        let t = self.escrow.lock(&ctx, id, amount)?;
        self.apply(&t);
        Ok(())
    }

    fn release_to_issuer(&mut self, id: &InvoiceId, issuer: &Address) -> Result<(), EscrowError> {
        let ctx = self.all();
        let t = self.escrow.release_to_issuer(&ctx, id, issuer)?;
        self.apply(&t);
        Ok(())
    }

    fn release_to_pool(&mut self, id: &InvoiceId, repayment: u128) -> Result<(), EscrowError> {
        let ctx = self.all();
        let t = self.escrow.release_to_pool(&ctx, id, repayment)?;
        self.apply(&t);
        Ok(())
    }

    fn handle_default(&mut self, id: &InvoiceId) -> Result<bool, EscrowError> {
        let ctx = self.all();
        match self.escrow.handle_default(&ctx, id)? {
            Some(t) => {
                self.apply(&t);
                Ok(true)
            },
            None => Ok(false),
        }
    }

    fn balance(&self, a: &Address) -> i128 {
        self.token.balance(a)
    }
}

fn invoice_id(counter: u64) -> InvoiceId {
    let mut arr = [0u8; 32];
    arr[0..8].copy_from_slice(&counter.to_be_bytes());
    InvoiceId::from_bytes(arr)
}

#[test]
fn test_initialize() {
    let admin = account(1);
    let mut escrow = EscrowContract::new();
    let ctx = CallContext { now: 0, signers: vec![admin.duplicate()], this: contract(40) };
    escrow
        .initialize(&ctx, admin.duplicate(), account(2), contract(20), contract(50))
        .unwrap();
    assert_eq!(escrow.get_locked(&invoice_id(1)), 0);
}

#[test]
fn test_lock_stores_record_and_transfers_usdc() {
    let mut s = Setup::new();
    let id = invoice_id(1);
    let amount: u128 = 1_000_000_000;
    let pool = s.pool.duplicate();
    let escrow = s.escrow_address.duplicate();
    let pool_before = s.balance(&pool);
    let escrow_before = s.balance(&escrow);
    assert!(s.lock(&id, amount).is_ok());
    assert_eq!(s.escrow.get_locked(&id), amount);
    assert_eq!(s.balance(&pool), pool_before - amount as i128);
    assert_eq!(s.balance(&escrow), escrow_before + amount as i128);
}

#[test]
fn test_lock_fails_if_already_locked() {
    let mut s = Setup::new();
    let id = invoice_id(2);
    s.lock(&id, 1_000_000_000).unwrap();
    assert_eq!(s.lock(&id, 500_000_000), Err(EscrowError::AlreadyLocked));
    assert_eq!(EscrowError::AlreadyLocked.code(), Some(4));
    assert_eq!(s.escrow.get_locked(&id), 1_000_000_000);
}

#[test]
fn test_lock_fails_zero_amount() {
    let mut s = Setup::new();
    assert_eq!(s.lock(&invoice_id(3), 0), Err(EscrowError::InvalidAmount));
    assert_eq!(EscrowError::InvalidAmount.code(), Some(5));
}

#[test]
fn test_lock_only_callable_by_pool() {
    let mut s = Setup::new();
    let id = invoice_id(4);
    let amount: u128 = 1_000_000_000;
    let admin_only = CallContext { now: 0, signers: vec![s.admin.duplicate()], this: s.escrow_address.duplicate() };
    assert!(matches!(s.escrow.lock(&admin_only, &id, amount), Err(EscrowError::Unauthorized)));
    assert_eq!(s.escrow.get_locked(&id), 0);
    assert!(s.lock(&id, amount).is_ok());
    assert_eq!(s.escrow.get_locked(&id), amount);
}

#[test]
fn test_release_to_issuer_sends_correct_amount() {
    let mut s = Setup::new();
    let id = invoice_id(5);
    let issuer = account(3);
    let amount: u128 = 1_000_000_000;
    s.lock(&id, amount).unwrap();
    let escrow = s.escrow_address.duplicate();
    let issuer_before = s.balance(&issuer);
    let escrow_before = s.balance(&escrow);
    assert!(s.release_to_issuer(&id, &issuer).is_ok());
    assert_eq!(s.escrow.get_locked(&id), 0);
    assert_eq!(s.balance(&issuer), issuer_before + amount as i128);
    assert_eq!(s.balance(&escrow), escrow_before - amount as i128);
}

#[test]
fn test_release_to_pool_sends_correct_amount() {
    let mut s = Setup::new();
    let id = invoice_id(6);
    let amount: u128 = 1_000_000_000;
    let repayment: u128 = 1_050_000_000;
    s.lock(&id, amount).unwrap();
    let pool = s.pool.duplicate();
    let escrow = s.escrow_address.duplicate();
    let pool_before = s.balance(&pool);
    let escrow_before = s.balance(&escrow);
    assert!(s.release_to_pool(&id, repayment).is_ok());
    assert_eq!(s.escrow.get_locked(&id), 0);
    assert_eq!(s.balance(&pool), pool_before + repayment as i128);
    assert_eq!(s.balance(&escrow), escrow_before - repayment as i128);
}

#[test]
fn test_handle_default_returns_funds_to_pool() {
    let mut s = Setup::new();
    let id = invoice_id(7);
    let amount: u128 = 1_000_000_000;
    s.lock(&id, amount).unwrap();
    let pool = s.pool.duplicate();
    let escrow = s.escrow_address.duplicate();
    let pool_before = s.balance(&pool);
    let escrow_before = s.balance(&escrow);
    assert_eq!(s.handle_default(&id), Ok(true));
    assert_eq!(s.escrow.get_locked(&id), 0);
    assert_eq!(s.balance(&pool), pool_before + amount as i128);
    assert_eq!(s.balance(&escrow), escrow_before - amount as i128);
}

#[test]
fn test_handle_default_returns_false_if_no_record() {
    let mut s = Setup::new();
    assert_eq!(s.handle_default(&invoice_id(8)), Ok(false));
}

#[test]
fn test_get_locked_returns_zero_when_empty() {
    let s = Setup::new();
    assert_eq!(s.escrow.get_locked(&invoice_id(9)), 0);
}

#[test]
fn test_get_locked_returns_zero_for_unknown_id() {
    let s = Setup::new();
    assert_eq!(s.escrow.get_locked(&invoice_id(999)), 0);
}

#[test]
fn test_get_locked_returns_amount_when_locked() {
    let mut s = Setup::new();
    let id = invoice_id(10);
    s.lock(&id, 1_000_000_000).unwrap();
    assert_eq!(s.escrow.get_locked(&id), 1_000_000_000);
}

#[test]
fn test_get_locked_returns_zero_after_release_to_issuer() {
    let mut s = Setup::new();
    let id = invoice_id(11);
    let issuer = account(3);
    s.lock(&id, 1_000_000_000).unwrap();
    assert_eq!(s.escrow.get_locked(&id), 1_000_000_000);
    s.release_to_issuer(&id, &issuer).unwrap();
    assert_eq!(s.escrow.get_locked(&id), 0);
}

#[test]
fn test_get_locked_returns_zero_after_release_to_pool() {
    let mut s = Setup::new();
    let id = invoice_id(12);
    s.lock(&id, 1_000_000_000).unwrap();
    assert_eq!(s.escrow.get_locked(&id), 1_000_000_000);
    s.release_to_pool(&id, 1_050_000_000).unwrap();
    assert_eq!(s.escrow.get_locked(&id), 0);
}

#[test]
fn test_multiple_invoices_independent() {
    let mut s = Setup::new();
    let id1 = invoice_id(13);
    let id2 = invoice_id(14);
    s.lock(&id1, 1_000_000_000).unwrap();
    s.lock(&id2, 2_000_000_000).unwrap();
    assert_eq!(s.escrow.get_locked(&id1), 1_000_000_000);
    assert_eq!(s.escrow.get_locked(&id2), 2_000_000_000);
    s.release_to_issuer(&id1, &account(3)).unwrap();
    assert_eq!(s.escrow.get_locked(&id1), 0);
    assert_eq!(s.escrow.get_locked(&id2), 2_000_000_000);
}

#[test]
fn test_lock_fails_duplicate() {
    let mut s = Setup::new();
    let id = invoice_id(15);
    s.lock(&id, 1_000_000_000).unwrap();
    assert_eq!(s.lock(&id, 500_000_000), Err(EscrowError::AlreadyLocked));
}

#[test]
fn partial_release_to_pool_keeps_the_rest_locked() {
    let mut s = Setup::new();
    let id = invoice_id(16);
    s.lock(&id, 1_000).unwrap();
    s.release_to_pool(&id, 400).unwrap();
    assert_eq!(s.escrow.get_locked(&id), 600);
    s.release_to_pool(&id, 600).unwrap();
    assert_eq!(s.escrow.get_locked(&id), 0);
    assert_eq!(s.release_to_pool(&id, 1), Err(EscrowError::NotFound));
}

#[test]
fn release_of_nothing_locked_or_zero_is_refused() {
    let mut s = Setup::new();
    let id = invoice_id(17);
    assert_eq!(s.release_to_issuer(&id, &account(3)), Err(EscrowError::NotFound));
    assert_eq!(EscrowError::NotFound.code(), Some(2));
    s.lock(&id, 1_000).unwrap();
    assert_eq!(s.release_to_pool(&id, 0), Err(EscrowError::InvalidAmount));
    assert_eq!(s.escrow.get_locked(&id), 1_000);
}

#[test]
fn uninitialized_escrow_refuses_to_lock() {
    let mut escrow = EscrowContract::new();
    let ctx = CallContext { now: 0, signers: vec![account(2)], this: contract(40) };
    assert!(matches!(escrow.lock(&ctx, &invoice_id(1), 10), Err(EscrowError::NotInitialized)));
    assert_eq!(EscrowError::NotInitialized.code(), Some(6));
}

#[test]
fn history_records_each_movement_in_order() {
    let mut s = Setup::new();
    let id = invoice_id(18);
    s.now = 100;
    s.lock(&id, 1_000).unwrap();
    s.now = 200;
    s.release_to_pool(&id, 300).unwrap();
    s.now = 300;
    assert_eq!(s.handle_default(&id), Ok(true));
    let history = s.escrow.get_history(&id);
    let actions: Vec<EscrowAction> = history.iter().map(|e| e.action).collect();
    assert_eq!(
        actions,
        vec![EscrowAction::Locked, EscrowAction::ReleasedToPool, EscrowAction::DefaultHandled]
    );
    let amounts: Vec<u128> = history.iter().map(|e| e.amount).collect();
    assert_eq!(amounts, vec![1_000, 300, 700]);
    let times: Vec<u64> = history.iter().map(|e| e.timestamp).collect();
    assert_eq!(times, vec![100, 200, 300]);
    assert!(s.escrow.get_history(&invoice_id(19)).is_empty());
}

#[test]
fn default_needs_the_admin_or_the_pool() {
    let mut s = Setup::new();
    let id = invoice_id(20);
    s.lock(&id, 1_000).unwrap();
    let stranger = CallContext { now: 0, signers: vec![account(9)], this: s.escrow_address.duplicate() };
    assert!(matches!(s.escrow.handle_default(&stranger, &id), Err(EscrowError::Unauthorized)));
    let admin = CallContext { now: 0, signers: vec![s.admin.duplicate()], this: s.escrow_address.duplicate() };
    assert!(matches!(s.escrow.handle_default(&admin, &id), Ok(Some(_))));
    assert_eq!(s.escrow.get_locked(&id), 0);
}
