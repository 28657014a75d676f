use proptest::test_runner::{Config as ProptestConfig, TestRunner};
use trusttrove::invoice::{
    derive_invoice_id, Invoice, InvoiceContract, InvoiceError, InvoiceStatus,
    DEFAULT_EXPIRY_WINDOW,
};
use trusttrove::ledger::{Address, CallContext, InvoiceId};
use trusttrove::registry::RegistryContract;

fn account(n: u8) -> Address {
    let mut xdr = vec![0u8, 0, 0, 18, 0, 0, 0, 0, 0, 0, 0, 0];
    xdr.extend([n; 32]);
    Address::from_xdr(xdr)
}

fn contract(n: u8) -> Address {
    let mut xdr = vec![0u8, 0, 0, 18, 0, 0, 0, 1];
    xdr.extend([n; 32]);
    Address::from_xdr(xdr)
}

const DAY: u64 = 86400;
const WEEK: u64 = 7 * 24 * 60 * 60;

struct Setup {
    env: soroban_sdk::Env,
    now: u64,
    invoices: InvoiceContract,
    registry: RegistryContract,
    admin: Address,
    issuer: Address,
    buyer: Address,
    usdc: Address,
}

impl Setup {
    fn new() -> Setup {
        let admin = account(1);
        let issuer = account(2);
        let buyer = account(3);
        let usdc = contract(50);
        let mut registry = RegistryContract::new();
        registry
            .initialize(&sign(0, &[&admin]), admin.duplicate())
            .unwrap();
        registry
            .register_issuer(&sign(0, &[&issuer]), issuer.duplicate(), Vec::new())
            .unwrap();
        registry
            .register_buyer(&sign(0, &[&buyer]), buyer.duplicate(), Vec::new())
            .unwrap();
        let mut invoices = InvoiceContract::new();
        invoices
            .initialize(&sign(0, &[&admin]), admin.duplicate(), contract(10))
            .unwrap();
        invoices
            .add_supported_asset(&sign(0, &[&admin]), usdc.duplicate())
            .unwrap();
        Setup {
            env: soroban_sdk::Env::default(),
            now: 0,
            invoices,
            registry,
            admin,
            issuer,
            buyer,
            usdc,
        }
    }

    fn ctx(&self, signers: &[&Address]) -> CallContext {
        sign(self.now, signers)
    }

    /// A context carrying every party's authorization.
    fn all(&self) -> CallContext {
        let pool = contract(30);
        self.ctx(&[&self.admin, &self.issuer, &self.buyer, &pool])
    }

    fn create_with(
        &mut self,
        issuer: &Address,
        buyer: &Address,
        face_value: u128,
        due_date: u64,
        asset: &Address,
    ) -> Result<InvoiceId, InvoiceError> {
        let ctx = self.all();
        let ctx = CallContext {
            signers: {
                let mut s = ctx.signers;
                s.push(issuer.duplicate());
                s
            },
            ..ctx
        };
        let iv = self.registry.is_verified(issuer);
        let bv = self.registry.is_verified(buyer);
        self.invoices.create(
            &self.env,
            &ctx,
            issuer.duplicate(),
            buyer.duplicate(),
            face_value,
            due_date,
            asset.duplicate(),
            iv,
            bv,
        )
    }

    fn create(&mut self, face_value: u128, due_date: u64) -> InvoiceId {
        let (issuer, buyer, usdc) = (self.issuer.duplicate(), self.buyer.duplicate(), self.usdc.duplicate());
        self.create_with(&issuer, &buyer, face_value, due_date, &usdc).unwrap()
    }

    fn list(&mut self, id: &InvoiceId, discount_bps: u32) -> Result<(), InvoiceError> {
        let ctx = self.all();
        self.invoices.list_for_financing(&ctx, id, discount_bps)
    }

    fn get(&self, id: &InvoiceId) -> &Invoice {
        self.invoices.get(id).unwrap()
    }

    fn set_pool(&mut self, pool: &Address) {
        let ctx = self.all();
        self.invoices.set_pool_contract(&ctx, pool.duplicate()).unwrap();
    }

    fn fund(&mut self, id: &InvoiceId, pool: &Address, asset: &Address, amount: u128) -> Result<(), InvoiceError> {
        let ctx = self.ctx(&[pool]);
        self.invoices.mark_funded(&ctx, id, pool, asset, amount)
    }

    fn ship(&mut self, id: &InvoiceId) -> Result<(), InvoiceError> {
        let ctx = self.all();
        self.invoices.mark_shipped(&ctx, id)
    }

    fn confirm(&mut self, id: &InvoiceId, who: &Address) -> Result<(), InvoiceError> {
        let ctx = self.ctx(&[who]);
        self.invoices.confirm_delivery(&ctx, id, who)
    }

    /// Creates, lists, funds by a pool in the invoice's asset, ships and
    /// confirms an invoice due in a day.
    fn confirmed_invoice(&mut self) -> (InvoiceId, Address) {
        let id = self.create(1_000_000_000, self.now + DAY);
        self.list(&id, 200).unwrap();
        let pool = contract(30);
        self.set_pool(&pool);
        let usdc = self.usdc.duplicate();
        self.fund(&id, &pool, &usdc, 980_000_000).unwrap();
        self.ship(&id).unwrap();
        let (issuer, buyer) = (self.issuer.duplicate(), self.buyer.duplicate());
        self.confirm(&id, &issuer).unwrap();
        self.confirm(&id, &buyer).unwrap();
        (id, pool)
    }
}

fn sign(now: u64, signers: &[&Address]) -> CallContext {
    CallContext { now, signers: signers.iter().map(|a| a.duplicate()).collect(), this: contract(20) }
}

#[test]
fn test_create_invoice_with_verified_parties() {
    let mut s = Setup::new();
    let face_value: u128 = 1_000_000_000;
    let due_date = s.now + DAY;
    let id = s.create(face_value, due_date);
    let invoice = s.get(&id);
    assert_eq!(invoice.issuer, s.issuer);
    assert_eq!(invoice.buyer, s.buyer);
    assert_eq!(invoice.face_value, face_value);
    assert_eq!(invoice.due_date, due_date);
    assert_eq!(invoice.status, InvoiceStatus::Created);
    assert_eq!(invoice.funding_asset, s.usdc);
    assert_eq!(invoice.funding_pool, None);
    assert!(!invoice.issuer_confirmed);
    assert!(!invoice.buyer_confirmed);
}

#[test]
fn test_create_fails_zero_face_value() {
    let mut s = Setup::new();
    let (issuer, buyer, usdc) = (s.issuer.duplicate(), s.buyer.duplicate(), s.usdc.duplicate());
    let r = s.create_with(&issuer, &buyer, 0, s.now + DAY, &usdc);
    assert_eq!(r, Err(InvoiceError::InvalidFaceValue));
    assert_eq!(InvoiceError::InvalidFaceValue.code(), Some(6));
}

#[test]
fn test_create_fails_past_due_date() {
    let mut s = Setup::new();
    s.now = 86400;
    let past_date = s.now - 1;
    let (issuer, buyer, usdc) = (s.issuer.duplicate(), s.buyer.duplicate(), s.usdc.duplicate());
    let r = s.create_with(&issuer, &buyer, 1_000_000_000, past_date, &usdc);
    assert_eq!(r, Err(InvoiceError::InvalidDueDate));
    assert_eq!(InvoiceError::InvalidDueDate.code(), Some(7));
}

#[test]
fn test_list_for_financing() {
    let mut s = Setup::new();
    let id = s.create(1_000_000_000, s.now + DAY);
    assert!(s.list(&id, 200).is_ok());
    let invoice = s.get(&id);
    assert_eq!(invoice.status, InvoiceStatus::Listed);
    assert_eq!(invoice.discount_bps, 200);
}

#[test]
fn test_list_fails_wrong_status() {
    let mut s = Setup::new();
    let id = s.create(1_000_000_000, s.now + DAY);
    s.list(&id, 200).unwrap();
    assert_eq!(s.list(&id, 300), Err(InvoiceError::InvalidStatusTransition));
    assert_eq!(InvoiceError::InvalidStatusTransition.code(), Some(8));
    assert_eq!(s.get(&id).discount_bps, 200);
}

#[test]
fn test_list_fails_discount_too_high() {
    let mut s = Setup::new();
    let id = s.create(1_000_000_000, s.now + DAY);
    assert_eq!(s.list(&id, 5001), Err(InvoiceError::DiscountTooHigh));
    assert_eq!(InvoiceError::DiscountTooHigh.code(), Some(9));
}

#[test]
fn test_full_lifecycle() {
    let mut s = Setup::new();
    let id = s.create(1_000_000_000, s.now + DAY);
    assert_eq!(s.get(&id).status, InvoiceStatus::Created);
    s.list(&id, 200).unwrap();
    assert_eq!(s.get(&id).status, InvoiceStatus::Listed);
    let pool = contract(30);
    s.set_pool(&pool);
    let usdc = s.usdc.duplicate();
    assert!(s.fund(&id, &pool, &usdc, 980_000_000).is_ok());
    assert_eq!(s.get(&id).status, InvoiceStatus::Funded);
    assert_eq!(s.get(&id).funding_pool, Some(pool.duplicate()));
    s.ship(&id).unwrap();
    assert_eq!(s.get(&id).status, InvoiceStatus::Active);
    let (issuer, buyer) = (s.issuer.duplicate(), s.buyer.duplicate());
    s.confirm(&id, &issuer).unwrap();
    assert_eq!(s.get(&id).status, InvoiceStatus::Active);
    assert!(s.get(&id).issuer_confirmed);
    assert!(!s.get(&id).buyer_confirmed);
    s.confirm(&id, &buyer).unwrap();
    assert_eq!(s.get(&id).status, InvoiceStatus::Confirmed);
    assert!(s.get(&id).issuer_confirmed);
    assert!(s.get(&id).buyer_confirmed);
}

#[test]
fn test_get_by_issuer_returns_correct_invoices() {
    let mut s = Setup::new();
    s.create(1_000_000_000, s.now + DAY);
    s.create(2_000_000_000, s.now + DAY);
    let invoices = s.invoices.get_by_issuer(&s.issuer, 0, 10);
    assert_eq!(invoices.len(), 2);
    let empty = s.invoices.get_by_issuer(&account(9), 0, 10);
    assert_eq!(empty.len(), 0);
}

#[test]
fn test_get_by_buyer_returns_correct_invoices() {
    let mut s = Setup::new();
    s.create(1_000_000_000, s.now + DAY);
    s.create(2_000_000_000, s.now + DAY);
    let invoices = s.invoices.get_by_buyer(&s.buyer, 0, 10);
    assert_eq!(invoices.len(), 2);
}

#[test]
fn test_get_by_status_returns_correct_invoices() {
    let mut s = Setup::new();
    s.create(1_000_000_000, s.now + DAY);
    s.create(2_000_000_000, s.now + DAY);
    let created = s.invoices.get_by_status(InvoiceStatus::Created, 0, 10);
    assert_eq!(created.len(), 2);
}

#[test]
fn test_get_unknown_panics() {
    let s = Setup::new();
    let fake_id = InvoiceId::from_bytes([0u8; 32]);
    assert!(matches!(s.invoices.get(&fake_id), Err(InvoiceError::NotFound)));
    assert_eq!(InvoiceError::NotFound.code(), Some(2));
}

#[test]
fn test_dual_confirmation_both_must_confirm() {
    let mut s = Setup::new();
    let id = s.create(1_000_000_000, s.now + DAY);
    s.list(&id, 200).unwrap();
    let pool = contract(30);
    s.set_pool(&pool);
    let usdc = s.usdc.duplicate();
    s.fund(&id, &pool, &usdc, 980_000_000).unwrap();
    s.ship(&id).unwrap();
    let (issuer, buyer) = (s.issuer.duplicate(), s.buyer.duplicate());
    s.confirm(&id, &issuer).unwrap();
    let inv = s.get(&id);
    assert_eq!(inv.status, InvoiceStatus::Active);
    assert!(inv.issuer_confirmed);
    assert!(!inv.buyer_confirmed);
    s.confirm(&id, &buyer).unwrap();
    let inv = s.get(&id);
    assert_eq!(inv.status, InvoiceStatus::Confirmed);
    assert!(inv.issuer_confirmed);
    assert!(inv.buyer_confirmed);
}

#[test]
fn test_confirm_by_both_transitions_to_confirmed() {
    let mut s = Setup::new();
    let (id, _) = s.confirmed_invoice();
    assert_eq!(s.get(&id).status, InvoiceStatus::Confirmed);
}

#[test]
fn test_confirm_delivery_wrong_party_panics() {
    let mut s = Setup::new();
    let stranger = account(9);
    let buyer = account(4);
    s.registry.register_buyer(&sign(0, &[&buyer]), buyer.duplicate(), Vec::new()).unwrap();
    let (issuer, usdc) = (s.issuer.duplicate(), s.usdc.duplicate());
    let id = s.create_with(&issuer, &buyer, 1_000_000_000, s.now + DAY, &usdc).unwrap();
    s.list(&id, 200).unwrap();
    let pool = contract(30);
    s.set_pool(&pool);
    s.fund(&id, &pool, &usdc, 980_000_000).unwrap();
    s.ship(&id).unwrap();
    assert_eq!(s.confirm(&id, &stranger), Err(InvoiceError::NotAuthorized));
    assert_eq!(InvoiceError::NotAuthorized.code(), Some(3));
}

#[test]
fn test_trigger_default_requires_past_due_date() {
    let mut s = Setup::new();
    let due_date = s.now + DAY;
    let (id, pool) = s.confirmed_invoice();
    s.now = due_date + 1;
    let ctx = s.ctx(&[&s.admin]);
    let result = s.invoices.trigger_default(&ctx, &id);
    assert_eq!(result, Ok(pool));
    assert_eq!(s.get(&id).status, InvoiceStatus::Defaulted);
}

#[test]
fn test_get_by_status_filters_correctly() {
    let mut s = Setup::new();
    let id1 = s.create(1_000_000_000, s.now + DAY);
    s.create(2_000_000_000, s.now + DAY);
    assert_eq!(s.invoices.get_by_status(InvoiceStatus::Created, 0, 10).len(), 2);
    s.list(&id1, 200).unwrap();
    assert_eq!(s.invoices.get_by_status(InvoiceStatus::Created, 0, 10).len(), 1);
    assert_eq!(s.invoices.get_by_status(InvoiceStatus::Listed, 0, 10).len(), 1);
}

#[test]
fn test_double_confirmation_panics() {
    let mut s = Setup::new();
    let id = s.create(1_000_000_000, s.now + DAY);
    s.list(&id, 200).unwrap();
    let pool = contract(30);
    s.set_pool(&pool);
    let usdc = s.usdc.duplicate();
    s.fund(&id, &pool, &usdc, 980_000_000).unwrap();
    s.ship(&id).unwrap();
    let issuer = s.issuer.duplicate();
    s.confirm(&id, &issuer).unwrap();
    assert_eq!(s.confirm(&id, &issuer), Err(InvoiceError::AlreadyConfirmed));
    assert_eq!(InvoiceError::AlreadyConfirmed.code(), Some(10));
}

#[test]
fn test_status_transitions_full_lifecycle() {
    let mut s = Setup::new();
    let id = s.create(1_000_000_000, s.now + DAY);
    assert_eq!(s.get(&id).status, InvoiceStatus::Created);
    s.list(&id, 200).unwrap();
    assert_eq!(s.get(&id).status, InvoiceStatus::Listed);
    let pool = contract(30);
    s.set_pool(&pool);
    let usdc = s.usdc.duplicate();
    s.fund(&id, &pool, &usdc, 980_000_000).unwrap();
    assert_eq!(s.get(&id).status, InvoiceStatus::Funded);
    s.ship(&id).unwrap();
    assert_eq!(s.get(&id).status, InvoiceStatus::Active);
    let (issuer, buyer) = (s.issuer.duplicate(), s.buyer.duplicate());
    s.confirm(&id, &issuer).unwrap();
    s.confirm(&id, &buyer).unwrap();
    assert_eq!(s.get(&id).status, InvoiceStatus::Confirmed);
}

#[test]
fn test_mark_funded_fails_asset_mismatch() {
    let mut s = Setup::new();
    let id = s.create(1_000_000_000, s.now + DAY);
    s.list(&id, 200).unwrap();
    let xlm = contract(51);
    let xlm_pool = contract(31);
    s.set_pool(&xlm_pool);
    assert_eq!(s.fund(&id, &xlm_pool, &xlm, 980_000_000), Err(InvoiceError::UnsupportedAsset));
    assert_eq!(InvoiceError::UnsupportedAsset.code(), Some(13));
    assert_eq!(s.get(&id).status, InvoiceStatus::Listed);
}

#[test]
fn test_mark_funded_succeeds_with_matching_asset() {
    let mut s = Setup::new();
    let id = s.create(1_000_000_000, s.now + DAY);
    s.list(&id, 200).unwrap();
    let pool = contract(30);
    s.set_pool(&pool);
    let usdc = s.usdc.duplicate();
    assert!(s.fund(&id, &pool, &usdc, 980_000_000).is_ok());
    let inv = s.get(&id);
    assert_eq!(inv.funding_pool, Some(pool));
    assert_eq!(inv.funded_amount, 980_000_000);
}

#[test]
fn test_create_invoice_with_xlm_asset() {
    let mut s = Setup::new();
    let xlm_asset = contract(51);
    let ctx = s.ctx(&[&s.admin]);
    s.invoices.add_supported_asset(&ctx, xlm_asset.duplicate()).unwrap();
    let (issuer, buyer) = (s.issuer.duplicate(), s.buyer.duplicate());
    let id = s.create_with(&issuer, &buyer, 1_000_000_000, s.now + DAY, &xlm_asset).unwrap();
    let invoice = s.get(&id);
    assert_eq!(invoice.funding_asset, xlm_asset);
    assert_eq!(invoice.status, InvoiceStatus::Created);
}

#[test]
fn test_get_funding_asset_returns_correct_asset() {
    let mut s = Setup::new();
    let id = s.create(1_000_000_000, s.now + DAY);
    assert_eq!(*s.invoices.get_funding_asset(&id).unwrap(), s.usdc);
}

#[test]
fn test_expire_listing_succeeds_by_issuer() {
    let mut s = Setup::new();
    let id = s.create(1_000_000_000, s.now + DAY);
    s.list(&id, 200).unwrap();
    s.now += WEEK + 1;
    let ctx = s.ctx(&[&s.issuer]);
    assert!(s.invoices.expire_listing(&ctx, &id).is_ok());
    assert_eq!(s.get(&id).status, InvoiceStatus::Expired);
}

#[test]
fn test_expire_listing_succeeds_by_admin() {
    let mut s = Setup::new();
    let id = s.create(1_000_000_000, s.now + DAY);
    s.list(&id, 200).unwrap();
    s.now += WEEK + 1;
    let ctx = s.ctx(&[&s.admin]);
    assert!(s.invoices.expire_listing(&ctx, &id).is_ok());
    assert_eq!(s.get(&id).status, InvoiceStatus::Expired);
}

#[test]
fn test_expire_listing_unauthorized_caller_panics() {
    let mut s = Setup::new();
    let id = s.create(1_000_000_000, s.now + DAY);
    s.list(&id, 200).unwrap();
    s.now += WEEK + 1;
    let ctx = s.ctx(&[]);
    assert_eq!(s.invoices.expire_listing(&ctx, &id), Err(InvoiceError::Unauthorized));
    assert_eq!(s.get(&id).status, InvoiceStatus::Listed);
}

#[test]
fn test_expire_listing_early_panics() {
    let mut s = Setup::new();
    let id = s.create(1_000_000_000, s.now + DAY);
    s.list(&id, 200).unwrap();
    s.now += 5 * 24 * 60 * 60;
    let ctx = s.all();
    assert_eq!(s.invoices.expire_listing(&ctx, &id), Err(InvoiceError::ListingNotExpired));
    assert_eq!(InvoiceError::ListingNotExpired.code(), Some(14));
}

#[test]
fn test_expire_listing_wrong_status_panics() {
    let mut s = Setup::new();
    let id = s.create(1_000_000_000, s.now + DAY);
    s.now += WEEK + 1;
    let ctx = s.all();
    assert_eq!(s.invoices.expire_listing(&ctx, &id), Err(InvoiceError::InvalidStatusTransition));
}

#[test]
fn test_expire_listing_configurable_window() {
    let mut s = Setup::new();
    let id = s.create(1_000_000_000, s.now + DAY);
    s.list(&id, 200).unwrap();
    let ctx = s.all();
    s.invoices.set_expiry_window(&ctx, 86400).unwrap();
    assert_eq!(s.invoices.get_expiry_window(), 86400);
    s.now += 86400 + 1;
    let ctx = s.all();
    assert!(s.invoices.expire_listing(&ctx, &id).is_ok());
    assert_eq!(s.get(&id).status, InvoiceStatus::Expired);
}

#[test]
fn test_expire_listing_stranger_no_auth_panics() {
    let mut s = Setup::new();
    let id = s.create(1_000_000_000, s.now + DAY);
    s.list(&id, 200).unwrap();
    s.now += WEEK + 1;
    let stranger = account(9);
    let ctx = s.ctx(&[&stranger]);
    assert_eq!(s.invoices.expire_listing(&ctx, &id), Err(InvoiceError::Unauthorized));
}

#[test]
fn test_get_status_reflects_current_status() {
    let mut s = Setup::new();
    let id = s.create(1_000_000_000, s.now + DAY);
    assert_eq!(s.invoices.get_status(&id), Ok(InvoiceStatus::Created.code()));
    assert_eq!(InvoiceStatus::Created.code(), 0);
    s.list(&id, 200).unwrap();
    assert_eq!(s.invoices.get_status(&id), Ok(InvoiceStatus::Listed.code()));
    assert_eq!(InvoiceStatus::Listed.code(), 1);
}

#[test]
fn test_get_face_value_from_field_key() {
    let mut s = Setup::new();
    let face_value: u128 = 5_000_000_000;
    let id = s.create(face_value, s.now + DAY);
    assert_eq!(s.invoices.get_face_value(&id), Ok(face_value));
}

#[test]
fn test_get_discount_bps_from_field_key() {
    let mut s = Setup::new();
    let id = s.create(1_000_000_000, s.now + DAY);
    assert_eq!(s.invoices.get_discount_bps(&id), Ok(0u32));
    s.list(&id, 350).unwrap();
    assert_eq!(s.invoices.get_discount_bps(&id), Ok(350u32));
}

#[test]
fn test_get_funding_asset_from_field_key() {
    let mut s = Setup::new();
    let id = s.create(1_000_000_000, s.now + DAY);
    assert_eq!(*s.invoices.get_funding_asset(&id).unwrap(), s.usdc);
}

#[test]
fn test_invoice_ids_unique_for_different_buyers() {
    let mut s = Setup::new();
    let buyer2 = account(4);
    s.registry.register_buyer(&sign(0, &[&buyer2]), buyer2.duplicate(), Vec::new()).unwrap();
    let (issuer, buyer, usdc) = (s.issuer.duplicate(), s.buyer.duplicate(), s.usdc.duplicate());
    let id1 = s.create_with(&issuer, &buyer, 1_000_000_000, s.now + DAY, &usdc).unwrap();
    let id2 = s.create_with(&issuer, &buyer2, 1_000_000_000, s.now + DAY, &usdc).unwrap();
    assert_ne!(id1, id2);
}

#[test]
fn test_invoice_ids_unique_for_different_face_values() {
    let mut s = Setup::new();
    let id1 = s.create(1_000_000_000, s.now + DAY);
    let id2 = s.create(2_000_000_000, s.now + DAY);
    assert_ne!(id1, id2);
}

#[test]
fn prop_any_positive_face_value_creates_invoice_in_created_status() {
    let mut runner = TestRunner::new(ProptestConfig::with_cases(10));
    runner
        .run(&(1u128..=1_000_000_000_000_000u128), |face_value| {
            let mut s = Setup::new();
            let id = s.create(face_value, s.now + DAY);
            let inv = s.get(&id);
            assert_eq!(inv.face_value, face_value);
            assert_eq!(inv.status, InvoiceStatus::Created);
            assert!(!inv.issuer_confirmed);
            assert!(!inv.buyer_confirmed);
            assert_eq!(inv.funded_amount, 0);
            Ok(())
        })
        .unwrap();
}

#[test]
fn prop_any_future_due_date_creates_invoice_successfully() {
    let mut runner = TestRunner::new(ProptestConfig::with_cases(10));
    runner
        .run(&(1u64..=31_536_000u64), |offset| {
            let mut s = Setup::new();
            let due_date = s.now + offset;
            let id = s.create(1_000_000_000, due_date);
            let inv = s.get(&id);
            assert_eq!(inv.due_date, due_date);
            assert_eq!(inv.status, InvoiceStatus::Created);
            Ok(())
        })
        .unwrap();
}

#[test]
fn prop_discount_bps_within_limit_always_lists_invoice() {
    let mut runner = TestRunner::new(ProptestConfig::with_cases(10));
    runner
        .run(&(0u32..=5000u32), |discount_bps| {
            let mut s = Setup::new();
            let id = s.create(1_000_000_000, s.now + DAY);
            assert!(s.list(&id, discount_bps).is_ok());
            let inv = s.get(&id);
            assert_eq!(inv.discount_bps, discount_bps);
            assert_eq!(inv.status, InvoiceStatus::Listed);
            Ok(())
        })
        .unwrap();
}

#[test]
fn prop_invoice_id_is_deterministic_for_same_inputs() {
    let mut runner = TestRunner::new(ProptestConfig::with_cases(10));
    runner
        .run(&(1u128..=1_000_000_000_000u128), |face_value| {
            let mut s = Setup::new();
            let id1 = s.create(face_value, s.now + DAY);
            let inv = s.get(&id1);
            assert_eq!(inv.id, id1);
            assert_eq!(inv.face_value, face_value);
            Ok(())
        })
        .unwrap();
}

#[test]
fn prop_expiry_window_bounds_are_respected_across_values() {
    let mut runner = TestRunner::new(ProptestConfig::with_cases(10));
    runner
        .run(&(1u64..=2_592_000u64), |window| {
            let mut s = Setup::new();
            let ctx = s.all();
            s.invoices.set_expiry_window(&ctx, window).unwrap();
            assert_eq!(s.invoices.get_expiry_window(), window);
            let id = s.create(1_000_000_000, s.now + window + 86_400);
            s.list(&id, 200).unwrap();
            s.now += window + 1;
            let ctx = s.all();
            assert!(s.invoices.expire_listing(&ctx, &id).is_ok());
            assert_eq!(s.get(&id).status, InvoiceStatus::Expired);
            Ok(())
        })
        .unwrap();
}

#[test]
fn test_add_supported_asset() {
    let mut s = Setup::new();
    let asset = contract(52);
    assert!(!s.invoices.is_supported_asset(&asset));
    let ctx = s.all();
    s.invoices.add_supported_asset(&ctx, asset.duplicate()).unwrap();
    assert!(s.invoices.is_supported_asset(&asset));
    assert_eq!(s.invoices.get_supported_asset_count(), 2);
}

#[test]
fn test_add_supported_asset_idempotent() {
    let mut s = Setup::new();
    assert!(s.invoices.is_supported_asset(&s.usdc));
    let ctx = s.all();
    s.invoices.add_supported_asset(&ctx, s.usdc.duplicate()).unwrap();
    assert!(s.invoices.is_supported_asset(&s.usdc));
    assert_eq!(s.invoices.get_supported_asset_count(), 1);
}

#[test]
fn test_remove_supported_asset() {
    let mut s = Setup::new();
    let asset = contract(52);
    let ctx = s.all();
    s.invoices.add_supported_asset(&ctx, asset.duplicate()).unwrap();
    assert_eq!(s.invoices.get_supported_asset_count(), 2);
    s.invoices.remove_supported_asset(&ctx, &asset).unwrap();
    assert!(!s.invoices.is_supported_asset(&asset));
    assert_eq!(s.invoices.get_supported_asset_count(), 1);
    assert!(s.invoices.is_supported_asset(&s.usdc));
}

#[test]
fn test_remove_supported_asset_idempotent() {
    let mut s = Setup::new();
    let asset = contract(52);
    let ctx = s.all();
    s.invoices.remove_supported_asset(&ctx, &asset).unwrap();
    assert!(!s.invoices.is_supported_asset(&asset));
}

#[test]
fn test_create_fails_unsupported_asset() {
    let mut s = Setup::new();
    let unsupported = contract(53);
    let (issuer, buyer) = (s.issuer.duplicate(), s.buyer.duplicate());
    let r = s.create_with(&issuer, &buyer, 1_000_000_000, s.now + DAY, &unsupported);
    assert_eq!(r, Err(InvoiceError::UnsupportedAsset));
    assert_eq!(InvoiceError::UnsupportedAsset.code(), Some(13));
}

#[test]
fn test_create_succeeds_with_supported_asset() {
    let mut s = Setup::new();
    let id = s.create(1_000_000_000, s.now + DAY);
    assert_eq!(s.get(&id).funding_asset, s.usdc);
}

#[test]
fn test_create_fails_when_issuer_is_buyer() {
    let mut s = Setup::new();
    let (issuer, usdc) = (s.issuer.duplicate(), s.usdc.duplicate());
    let r = s.create_with(&issuer, &issuer, 1_000_000_000, s.now + DAY, &usdc);
    assert_eq!(r, Err(InvoiceError::IssuerIsBuyer));
    assert_eq!(InvoiceError::IssuerIsBuyer.code(), Some(18));
}

#[test]
fn test_add_then_remove_then_create_fails() {
    let mut s = Setup::new();
    let asset = contract(52);
    let ctx = s.all();
    s.invoices.add_supported_asset(&ctx, asset.duplicate()).unwrap();
    let (issuer, buyer) = (s.issuer.duplicate(), s.buyer.duplicate());
    let id = s.create_with(&issuer, &buyer, 1_000_000_000, s.now + DAY, &asset).unwrap();
    assert_eq!(s.get(&id).funding_asset, asset);
    s.invoices.remove_supported_asset(&ctx, &asset).unwrap();
    assert!(!s.invoices.is_supported_asset(&asset));
    let again = s.create_with(&issuer, &buyer, 1_000_000_000, s.now + DAY, &asset);
    assert_eq!(again, Err(InvoiceError::UnsupportedAsset));
    assert_eq!(s.get(&id).funding_asset, asset);
}

#[test]
fn test_status_index_all_keys_accessible_after_extension() {
    let mut s = Setup::new();
    s.create(1_000_000_000, s.now + DAY);
    s.create(2_000_000_000, s.now + DAY);
    s.create(3_000_000_000, s.now + DAY);
    assert_eq!(s.invoices.get_by_status(InvoiceStatus::Created, 0, 10).len(), 3);
}

#[test]
fn test_status_index_ttl_extension_across_transitions() {
    let mut s = Setup::new();
    let id1 = s.create(1_000_000_000, s.now + DAY);
    let id2 = s.create(2_000_000_000, s.now + DAY);
    assert_eq!(s.invoices.get_by_status(InvoiceStatus::Created, 0, 10).len(), 2);
    s.list(&id1, 200).unwrap();
    assert_eq!(s.invoices.get_by_status(InvoiceStatus::Created, 0, 10).len(), 1);
    assert_eq!(s.invoices.get_by_status(InvoiceStatus::Listed, 0, 10).len(), 1);
    s.list(&id2, 150).unwrap();
    assert_eq!(s.invoices.get_by_status(InvoiceStatus::Created, 0, 10).len(), 0);
    assert_eq!(s.invoices.get_by_status(InvoiceStatus::Listed, 0, 10).len(), 2);
}

#[test]
fn test_get_by_status_after_full_lifecycle_ttl_extension() {
    let mut s = Setup::new();
    let (id1, _) = s.confirmed_invoice();
    let confirmed = s.invoices.get_by_status(InvoiceStatus::Confirmed, 0, 10);
    assert_eq!(confirmed.len(), 1);
    assert_eq!(confirmed[0].id, id1);
}

#[test]
fn test_status_index_ttl_consistency_multiple_invoices_same_status() {
    let mut s = Setup::new();
    let id1 = s.create(1_000_000_000, s.now + DAY);
    let _id2 = s.create(2_000_000_000, s.now + DAY);
    let id3 = s.create(3_000_000_000, s.now + DAY);
    let _id4 = s.create(4_000_000_000, s.now + DAY);
    let _id5 = s.create(5_000_000_000, s.now + DAY);
    assert_eq!(s.invoices.get_by_status(InvoiceStatus::Created, 0, 10).len(), 5);
    assert_eq!(s.invoices.get_by_status(InvoiceStatus::Created, 1, 3).len(), 3);
    s.list(&id1, 200).unwrap();
    s.list(&id3, 200).unwrap();
    assert_eq!(s.invoices.get_by_status(InvoiceStatus::Created, 0, 10).len(), 3);
    assert_eq!(s.invoices.get_by_status(InvoiceStatus::Listed, 0, 10).len(), 2);
}

#[test]
fn test_uninitialized_invoice_create() {
    let s = Setup::new();
    let mut invoices = InvoiceContract::new();
    invoices.supported_assets.insert(s.usdc.duplicate(), ());
    let ctx = s.all();
    let r = invoices.create(
        &s.env,
        &ctx,
        s.issuer.duplicate(),
        s.buyer.duplicate(),
        1000,
        s.now + DAY,
        s.usdc.duplicate(),
        true,
        true,
    );
    assert_eq!(r, Err(InvoiceError::NotInitialized));
    assert_eq!(InvoiceError::NotInitialized.code(), Some(17));
}

#[test]
fn test_initialized_invoice_create_succeeds() {
    let mut s = Setup::new();
    let id = s.create(1000, s.now + DAY);
    let invoice = s.get(&id);
    assert_eq!(invoice.issuer, s.issuer);
    assert_eq!(invoice.buyer, s.buyer);
}

#[test]
fn invoice_id_is_the_digest_of_its_terms_and_counter() {
    let mut s = Setup::new();
    let due = s.now + DAY;
    let id0 = s.create(1_000_000_000, due);
    let id1 = s.create(1_000_000_000, due);
    let expect0 = derive_invoice_id(&s.env, &s.issuer, &s.buyer, 1_000_000_000, due, 0, &s.usdc);
    let expect1 = derive_invoice_id(&s.env, &s.issuer, &s.buyer, 1_000_000_000, due, 1, &s.usdc);
    assert_eq!(id0, expect0);
    assert_eq!(id1, expect1);
    assert_ne!(id0, id1);
}

#[test]
fn invoice_id_matches_an_independent_digest() {
    let s = Setup::new();
    let issuer = account(2);
    let buyer = account(3);
    let asset = contract(50);
    let face: u128 = 1_000_000_000;
    let due: u64 = 86_400;
    let counter: u64 = 7;
    let mut preimage: Vec<u8> = Vec::new();
    preimage.extend(issuer.xdr.iter());
    preimage.extend(buyer.xdr.iter());
    preimage.extend(face.to_be_bytes());
    preimage.extend(due.to_be_bytes());
    preimage.extend(counter.to_be_bytes());
    preimage.extend(asset.xdr.iter());
    let digest = s.env.crypto().sha256(&soroban_sdk::Bytes::from_slice(&s.env, &preimage)).to_array();
    let id = derive_invoice_id(&s.env, &issuer, &buyer, face, due, counter, &asset);
    assert_eq!(id.bytes, digest);
    assert_ne!(id.bytes, [0u8; 32]);
}

#[test]
fn create_requires_both_parties_verified_and_issuer_auth() {
    let mut s = Setup::new();
    let stranger = account(9);
    let (issuer, buyer, usdc) = (s.issuer.duplicate(), s.buyer.duplicate(), s.usdc.duplicate());
    assert_eq!(
        s.create_with(&stranger, &buyer, 1_000, s.now + DAY, &usdc),
        Err(InvoiceError::IssuerNotVerified)
    );
    assert_eq!(
        s.create_with(&issuer, &stranger, 1_000, s.now + DAY, &usdc),
        Err(InvoiceError::BuyerNotVerified)
    );
    let ctx = s.ctx(&[]);
    let r = s.invoices.create(
        &s.env,
        &ctx,
        issuer.duplicate(),
        buyer.duplicate(),
        1_000,
        s.now + DAY,
        usdc.duplicate(),
        true,
        true,
    );
    assert_eq!(r, Err(InvoiceError::Unauthorized));
    assert_eq!(s.invoices.get_by_issuer(&issuer, 0, 10).len(), 0);
}

#[test]
fn unconfirm_by_both_parties_or_admin_returns_to_active() {
    let mut s = Setup::new();
    let (id, _) = s.confirmed_invoice();
    let issuer_only = s.ctx(&[&s.issuer]);
    assert_eq!(s.invoices.unconfirm_delivery(&issuer_only, &id), Err(InvoiceError::Unauthorized));
    let both = s.ctx(&[&s.issuer, &s.buyer]);
    s.invoices.unconfirm_delivery(&both, &id).unwrap();
    let inv = s.get(&id);
    assert_eq!(inv.status, InvoiceStatus::Active);
    assert!(!inv.issuer_confirmed && !inv.buyer_confirmed);
    let (issuer, buyer) = (s.issuer.duplicate(), s.buyer.duplicate());
    s.confirm(&id, &issuer).unwrap();
    s.confirm(&id, &buyer).unwrap();
    let admin = s.ctx(&[&s.admin]);
    s.invoices.unconfirm_delivery(&admin, &id).unwrap();
    assert_eq!(s.get(&id).status, InvoiceStatus::Active);
    assert_eq!(
        s.invoices.unconfirm_delivery(&admin, &id),
        Err(InvoiceError::InvalidStatusTransition)
    );
}

#[test]
fn repay_asks_the_buyer_to_pay_the_face_value_to_the_pool() {
    let mut s = Setup::new();
    let (id, pool) = s.confirmed_invoice();
    let stranger = s.ctx(&[&s.issuer]);
    assert!(matches!(s.invoices.repay(&stranger, &id), Err(InvoiceError::Unauthorized)));
    let ctx = s.ctx(&[&s.buyer]);
    let payment = s.invoices.repay(&ctx, &id).unwrap();
    assert_eq!(payment.amount, 1_000_000_000);
    assert_eq!(payment.pool, pool);
    assert_eq!(payment.transfer.from, s.buyer);
    assert_eq!(payment.transfer.to, pool);
    assert_eq!(payment.transfer.asset, s.usdc);
    assert_eq!(payment.transfer.amount, 1_000_000_000);
    let inv = s.get(&id);
    assert_eq!(inv.status, InvoiceStatus::Repaid);
    assert_eq!(inv.repaid_amount, 1_000_000_000);
    assert!(matches!(s.invoices.repay(&ctx, &id), Err(InvoiceError::InvalidStatusTransition)));
}

#[test]
fn trigger_default_before_due_date_is_refused() {
    let mut s = Setup::new();
    let due_date = s.now + DAY;
    let (id, _) = s.confirmed_invoice();
    s.now = due_date;
    let ctx = s.ctx(&[&s.admin]);
    assert!(matches!(s.invoices.trigger_default(&ctx, &id), Err(InvoiceError::DueDateNotPassed)));
    assert_eq!(InvoiceError::DueDateNotPassed.code(), Some(11));
    let not_admin = s.ctx(&[&s.issuer]);
    s.now = due_date + 1;
    assert!(matches!(s.invoices.trigger_default(&not_admin, &id), Err(InvoiceError::Unauthorized)));
    assert_eq!(s.get(&id).status, InvoiceStatus::Confirmed);
}

#[test]
fn pages_of_an_index_follow_creation_order() {
    let mut s = Setup::new();
    let ids: Vec<InvoiceId> = (1..=5u128).map(|k| s.create(k * 1_000, s.now + DAY)).collect();
    let page = s.invoices.get_by_issuer(&s.issuer, 1, 3);
    let got: Vec<InvoiceId> = page.iter().map(|i| i.id).collect();
    assert_eq!(got, vec![ids[1], ids[2], ids[3]]);
    assert_eq!(s.invoices.get_by_issuer(&s.issuer, 4, 10).len(), 1);
    assert_eq!(s.invoices.get_by_issuer(&s.issuer, 9, 10).len(), 0);
    assert_eq!(s.invoices.get_by_buyer(&s.buyer, 0, 0).len(), 0);
}

#[test]
fn listing_needs_the_issuer_and_an_existing_invoice() {
    let mut s = Setup::new();
    let id = s.create(1_000, s.now + DAY);
    let ctx = s.ctx(&[&s.buyer]);
    assert_eq!(s.invoices.list_for_financing(&ctx, &id, 100), Err(InvoiceError::Unauthorized));
    let missing = InvoiceId::from_bytes([7u8; 32]);
    assert_eq!(s.list(&missing, 100), Err(InvoiceError::NotFound));
    assert_eq!(s.list(&id, 5000), Ok(()));
}

#[test]
fn expiry_window_defaults_to_a_week() {
    let s = Setup::new();
    assert_eq!(s.invoices.get_expiry_window(), DEFAULT_EXPIRY_WINDOW);
    assert_eq!(DEFAULT_EXPIRY_WINDOW, WEEK);
}

#[test]
fn only_the_recorded_pool_can_mark_an_invoice_funded() {
    let mut s = Setup::new();
    let id = s.create(1_000_000_000, s.now + DAY);
    s.list(&id, 200).unwrap();
    let usdc = s.usdc.duplicate();
    let pool = contract(30);
    assert_eq!(s.fund(&id, &pool, &usdc, 980_000_000), Err(InvoiceError::NotAuthorized));
    s.set_pool(&pool);
    let other = contract(31);
    assert_eq!(s.fund(&id, &other, &usdc, 980_000_000), Err(InvoiceError::NotAuthorized));
    assert_eq!(s.get(&id).status, InvoiceStatus::Listed);
    assert!(s.fund(&id, &pool, &usdc, 980_000_000).is_ok());
}

#[test]
fn recording_an_invoice_under_a_used_identifier_replaces_it() {
    let mut s = Setup::new();
    let (id, _pool) = s.confirmed_invoice();
    let other_issuer = account(7);
    let other_buyer = account(8);
    let ctx = s.ctx(&[]);
    let usdc = s.usdc.duplicate();
    s.invoices.record_invoice(
        &ctx,
        id,
        other_issuer.duplicate(),
        other_buyer.duplicate(),
        5_000,
        s.now + WEEK,
        usdc,
    );
    let inv = s.get(&id);
    assert_eq!(inv.status, InvoiceStatus::Created);
    assert_eq!(inv.issuer, other_issuer);
    assert_eq!(inv.buyer, other_buyer);
    assert_eq!(inv.face_value, 5_000);
    assert_eq!(inv.funding_pool, None);
    assert!(!inv.issuer_confirmed && !inv.buyer_confirmed);
    assert_eq!(inv.repaid_amount, 0);
    assert_eq!(s.invoices.get_by_issuer(&other_issuer, 0, 10).len(), 1);
    assert_eq!(s.invoices.get_by_buyer(&other_buyer, 0, 10).len(), 1);
    // The identifier entered the created status twice, and is listed once per entry.
    assert_eq!(s.invoices.get_by_status(InvoiceStatus::Created, 0, 10).len(), 2);
}

#[test]
fn unconfirm_by_the_admin_reopens_confirmation() {
    let mut s = Setup::new();
    let (id, _pool) = s.confirmed_invoice();
    let admin_ctx = s.ctx(&[&s.admin]);
    s.invoices.unconfirm_delivery(&admin_ctx, &id).unwrap();
    assert_eq!(s.get(&id).status, InvoiceStatus::Active);
    assert!(!s.get(&id).issuer_confirmed && !s.get(&id).buyer_confirmed);
    let (issuer, buyer) = (s.issuer.duplicate(), s.buyer.duplicate());
    s.confirm(&id, &issuer).unwrap();
    s.confirm(&id, &buyer).unwrap();
    assert_eq!(s.get(&id).status, InvoiceStatus::Confirmed);
}
