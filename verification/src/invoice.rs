//! The invoice contract: an invoice is created between two verified
//! parties, listed for financing, funded by a pool, shipped, confirmed by
//! both parties and repaid, or it defaults or its listing expires.

use vstd::prelude::*;
use crate::ledger::{Address, CallContext, InvoiceId, Transfer, TransferView};
use crate::table::Table;

verus! {

/// The highest discount an invoice may be listed at, in basis points.
pub const MAX_DISCOUNT_BPS: u32 = 5000;

/// How long a listing stays open before it may be expired, in seconds,
/// where the admin has set no other window.
pub const DEFAULT_EXPIRY_WINDOW: u64 = 604800;

/// The declaration that lets the library hold the host environment.
#[verifier::external_type_specification]
#[verifier::external_body]
pub struct ExEnv(soroban_sdk::Env);

/// The SHA-256 digest of `data`.
pub uninterp spec fn sha256_digest(data: Seq<u8>) -> Seq<u8>;

/// Calls `soroban_sdk::crypto::Crypto::sha256` on `data`, copied into host
/// bytes, and hands back the 32-byte digest. The contract claims that the
/// digest is a function of the bytes alone. It does not state that the host
/// completes the call: the host meters its work and aborts an invocation
/// whose budget is spent.
#[verifier::external_body]
fn sha256(env: &soroban_sdk::Env, data: &Vec<u8>) -> (r: [u8; 32])
    ensures
        r@ == sha256_digest(data@),
{
    env.crypto().sha256(&soroban_sdk::Bytes::from_slice(env, data.as_slice())).to_array()
}

/// The `n` low-order bytes of `x`, most significant first.
pub open spec fn be_bytes(x: nat, n: nat) -> Seq<u8>
    decreases n,
{
    if n == 0 {
        Seq::empty()
    } else {
        be_bytes(x / 256, (n - 1) as nat).push((x % 256) as u8)
    }
}

fn push_be_bytes(out: &mut Vec<u8>, x: u128, n: usize)
    ensures
        final(out)@ == old(out)@ + be_bytes(x as nat, n as nat),
    decreases n,
{
    if n == 0 {
        assert(old(out)@ + be_bytes(x as nat, 0) =~= old(out)@);
        return;
    }
    push_be_bytes(out, x / 256, n - 1);
    out.push((x % 256) as u8);
    proof {
        let prev = old(out)@ + be_bytes((x / 256) as nat, (n - 1) as nat);
        assert(be_bytes(x as nat, n as nat) == be_bytes((x / 256) as nat, (n - 1) as nat).push(
            (x % 256) as u8,
        ));
        assert(final(out)@ =~= old(out)@ + be_bytes(x as nat, n as nat));
    }
}

fn push_all(out: &mut Vec<u8>, bytes: &Vec<u8>)
    ensures
        final(out)@ == old(out)@ + bytes@,
{
    let n = bytes.len();
    let mut i: usize = 0;
    while i < n
        invariant
            n == bytes@.len(),
            i <= n,
            out@ == old(out)@ + bytes@.subrange(0, i as int),
        decreases n - i,
    {
        out.push(bytes[i]);
        i = i + 1;
        assert(out@ =~= old(out)@ + bytes@.subrange(0, i as int));
    }
    assert(bytes@.subrange(0, n as int) =~= bytes@);
}

/// The bytes an invoice identifier is the digest of: the encodings of the
/// issuer and the buyer, the face value (16 bytes), the due date and the
/// creation counter (8 bytes each, all big-endian), and the encoding of the
/// funding asset.
pub open spec fn id_preimage(
    issuer: Seq<u8>,
    buyer: Seq<u8>,
    face_value: u128,
    due_date: u64,
    counter: u64,
    asset: Seq<u8>,
) -> Seq<u8> {
    issuer + buyer + be_bytes(face_value as nat, 16) + be_bytes(due_date as nat, 8) + be_bytes(
        counter as nat,
        8,
    ) + asset
}

/// Derives the identifier of the invoice created with these terms as the
/// creation numbered `counter`.
pub fn derive_invoice_id(
    env: &soroban_sdk::Env,
    issuer: &Address,
    buyer: &Address,
    face_value: u128,
    due_date: u64,
    counter: u64,
    funding_asset: &Address,
) -> (r: InvoiceId)
    ensures
        r@ == sha256_digest(
            id_preimage(issuer@, buyer@, face_value, due_date, counter, funding_asset@),
        ),
{
    let mut data: Vec<u8> = Vec::new();
    push_all(&mut data, &issuer.xdr);
    push_all(&mut data, &buyer.xdr);
    push_be_bytes(&mut data, face_value, 16);
    push_be_bytes(&mut data, due_date as u128, 8);
    push_be_bytes(&mut data, counter as u128, 8);
    push_all(&mut data, &funding_asset.xdr);
    assert(data@ =~= id_preimage(issuer@, buyer@, face_value, due_date, counter, funding_asset@));
    InvoiceId { bytes: sha256(env, &data) }
}


/// The failures of the invoice contract.
#[derive(PartialEq, Eq, Structural, Clone, Copy, Debug)]
pub enum InvoiceError {
    AlreadyInitialized,
    NotFound,
    NotAuthorized,
    IssuerNotVerified,
    BuyerNotVerified,
    InvalidFaceValue,
    InvalidDueDate,
    InvalidStatusTransition,
    DiscountTooHigh,
    AlreadyConfirmed,
    DueDateNotPassed,
    UnsupportedAsset,
    ListingNotExpired,
    NotInitialized,
    IssuerIsBuyer,
    /// A required authorization is missing from the invocation.
    Unauthorized,
    /// An amount or a time left the range of its integer type.
    Overflow,
}

impl InvoiceError {
    /// The contract error number, for the failures that have one.
    pub open spec fn spec_code(self) -> Option<u32> {
        match self {
            InvoiceError::AlreadyInitialized => Some(1),
            InvoiceError::NotFound => Some(2),
            InvoiceError::NotAuthorized => Some(3),
            InvoiceError::IssuerNotVerified => Some(4),
            InvoiceError::BuyerNotVerified => Some(5),
            InvoiceError::InvalidFaceValue => Some(6),
            InvoiceError::InvalidDueDate => Some(7),
            InvoiceError::InvalidStatusTransition => Some(8),
            InvoiceError::DiscountTooHigh => Some(9),
            InvoiceError::AlreadyConfirmed => Some(10),
            InvoiceError::DueDateNotPassed => Some(11),
            InvoiceError::UnsupportedAsset => Some(13),
            InvoiceError::ListingNotExpired => Some(14),
            InvoiceError::NotInitialized => Some(17),
            InvoiceError::IssuerIsBuyer => Some(18),
            _ => None,
        }
    }

    /// The contract error number, for the failures that have one.
    pub fn code(&self) -> (r: Option<u32>)
        ensures
            r == self.spec_code(),
    {
        match self {
            InvoiceError::AlreadyInitialized => Some(1),
            InvoiceError::NotFound => Some(2),
            InvoiceError::NotAuthorized => Some(3),
            InvoiceError::IssuerNotVerified => Some(4),
            InvoiceError::BuyerNotVerified => Some(5),
            InvoiceError::InvalidFaceValue => Some(6),
            InvoiceError::InvalidDueDate => Some(7),
            InvoiceError::InvalidStatusTransition => Some(8),
            InvoiceError::DiscountTooHigh => Some(9),
            InvoiceError::AlreadyConfirmed => Some(10),
            InvoiceError::DueDateNotPassed => Some(11),
            InvoiceError::UnsupportedAsset => Some(13),
            InvoiceError::ListingNotExpired => Some(14),
            InvoiceError::NotInitialized => Some(17),
            InvoiceError::IssuerIsBuyer => Some(18),
            _ => None,
        }
    }
}

/// Where an invoice stands in its lifecycle.
#[derive(PartialEq, Eq, Structural, Clone, Copy, Debug)]
pub enum InvoiceStatus {
    Created,
    Listed,
    Funded,
    Active,
    Confirmed,
    Repaid,
    Defaulted,
    Expired,
}

impl InvoiceStatus {
    /// The number under which the status is reported.
    pub open spec fn spec_code(self) -> u32 {
        match self {
            InvoiceStatus::Created => 0,
            InvoiceStatus::Listed => 1,
            InvoiceStatus::Funded => 2,
            InvoiceStatus::Active => 3,
            InvoiceStatus::Confirmed => 4,
            InvoiceStatus::Repaid => 5,
            InvoiceStatus::Defaulted => 6,
            InvoiceStatus::Expired => 7,
        }
    }

    /// The number under which the status is reported.
    pub fn code(&self) -> (r: u32)
        ensures
            r == self.spec_code(),
            r < 8,
    {
        match self {
            InvoiceStatus::Created => 0,
            InvoiceStatus::Listed => 1,
            InvoiceStatus::Funded => 2,
            InvoiceStatus::Active => 3,
            InvoiceStatus::Confirmed => 4,
            InvoiceStatus::Repaid => 5,
            InvoiceStatus::Defaulted => 6,
            InvoiceStatus::Expired => 7,
        }
    }
}

/// The moves of the lifecycle: Created to Listed; Listed to Funded or
/// Expired; Funded to Active; Active to Confirmed and back; Confirmed to
/// Repaid; and Funded, Active or Confirmed to Defaulted.
pub open spec fn allowed_step(from: InvoiceStatus, to: InvoiceStatus) -> bool {
    match (from, to) {
        (InvoiceStatus::Created, InvoiceStatus::Listed) => true,
        (InvoiceStatus::Listed, InvoiceStatus::Funded) => true,
        (InvoiceStatus::Listed, InvoiceStatus::Expired) => true,
        (InvoiceStatus::Funded, InvoiceStatus::Active) => true,
        (InvoiceStatus::Active, InvoiceStatus::Confirmed) => true,
        (InvoiceStatus::Confirmed, InvoiceStatus::Active) => true,
        (InvoiceStatus::Confirmed, InvoiceStatus::Repaid) => true,
        (InvoiceStatus::Funded, InvoiceStatus::Defaulted) => true,
        (InvoiceStatus::Active, InvoiceStatus::Defaulted) => true,
        (InvoiceStatus::Confirmed, InvoiceStatus::Defaulted) => true,
        _ => false,
    }
}

/// An optional address, taken by its encoding.
pub open spec fn opt_view(a: Option<Address>) -> Option<Seq<u8>> {
    match a {
        Some(x) => Some(x@),
        None => None,
    }
}

fn opt_duplicate(a: &Option<Address>) -> (r: Option<Address>)
    ensures
        opt_view(r) == opt_view(*a),
{
    match a {
        Some(x) => Some(x.duplicate()),
        None => None,
    }
}

/// One invoice.
#[derive(Debug)]
pub struct Invoice {
    pub id: InvoiceId,
    pub issuer: Address,
    pub buyer: Address,
    pub face_value: u128,
    pub discount_bps: u32,
    pub funded_amount: u128,
    pub due_date: u64,
    pub status: InvoiceStatus,
    pub created_at: u64,
    pub listed_at: Option<u64>,
    pub funded_at: Option<u64>,
    pub shipped_at: Option<u64>,
    pub issuer_confirmed: bool,
    pub buyer_confirmed: bool,
    pub repaid_amount: u128,
    pub repaid_at: Option<u64>,
    pub funding_asset: Address,
    pub funding_pool: Option<Address>,
}

/// An invoice, its addresses taken by their encodings.
pub struct InvoiceView {
    pub id: Seq<u8>,
    pub issuer: Seq<u8>,
    pub buyer: Seq<u8>,
    pub face_value: u128,
    pub discount_bps: u32,
    pub funded_amount: u128,
    pub due_date: u64,
    pub status: InvoiceStatus,
    pub created_at: u64,
    pub listed_at: Option<u64>,
    pub funded_at: Option<u64>,
    pub shipped_at: Option<u64>,
    pub issuer_confirmed: bool,
    pub buyer_confirmed: bool,
    pub repaid_amount: u128,
    pub repaid_at: Option<u64>,
    pub funding_asset: Seq<u8>,
    pub funding_pool: Option<Seq<u8>>,
}

impl View for Invoice {
    type V = InvoiceView;

    open spec fn view(&self) -> InvoiceView {
        InvoiceView {
            id: self.id@,
            issuer: self.issuer@,
            buyer: self.buyer@,
            face_value: self.face_value,
            discount_bps: self.discount_bps,
            funded_amount: self.funded_amount,
            due_date: self.due_date,
            status: self.status,
            created_at: self.created_at,
            listed_at: self.listed_at,
            funded_at: self.funded_at,
            shipped_at: self.shipped_at,
            issuer_confirmed: self.issuer_confirmed,
            buyer_confirmed: self.buyer_confirmed,
            repaid_amount: self.repaid_amount,
            repaid_at: self.repaid_at,
            funding_asset: self.funding_asset@,
            funding_pool: opt_view(self.funding_pool),
        }
    }
}

impl Invoice {
    /// A second value holding the same invoice.
    pub fn duplicate(&self) -> (r: Invoice)
        ensures
            r@ == self@,
    {
        Invoice {
            id: self.id.duplicate(),
            issuer: self.issuer.duplicate(),
            buyer: self.buyer.duplicate(),
            face_value: self.face_value,
            discount_bps: self.discount_bps,
            funded_amount: self.funded_amount,
            due_date: self.due_date,
            status: self.status,
            created_at: self.created_at,
            listed_at: self.listed_at,
            funded_at: self.funded_at,
            shipped_at: self.shipped_at,
            issuer_confirmed: self.issuer_confirmed,
            buyer_confirmed: self.buyer_confirmed,
            repaid_amount: self.repaid_amount,
            repaid_at: self.repaid_at,
            funding_asset: self.funding_asset.duplicate(),
            funding_pool: opt_duplicate(&self.funding_pool),
        }
    }
}

/// What repaying an invoice asks for: the buyer pays `amount` of the
/// funding asset to the funding pool, and the pool is told of the repayment.
pub struct Repayment {
    pub transfer: Transfer,
    pub pool: Address,
    pub amount: u128,
}

/// A list of invoice identifiers, taken by their bytes.
pub open spec fn ids_view(v: Seq<InvoiceId>) -> Seq<Seq<u8>> {
    v.map_values(|i: InvoiceId| i@)
}

/// The part of `s` that a page of at most `limit` items starting at `offset` shows.
pub open spec fn page<T>(s: Seq<T>, offset: int, limit: int) -> Seq<T> {
    let start = if offset < s.len() { offset } else { s.len() as int };
    let end = if start + limit < s.len() { start + limit } else { s.len() as int };
    s.subrange(start, end)
}

/// The identifiers in `ids` of the invoices that are currently in `status`,
/// in order, with repetitions kept.
pub open spec fn members(ids: Seq<Seq<u8>>, invoices: Map<Seq<u8>, InvoiceView>, status: InvoiceStatus) -> Seq<
    Seq<u8>,
>
    decreases ids.len(),
{
    if ids.len() == 0 {
        Seq::empty()
    } else {
        let rest = members(ids.drop_last(), invoices, status);
        let id = ids.last();
        if invoices.contains_key(id) && invoices[id].status == status {
            rest.push(id)
        } else {
            rest
        }
    }
}

proof fn lemma_push_contains<T>(s: Seq<T>, x: T, y: T)
    ensures
        s.push(x).contains(y) == (s.contains(y) || y == x),
{
    if s.contains(y) {
        let i = choose|i: int| 0 <= i < s.len() && s[i] == y;
        assert(s.push(x)[i] == y);
    }
    assert(s.push(x)[s.len() as int] == x);
    if s.push(x).contains(y) && y != x {
        let i = choose|i: int| 0 <= i < s.len() + 1 && s.push(x)[i] == y;
        assert(s[i] == y);
    }
}

/// Whether an invoice in `status` has been funded and is neither repaid
/// nor in default.
pub open spec fn outstanding(status: InvoiceStatus) -> bool {
    status == InvoiceStatus::Funded || status == InvoiceStatus::Active || status
        == InvoiceStatus::Confirmed
}

/// The state of the invoice contract.
pub struct InvoiceContract {
    pub admin: Option<Address>,
    pub registry_contract: Option<Address>,
    pub pool_contract: Option<Address>,
    /// The number of invoices created so far; set at initialization.
    pub counter: Option<u64>,
    pub expiry_window: Option<u64>,
    pub supported_assets: Table<Address, ()>,
    pub invoices: Table<InvoiceId, Invoice>,
    /// The invoices of each issuer, in order of creation.
    pub issuer_index: Table<Address, Vec<InvoiceId>>,
    /// The invoices of each buyer, in order of creation.
    pub buyer_index: Table<Address, Vec<InvoiceId>>,
    /// For each status code, the invoices in the order they entered that status.
    pub status_entries: Vec<Vec<InvoiceId>>,
}

impl InvoiceContract {
    /// The invoices, each taken by its view.
    pub open spec fn invoice_views(&self) -> Map<Seq<u8>, InvoiceView> {
        self.invoices@.map_values(|i: Invoice| i@)
    }

    /// The invoices listed under `key` in `index`, in order.
    pub open spec fn index_ids(index: Table<Address, Vec<InvoiceId>>, key: Seq<u8>) -> Seq<Seq<u8>> {
        if index@.contains_key(key) {
            ids_view(index@[key]@)
        } else {
            Seq::empty()
        }
    }

    /// The invoices in the order they entered `status`.
    pub open spec fn status_ids(&self, status: InvoiceStatus) -> Seq<Seq<u8>> {
        ids_view(self.status_entries@[status.spec_code() as int]@)
    }

    /// The entry lists of all statuses.
    pub open spec fn status_lists(&self) -> Seq<Seq<Seq<u8>>> {
        self.status_entries@.map_values(|v: Vec<InvoiceId>| ids_view(v@))
    }

    /// Whether `asset` may fund new invoices.
    pub open spec fn supports(&self, asset: Seq<u8>) -> bool {
        self.supported_assets@.contains_key(asset)
    }

    /// Every listed identifier names an invoice.
    pub open spec fn index_refers(&self, index: Table<Address, Vec<InvoiceId>>) -> bool {
        forall|k: Seq<u8>, j: int|
            0 <= j < Self::index_ids(index, k).len() ==> self.invoices@.contains_key(
                #[trigger] Self::index_ids(index, k)[j],
            )
    }

    /// Every invoice is listed under its issuer, under its buyer and under
    /// its current status.
    pub open spec fn indexed(&self) -> bool {
        forall|k: Seq<u8>| #[trigger]
            self.invoices@.contains_key(k) ==> {
                let inv = self.invoice_views()[k];
                &&& Self::index_ids(self.issuer_index, inv.issuer).contains(k)
                &&& Self::index_ids(self.buyer_index, inv.buyer).contains(k)
                &&& self.status_lists()[inv.status.spec_code() as int].contains(k)
            }
    }

    /// The consistency the contract keeps.
    pub open spec fn wf(&self) -> bool {
        &&& self.supported_assets.wf()
        &&& self.invoices.wf()
        &&& self.issuer_index.wf()
        &&& self.buyer_index.wf()
        &&& self.status_entries@.len() == 8
        &&& forall|k: Seq<u8>| #[trigger]
            self.invoices@.contains_key(k) ==> self.invoices@[k].id@ == k
        &&& forall|k: Seq<u8>| #[trigger]
            self.invoices@.contains_key(k) && self.invoices@[k].status == InvoiceStatus::Confirmed
                ==> self.invoices@[k].issuer_confirmed && self.invoices@[k].buyer_confirmed
        &&& forall|k: Seq<u8>| #[trigger]
            self.invoices@.contains_key(k) && self.invoices@[k].status != InvoiceStatus::Repaid
                ==> self.invoices@[k].repaid_amount == 0
        &&& forall|k: Seq<u8>| #[trigger]
            self.invoices@.contains_key(k) ==> self.invoices@[k].issuer@ != self.invoices@[k].buyer@
        &&& self.registry_contract is Some ==> self.admin is Some
        &&& forall|k: Seq<u8>| #[trigger]
            self.invoices@.contains_key(k) && self.invoices@[k].status == InvoiceStatus::Listed
                ==> self.invoices@[k].listed_at is Some
        &&& forall|k: Seq<u8>| #[trigger]
            self.invoices@.contains_key(k) && outstanding(self.invoices@[k].status)
                ==> self.invoices@[k].funding_pool is Some
        &&& forall|k: Seq<u8>| #[trigger] self.invoices@.contains_key(k) ==> self.admin is Some
        &&& self.index_refers(self.issuer_index)
        &&& self.index_refers(self.buyer_index)
        &&& forall|s: int, j: int|
            0 <= s < 8 && 0 <= j < self.status_lists()[s].len() ==> self.invoices@.contains_key(
                #[trigger] self.status_lists()[s][j],
            )
        &&& self.indexed()
    }

    /// Every invoice that `new` holds, `old` held too, in the same or the
    /// next status of the lifecycle, and none was dropped.
    pub open spec fn lifecycle_respected(old: Map<Seq<u8>, InvoiceView>, new: Map<Seq<u8>, InvoiceView>) -> bool {
        forall|k: Seq<u8>| #[trigger]
            old.contains_key(k) ==> new.contains_key(k) && (new[k].status == old[k].status
                || allowed_step(old[k].status, new[k].status))
    }

    proof fn lemma_wf_frame(a: &Self, b: &Self)
        requires
            a.wf(),
            b.supported_assets.wf(),
            b.invoices == a.invoices,
            b.issuer_index == a.issuer_index,
            b.buyer_index == a.buyer_index,
            b.status_entries == a.status_entries,
            a.admin is Some ==> b.admin is Some,
            b.registry_contract is Some ==> b.admin is Some,
        ensures
            b.wf(),
    {
        assert(b.status_lists() == a.status_lists());
    }

    /// A contract that has not been initialized.
    pub fn new() -> (r: Self)
        ensures
            r.wf(),
            r.admin is None,
            r.registry_contract is None,
            r.pool_contract is None,
            r.counter is None,
            r.expiry_window is None,
            r.supported_assets@ == Map::<Seq<u8>, ()>::empty(),
            r.invoice_views() == Map::<Seq<u8>, InvoiceView>::empty(),
            forall|k: Seq<u8>| Self::index_ids(r.issuer_index, k) == Seq::<Seq<u8>>::empty(),
            forall|k: Seq<u8>| Self::index_ids(r.buyer_index, k) == Seq::<Seq<u8>>::empty(),
            forall|c: int| 0 <= c < 8 ==> #[trigger] r.status_lists()[c] == Seq::<Seq<u8>>::empty(),
    {
        let mut status_entries: Vec<Vec<InvoiceId>> = Vec::new();
        let mut i: usize = 0;
        while i < 8
            invariant
                i <= 8,
                status_entries@.len() == i,
                forall|s: int| 0 <= s < i ==> (#[trigger] status_entries@[s])@.len() == 0,
            decreases 8 - i,
        {
            status_entries.push(Vec::new());
            i = i + 1;
        }
        let r = InvoiceContract {
            admin: None,
            registry_contract: None,
            pool_contract: None,
            counter: None,
            expiry_window: None,
            supported_assets: Table::new(),
            invoices: Table::new(),
            issuer_index: Table::new(),
            buyer_index: Table::new(),
            status_entries,
        };
        assert(r.invoice_views() =~= Map::<Seq<u8>, InvoiceView>::empty());
        assert forall|s: int, j: int|
            0 <= s < 8 && 0 <= j < r.status_lists()[s].len() implies r.invoices@.contains_key(
            #[trigger] r.status_lists()[s][j],
        ) by {
            assert(r.status_entries@[s]@.len() == 0);
        }
        r
    }

    /// What an admin-only call meets before it acts: an admin must be set and
    /// must have authorized the call.
    pub open spec fn admin_outcome(&self, ctx: &CallContext) -> Result<(), InvoiceError> {
        if self.admin is None {
            Err(InvoiceError::NotFound)
        } else if !ctx.authorized(self.admin->0@) {
            Err(InvoiceError::Unauthorized)
        } else {
            Ok(())
        }
    }

    fn check_admin(&self, ctx: &CallContext) -> (r: Result<(), InvoiceError>)
        ensures
            r == self.admin_outcome(ctx),
    {
        match &self.admin {
            Some(a) => {
                if ctx.has_signed(a) {
                    Ok(())
                } else {
                    Err(InvoiceError::Unauthorized)
                }
            },
            None => Err(InvoiceError::NotFound),
        }
    }

    /// Records the admin and the registry the contract consults, and starts
    /// the creation counter at zero.
    pub fn initialize(&mut self, ctx: &CallContext, admin: Address, registry_contract: Address) -> (r:
        Result<(), InvoiceError>)
        requires
            old(self).wf(),
        ensures
            final(self).wf(),
            old(self).admin is Some ==> r == Err::<(), InvoiceError>(InvoiceError::AlreadyInitialized),
            old(self).admin is None && !ctx.authorized(admin@) ==> r == Err::<(), InvoiceError>(
                InvoiceError::Unauthorized,
            ),
            old(self).admin is None && ctx.authorized(admin@) ==> (r is Ok),
            r is Err ==> *final(self) == *old(self),
            r is Ok ==> {
                &&& opt_view(final(self).admin) == Some(admin@)
                &&& opt_view(final(self).registry_contract) == Some(registry_contract@)
                &&& final(self).counter == Some(0u64)
                &&& *final(self) == (InvoiceContract {
                    admin: final(self).admin,
                    registry_contract: final(self).registry_contract,
                    counter: Some(0u64),
                    ..*old(self)
                })
            },
    {
        if self.admin.is_some() {
            return Err(InvoiceError::AlreadyInitialized);
        }
        if !ctx.has_signed(&admin) {
            return Err(InvoiceError::Unauthorized);
        }
        self.admin = Some(admin);
        self.registry_contract = Some(registry_contract);
        self.counter = Some(0);
        proof {
            Self::lemma_wf_frame(old(self), self);
        }
        Ok(())
    }

    /// Records the pool that funds invoices. Admin only.
    pub fn set_pool_contract(&mut self, ctx: &CallContext, pool_contract: Address) -> (r: Result<
        (),
        InvoiceError,
    >)
        requires
            old(self).wf(),
        ensures
            final(self).wf(),
            r == old(self).admin_outcome(ctx),
            r is Err ==> *final(self) == *old(self),
            r is Ok ==> {
                &&& opt_view(final(self).pool_contract) == Some(pool_contract@)
                &&& *final(self) == (InvoiceContract { pool_contract: final(self).pool_contract, ..*old(self) })
            },
    {
        self.check_admin(ctx)?;
        self.pool_contract = Some(pool_contract);
        proof {
            Self::lemma_wf_frame(old(self), self);
        }
        Ok(())
    }

    /// Lets `asset` fund new invoices; adding it again changes nothing. Admin only.
    pub fn add_supported_asset(&mut self, ctx: &CallContext, asset: Address) -> (r: Result<
        (),
        InvoiceError,
    >)
        requires
            old(self).wf(),
        ensures
            final(self).wf(),
            r == old(self).admin_outcome(ctx),
            r is Err ==> *final(self) == *old(self),
            r is Ok ==> {
                &&& final(self).supported_assets@.dom() == old(self).supported_assets@.dom().insert(asset@)
                &&& *final(self) == (InvoiceContract {
                    supported_assets: final(self).supported_assets,
                    ..*old(self)
                })
            },
    {
        self.check_admin(ctx)?;
        let ghost a = asset@;
        self.supported_assets.insert(asset, ());
        proof {
            assert(self.supported_assets@.dom() =~= old(self).supported_assets@.dom().insert(a));
            Self::lemma_wf_frame(old(self), self);
        }
        Ok(())
    }

    /// Stops `asset` from funding new invoices; existing invoices keep it. Admin only.
    pub fn remove_supported_asset(&mut self, ctx: &CallContext, asset: &Address) -> (r: Result<
        (),
        InvoiceError,
    >)
        requires
            old(self).wf(),
        ensures
            final(self).wf(),
            r == old(self).admin_outcome(ctx),
            r is Err ==> *final(self) == *old(self),
            r is Ok ==> {
                &&& final(self).supported_assets@.dom() == old(self).supported_assets@.dom().remove(asset@)
                &&& *final(self) == (InvoiceContract {
                    supported_assets: final(self).supported_assets,
                    ..*old(self)
                })
            },
    {
        self.check_admin(ctx)?;
        self.supported_assets.remove(asset);
        proof {
            assert(self.supported_assets@.dom() =~= old(self).supported_assets@.dom().remove(asset@));
            Self::lemma_wf_frame(old(self), self);
        }
        Ok(())
    }

    /// Whether `asset` may fund new invoices.
    pub fn is_supported_asset(&self, asset: &Address) -> (r: bool)
        requires
            self.wf(),
        ensures
            r == self.supports(asset@),
    {
        self.supported_assets.contains(asset)
    }

    /// The number of assets that may fund new invoices.
    pub fn get_supported_asset_count(&self) -> (r: usize)
        requires
            self.wf(),
        ensures
            r == self.supported_assets@.dom().len(),
    {
        self.supported_assets.len()
    }

    /// Sets how long a listing stays open before it may be expired. Admin only.
    pub fn set_expiry_window(&mut self, ctx: &CallContext, window: u64) -> (r: Result<(), InvoiceError>)
        requires
            old(self).wf(),
        ensures
            final(self).wf(),
            r == old(self).admin_outcome(ctx),
            r is Err ==> *final(self) == *old(self),
            r is Ok ==> *final(self) == (InvoiceContract { expiry_window: Some(window), ..*old(self) }),
    {
        self.check_admin(ctx)?;
        self.expiry_window = Some(window);
        proof {
            Self::lemma_wf_frame(old(self), self);
        }
        Ok(())
    }

    /// The expiry window in force.
    pub open spec fn window(&self) -> u64 {
        match self.expiry_window {
            Some(w) => w,
            None => DEFAULT_EXPIRY_WINDOW,
        }
    }

    /// How long a listing stays open before it may be expired, in seconds.
    pub fn get_expiry_window(&self) -> (r: u64)
        ensures
            r == self.window(),
    {
        match self.expiry_window {
            Some(w) => w,
            None => DEFAULT_EXPIRY_WINDOW,
        }
    }

    /// Succeeds exactly when `address` has authorized the call.
    pub fn check_auth(&self, ctx: &CallContext, address: &Address) -> (r: Result<(), InvoiceError>)
        ensures
            (r is Ok) == ctx.authorized(address@),
            r is Err ==> r == Err::<(), InvoiceError>(InvoiceError::Unauthorized),
    {
        if ctx.has_signed(address) {
            Ok(())
        } else {
            Err(InvoiceError::Unauthorized)
        }
    }

    fn index_push(index: &mut Table<Address, Vec<InvoiceId>>, key: &Address, id: InvoiceId)
        requires
            old(index).wf(),
        ensures
            final(index).wf(),
            forall|k: Seq<u8>|
                #[trigger] Self::index_ids(*final(index), k) == if k == key@ {
                    Self::index_ids(*old(index), k).push(id@)
                } else {
                    Self::index_ids(*old(index), k)
                },
    {
        let mut list = match index.remove(key) {
            Some(v) => v,
            None => Vec::new(),
        };
        let ghost before = list@;
        list.push(id);
        index.insert(key.duplicate(), list);
        proof {
            assert forall|k: Seq<u8>|
                #[trigger] Self::index_ids(*final(index), k) == if k == key@ {
                    Self::index_ids(*old(index), k).push(id@)
                } else {
                    Self::index_ids(*old(index), k)
                } by {
                if k == key@ {
                    assert(ids_view(before.push(id)) =~= ids_view(before).push(id@));
                    if !old(index)@.contains_key(k) {
                        assert(ids_view(before) =~= Seq::<Seq<u8>>::empty());
                    }
                }
            }
        }
    }

    fn record_status(&mut self, id: InvoiceId, to: InvoiceStatus)
        requires
            old(self).status_entries@.len() == 8,
        ensures
            final(self).status_entries@.len() == 8,
            final(self).status_lists() == old(self).status_lists().update(
                to.spec_code() as int,
                old(self).status_lists()[to.spec_code() as int].push(id@),
            ),
            *final(self) == (InvoiceContract { status_entries: final(self).status_entries, ..*old(self) }),
    {
        let c = to.code() as usize;
        let ghost before = self.status_entries@[c as int]@;
        self.status_entries[c].push(id);
        proof {
            assert(ids_view(before.push(id)) =~= ids_view(before).push(id@));
            assert(final(self).status_lists() =~= old(self).status_lists().update(
                c as int,
                old(self).status_lists()[c as int].push(id@),
            ));
        }
    }

    /// Replaces the invoice stored under `id` by `inv`.
    fn update_invoice(&mut self, id: &InvoiceId, inv: Invoice)
        requires
            old(self).wf(),
            old(self).invoices@.contains_key(id@),
            inv.id@ == id@,
            inv.status == InvoiceStatus::Confirmed ==> inv.issuer_confirmed && inv.buyer_confirmed,
            inv.status != InvoiceStatus::Repaid ==> inv.repaid_amount == 0,
            inv.status == InvoiceStatus::Listed ==> inv.listed_at is Some,
            outstanding(inv.status) ==> inv.funding_pool is Some,
            inv.issuer@ == old(self).invoice_views()[id@].issuer,
            inv.buyer@ == old(self).invoice_views()[id@].buyer,
            old(self).status_lists()[inv.status.spec_code() as int].contains(id@),
        ensures
            final(self).wf(),
            final(self).invoice_views() == old(self).invoice_views().insert(id@, inv@),
            final(self).invoices@.dom() == old(self).invoices@.dom(),
            *final(self) == (InvoiceContract { invoices: final(self).invoices, ..*old(self) }),
    {
        let ghost v = inv@;
        self.invoices.insert(id.duplicate(), inv);
        proof {
            assert(self.invoices@.dom() =~= old(self).invoices@.dom());
            assert(self.invoice_views() =~= old(self).invoice_views().insert(id@, v));
            assert(self.status_lists() == old(self).status_lists());
            assert forall|k: Seq<u8>, j: int|
                0 <= j < Self::index_ids(self.issuer_index, k).len() implies self.invoices@.contains_key(
                #[trigger] Self::index_ids(self.issuer_index, k)[j],
            ) by {
                assert(old(self).invoices@.contains_key(Self::index_ids(old(self).issuer_index, k)[j]));
            }
            assert forall|k: Seq<u8>, j: int|
                0 <= j < Self::index_ids(self.buyer_index, k).len() implies self.invoices@.contains_key(
                #[trigger] Self::index_ids(self.buyer_index, k)[j],
            ) by {
                assert(old(self).invoices@.contains_key(Self::index_ids(old(self).buyer_index, k)[j]));
            }
            assert forall|s: int, j: int|
                0 <= s < 8 && 0 <= j < self.status_lists()[s].len() implies self.invoices@.contains_key(
                #[trigger] self.status_lists()[s][j],
            ) by {
                assert(old(self).invoices@.contains_key(old(self).status_lists()[s][j]));
            }
            assert forall|k: Seq<u8>| #[trigger] self.invoices@.contains_key(k) implies {
                let i = self.invoice_views()[k];
                &&& Self::index_ids(self.issuer_index, i.issuer).contains(k)
                &&& Self::index_ids(self.buyer_index, i.buyer).contains(k)
                &&& self.status_lists()[i.status.spec_code() as int].contains(k)
            } by {
                assert(old(self).invoices@.contains_key(k));
            }
        }
    }

    /// What creating an invoice with these terms meets: the failure, if any.
    pub open spec fn create_outcome(
        &self,
        ctx: &CallContext,
        issuer: Seq<u8>,
        buyer: Seq<u8>,
        face_value: u128,
        due_date: u64,
        funding_asset: Seq<u8>,
        issuer_verified: bool,
        buyer_verified: bool,
    ) -> Result<(), InvoiceError> {
        if !ctx.authorized(issuer) {
            Err(InvoiceError::Unauthorized)
        } else if self.registry_contract is None {
            Err(InvoiceError::NotInitialized)
        } else if !issuer_verified {
            Err(InvoiceError::IssuerNotVerified)
        } else if !buyer_verified {
            Err(InvoiceError::BuyerNotVerified)
        } else if issuer == buyer {
            Err(InvoiceError::IssuerIsBuyer)
        } else if face_value == 0 {
            Err(InvoiceError::InvalidFaceValue)
        } else if due_date <= ctx.now {
            Err(InvoiceError::InvalidDueDate)
        } else if !self.supports(funding_asset) {
            Err(InvoiceError::UnsupportedAsset)
        } else if self.counter is None {
            Err(InvoiceError::NotInitialized)
        } else if self.counter->0 == u64::MAX {
            Err(InvoiceError::Overflow)
        } else {
            Ok(())
        }
    }

    /// The invoice that creation stores under `id`: created at `now`, and
    /// neither listed, funded, shipped, confirmed nor repaid.
    pub open spec fn created_view(
        id: Seq<u8>,
        issuer: Seq<u8>,
        buyer: Seq<u8>,
        face_value: u128,
        due_date: u64,
        now: u64,
        funding_asset: Seq<u8>,
    ) -> InvoiceView {
        InvoiceView {
            id,
            issuer,
            buyer,
            face_value,
            discount_bps: 0,
            funded_amount: 0,
            due_date,
            status: InvoiceStatus::Created,
            created_at: now,
            listed_at: None,
            funded_at: None,
            shipped_at: None,
            issuer_confirmed: false,
            buyer_confirmed: false,
            repaid_amount: 0,
            repaid_at: None,
            funding_asset,
            funding_pool: None,
        }
    }

    /// Stores a new invoice of `issuer` on `buyer` under `id`, in place of
    /// any invoice the identifier names already, and lists it under its
    /// issuer, under its buyer and among the created invoices. This is the
    /// step of creation that follows the derivation of the identifier.
    pub fn record_invoice(
        &mut self,
        ctx: &CallContext,
        id: InvoiceId,
        issuer: Address,
        buyer: Address,
        face_value: u128,
        due_date: u64,
        funding_asset: Address,
    )
        requires
            old(self).wf(),
            old(self).admin is Some,
            issuer@ != buyer@,
        ensures
            final(self).wf(),
            final(self).invoice_views() == old(self).invoice_views().insert(
                id@,
                Self::created_view(id@, issuer@, buyer@, face_value, due_date, ctx.now, funding_asset@),
            ),
            forall|k: Seq<u8>|
                #[trigger] Self::index_ids(final(self).issuer_index, k) == if k == issuer@ {
                    Self::index_ids(old(self).issuer_index, k).push(id@)
                } else {
                    Self::index_ids(old(self).issuer_index, k)
                },
            forall|k: Seq<u8>|
                #[trigger] Self::index_ids(final(self).buyer_index, k) == if k == buyer@ {
                    Self::index_ids(old(self).buyer_index, k).push(id@)
                } else {
                    Self::index_ids(old(self).buyer_index, k)
                },
            final(self).status_lists() == old(self).status_lists().update(
                0,
                old(self).status_lists()[0].push(id@),
            ),
            *final(self) == (InvoiceContract {
                invoices: final(self).invoices,
                issuer_index: final(self).issuer_index,
                buyer_index: final(self).buyer_index,
                status_entries: final(self).status_entries,
                ..*old(self)
            }),
    {
        let invoice = Invoice {
            id,
            issuer: issuer.duplicate(),
            buyer: buyer.duplicate(),
            face_value,
            discount_bps: 0,
            funded_amount: 0,
            due_date,
            status: InvoiceStatus::Created,
            created_at: ctx.now,
            listed_at: None,
            funded_at: None,
            shipped_at: None,
            issuer_confirmed: false,
            buyer_confirmed: false,
            repaid_amount: 0,
            repaid_at: None,
            funding_asset,
            funding_pool: None,
        };
        let ghost v = invoice@;
        self.invoices.insert(id, invoice);
        Self::index_push(&mut self.issuer_index, &issuer, id);
        Self::index_push(&mut self.buyer_index, &buyer, id);
        self.record_status(id, InvoiceStatus::Created);
        proof {
            assert(self.invoice_views() =~= old(self).invoice_views().insert(id@, v));
            assert(self.invoices@.dom() =~= old(self).invoices@.dom().insert(id@));
            assert forall|k: Seq<u8>, j: int|
                0 <= j < Self::index_ids(self.issuer_index, k).len() implies self.invoices@.contains_key(
                #[trigger] Self::index_ids(self.issuer_index, k)[j],
            ) by {
                if k == issuer@ && j == Self::index_ids(old(self).issuer_index, k).len() {
                } else {
                    assert(Self::index_ids(self.issuer_index, k)[j] == Self::index_ids(
                        old(self).issuer_index,
                        k,
                    )[j]);
                }
            }
            assert forall|k: Seq<u8>, j: int|
                0 <= j < Self::index_ids(self.buyer_index, k).len() implies self.invoices@.contains_key(
                #[trigger] Self::index_ids(self.buyer_index, k)[j],
            ) by {
                if k == buyer@ && j == Self::index_ids(old(self).buyer_index, k).len() {
                } else {
                    assert(Self::index_ids(self.buyer_index, k)[j] == Self::index_ids(
                        old(self).buyer_index,
                        k,
                    )[j]);
                }
            }
            assert forall|s: int, j: int|
                0 <= s < 8 && 0 <= j < self.status_lists()[s].len() implies self.invoices@.contains_key(
                #[trigger] self.status_lists()[s][j],
            ) by {
                if s == 0 && j == old(self).status_lists()[0].len() {
                } else {
                    assert(self.status_lists()[s][j] == old(self).status_lists()[s][j]);
                }
            }
            assert forall|k: Seq<u8>| #[trigger] self.invoices@.contains_key(k) implies {
                let i = self.invoice_views()[k];
                &&& Self::index_ids(self.issuer_index, i.issuer).contains(k)
                &&& Self::index_ids(self.buyer_index, i.buyer).contains(k)
                &&& self.status_lists()[i.status.spec_code() as int].contains(k)
            } by {
                let i = self.invoice_views()[k];
                lemma_push_contains(Self::index_ids(old(self).issuer_index, issuer@), id@, k);
                lemma_push_contains(Self::index_ids(old(self).buyer_index, buyer@), id@, k);
                lemma_push_contains(old(self).status_lists()[0], id@, k);
                if k != id@ {
                    assert(old(self).invoices@.contains_key(k));
                    assert(i == old(self).invoice_views()[k]);
                }
            }
        }
    }

    /// Creates an invoice of `issuer` on `buyer` for `face_value`, due at
    /// `due_date`, to be financed in `funding_asset`. `issuer_verified` and
    /// `buyer_verified` are what the registry answered for the two parties;
    /// both must be verified. The issuer must authorize the call. The
    /// invoice's identifier is the digest of its terms and of the number of
    /// invoices created before it; where that identifier already names an
    /// invoice, the new invoice is stored in its place.
    pub fn create(
        &mut self,
        env: &soroban_sdk::Env,
        ctx: &CallContext,
        issuer: Address,
        buyer: Address,
        face_value: u128,
        due_date: u64,
        funding_asset: Address,
        issuer_verified: bool,
        buyer_verified: bool,
    ) -> (r: Result<InvoiceId, InvoiceError>)
        requires
            old(self).wf(),
        ensures
            final(self).wf(),
            match r {
                Ok(id) => {
                    let counter = old(self).counter->0;
                    &&& old(self).create_outcome(
                        ctx,
                        issuer@,
                        buyer@,
                        face_value,
                        due_date,
                        funding_asset@,
                        issuer_verified,
                        buyer_verified,
                    ) == Ok::<(), InvoiceError>(())
                    &&& id@ == sha256_digest(
                        id_preimage(issuer@, buyer@, face_value, due_date, counter, funding_asset@),
                    )
                    &&& final(self).invoice_views() == old(self).invoice_views().insert(
                        id@,
                        InvoiceView {
                            id: id@,
                            issuer: issuer@,
                            buyer: buyer@,
                            face_value,
                            discount_bps: 0,
                            funded_amount: 0,
                            due_date,
                            status: InvoiceStatus::Created,
                            created_at: ctx.now,
                            listed_at: None,
                            funded_at: None,
                            shipped_at: None,
                            issuer_confirmed: false,
                            buyer_confirmed: false,
                            repaid_amount: 0,
                            repaid_at: None,
                            funding_asset: funding_asset@,
                            funding_pool: None,
                        },
                    )
                    &&& forall|k: Seq<u8>|
                        #[trigger] Self::index_ids(final(self).issuer_index, k) == if k == issuer@ {
                            Self::index_ids(old(self).issuer_index, k).push(id@)
                        } else {
                            Self::index_ids(old(self).issuer_index, k)
                        }
                    &&& forall|k: Seq<u8>|
                        #[trigger] Self::index_ids(final(self).buyer_index, k) == if k == buyer@ {
                            Self::index_ids(old(self).buyer_index, k).push(id@)
                        } else {
                            Self::index_ids(old(self).buyer_index, k)
                        }
                    &&& final(self).status_lists() == old(self).status_lists().update(
                        0,
                        old(self).status_lists()[0].push(id@),
                    )
                    &&& *final(self) == (InvoiceContract {
                        counter: Some((counter + 1) as u64),
                        invoices: final(self).invoices,
                        issuer_index: final(self).issuer_index,
                        buyer_index: final(self).buyer_index,
                        status_entries: final(self).status_entries,
                        ..*old(self)
                    })
                    &&& !old(self).invoice_views().contains_key(id@) ==> Self::lifecycle_respected(
                        old(self).invoice_views(),
                        final(self).invoice_views(),
                    )
                },
                Err(e) => {
                    &&& old(self).create_outcome(
                        ctx,
                        issuer@,
                        buyer@,
                        face_value,
                        due_date,
                        funding_asset@,
                        issuer_verified,
                        buyer_verified,
                    ) == Err::<(), InvoiceError>(e)
                    &&& *final(self) == *old(self)
                },
            },
    {
        if !ctx.has_signed(&issuer) {
            return Err(InvoiceError::Unauthorized);
        }
        if self.registry_contract.is_none() {
            return Err(InvoiceError::NotInitialized);
        }
        if !issuer_verified {
            return Err(InvoiceError::IssuerNotVerified);
        }
        if !buyer_verified {
            return Err(InvoiceError::BuyerNotVerified);
        }
        if issuer.same(&buyer) {
            return Err(InvoiceError::IssuerIsBuyer);
        }
        if face_value == 0 {
            return Err(InvoiceError::InvalidFaceValue);
        }
        if due_date <= ctx.now {
            return Err(InvoiceError::InvalidDueDate);
        }
        if !self.supported_assets.contains(&funding_asset) {
            return Err(InvoiceError::UnsupportedAsset);
        }
        let counter = match self.counter {
            Some(c) => c,
            None => {
                return Err(InvoiceError::NotInitialized);
            },
        };
        if counter == u64::MAX {
            return Err(InvoiceError::Overflow);
        }
        self.counter = Some(counter + 1);
        proof {
            Self::lemma_wf_frame(old(self), self);
        }
        let id = derive_invoice_id(env, &issuer, &buyer, face_value, due_date, counter, &funding_asset);
        self.record_invoice(ctx, id, issuer, buyer, face_value, due_date, funding_asset);
        Ok(id)
    }

    /// Replaces the invoice stored under `id` by `next` and enters `id` in
    /// the list of `next`'s status.
    fn advance(&mut self, id: &InvoiceId, next: Invoice)
        requires
            old(self).wf(),
            old(self).invoices@.contains_key(id@),
            next.id@ == id@,
            next.status == InvoiceStatus::Confirmed ==> next.issuer_confirmed && next.buyer_confirmed,
            next.status != InvoiceStatus::Repaid ==> next.repaid_amount == 0,
            next.status == InvoiceStatus::Listed ==> next.listed_at is Some,
            outstanding(next.status) ==> next.funding_pool is Some,
            next.issuer@ == old(self).invoice_views()[id@].issuer,
            next.buyer@ == old(self).invoice_views()[id@].buyer,
        ensures
            final(self).wf(),
            final(self).invoice_views() == old(self).invoice_views().insert(id@, next@),
            final(self).status_lists() == old(self).status_lists().update(
                next.status.spec_code() as int,
                old(self).status_lists()[next.status.spec_code() as int].push(id@),
            ),
            *final(self) == (InvoiceContract {
                invoices: final(self).invoices,
                status_entries: final(self).status_entries,
                ..*old(self)
            }),
    {
        let status = next.status;
        let ghost c = status.spec_code() as int;
        self.record_status(*id, status);
        proof {
            assert forall|s: int, j: int|
                0 <= s < 8 && 0 <= j < self.status_lists()[s].len() implies self.invoices@.contains_key(
                #[trigger] self.status_lists()[s][j],
            ) by {
                if s == c && j == old(self).status_lists()[s].len() {
                } else {
                    assert(self.status_lists()[s][j] == old(self).status_lists()[s][j]);
                    assert(old(self).invoices@.contains_key(old(self).status_lists()[s][j]));
                }
            }
            assert forall|k: Seq<u8>| #[trigger] self.invoices@.contains_key(k) implies {
                let i = self.invoice_views()[k];
                &&& Self::index_ids(self.issuer_index, i.issuer).contains(k)
                &&& Self::index_ids(self.buyer_index, i.buyer).contains(k)
                &&& self.status_lists()[i.status.spec_code() as int].contains(k)
            } by {
                let i = self.invoice_views()[k];
                let sc = i.status.spec_code() as int;
                assert(old(self).invoices@.contains_key(k));
                if sc == c {
                    lemma_push_contains(old(self).status_lists()[c], id@, k);
                }
            }
            lemma_push_contains(old(self).status_lists()[c], id@, id@);
            assert(self.status_lists()[c].contains(id@));
        }
        self.update_invoice(id, next);
    }

    /// What listing `id` at `discount_bps` meets: the failure, if any.
    pub open spec fn list_outcome(&self, ctx: &CallContext, id: Seq<u8>, discount_bps: u32) -> Result<
        (),
        InvoiceError,
    > {
        let inv = self.invoice_views()[id];
        if !self.invoices@.contains_key(id) {
            Err(InvoiceError::NotFound)
        } else if !ctx.authorized(inv.issuer) {
            Err(InvoiceError::Unauthorized)
        } else if inv.status != InvoiceStatus::Created {
            Err(InvoiceError::InvalidStatusTransition)
        } else if discount_bps > MAX_DISCOUNT_BPS {
            Err(InvoiceError::DiscountTooHigh)
        } else {
            Ok(())
        }
    }

    /// Lists a created invoice for financing at `discount_bps`, at most the
    /// highest discount. The issuer must authorize the call.
    pub fn list_for_financing(&mut self, ctx: &CallContext, invoice_id: &InvoiceId, discount_bps: u32) -> (r:
        Result<(), InvoiceError>)
        requires
            old(self).wf(),
        ensures
            final(self).wf(),
            r == old(self).list_outcome(ctx, invoice_id@, discount_bps),
            r is Err ==> *final(self) == *old(self),
            r is Ok ==> {
                let before = old(self).invoice_views()[invoice_id@];
                &&& final(self).invoice_views() == old(self).invoice_views().insert(
                    invoice_id@,
                    InvoiceView {
                        status: InvoiceStatus::Listed,
                        discount_bps,
                        listed_at: Some(ctx.now),
                        ..before
                    },
                )
                &&& final(self).status_lists() == old(self).status_lists().update(
                    1,
                    old(self).status_lists()[1].push(invoice_id@),
                )
                &&& *final(self) == (InvoiceContract {
                    invoices: final(self).invoices,
                    status_entries: final(self).status_entries,
                    ..*old(self)
                })
                &&& Self::lifecycle_respected(old(self).invoice_views(), final(self).invoice_views())
            },
    {
        let inv = match self.invoices.get(invoice_id) {
            Some(i) => i,
            None => {
                return Err(InvoiceError::NotFound);
            },
        };
        if !ctx.has_signed(&inv.issuer) {
            return Err(InvoiceError::Unauthorized);
        }
        if inv.status != InvoiceStatus::Created {
            return Err(InvoiceError::InvalidStatusTransition);
        }
        if discount_bps > MAX_DISCOUNT_BPS {
            return Err(InvoiceError::DiscountTooHigh);
        }
        let mut next = inv.duplicate();
        next.status = InvoiceStatus::Listed;
        next.discount_bps = discount_bps;
        next.listed_at = Some(ctx.now);
        self.advance(invoice_id, next);
        Ok(())
    }

    /// What recording the funding of `id` by `pool` in `asset` meets: the failure, if any.
    pub open spec fn fund_outcome(&self, ctx: &CallContext, id: Seq<u8>, pool: Seq<u8>, asset: Seq<u8>) -> Result<
        (),
        InvoiceError,
    > {
        let inv = self.invoice_views()[id];
        if !ctx.authorized(pool) {
            Err(InvoiceError::Unauthorized)
        } else if opt_view(self.pool_contract) != Some(pool) {
            Err(InvoiceError::NotAuthorized)
        } else if !self.invoices@.contains_key(id) {
            Err(InvoiceError::NotFound)
        } else if inv.status != InvoiceStatus::Listed {
            Err(InvoiceError::InvalidStatusTransition)
        } else if asset != inv.funding_asset {
            Err(InvoiceError::UnsupportedAsset)
        } else {
            Ok(())
        }
    }

    /// Records that `pool_address`, the pool the contract works with, which
    /// must authorize the call, funded a listed invoice with `funded_amount`
    /// of `asset_address`, the invoice's own funding asset.
    pub fn mark_funded(
        &mut self,
        ctx: &CallContext,
        invoice_id: &InvoiceId,
        pool_address: &Address,
        asset_address: &Address,
        funded_amount: u128,
    ) -> (r: Result<(), InvoiceError>)
        requires
            old(self).wf(),
        ensures
            final(self).wf(),
            r == old(self).fund_outcome(ctx, invoice_id@, pool_address@, asset_address@),
            r is Err ==> *final(self) == *old(self),
            r is Ok ==> {
                let before = old(self).invoice_views()[invoice_id@];
                &&& final(self).invoice_views() == old(self).invoice_views().insert(
                    invoice_id@,
                    InvoiceView {
                        status: InvoiceStatus::Funded,
                        funded_amount,
                        funded_at: Some(ctx.now),
                        funding_pool: Some(pool_address@),
                        ..before
                    },
                )
                &&& final(self).status_lists() == old(self).status_lists().update(
                    2,
                    old(self).status_lists()[2].push(invoice_id@),
                )
                &&& *final(self) == (InvoiceContract {
                    invoices: final(self).invoices,
                    status_entries: final(self).status_entries,
                    ..*old(self)
                })
                &&& Self::lifecycle_respected(old(self).invoice_views(), final(self).invoice_views())
            },
    {
        if !ctx.has_signed(pool_address) {
            return Err(InvoiceError::Unauthorized);
        }
        match &self.pool_contract {
            Some(p) => {
                if !p.same(pool_address) {
                    return Err(InvoiceError::NotAuthorized);
                }
            },
            None => {
                return Err(InvoiceError::NotAuthorized);
            },
        }
        let inv = match self.invoices.get(invoice_id) {
            Some(i) => i,
            None => {
                return Err(InvoiceError::NotFound);
            },
        };
        if inv.status != InvoiceStatus::Listed {
            return Err(InvoiceError::InvalidStatusTransition);
        }
        if !asset_address.same(&inv.funding_asset) {
            return Err(InvoiceError::UnsupportedAsset);
        }
        let mut next = inv.duplicate();
        next.status = InvoiceStatus::Funded;
        next.funded_amount = funded_amount;
        next.funded_at = Some(ctx.now);
        next.funding_pool = Some(pool_address.duplicate());
        self.advance(invoice_id, next);
        Ok(())
    }

    /// What recording the shipment of `id` meets: the failure, if any.
    pub open spec fn ship_outcome(&self, ctx: &CallContext, id: Seq<u8>) -> Result<(), InvoiceError> {
        let inv = self.invoice_views()[id];
        if !self.invoices@.contains_key(id) {
            Err(InvoiceError::NotFound)
        } else if !ctx.authorized(inv.issuer) {
            Err(InvoiceError::Unauthorized)
        } else if inv.status != InvoiceStatus::Funded {
            Err(InvoiceError::InvalidStatusTransition)
        } else {
            Ok(())
        }
    }

    /// Records that the goods of a funded invoice were shipped; the invoice
    /// becomes active. The issuer must authorize the call.
    pub fn mark_shipped(&mut self, ctx: &CallContext, invoice_id: &InvoiceId) -> (r: Result<(), InvoiceError>)
        requires
            old(self).wf(),
        ensures
            final(self).wf(),
            r == old(self).ship_outcome(ctx, invoice_id@),
            r is Err ==> *final(self) == *old(self),
            r is Ok ==> {
                let before = old(self).invoice_views()[invoice_id@];
                &&& final(self).invoice_views() == old(self).invoice_views().insert(
                    invoice_id@,
                    InvoiceView { status: InvoiceStatus::Active, shipped_at: Some(ctx.now), ..before },
                )
                &&& final(self).status_lists() == old(self).status_lists().update(
                    3,
                    old(self).status_lists()[3].push(invoice_id@),
                )
                &&& *final(self) == (InvoiceContract {
                    invoices: final(self).invoices,
                    status_entries: final(self).status_entries,
                    ..*old(self)
                })
                &&& Self::lifecycle_respected(old(self).invoice_views(), final(self).invoice_views())
            },
    {
        let inv = match self.invoices.get(invoice_id) {
            Some(i) => i,
            None => {
                return Err(InvoiceError::NotFound);
            },
        };
        if !ctx.has_signed(&inv.issuer) {
            return Err(InvoiceError::Unauthorized);
        }
        if inv.status != InvoiceStatus::Funded {
            return Err(InvoiceError::InvalidStatusTransition);
        }
        let mut next = inv.duplicate();
        next.status = InvoiceStatus::Active;
        next.shipped_at = Some(ctx.now);
        self.advance(invoice_id, next);
        Ok(())
    }

    /// What a confirmation of delivery of `id` by `confirmer` meets: the failure, if any.
    pub open spec fn confirm_outcome(&self, ctx: &CallContext, id: Seq<u8>, confirmer: Seq<u8>) -> Result<
        (),
        InvoiceError,
    > {
        let inv = self.invoice_views()[id];
        if !ctx.authorized(confirmer) {
            Err(InvoiceError::Unauthorized)
        } else if !self.invoices@.contains_key(id) {
            Err(InvoiceError::NotFound)
        } else if inv.status != InvoiceStatus::Active {
            Err(InvoiceError::InvalidStatusTransition)
        } else if confirmer != inv.issuer && confirmer != inv.buyer {
            Err(InvoiceError::NotAuthorized)
        } else if (confirmer == inv.issuer && inv.issuer_confirmed) || (confirmer == inv.buyer
            && inv.buyer_confirmed) {
            Err(InvoiceError::AlreadyConfirmed)
        } else {
            Ok(())
        }
    }

    /// Records that `confirmer`, the issuer or the buyer of an active
    /// invoice, confirms delivery; once both have, the invoice is confirmed.
    /// Each party confirms once. The confirmer must authorize the call.
    pub fn confirm_delivery(&mut self, ctx: &CallContext, invoice_id: &InvoiceId, confirmer: &Address) -> (r:
        Result<(), InvoiceError>)
        requires
            old(self).wf(),
        ensures
            final(self).wf(),
            r == old(self).confirm_outcome(ctx, invoice_id@, confirmer@),
            r is Err ==> *final(self) == *old(self),
            r is Ok ==> {
                let before = old(self).invoice_views()[invoice_id@];
                let issuer_done = before.issuer_confirmed || confirmer@ == before.issuer;
                let buyer_done = before.buyer_confirmed || confirmer@ == before.buyer;
                let both = issuer_done && buyer_done;
                &&& final(self).invoice_views() == old(self).invoice_views().insert(
                    invoice_id@,
                    InvoiceView {
                        status: if both { InvoiceStatus::Confirmed } else { InvoiceStatus::Active },
                        issuer_confirmed: issuer_done,
                        buyer_confirmed: buyer_done,
                        ..before
                    },
                )
                &&& final(self).status_lists() == if both {
                    old(self).status_lists().update(4, old(self).status_lists()[4].push(invoice_id@))
                } else {
                    old(self).status_lists()
                }
                &&& *final(self) == (InvoiceContract {
                    invoices: final(self).invoices,
                    status_entries: final(self).status_entries,
                    ..*old(self)
                })
                &&& Self::lifecycle_respected(old(self).invoice_views(), final(self).invoice_views())
            },
    {
        if !ctx.has_signed(confirmer) {
            return Err(InvoiceError::Unauthorized);
        }
        let inv = match self.invoices.get(invoice_id) {
            Some(i) => i,
            None => {
                return Err(InvoiceError::NotFound);
            },
        };
        if inv.status != InvoiceStatus::Active {
            return Err(InvoiceError::InvalidStatusTransition);
        }
        let is_issuer = confirmer.same(&inv.issuer);
        let is_buyer = confirmer.same(&inv.buyer);
        if !is_issuer && !is_buyer {
            return Err(InvoiceError::NotAuthorized);
        }
        if is_issuer && inv.issuer_confirmed {
            return Err(InvoiceError::AlreadyConfirmed);
        }
        if is_buyer && inv.buyer_confirmed {
            return Err(InvoiceError::AlreadyConfirmed);
        }
        let mut next = inv.duplicate();
        if is_issuer {
            next.issuer_confirmed = true;
        }
        if is_buyer {
            next.buyer_confirmed = true;
        }
        if next.issuer_confirmed && next.buyer_confirmed {
            next.status = InvoiceStatus::Confirmed;
            self.advance(invoice_id, next);
        } else {
            self.update_invoice(invoice_id, next);
            proof {
                assert(self.status_lists() == old(self).status_lists());
            }
        }
        Ok(())
    }

    /// What undoing the confirmation of `id` meets: the failure, if any.
    pub open spec fn unconfirm_outcome(&self, ctx: &CallContext, id: Seq<u8>) -> Result<(), InvoiceError> {
        let inv = self.invoice_views()[id];
        if !self.invoices@.contains_key(id) {
            Err(InvoiceError::NotFound)
        } else if inv.status != InvoiceStatus::Confirmed {
            Err(InvoiceError::InvalidStatusTransition)
        } else if self.admin is None {
            Err(InvoiceError::NotFound)
        } else if !((ctx.authorized(inv.issuer) && ctx.authorized(inv.buyer)) || ctx.authorized(
            self.admin->0@,
        )) {
            Err(InvoiceError::Unauthorized)
        } else {
            Ok(())
        }
    }

    /// Returns a confirmed invoice to active and clears both confirmations.
    /// Both the issuer and the buyer, or else the admin, must authorize the call.
    pub fn unconfirm_delivery(&mut self, ctx: &CallContext, invoice_id: &InvoiceId) -> (r: Result<
        (),
        InvoiceError,
    >)
        requires
            old(self).wf(),
        ensures
            final(self).wf(),
            r == old(self).unconfirm_outcome(ctx, invoice_id@),
            r is Err ==> *final(self) == *old(self),
            r is Ok ==> {
                let before = old(self).invoice_views()[invoice_id@];
                &&& final(self).invoice_views() == old(self).invoice_views().insert(
                    invoice_id@,
                    InvoiceView {
                        status: InvoiceStatus::Active,
                        issuer_confirmed: false,
                        buyer_confirmed: false,
                        ..before
                    },
                )
                &&& final(self).status_lists() == old(self).status_lists().update(
                    3,
                    old(self).status_lists()[3].push(invoice_id@),
                )
                &&& *final(self) == (InvoiceContract {
                    invoices: final(self).invoices,
                    status_entries: final(self).status_entries,
                    ..*old(self)
                })
                &&& Self::lifecycle_respected(old(self).invoice_views(), final(self).invoice_views())
            },
    {
        let inv = match self.invoices.get(invoice_id) {
            Some(i) => i,
            None => {
                return Err(InvoiceError::NotFound);
            },
        };
        if inv.status != InvoiceStatus::Confirmed {
            return Err(InvoiceError::InvalidStatusTransition);
        }
        let admin = match &self.admin {
            Some(a) => a,
            None => {
                return Err(InvoiceError::NotFound);
            },
        };
        let parties = ctx.has_signed(&inv.issuer) && ctx.has_signed(&inv.buyer);
        if !parties && !ctx.has_signed(admin) {
            return Err(InvoiceError::Unauthorized);
        }
        let mut next = inv.duplicate();
        next.issuer_confirmed = false;
        next.buyer_confirmed = false;
        next.status = InvoiceStatus::Active;
        self.advance(invoice_id, next);
        Ok(())
    }

    /// What repaying `id` meets: the failure, if any.
    pub open spec fn repay_outcome(&self, ctx: &CallContext, id: Seq<u8>) -> Result<(), InvoiceError> {
        let inv = self.invoice_views()[id];
        if !self.invoices@.contains_key(id) {
            Err(InvoiceError::NotFound)
        } else if !ctx.authorized(inv.buyer) {
            Err(InvoiceError::Unauthorized)
        } else if inv.status != InvoiceStatus::Confirmed {
            Err(InvoiceError::InvalidStatusTransition)
        } else if inv.funding_pool is None {
            Err(InvoiceError::NotFound)
        } else if inv.repaid_amount + inv.face_value > u128::MAX {
            Err(InvoiceError::Overflow)
        } else {
            Ok(())
        }
    }

    /// Repays a confirmed invoice in full: the buyer, who must authorize the
    /// call, pays the face value in the funding asset to the funding pool,
    /// and the invoice is repaid. Returns the payment and the pool to tell.
    pub fn repay(&mut self, ctx: &CallContext, invoice_id: &InvoiceId) -> (r: Result<Repayment, InvoiceError>)
        requires
            old(self).wf(),
        ensures
            final(self).wf(),
            r is Ok <==> old(self).repay_outcome(ctx, invoice_id@) is Ok,
            r matches Err(e) ==> old(self).repay_outcome(ctx, invoice_id@) == Err::<(), InvoiceError>(e),
            ({
                let before = old(self).invoice_views()[invoice_id@];
                old(self).invoices@.contains_key(invoice_id@) && ctx.authorized(before.buyer)
                    && before.status == InvoiceStatus::Confirmed && before.funding_pool is Some
            }) ==> r is Ok,
            r is Ok ==> final(self).invoice_views()[invoice_id@].repaid_amount == old(
                self,
            ).invoice_views()[invoice_id@].face_value,
            r is Err ==> *final(self) == *old(self),
            r matches Ok(p) ==> {
                let before = old(self).invoice_views()[invoice_id@];
                &&& p.amount == before.face_value
                &&& Some(p.pool@) == before.funding_pool
                &&& p.transfer@ == TransferView {
                    asset: before.funding_asset,
                    from: before.buyer,
                    to: p.pool@,
                    amount: before.face_value,
                }
                &&& final(self).invoice_views() == old(self).invoice_views().insert(
                    invoice_id@,
                    InvoiceView {
                        status: InvoiceStatus::Repaid,
                        repaid_amount: (before.repaid_amount + before.face_value) as u128,
                        repaid_at: Some(ctx.now),
                        ..before
                    },
                )
                &&& final(self).status_lists() == old(self).status_lists().update(
                    5,
                    old(self).status_lists()[5].push(invoice_id@),
                )
                &&& *final(self) == (InvoiceContract {
                    invoices: final(self).invoices,
                    status_entries: final(self).status_entries,
                    ..*old(self)
                })
                &&& Self::lifecycle_respected(old(self).invoice_views(), final(self).invoice_views())
            },
    {
        self.check_repay(ctx, invoice_id)?;
        let inv = match self.invoices.get(invoice_id) {
            Some(i) => i,
            None => {
                return Err(InvoiceError::NotFound);
            },
        };
        let pool = match &inv.funding_pool {
            Some(p) => p.duplicate(),
            None => {
                return Err(InvoiceError::NotFound);
            },
        };
        let amount = inv.face_value;
        let transfer = Transfer {
            asset: inv.funding_asset.duplicate(),
            from: inv.buyer.duplicate(),
            to: pool.duplicate(),
            amount,
        };
        let mut next = inv.duplicate();
        next.repaid_amount = inv.repaid_amount + amount;
        next.status = InvoiceStatus::Repaid;
        next.repaid_at = Some(ctx.now);
        self.advance(invoice_id, next);
        Ok(Repayment { transfer, pool, amount })
    }

    /// Decides, without changing anything, whether `invoice_id` may be repaid.
    pub fn check_repay(&self, ctx: &CallContext, invoice_id: &InvoiceId) -> (r: Result<(), InvoiceError>)
        requires
            self.wf(),
        ensures
            r == self.repay_outcome(ctx, invoice_id@),
    {
        let inv = match self.invoices.get(invoice_id) {
            Some(i) => i,
            None => {
                return Err(InvoiceError::NotFound);
            },
        };
        if !ctx.has_signed(&inv.buyer) {
            return Err(InvoiceError::Unauthorized);
        }
        if inv.status != InvoiceStatus::Confirmed {
            return Err(InvoiceError::InvalidStatusTransition);
        }
        if inv.funding_pool.is_none() {
            return Err(InvoiceError::NotFound);
        }
        if inv.repaid_amount.checked_add(inv.face_value).is_none() {
            return Err(InvoiceError::Overflow);
        }
        Ok(())
    }

    /// What declaring `id` in default meets: the failure, if any.
    pub open spec fn default_outcome(&self, ctx: &CallContext, id: Seq<u8>) -> Result<(), InvoiceError> {
        let inv = self.invoice_views()[id];
        if self.admin is None {
            Err(InvoiceError::NotFound)
        } else if !ctx.authorized(self.admin->0@) {
            Err(InvoiceError::Unauthorized)
        } else if !self.invoices@.contains_key(id) {
            Err(InvoiceError::NotFound)
        } else if !(inv.status == InvoiceStatus::Funded || inv.status == InvoiceStatus::Active
            || inv.status == InvoiceStatus::Confirmed) {
            Err(InvoiceError::InvalidStatusTransition)
        } else if ctx.now <= inv.due_date {
            Err(InvoiceError::DueDateNotPassed)
        } else if inv.funding_pool is None {
            Err(InvoiceError::NotFound)
        } else {
            Ok(())
        }
    }

    /// Declares a funded, active or confirmed invoice past its due date in
    /// default. Admin only. Returns the funding pool, which must be told.
    pub fn trigger_default(&mut self, ctx: &CallContext, invoice_id: &InvoiceId) -> (r: Result<
        Address,
        InvoiceError,
    >)
        requires
            old(self).wf(),
        ensures
            final(self).wf(),
            r is Ok <==> old(self).default_outcome(ctx, invoice_id@) is Ok,
            r matches Err(e) ==> old(self).default_outcome(ctx, invoice_id@) == Err::<(), InvoiceError>(e),
            r is Err ==> *final(self) == *old(self),
            r matches Ok(pool) ==> {
                let before = old(self).invoice_views()[invoice_id@];
                &&& Some(pool@) == before.funding_pool
                &&& final(self).invoice_views() == old(self).invoice_views().insert(
                    invoice_id@,
                    InvoiceView { status: InvoiceStatus::Defaulted, ..before },
                )
                &&& final(self).status_lists() == old(self).status_lists().update(
                    6,
                    old(self).status_lists()[6].push(invoice_id@),
                )
                &&& *final(self) == (InvoiceContract {
                    invoices: final(self).invoices,
                    status_entries: final(self).status_entries,
                    ..*old(self)
                })
                &&& Self::lifecycle_respected(old(self).invoice_views(), final(self).invoice_views())
            },
    {
        self.check_default(ctx, invoice_id)?;
        let inv = match self.invoices.get(invoice_id) {
            Some(i) => i,
            None => {
                return Err(InvoiceError::NotFound);
            },
        };
        let pool = match &inv.funding_pool {
            Some(p) => p.duplicate(),
            None => {
                return Err(InvoiceError::NotFound);
            },
        };
        let mut next = inv.duplicate();
        next.status = InvoiceStatus::Defaulted;
        self.advance(invoice_id, next);
        Ok(pool)
    }

    /// Decides, without changing anything, whether `invoice_id` may be
    /// declared in default now.
    pub fn check_default(&self, ctx: &CallContext, invoice_id: &InvoiceId) -> (r: Result<(), InvoiceError>)
        requires
            self.wf(),
        ensures
            r == self.default_outcome(ctx, invoice_id@),
    {
        self.check_admin(ctx)?;
        let inv = match self.invoices.get(invoice_id) {
            Some(i) => i,
            None => {
                return Err(InvoiceError::NotFound);
            },
        };
        if !(inv.status == InvoiceStatus::Funded || inv.status == InvoiceStatus::Active || inv.status
            == InvoiceStatus::Confirmed) {
            return Err(InvoiceError::InvalidStatusTransition);
        }
        if ctx.now <= inv.due_date {
            return Err(InvoiceError::DueDateNotPassed);
        }
        if inv.funding_pool.is_none() {
            return Err(InvoiceError::NotFound);
        }
        Ok(())
    }

    /// What expiring the listing of `id` meets: the failure, if any.
    pub open spec fn expire_outcome(&self, ctx: &CallContext, id: Seq<u8>) -> Result<(), InvoiceError> {
        let inv = self.invoice_views()[id];
        let listed_at = match inv.listed_at {
            Some(t) => t as int,
            None => 0,
        };
        if !self.invoices@.contains_key(id) {
            Err(InvoiceError::NotFound)
        } else if inv.status != InvoiceStatus::Listed {
            Err(InvoiceError::InvalidStatusTransition)
        } else if self.admin is None {
            Err(InvoiceError::NotFound)
        } else if !(ctx.authorized(inv.issuer) || ctx.authorized(self.admin->0@)) {
            Err(InvoiceError::Unauthorized)
        } else if listed_at + self.window() > u64::MAX {
            Err(InvoiceError::Overflow)
        } else if ctx.now <= listed_at + self.window() {
            Err(InvoiceError::ListingNotExpired)
        } else {
            Ok(())
        }
    }

    /// Expires a listing that has stayed open longer than the expiry window.
    /// The issuer or the admin must authorize the call.
    pub fn expire_listing(&mut self, ctx: &CallContext, invoice_id: &InvoiceId) -> (r: Result<
        (),
        InvoiceError,
    >)
        requires
            old(self).wf(),
        ensures
            final(self).wf(),
            r == old(self).expire_outcome(ctx, invoice_id@),
            r is Err ==> *final(self) == *old(self),
            r is Ok ==> {
                let before = old(self).invoice_views()[invoice_id@];
                &&& final(self).invoice_views() == old(self).invoice_views().insert(
                    invoice_id@,
                    InvoiceView { status: InvoiceStatus::Expired, ..before },
                )
                &&& final(self).status_lists() == old(self).status_lists().update(
                    7,
                    old(self).status_lists()[7].push(invoice_id@),
                )
                &&& *final(self) == (InvoiceContract {
                    invoices: final(self).invoices,
                    status_entries: final(self).status_entries,
                    ..*old(self)
                })
                &&& Self::lifecycle_respected(old(self).invoice_views(), final(self).invoice_views())
            },
    {
        let inv = match self.invoices.get(invoice_id) {
            Some(i) => i,
            None => {
                return Err(InvoiceError::NotFound);
            },
        };
        if inv.status != InvoiceStatus::Listed {
            return Err(InvoiceError::InvalidStatusTransition);
        }
        let admin = match &self.admin {
            Some(a) => a,
            None => {
                return Err(InvoiceError::NotFound);
            },
        };
        if !ctx.has_signed(&inv.issuer) && !ctx.has_signed(admin) {
            return Err(InvoiceError::Unauthorized);
        }
        let listed_at = match inv.listed_at {
            Some(t) => t,
            None => 0,
        };
        let window = self.get_expiry_window();
        let deadline = match listed_at.checked_add(window) {
            Some(v) => v,
            None => {
                return Err(InvoiceError::Overflow);
            },
        };
        if ctx.now <= deadline {
            return Err(InvoiceError::ListingNotExpired);
        }
        let mut next = inv.duplicate();
        next.status = InvoiceStatus::Expired;
        self.advance(invoice_id, next);
        Ok(())
    }

    /// The invoice stored under `id`.
    pub fn get(&self, invoice_id: &InvoiceId) -> (r: Result<&Invoice, InvoiceError>)
        requires
            self.wf(),
        ensures
            match r {
                Ok(inv) => self.invoices@.contains_key(invoice_id@) && inv@ == self.invoice_views()[invoice_id@],
                Err(e) => !self.invoices@.contains_key(invoice_id@) && e == InvoiceError::NotFound,
            },
    {
        match self.invoices.get(invoice_id) {
            Some(inv) => Ok(inv),
            None => Err(InvoiceError::NotFound),
        }
    }

    /// The status code of the invoice stored under `id`.
    pub fn get_status(&self, invoice_id: &InvoiceId) -> (r: Result<u32, InvoiceError>)
        requires
            self.wf(),
        ensures
            match r {
                Ok(c) => self.invoices@.contains_key(invoice_id@) && c == self.invoice_views()[invoice_id@].status.spec_code(),
                Err(e) => !self.invoices@.contains_key(invoice_id@) && e == InvoiceError::NotFound,
            },
    {
        let inv = self.get(invoice_id)?;
        Ok(inv.status.code())
    }

    /// The face value of the invoice stored under `id`.
    pub fn get_face_value(&self, invoice_id: &InvoiceId) -> (r: Result<u128, InvoiceError>)
        requires
            self.wf(),
        ensures
            match r {
                Ok(v) => self.invoices@.contains_key(invoice_id@) && v == self.invoice_views()[invoice_id@].face_value,
                Err(e) => !self.invoices@.contains_key(invoice_id@) && e == InvoiceError::NotFound,
            },
    {
        let inv = self.get(invoice_id)?;
        Ok(inv.face_value)
    }

    /// The discount, in basis points, of the invoice stored under `id`.
    pub fn get_discount_bps(&self, invoice_id: &InvoiceId) -> (r: Result<u32, InvoiceError>)
        requires
            self.wf(),
        ensures
            match r {
                Ok(v) => self.invoices@.contains_key(invoice_id@) && v == self.invoice_views()[invoice_id@].discount_bps,
                Err(e) => !self.invoices@.contains_key(invoice_id@) && e == InvoiceError::NotFound,
            },
    {
        let inv = self.get(invoice_id)?;
        Ok(inv.discount_bps)
    }

    /// The funding asset of the invoice stored under `id`.
    pub fn get_funding_asset(&self, invoice_id: &InvoiceId) -> (r: Result<&Address, InvoiceError>)
        requires
            self.wf(),
        ensures
            match r {
                Ok(a) => self.invoices@.contains_key(invoice_id@) && a@ == self.invoice_views()[invoice_id@].funding_asset,
                Err(e) => !self.invoices@.contains_key(invoice_id@) && e == InvoiceError::NotFound,
            },
    {
        let inv = self.get(invoice_id)?;
        Ok(&inv.funding_asset)
    }

    /// Copies of the invoices named in the page of `ids` at `offset` of at most `limit` items.
    fn collect_page(&self, ids: &Vec<InvoiceId>, offset: u32, limit: u32) -> (r: Vec<Invoice>)
        requires
            self.wf(),
            forall|j: int| 0 <= j < ids@.len() ==> self.invoices@.contains_key(#[trigger] ids@[j]@),
        ensures
            r@.map_values(|i: Invoice| i@) == page(ids_view(ids@), offset as int, limit as int).map_values(
                |k: Seq<u8>| self.invoice_views()[k],
            ),
    {
        let n = ids.len();
        let start: usize = if (offset as usize) < n {
            offset as usize
        } else {
            n
        };
        let remaining = n - start;
        let count: usize = if (limit as usize) < remaining {
            limit as usize
        } else {
            remaining
        };
        let end = start + count;
        let ghost wanted = page(ids_view(ids@), offset as int, limit as int).map_values(
            |k: Seq<u8>| self.invoice_views()[k],
        );
        assert(page(ids_view(ids@), offset as int, limit as int) =~= ids_view(ids@).subrange(
            start as int,
            end as int,
        ));
        let mut out: Vec<Invoice> = Vec::new();
        let mut i: usize = start;
        while i < end
            invariant
                self.wf(),
                forall|j: int| 0 <= j < ids@.len() ==> self.invoices@.contains_key(#[trigger] ids@[j]@),
                start <= i <= end,
                end <= n,
                n == ids@.len(),
                wanted.len() == end - start,
                forall|j: int| 0 <= j < wanted.len() ==> #[trigger] wanted[j] == self.invoice_views()[ids@[start + j]@],
                out@.map_values(|v: Invoice| v@) == wanted.subrange(0, i - start),
            decreases end - i,
        {
            let id = ids[i];
            let inv = match self.invoices.get(&id) {
                Some(v) => v,
                None => {
                    assert(self.invoices@.contains_key(ids@[i as int]@));
                    return out;
                },
            };
            let ghost prev = out@;
            out.push(inv.duplicate());
            proof {
                assert(out@.map_values(|v: Invoice| v@) =~= prev.map_values(|v: Invoice| v@).push(inv@));
                assert(wanted[i - start] == self.invoice_views()[ids@[i as int]@]);
                assert(wanted.subrange(0, i + 1 - start) =~= wanted.subrange(0, i - start).push(
                    wanted[i - start],
                ));
            }
            i = i + 1;
        }
        assert(wanted.subrange(0, end - start) =~= wanted);
        out
    }

    /// A page of the invoices issued by `address`, in order of creation.
    pub fn get_by_issuer(&self, address: &Address, offset: u32, limit: u32) -> (r: Vec<Invoice>)
        requires
            self.wf(),
        ensures
            r@.map_values(|i: Invoice| i@) == page(
                Self::index_ids(self.issuer_index, address@),
                offset as int,
                limit as int,
            ).map_values(|k: Seq<u8>| self.invoice_views()[k]),
    {
        match self.issuer_index.get(address) {
            Some(ids) => {
                proof {
                    assert forall|j: int| 0 <= j < ids@.len() implies self.invoices@.contains_key(
                        #[trigger] ids@[j]@,
                    ) by {
                        assert(Self::index_ids(self.issuer_index, address@)[j] == ids@[j]@);
                    }
                }
                self.collect_page(ids, offset, limit)
            },
            None => {
                let r: Vec<Invoice> = Vec::new();
                assert(r@.map_values(|i: Invoice| i@) =~= page(
                    Self::index_ids(self.issuer_index, address@),
                    offset as int,
                    limit as int,
                ).map_values(|k: Seq<u8>| self.invoice_views()[k]));
                r
            },
        }
    }

    /// A page of the invoices billed to `address`, in order of creation.
    pub fn get_by_buyer(&self, address: &Address, offset: u32, limit: u32) -> (r: Vec<Invoice>)
        requires
            self.wf(),
        ensures
            r@.map_values(|i: Invoice| i@) == page(
                Self::index_ids(self.buyer_index, address@),
                offset as int,
                limit as int,
            ).map_values(|k: Seq<u8>| self.invoice_views()[k]),
    {
        match self.buyer_index.get(address) {
            Some(ids) => {
                proof {
                    assert forall|j: int| 0 <= j < ids@.len() implies self.invoices@.contains_key(
                        #[trigger] ids@[j]@,
                    ) by {
                        assert(Self::index_ids(self.buyer_index, address@)[j] == ids@[j]@);
                    }
                }
                self.collect_page(ids, offset, limit)
            },
            None => {
                let r: Vec<Invoice> = Vec::new();
                assert(r@.map_values(|i: Invoice| i@) =~= page(
                    Self::index_ids(self.buyer_index, address@),
                    offset as int,
                    limit as int,
                ).map_values(|k: Seq<u8>| self.invoice_views()[k]));
                r
            },
        }
    }

    /// A page of the invoices currently in `status`, in the order they
    /// entered it; an invoice that entered it more than once is listed once
    /// for each entry.
    pub fn get_by_status(&self, status: InvoiceStatus, offset: u32, limit: u32) -> (r: Vec<Invoice>)
        requires
            self.wf(),
        ensures
            r@.map_values(|i: Invoice| i@) == page(
                members(self.status_ids(status), self.invoice_views(), status),
                offset as int,
                limit as int,
            ).map_values(|k: Seq<u8>| self.invoice_views()[k]),
            forall|j: int| 0 <= j < r@.len() ==> (#[trigger] r@[j]).status == status,
    {
        proof {
            lemma_members_have_status(self.status_ids(status), self.invoice_views(), status);
        }
        let c = status.code() as usize;
        let entries = &self.status_entries[c];
        let ghost ids = self.status_ids(status);
        assert(ids == ids_view(entries@));
        let n = entries.len();
        let mut matched: Vec<InvoiceId> = Vec::new();
        let mut i: usize = 0;
        while i < n
            invariant
                self.wf(),
                n == entries@.len(),
                ids == ids_view(entries@),
                i <= n,
                ids_view(matched@) == members(ids.subrange(0, i as int), self.invoice_views(), status),
                forall|j: int| 0 <= j < matched@.len() ==> self.invoices@.contains_key(#[trigger] matched@[j]@),
            decreases n - i,
        {
            let id = entries[i];
            let ghost prev = matched@;
            proof {
                assert(ids.subrange(0, i + 1).drop_last() =~= ids.subrange(0, i as int));
                assert(ids.subrange(0, i + 1).last() == id@);
            }
            match self.invoices.get(&id) {
                Some(inv) => {
                    if inv.status == status {
                        matched.push(id);
                        proof {
                            assert(ids_view(matched@) =~= ids_view(prev).push(id@));
                        }
                    }
                },
                None => {},
            }
            i = i + 1;
        }
        assert(ids.subrange(0, n as int) =~= ids);
        let r = self.collect_page(&matched, offset, limit);
        proof {
            let mem = members(ids, self.invoice_views(), status);
            let pg = page(mem, offset as int, limit as int);
            assert forall|j: int| 0 <= j < r@.len() implies (#[trigger] r@[j]).status == status by {
                let views = r@.map_values(|i: Invoice| i@);
                assert(views.len() == r@.len());
                assert(views[j] == r@[j]@);
                let start = if (offset as int) < mem.len() { offset as int } else { mem.len() as int };
                assert(views == pg.map_values(|k: Seq<u8>| self.invoice_views()[k]));
                assert(pg.len() == views.len());
                assert(pg[j] == mem[start + j]);
                assert(views[j] == self.invoice_views()[pg[j]]);
                assert(self.invoice_views()[mem[start + j]].status == status);
            }
        }
        r
    }

    /// A confirmed invoice has been confirmed by both its issuer and its buyer.
    pub proof fn lemma_confirmed_means_both_confirmed(&self, id: Seq<u8>)
        requires
            self.wf(),
            self.invoice_views().contains_key(id),
            self.invoice_views()[id].status == InvoiceStatus::Confirmed,
        ensures
            self.invoice_views()[id].issuer_confirmed,
            self.invoice_views()[id].buyer_confirmed,
    {
    }

    /// On an active invoice, a party that has not confirmed yet can always
    /// confirm, whatever the other party has done; a confirmation is refused
    /// as repeated only when the confirmer's own confirmation is recorded.
    pub proof fn lemma_unconfirmed_party_can_confirm(&self, ctx: &CallContext, id: Seq<u8>, confirmer: Seq<u8>)
        requires
            self.wf(),
            self.invoices@.contains_key(id),
            self.invoice_views()[id].status == InvoiceStatus::Active,
        ensures
            ctx.authorized(confirmer) && ((confirmer == self.invoice_views()[id].issuer
                && !self.invoice_views()[id].issuer_confirmed) || (confirmer
                == self.invoice_views()[id].buyer && !self.invoice_views()[id].buyer_confirmed))
                ==> self.confirm_outcome(ctx, id, confirmer) is Ok,
            self.confirm_outcome(ctx, id, confirmer) == Err::<(), InvoiceError>(
                InvoiceError::AlreadyConfirmed,
            ) ==> (confirmer == self.invoice_views()[id].issuer
                && self.invoice_views()[id].issuer_confirmed) || (confirmer
                == self.invoice_views()[id].buyer && self.invoice_views()[id].buyer_confirmed),
    {
    }

    /// The two parties of an active invoice that neither has confirmed may
    /// confirm in either order: whoever goes first, the confirmation of the
    /// other is accepted in the state that `mid` is after the first.
    pub proof fn lemma_confirm_in_either_order(
        &self,
        mid: &Self,
        first_ctx: &CallContext,
        second_ctx: &CallContext,
        id: Seq<u8>,
        first: Seq<u8>,
        second: Seq<u8>,
    )
        requires
            self.wf(),
            self.invoices@.contains_key(id),
            self.invoice_views()[id].status == InvoiceStatus::Active,
            !self.invoice_views()[id].issuer_confirmed,
            !self.invoice_views()[id].buyer_confirmed,
            (first == self.invoice_views()[id].issuer && second == self.invoice_views()[id].buyer) || (
            first == self.invoice_views()[id].buyer && second == self.invoice_views()[id].issuer),
            first_ctx.authorized(first),
            second_ctx.authorized(second),
            mid.invoice_views() == self.invoice_views().insert(
                id,
                InvoiceView {
                    issuer_confirmed: first == self.invoice_views()[id].issuer,
                    buyer_confirmed: first == self.invoice_views()[id].buyer,
                    ..self.invoice_views()[id]
                },
            ),
        ensures
            self.confirm_outcome(first_ctx, id, first) is Ok,
            mid.confirm_outcome(second_ctx, id, second) is Ok,
    {
        assert(self.invoice_views()[id].issuer != self.invoice_views()[id].buyer);
        assert(mid.invoice_views().contains_key(id));
        assert(mid.invoices@.dom() == mid.invoice_views().dom());
    }

    /// An invoice that is funded and outstanding, once its due date has
    /// passed, can always be declared in default by the admin; and nothing
    /// else can be: a default is accepted only for such an invoice, past
    /// its due date, with the admin's authorization.
    pub proof fn lemma_overdue_outstanding_invoice_defaults(&self, ctx: &CallContext, id: Seq<u8>)
        requires
            self.wf(),
        ensures
            self.invoices@.contains_key(id) && outstanding(self.invoice_views()[id].status)
                && ctx.now > self.invoice_views()[id].due_date && (self.admin matches Some(a)
                && ctx.authorized(a@)) ==> self.default_outcome(ctx, id) is Ok,
            self.default_outcome(ctx, id) is Ok ==> {
                &&& self.invoices@.contains_key(id)
                &&& outstanding(self.invoice_views()[id].status)
                &&& ctx.now > self.invoice_views()[id].due_date
                &&& self.admin matches Some(a) && ctx.authorized(a@)
            },
    {
    }

    /// A listing expires counting from when it was listed: a listed invoice
    /// records its listing time, an expiry is accepted only once the expiry
    /// window has passed since that time, and before then a caller with the
    /// right to expire it is told the listing has not expired (where the
    /// listing time and the window add up within the range of a `u64`).
    pub proof fn lemma_expiry_counts_from_listing(&self, ctx: &CallContext, id: Seq<u8>)
        requires
            self.wf(),
            self.invoices@.contains_key(id),
            self.invoice_views()[id].status == InvoiceStatus::Listed,
        ensures
            self.invoice_views()[id].listed_at is Some,
            self.expire_outcome(ctx, id) is Ok ==> ctx.now > self.invoice_views()[id].listed_at->0
                + self.window(),
            (ctx.authorized(self.invoice_views()[id].issuer) || (self.admin matches Some(a)
                && ctx.authorized(a@))) && self.invoice_views()[id].listed_at->0 + self.window()
                <= u64::MAX && ctx.now <= self.invoice_views()[id].listed_at->0
                + self.window() ==> self.expire_outcome(ctx, id) == Err::<(), InvoiceError>(
                InvoiceError::ListingNotExpired,
            ),
            (ctx.authorized(self.invoice_views()[id].issuer) || (self.admin matches Some(a)
                && ctx.authorized(a@))) && ctx.now > self.invoice_views()[id].listed_at->0
                + self.window() ==> self.expire_outcome(ctx, id) is Ok,
    {
    }

    /// A confirmed invoice can always be unconfirmed by both its parties
    /// together, or by the admin alone; `after`, the contract as
    /// unconfirming leaves it, holds the invoice active with both
    /// confirmations cleared, so each party can confirm it again.
    pub proof fn lemma_unconfirm_reopens_confirmation(
        &self,
        after: &Self,
        ctx: &CallContext,
        confirm_ctx: &CallContext,
        id: Seq<u8>,
    )
        requires
            self.wf(),
            self.invoices@.contains_key(id),
            self.invoice_views()[id].status == InvoiceStatus::Confirmed,
            (ctx.authorized(self.invoice_views()[id].issuer) && ctx.authorized(
                self.invoice_views()[id].buyer,
            )) || (self.admin is Some && ctx.authorized(self.admin->0@)),
            after.invoice_views() == self.invoice_views().insert(
                id,
                InvoiceView {
                    status: InvoiceStatus::Active,
                    issuer_confirmed: false,
                    buyer_confirmed: false,
                    ..self.invoice_views()[id]
                },
            ),
        ensures
            self.unconfirm_outcome(ctx, id) is Ok,
            confirm_ctx.authorized(self.invoice_views()[id].issuer) ==> after.confirm_outcome(
                confirm_ctx,
                id,
                self.invoice_views()[id].issuer,
            ) is Ok,
            confirm_ctx.authorized(self.invoice_views()[id].buyer) ==> after.confirm_outcome(
                confirm_ctx,
                id,
                self.invoice_views()[id].buyer,
            ) is Ok,
    {
        assert(after.invoice_views().contains_key(id));
        assert(after.invoices@.dom() == after.invoice_views().dom());
    }

    /// Every invoice appears in the listings of its issuer and of its buyer.
    pub proof fn lemma_listed_under_parties(&self, id: Seq<u8>)
        requires
            self.wf(),
            self.invoices@.contains_key(id),
        ensures
            Self::index_ids(self.issuer_index, self.invoice_views()[id].issuer).contains(id),
            Self::index_ids(self.buyer_index, self.invoice_views()[id].buyer).contains(id),
    {
    }

    /// Every invoice appears among those that the listing of its current
    /// status shows.
    pub proof fn lemma_listed_under_status(&self, id: Seq<u8>)
        requires
            self.wf(),
            self.invoices@.contains_key(id),
        ensures
            members(
                self.status_ids(self.invoice_views()[id].status),
                self.invoice_views(),
                self.invoice_views()[id].status,
            ).contains(id),
    {
        let status = self.invoice_views()[id].status;
        assert(self.status_ids(status) == self.status_lists()[status.spec_code() as int]);
        lemma_members_include(self.status_ids(status), self.invoice_views(), status, id);
    }
}

/// The members of `ids` in `status` include every one of them that is in `status`.
pub proof fn lemma_members_include(
    ids: Seq<Seq<u8>>,
    invoices: Map<Seq<u8>, InvoiceView>,
    status: InvoiceStatus,
    id: Seq<u8>,
)
    requires
        ids.contains(id),
        invoices.contains_key(id),
        invoices[id].status == status,
    ensures
        members(ids, invoices, status).contains(id),
    decreases ids.len(),
{
    let rest = members(ids.drop_last(), invoices, status);
    if ids.last() == id {
        lemma_push_contains(rest, id, id);
    } else {
        let i = choose|i: int| 0 <= i < ids.len() && ids[i] == id;
        assert(ids.drop_last()[i] == id);
        lemma_members_include(ids.drop_last(), invoices, status, id);
        lemma_push_contains(rest, ids.last(), id);
    }
}

/// Every invoice named by `members` is one that is in `status`.
pub proof fn lemma_members_have_status(ids: Seq<Seq<u8>>, invoices: Map<Seq<u8>, InvoiceView>, status: InvoiceStatus)
    ensures
        forall|j: int|
            0 <= j < members(ids, invoices, status).len() ==> invoices.contains_key(
                #[trigger] members(ids, invoices, status)[j],
            ) && invoices[members(ids, invoices, status)[j]].status == status,
    decreases ids.len(),
{
    if ids.len() > 0 {
        lemma_members_have_status(ids.drop_last(), invoices, status);
    }
}

} // verus!
