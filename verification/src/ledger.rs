//! Ledger-level values shared by every contract: addresses, invoice
//! identifiers, the context of one invocation and the token movements that
//! a successful call asks for.

use vstd::prelude::*;

verus! {

/// An account or contract address on the ledger, held as its XDR encoding.
/// Two addresses are the same exactly when their encodings are.
#[derive(Debug, PartialEq, Eq)]
pub struct Address {
    pub xdr: Vec<u8>,
}

impl View for Address {
    type V = Seq<u8>;

    open spec fn view(&self) -> Seq<u8> {
        self.xdr@
    }
}

impl Address {
    pub fn from_xdr(xdr: Vec<u8>) -> (r: Address)
        ensures
            r@ == xdr@,
    {
        Address { xdr }
    }

    /// Whether both values denote the same address.
    pub fn same(&self, other: &Address) -> (r: bool)
        ensures
            r == (self@ == other@),
    {
        let n = self.xdr.len();
        if n != other.xdr.len() {
            return false;
        }
        let mut i: usize = 0;
        while i < n
            invariant
                n == self.xdr@.len(),
                n == other.xdr@.len(),
                i <= n,
                forall|j: int| 0 <= j < i ==> self.xdr@[j] == other.xdr@[j],
            decreases n - i,
        {
            if self.xdr[i] != other.xdr[i] {
                return false;
            }
            i = i + 1;
        }
        assert(self.xdr@ =~= other.xdr@);
        true
    }

    /// A second value holding the same address.
    pub fn duplicate(&self) -> (r: Address)
        ensures
            r@ == self@,
    {
        let n = self.xdr.len();
        let mut out: Vec<u8> = Vec::with_capacity(n);
        let mut i: usize = 0;
        while i < n
            invariant
                n == self.xdr@.len(),
                i <= n,
                out@ == self.xdr@.subrange(0, i as int),
            decreases n - i,
        {
            out.push(self.xdr[i]);
            i = i + 1;
        }
        assert(out@ =~= self.xdr@);
        Address { xdr: out }
    }
}

/// The 32-byte identifier of an invoice.
#[derive(Clone, Copy, Debug, PartialEq, Eq)]
pub struct InvoiceId {
    pub bytes: [u8; 32],
}

impl View for InvoiceId {
    type V = Seq<u8>;

    open spec fn view(&self) -> Seq<u8> {
        self.bytes@
    }
}

impl InvoiceId {
    pub fn from_bytes(bytes: [u8; 32]) -> (r: InvoiceId)
        ensures
            r@ == bytes@,
    {
        InvoiceId { bytes }
    }

    /// Whether both values denote the same invoice.
    pub fn same(&self, other: &InvoiceId) -> (r: bool)
        ensures
            r == (self@ == other@),
    {
        let mut i: usize = 0;
        while i < 32
            invariant
                self.bytes@.len() == 32,
                other.bytes@.len() == 32,
                i <= 32,
                forall|j: int| 0 <= j < i ==> self.bytes@[j] == other.bytes@[j],
            decreases 32 - i,
        {
            if self.bytes[i] != other.bytes[i] {
                return false;
            }
            i = i + 1;
        }
        assert(self.bytes@ =~= other.bytes@);
        true
    }

    /// A second value holding the same identifier.
    pub fn duplicate(&self) -> (r: InvoiceId)
        ensures
            r@ == self@,
    {
        InvoiceId { bytes: self.bytes }
    }
}

/// What one invocation of a contract knows of its surroundings: the ledger
/// time, the addresses whose authorization accompanies the call, and the
/// address of the contract being invoked.
pub struct CallContext {
    pub now: u64,
    pub signers: Vec<Address>,
    pub this: Address,
}

impl CallContext {
    /// The authorizing addresses, each taken by its encoding.
    pub open spec fn signer_set(&self) -> Seq<Seq<u8>> {
        self.signers@.map_values(|a: Address| a@)
    }

    /// Whether `a` has authorized this invocation.
    pub open spec fn authorized(&self, a: Seq<u8>) -> bool {
        self.signer_set().contains(a)
    }

    /// Whether `a` has authorized this invocation.
    pub fn has_signed(&self, a: &Address) -> (r: bool)
        ensures
            r == self.authorized(a@),
    {
        let n = self.signers.len();
        let mut i: usize = 0;
        while i < n
            invariant
                n == self.signers@.len(),
                i <= n,
                forall|j: int| 0 <= j < i ==> self.signers@[j]@ != a@,
            decreases n - i,
        {
            if self.signers[i].same(a) {
                assert(self.signer_set()[i as int] == a@);
                return true;
            }
            i = i + 1;
        }
        assert(!self.signer_set().contains(a@)) by {
            if self.signer_set().contains(a@) {
                let k = choose|k: int| 0 <= k < self.signer_set().len() && self.signer_set()[k] == a@;
                assert(self.signers@[k]@ == a@);
            }
        }
        false
    }
}

impl CallContext {
    /// The context a contract sees when it is invoked, as `callee`, from
    /// this invocation: the same time and authorizations, together with
    /// that of `caller`, the contract making the call, if any.
    pub fn invoke(&self, callee: &Address, caller: Option<&Address>) -> (r: CallContext)
        ensures
            r.now == self.now,
            r.this@ == callee@,
            forall|a: Seq<u8>|
                #[trigger] r.authorized(a) == (self.authorized(a) || (caller matches Some(c) && a
                    == c@)),
    {
        let n = self.signers.len();
        let mut signers: Vec<Address> = Vec::new();
        let mut i: usize = 0;
        while i < n
            invariant
                n == self.signers@.len(),
                i <= n,
                signers@.len() == i,
                forall|j: int| 0 <= j < i ==> (#[trigger] signers@[j])@ == self.signers@[j]@,
            decreases n - i,
        {
            signers.push(self.signers[i].duplicate());
            i = i + 1;
        }
        let ghost base = signers@.map_values(|a: Address| a@);
        assert(base =~= self.signer_set());
        match caller {
            Some(c) => {
                signers.push(c.duplicate());
                assert(signers@.map_values(|a: Address| a@) =~= base.push(c@));
            },
            None => {},
        }
        let r = CallContext { now: self.now, signers, this: callee.duplicate() };
        assert forall|a: Seq<u8>|
            #[trigger] r.authorized(a) == (self.authorized(a) || (caller matches Some(c) && a
                == c@)) by {
            if let Some(c) = caller {
                assert(base.push(c@)[base.len() as int] == c@);
                if base.push(c@).contains(a) {
                    let k = choose|k: int| 0 <= k < base.len() + 1 && base.push(c@)[k] == a;
                    if k < base.len() {
                        assert(base[k] == a);
                    }
                }
                if base.contains(a) {
                    let k = choose|k: int| 0 <= k < base.len() && base[k] == a;
                    assert(base.push(c@)[k] == a);
                }
            }
        }
        r
    }
}

/// A movement of tokens that a successful call asks the token contract to
/// perform: `amount` units of `asset` from `from` to `to`.
pub struct Transfer {
    pub asset: Address,
    pub from: Address,
    pub to: Address,
    pub amount: u128,
}

/// A transfer taken by the encodings of its addresses.
pub struct TransferView {
    pub asset: Seq<u8>,
    pub from: Seq<u8>,
    pub to: Seq<u8>,
    pub amount: u128,
}

impl View for Transfer {
    type V = TransferView;

    open spec fn view(&self) -> TransferView {
        TransferView { asset: self.asset@, from: self.from@, to: self.to@, amount: self.amount }
    }
}

} // verus!
