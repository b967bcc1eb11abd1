//! Core of a node in an asset-transfer ledger that reaches agreement through a
//! Byzantine-fault-tolerant reliable-broadcast layer.
//!
//! The verified core is the account ledger state machine ([`accounts`]), the
//! bounded recent-transaction cache ([`recent_transactions`]), and the delivery
//! pipeline that applies quorum-delivered payloads to both ([`pipeline`]).
//! Dissemination, transport and RPC marshaling are outside collaborators and
//! live outside this library.

use vstd::prelude::*;

pub mod accounts;
pub mod pipeline;
pub mod recent_transactions;

verus! {

/// An account identity: an opaque, fixed-size public-key value.
/// Equality is exact byte comparison.
#[derive(Clone, Copy, Debug)]
pub struct Identity {
    pub bytes: [u8; 32],
}

impl View for Identity {
    type V = Seq<u8>;

    open spec fn view(&self) -> Seq<u8> {
        self.bytes@
    }
}

impl Identity {
    /// Exact byte comparison of two identities.
    pub fn equals(&self, other: &Identity) -> (r: bool)
        ensures
            r == (self@ == other@),
    {
        let mut i: usize = 0;
        while i < 32
            invariant
                i <= 32,
                forall|j: int| 0 <= j < i ==> self.bytes@[j] == other.bytes@[j],
            decreases 32 - i,
        {
            if self.bytes[i] != other.bytes[i] {
                return false;
            }
            i = i + 1;
        }
        proof {
            assert(self.bytes@ =~= other.bytes@);
        }
        true
    }
}

/// A signature over a transfer request, made by the sender's signing key.
/// The core never inspects it: authentication happens in the broadcast layer
/// before a payload is ever delivered to the pipeline.
#[derive(Clone, Copy)]
pub struct Signature {
    pub bytes: [u8; 64],
}

/// The transfer data a client signs: whom to pay and how much.
#[derive(Clone, Copy, Debug)]
pub struct ThinTransaction {
    pub recipient: Identity,
    pub amount: u64,
}

/// A transfer applied to the ledger, as retained by the recent-transaction
/// cache: the payload's endpoints and amount, stamped at apply time with the
/// pipeline's clock (milliseconds since the Unix epoch).
#[derive(Clone, Copy, Debug)]
pub struct FullTransaction {
    pub timestamp: i64,
    pub sender: Identity,
    pub recipient: Identity,
    pub amount: u64,
}

/// A signed transfer request as the broadcast layer delivers it: sender,
/// per-sender sequence number, transfer data and the sender's signature.
#[derive(Clone, Copy)]
pub struct TransferPayload {
    pub sender: Identity,
    pub sequence: u64,
    pub recipient: Identity,
    pub amount: u64,
    pub signature: Signature,
}

} // verus!
