//! What is kept of a spend between submitting and finalizing it.

use vstd::prelude::*;

use crate::psbt::text_views;

verus! {

/// A spend that was submitted but not yet finalized.
#[derive(Clone, Debug, PartialEq, Eq)]
pub struct PendingSpend {
    /// The application's identifier of the spend.
    pub id: String,
    /// The id of the ark transaction.
    pub ark_txid: String,
    /// The checkpoints with all signatures, as base64 text.
    pub signed_checkpoints: Vec<String>,
}

/// What a pending spend says.
#[verifier::ext_equal]
pub struct PendingView {
    pub id: Seq<char>,
    pub ark_txid: Seq<char>,
    pub signed_checkpoints: Seq<Seq<char>>,
}

impl View for PendingSpend {
    type V = PendingView;

    open spec fn view(&self) -> PendingView {
        PendingView {
            id: self.id@,
            ark_txid: self.ark_txid@,
            signed_checkpoints: text_views(self.signed_checkpoints@),
        }
    }
}

} // verus!
