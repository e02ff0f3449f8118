//! Transaction ids and outpoints.

use vstd::prelude::*;

use crate::bytes::bytes_equal;

verus! {

/// The text of a transaction id, as `bitcoin::Txid` displays it.
pub uninterp spec fn txid_text(txid: Seq<u8>) -> Seq<char>;

/// The transaction id that `bitcoin::Txid` reads from a text, if it reads one.
pub uninterp spec fn txid_of_text(text: Seq<char>) -> Option<Seq<u8>>;

/// Calls `to_string` on a `bitcoin::Txid`.
///
/// Claimed of it: the text depends on the id alone, and reads back as the id.
#[verifier::external_body]
fn display_txid(txid: [u8; 32]) -> (text: String)
    ensures
        text@ == txid_text(txid@),
        txid_of_text(text@) == Some(txid@),
{
    <bitcoin::Txid as bitcoin::hashes::Hash>::from_byte_array(txid).to_string()
}

/// Calls `bitcoin::Txid::from_str`.
///
/// Claimed of it: whether a text is a transaction id, and which, depends on the
/// text alone.
#[verifier::external_body]
fn read_txid(text: &str) -> (txid: Option<[u8; 32]>)
    ensures
        txid is Some <==> txid_of_text(text@) is Some,
        txid matches Some(t) ==> txid_of_text(text@) == Some(t@),
{
    text.parse::<bitcoin::Txid>().ok().map(|txid| bitcoin::hashes::Hash::to_byte_array(txid))
}

/// The id of a transaction.
#[derive(Clone, Copy, Debug, PartialEq, Eq)]
pub struct Txid {
    /// The hash, in the order in which it is serialized.
    pub bytes: [u8; 32],
}

impl View for Txid {
    type V = Seq<u8>;

    open spec fn view(&self) -> Seq<u8> {
        self.bytes@
    }
}

impl Txid {
    /// An id has 32 bytes, and they tell it from every other id.
    pub proof fn lemma_bytes(self, other: Txid)
        ensures
            self@.len() == 32,
            self@ == other@ ==> self == other,
    {
        if self@ == other@ {
            assert(self.bytes =~= other.bytes);
        }
    }

    /// Reads an id.
    pub fn parse(text: &str) -> (txid: Option<Txid>)
        ensures
            txid is Some <==> txid_of_text(text@) is Some,
            txid matches Some(t) ==> txid_of_text(text@) == Some(t@),
    {
        match read_txid(text) {
            Some(bytes) => Some(Txid { bytes }),
            None => None,
        }
    }

    /// The text of the id. It reads back as the id.
    pub fn to_string(&self) -> (text: String)
        ensures
            text@ == txid_text(self@),
            txid_of_text(text@) == Some(self@),
    {
        display_txid(self.bytes)
    }

    /// Whether two ids are the same.
    pub fn same(&self, other: &Txid) -> (same: bool)
        ensures
            same == (self@ == other@),
            same == (*self == *other),
    {
        proof {
            self.lemma_bytes(*other);
        }
        bytes_equal(self.bytes.as_slice(), other.bytes.as_slice())
    }
}

/// The text of an outpoint, as `bitcoin::OutPoint` displays it.
pub uninterp spec fn outpoint_text(txid: Seq<u8>, vout: u32) -> Seq<char>;

/// The outpoint that `bitcoin::OutPoint` reads from a text, if it reads one.
pub uninterp spec fn outpoint_of_text(text: Seq<char>) -> Option<(Seq<u8>, u32)>;

/// Calls `to_string` on a `bitcoin::OutPoint`.
///
/// Claimed of it: the text depends on the outpoint alone, and reads back as the
/// outpoint.
#[verifier::external_body]
fn display_outpoint(txid: [u8; 32], vout: u32) -> (text: String)
    ensures
        text@ == outpoint_text(txid@, vout),
        outpoint_of_text(text@) == Some((txid@, vout)),
{
    let txid = <bitcoin::Txid as bitcoin::hashes::Hash>::from_byte_array(txid);
    bitcoin::OutPoint { txid, vout }.to_string()
}

/// Calls `bitcoin::OutPoint::from_str`.
///
/// Claimed of it: whether a text is an outpoint, and which, depends on the text
/// alone.
#[verifier::external_body]
fn read_outpoint(text: &str) -> (outpoint: Option<([u8; 32], u32)>)
    ensures
        outpoint is Some <==> outpoint_of_text(text@) is Some,
        outpoint matches Some(o) ==> outpoint_of_text(text@) == Some((o.0@, o.1)),
{
    let outpoint = text.parse::<bitcoin::OutPoint>().ok()?;
    Some((bitcoin::hashes::Hash::to_byte_array(outpoint.txid), outpoint.vout))
}

/// A transaction output, by its transaction and position.
#[derive(Clone, Copy, Debug, PartialEq, Eq)]
pub struct OutPoint {
    pub txid: Txid,
    pub vout: u32,
}

impl View for OutPoint {
    type V = (Seq<u8>, u32);

    open spec fn view(&self) -> (Seq<u8>, u32) {
        (self.txid@, self.vout)
    }
}

impl OutPoint {
    /// Reads an outpoint.
    pub fn parse(text: &str) -> (outpoint: Option<OutPoint>)
        ensures
            outpoint is Some <==> outpoint_of_text(text@) is Some,
            outpoint matches Some(o) ==> outpoint_of_text(text@) == Some(o@),
    {
        match read_outpoint(text) {
            Some((bytes, vout)) => Some(OutPoint { txid: Txid { bytes }, vout }),
            None => None,
        }
    }

    /// The text of the outpoint. It reads back as the outpoint.
    pub fn to_string(&self) -> (text: String)
        ensures
            text@ == outpoint_text(self.txid@, self.vout),
            outpoint_of_text(text@) == Some(self@),
    {
        display_outpoint(self.txid.bytes, self.vout)
    }

    /// Whether two outpoints are the same.
    pub fn same(&self, other: &OutPoint) -> (same: bool)
        ensures
            same == (self@ == other@),
            same == (*self == *other),
    {
        proof {
            self.txid.lemma_bytes(other.txid);
        }
        self.vout == other.vout && self.txid.same(&other.txid)
    }
}

} // verus!
