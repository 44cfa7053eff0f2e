//! Access to witness transactions.
use crate::ids::Txid;
use crate::validation::witness::Tx;
use vstd::prelude::*;

verus! {

/// Why a witness transaction can not be obtained.
#[derive(PartialEq, Eq, Debug)]
pub enum TxResolverError {
    /// The transaction is not mined.
    Unknown(Txid),
    /// The transaction can not be retrieved, for the reason given.
    Other(Txid, String),
}

impl Clone for TxResolverError {
    fn clone(&self) -> (err: TxResolverError)
        ensures
            err == *self,
    {
        match self {
            TxResolverError::Unknown(txid) => TxResolverError::Unknown(*txid),
            TxResolverError::Other(txid, reason) => TxResolverError::Other(*txid, reason.clone()),
        }
    }
}

/// Source of witness transactions.
pub trait ResolveTx {
    /// Whether the source may give the reply when it is asked for a transaction. A source may
    /// have several replies: it may learn of a transaction, or fail for the time being.
    spec fn may_reply(&self, txid: Txid, reply: Result<Tx, TxResolverError>) -> bool;

    /// Asks for a transaction.
    fn resolve_tx(&self, txid: Txid) -> (reply: Result<Tx, TxResolverError>)
        ensures
            self.may_reply(txid, reply),
    ;
}

} // verus!
