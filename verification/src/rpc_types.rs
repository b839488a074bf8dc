//! Plain values that the node hands out over its RPC interface.

use crate::address::H256;
use vstd::prelude::*;

verus! {

/// `cidr::IpCidr`, a block of IPv4 or IPv6 addresses. It is declared so that a
/// filter list can carry it; nothing is claimed of it, and nothing here looks
/// into one.
#[verifier::external_type_specification]
#[verifier::external_body]
pub struct ExIpCidr(cidr::IpCidr);

/// The hash of a transaction.
#[derive(Clone, Copy, Debug, PartialEq, Eq, Structural)]
pub struct TxHash(pub H256);

/// A list of address filters, and whether it is in force.
#[derive(Debug)]
pub struct FilterStatus {
    /// The filtered address blocks, each with its tag.
    pub list: Vec<(cidr::IpCidr, String)>,
    pub enabled: bool,
}

/// What sending a transaction returns: its hash and the sequence number it was sent with.
#[derive(Debug)]
pub struct SendTransactionResult {
    pub hash: TxHash,
    pub seq: u64,
}

/// The settings of a throughput test: how many transactions, and the seed to draw them from.
#[derive(Debug)]
pub struct TPSTestSetting {
    pub count: u64,
    pub seed: u64,
}

} // verus!
