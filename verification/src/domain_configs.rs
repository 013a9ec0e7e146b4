//! Per-domain configuration types and the small admission rules of the
//! bundled execution domains.

use vstd::prelude::*;

use crate::tx::Tx;

verus! {

/// Configuration of an EVM-style domain.
#[derive(Debug)]
pub struct EvmDomainConfig {
    pub chain_id: Vec<u8>,
    pub security_model: Vec<u8>,
    pub da_mode: Vec<u8>,
    pub sequencer_binding: Option<Vec<u8>>,
    pub token_model: Vec<u8>,
}

/// A packet crossing from one domain to another, bounded by a timeout height.
#[derive(Debug)]
pub struct CrossDomainPacket {
    pub src_domain: Vec<u8>,
    pub dst_domain: Vec<u8>,
    pub sequence: u64,
    pub payload: Vec<u8>,
    pub timeout_height: u64,
}

/// A light-client view of a remote chain's head.
#[derive(Debug)]
pub struct LightClientHeader {
    pub state_root: Vec<u8>,
    pub validator_set_hash: Vec<u8>,
    pub height: u64,
}

/// Configuration of a payment domain.
#[derive(Debug)]
pub struct PaymentDomainConfig {
    pub chain_id: Vec<u8>,
    pub settlement_interval_blocks: u64,
    pub da_mode: Vec<u8>,
}

/// Configuration of a privacy domain.
#[derive(Debug)]
pub struct PrivacyDomainConfig {
    pub chain_id: Vec<u8>,
    pub circuits: Vec<Vec<u8>>,
    pub privacy_level: Vec<u8>,
}

/// Configuration of a WASM domain.
#[derive(Debug)]
pub struct WasmDomainConfig {
    pub chain_id: Vec<u8>,
    pub wasm_runtime: Vec<u8>,
    pub da_mode: Vec<u8>,
}

/// A batch is admissible for the EVM domain when it carries work.
pub fn validate_batch(txs: &Vec<Tx>) -> (r: bool)
    ensures
        r == (txs@.len() > 0),
{
    txs.len() > 0
}

/// A packet is acceptable against a header when it has not timed out and its
/// sequence has started.
pub fn verify_packet(packet: &CrossDomainPacket, header: &LightClientHeader) -> (r: bool)
    ensures
        r == (header.height <= packet.timeout_height && packet.sequence > 0),
{
    header.height <= packet.timeout_height && packet.sequence > 0
}

/// The channel limits of a payment domain: the least and greatest amount one
/// channel may settle.
pub fn channel_limits() -> (r: (u64, u64))
    ensures
        r.0 == 1 && r.1 == 10_000,
{
    (1, 10_000)
}

/// The operations a privacy domain accepts: a shielded deposit (tag 0) or a
/// shielded withdrawal (tag 1).
pub fn allowed_operation(op: u8) -> (r: bool)
    ensures
        r == (op == 0 || op == 1),
{
    op == 0 || op == 1
}

/// Module admission for a WASM domain: every module is accepted; policy
/// checks are the virtual machine's business at execution time.
pub fn validate_module(wasm_bytes: &Vec<u8>) -> (r: bool)
    ensures
        r == true,
{
    let _ = wasm_bytes.len();
    true
}

} // verus!
