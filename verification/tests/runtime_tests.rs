use kova_core::apply::{apply_block, apply_tx, from_genesis, pool_root};
use kova_core::block::{Block, BlockHeader};
use kova_core::domains::{DomainRuntime, StoreVm};
use kova_core::errors::ExecError;
use kova_core::runtime::{
    ExecutionConfig, FeeSplit, GenesisConfig, RewardParams,
    default_slash_penalty_bps, default_unbonding_delay_blocks,
};
use kova_core::state::ChainState;
use kova_core::tx::{
    Tx, TxPayload, address_from_pubkey, canonical_encode, payload_kind,
    sign_bytes, tx_signing_bytes, verify_tx_signature,
};
use kova_core::tx_codec::canonical_decode;
use kova_core::zk_privacy::{PrivacyWithdrawInput, note_commitment, stub_withdraw_proof};

fn secret(tag: u8) -> Vec<u8> {
    vec![tag; 32]
}

fn pubkey_of(secret: &Vec<u8>) -> Vec<u8> {
    kova_core::crypto::ed25519_public_key(secret)
}

fn fee_split() -> FeeSplit {
    FeeSplit {
        l1_gas_burn_pct: 30,
        l1_gas_validators_pct: 70,
        da_validators_pct: 70,
        da_nodes_pct: 20,
        da_treasury_pct: 10,
        l2_sequencer_pct: 50,
        l2_da_costs_pct: 30,
        l2_l1_rent_pct: 20,
    }
}

fn devnet_genesis(accounts: Vec<(Vec<u8>, u128)>) -> GenesisConfig {
    GenesisConfig {
        chain_id: b"kova-devnet".to_vec(),
        initial_validators: Vec::new(),
        initial_accounts: accounts,
        block_time_ms: 1_000,
        max_gas_per_block: 30_000_000,
        base_fee: 1,
        da_sample_count: 8,
        slashing_double_sign: 5,
        fee_split: fee_split(),
        initial_total_supply: 0,
        reward_params: RewardParams::standard(),
        unbonding_delay_blocks: default_unbonding_delay_blocks(),
        slash_penalty_bps: default_slash_penalty_bps(),
    }
}

fn build_tx(payload: TxPayload, sk: &Vec<u8>, nonce: u64) -> Tx {
    let pk = pubkey_of(sk);
    let mut tx = Tx {
        chain_id: b"kova-devnet".to_vec(),
        nonce,
        gas_limit: 200_000,
        max_fee: Some(1),
        max_priority_fee: Some(0),
        gas_price: None,
        payload,
        public_key: pk,
        signature: Vec::new(),
    };
    let msg = tx_signing_bytes(&tx);
    tx.signature = sign_bytes(sk, &msg);
    tx
}

fn empty_header(height: u64, proposer: Vec<u8>) -> BlockHeader {
    BlockHeader {
        parent_hash: vec![0u8; 32],
        height,
        timestamp: 0,
        proposer_id: proposer,
        state_root: vec![0u8; 32],
        l1_tx_root: vec![0u8; 32],
        da_commitment: None,
        domain_roots: Vec::new(),
        gas_used: 0,
        gas_limit: 30_000_000,
        base_fee: 1,
        consensus_metadata: Vec::new(),
    }
}

fn balance(state: &ChainState, addr: &Vec<u8>) -> u128 {
    for a in state.accounts.iter() {
        if a.address == *addr {
            return a.balance_x;
        }
    }
    0
}

fn nonce(state: &ChainState, addr: &Vec<u8>) -> u64 {
    for a in state.accounts.iter() {
        if a.address == *addr {
            return a.nonce;
        }
    }
    0
}

fn setup(balance: u128, tag: u8) -> (ExecutionConfig, ChainState, DomainRuntime, Vec<u8>, Vec<u8>) {
    let sk = secret(tag);
    let pk = pubkey_of(&sk);
    let addr = address_from_pubkey(&pk);
    let genesis = devnet_genesis(vec![(addr.clone(), balance)]);
    let (cfg, state) = from_genesis(&genesis).unwrap();
    (cfg, state, DomainRuntime::new(), sk, addr)
}

#[test]
fn transfer_moves_balance() {
    let sk = secret(3);
    let pk = pubkey_of(&sk);
    let from = address_from_pubkey(&pk);
    let genesis = devnet_genesis(vec![(from.clone(), 1_000_000)]);
    let (cfg, mut state) = from_genesis(&genesis).unwrap();
    let mut domains = DomainRuntime::new();
    let to = vec![2u8; 32];
    let mut tx = Tx {
        chain_id: b"kova-devnet".to_vec(),
        nonce: 0,
        gas_limit: 21_000,
        max_fee: None,
        max_priority_fee: None,
        gas_price: Some(1),
        payload: TxPayload::Transfer { to: to.clone(), amount: 10 },
        public_key: pk.clone(),
        signature: Vec::new(),
    };
    let msg = tx_signing_bytes(&tx);
    tx.signature = sign_bytes(&sk, &msg);
    let block = Block {
        header: empty_header(0, vec![0u8; 32]),
        transactions: vec![tx],
        da_blobs: Vec::new(),
    };
    let result = apply_block(&cfg, &mut state, &mut domains, &StoreVm {}, &block).unwrap();
    assert_ne!(result.state_root, vec![0u8; 32]);
    assert_eq!(balance(&state, &to), 10);
}

#[test]
fn stake_creates_validator_and_updates_balance() {
    let (cfg, mut state, mut domains, sk, owner) = setup(1_000_000, 7);
    let tx = build_tx(TxPayload::Stake { amount: 100_000 }, &sk, 0);
    let block = Block {
        header: empty_header(0, owner.clone()),
        transactions: vec![tx],
        da_blobs: Vec::new(),
    };
    let result = apply_block(&cfg, &mut state, &mut domains, &StoreVm {}, &block).unwrap();
    assert_ne!(result.state_root, vec![0u8; 32]);
    assert_eq!(state.validators.len(), 1);
    let validator = &state.validators[0];
    assert_eq!(validator.owner, owner);
    assert!(validator.stake >= 100_000);
}

#[test]
fn unstake_uses_unbonding_delay() {
    let sk = secret(7);
    let pk = pubkey_of(&sk);
    let owner = address_from_pubkey(&pk);
    let genesis = GenesisConfig {
        unbonding_delay_blocks: 1,
        ..devnet_genesis(vec![(owner.clone(), 1_000_000)])
    };
    let (cfg, mut state) = from_genesis(&genesis).unwrap();
    let mut domains = DomainRuntime::new();
    let vm = StoreVm {};

    let stake_tx = build_tx(TxPayload::Stake { amount: 100_000 }, &sk, 0);
    let stake_block = Block {
        header: empty_header(0, owner.clone()),
        transactions: vec![stake_tx],
        da_blobs: Vec::new(),
    };
    apply_block(&cfg, &mut state, &mut domains, &vm, &stake_block).unwrap();

    let unstake_tx = build_tx(TxPayload::Unstake { amount: 50_000 }, &sk, 1);
    let unstake_block = Block {
        header: empty_header(1, owner.clone()),
        transactions: vec![unstake_tx],
        da_blobs: Vec::new(),
    };
    apply_block(&cfg, &mut state, &mut domains, &vm, &unstake_block).unwrap();

    assert_eq!(state.pending_unbonds.len(), 1);
    assert!(balance(&state, &owner) < 850_000);

    let release_block = Block {
        header: empty_header(2, owner.clone()),
        transactions: Vec::new(),
        da_blobs: Vec::new(),
    };
    apply_block(&cfg, &mut state, &mut domains, &vm, &release_block).unwrap();
    assert!(balance(&state, &owner) >= 850_000 - 2);
}

#[test]
fn privacy_deposit_and_withdraw_stub() {
    let (cfg, mut state, mut domains, sk, sender) = setup(1_000_000, 7);
    let recipient_sk = secret(9);
    let recipient = address_from_pubkey(&pubkey_of(&recipient_sk));
    let vm = StoreVm {};

    let salt = vec![1u8; 32];
    let nullifier = vec![2u8; 32];
    let commitment = note_commitment(&nullifier, &recipient, 10, &salt);

    let deposit = build_tx(
        TxPayload::PrivacyDeposit { commitment: commitment.clone(), amount: 10 },
        &sk,
        0,
    );
    apply_tx(&cfg, &mut state, &mut domains, &vm, &deposit, 0, 0).unwrap();

    assert_eq!(state.privacy_pool.total_shielded, 10);
    assert!(state.privacy_pool.commitments.contains(&commitment));
    assert_eq!(nonce(&state, &sender), 1);

    let root = state.privacy_pool.merkle_root.clone();
    let input = PrivacyWithdrawInput {
        nullifier: nullifier.clone(),
        merkle_root: root.clone(),
        recipient: recipient.clone(),
        amount: 10,
        commitment: commitment.clone(),
    };
    let proof = stub_withdraw_proof(&input);
    let withdraw = build_tx(
        TxPayload::PrivacyWithdraw {
            nullifier: nullifier.clone(),
            recipient: recipient.clone(),
            amount: 10,
            merkle_root: root.clone(),
            commitment: commitment.clone(),
            proof,
        },
        &sk,
        1,
    );
    apply_tx(&cfg, &mut state, &mut domains, &vm, &withdraw, 1, 0).unwrap();

    assert_eq!(state.privacy_pool.total_shielded, 0);
    assert!(state.privacy_pool.nullifiers.contains(&nullifier));
    assert!(balance(&state, &recipient) >= 10);

    // the second spend of the same nullifier must fail
    let input2 = PrivacyWithdrawInput {
        nullifier: nullifier.clone(),
        merkle_root: root.clone(),
        recipient: recipient.clone(),
        amount: 10,
        commitment: commitment.clone(),
    };
    let proof2 = stub_withdraw_proof(&input2);
    let double_spend = build_tx(
        TxPayload::PrivacyWithdraw {
            nullifier: nullifier.clone(),
            recipient: recipient.clone(),
            amount: 10,
            merkle_root: root,
            commitment,
            proof: proof2,
        },
        &sk,
        2,
    );
    let r = apply_tx(&cfg, &mut state, &mut domains, &vm, &double_spend, 2, 0);
    assert_eq!(r.unwrap_err(), ExecError::DoubleSpendNullifier);
}

#[test]
fn payload_kind_maps() {
    assert_eq!(
        payload_kind(&TxPayload::Transfer { to: vec![1u8; 32], amount: 10 }),
        "transfer"
    );
    assert_eq!(
        payload_kind(&TxPayload::DomainCreate {
            domain_id: 0,
            params: kova_core::state::DomainParams {
                kind: kova_core::state::DomainType::Custom,
                max_loss_bps: None,
                risk_cap: None,
            },
        }),
        "domain_create"
    );
}

#[test]
fn transfer_with_fee_settles_exactly() {
    let (cfg, mut state, mut domains, sk, sender) = setup(1_000_000, 11);
    let recipient = vec![5u8; 32];
    let supply_before = state.total_supply;
    let tx = build_tx(TxPayload::Transfer { to: recipient.clone(), amount: 10 }, &sk, 0);
    apply_tx(&cfg, &mut state, &mut domains, &StoreVm {}, &tx, 0, 0).unwrap();
    // the transfer costs the amount plus 21,000 gas at one unit each
    assert_eq!(balance(&state, &sender), 1_000_000 - 10 - 21_000);
    assert_eq!(balance(&state, &recipient), 10);
    assert_eq!(nonce(&state, &sender), 1);
    // the burn share of the fee accrues to the treasury
    assert_eq!(state.fee_pools.treasury, 21_000 * 30 / 100);
    assert_eq!(state.fee_pools.l1_gas, 21_000 * 70 / 100);
    assert_eq!(state.total_supply, supply_before);
}

#[test]
fn nonce_must_match_and_increment() {
    let (cfg, mut state, mut domains, sk, sender) = setup(1_000_000, 13);
    let vm = StoreVm {};
    let bad = build_tx(TxPayload::Transfer { to: vec![4u8; 32], amount: 1 }, &sk, 5);
    assert_eq!(
        apply_tx(&cfg, &mut state, &mut domains, &vm, &bad, 0, 0).unwrap_err(),
        ExecError::BadNonce
    );
    let tx0 = build_tx(TxPayload::Transfer { to: vec![4u8; 32], amount: 1 }, &sk, 0);
    apply_tx(&cfg, &mut state, &mut domains, &vm, &tx0, 0, 0).unwrap();
    assert_eq!(nonce(&state, &sender), 1);
    let tx1 = build_tx(TxPayload::Transfer { to: vec![4u8; 32], amount: 1 }, &sk, 1);
    apply_tx(&cfg, &mut state, &mut domains, &vm, &tx1, 0, 0).unwrap();
    assert_eq!(nonce(&state, &sender), 2);
    // replaying the first transaction must fail now
    assert_eq!(
        apply_tx(&cfg, &mut state, &mut domains, &vm, &tx0, 0, 0).unwrap_err(),
        ExecError::BadNonce
    );
}

#[test]
fn admission_errors_are_named() {
    let (cfg, mut state, mut domains, sk, _sender) = setup(100, 15);
    let vm = StoreVm {};
    // wrong chain id
    let pk = pubkey_of(&sk);
    let mut wrong_chain = Tx {
        chain_id: b"other-net".to_vec(),
        nonce: 0,
        gas_limit: 21_000,
        max_fee: Some(1),
        max_priority_fee: Some(0),
        gas_price: None,
        payload: TxPayload::Transfer { to: vec![4u8; 32], amount: 1 },
        public_key: pk.clone(),
        signature: Vec::new(),
    };
    let msg = tx_signing_bytes(&wrong_chain);
    wrong_chain.signature = sign_bytes(&sk, &msg);
    assert_eq!(
        apply_tx(&cfg, &mut state, &mut domains, &vm, &wrong_chain, 0, 0).unwrap_err(),
        ExecError::WrongChainId
    );
    // tampered signature
    let mut bad_sig = build_tx(TxPayload::Transfer { to: vec![4u8; 32], amount: 1 }, &sk, 0);
    bad_sig.signature[0] ^= 1;
    assert_eq!(
        apply_tx(&cfg, &mut state, &mut domains, &vm, &bad_sig, 0, 0).unwrap_err(),
        ExecError::InvalidSignature
    );
    // insufficient funds: balance 100 cannot cover the 21,000 gas fee
    let poor = build_tx(TxPayload::Transfer { to: vec![4u8; 32], amount: 1 }, &sk, 0);
    assert_eq!(
        apply_tx(&cfg, &mut state, &mut domains, &vm, &poor, 0, 0).unwrap_err(),
        ExecError::InsufficientFunds
    );
    // unknown validator
    let unstake = build_tx(TxPayload::Unstake { amount: 1 }, &sk, 0);
    assert_eq!(
        apply_tx(&cfg, &mut state, &mut domains, &vm, &unstake, 0, 0).unwrap_err(),
        ExecError::UnknownValidator
    );
}

#[test]
fn withdraw_checks_pool_state() {
    let (cfg, mut state, mut domains, sk, _sender) = setup(1_000_000, 17);
    let vm = StoreVm {};
    let commitment = vec![3u8; 32];
    let deposit = build_tx(
        TxPayload::PrivacyDeposit { commitment: commitment.clone(), amount: 7 },
        &sk,
        0,
    );
    apply_tx(&cfg, &mut state, &mut domains, &vm, &deposit, 0, 0).unwrap();
    let root = state.privacy_pool.merkle_root.clone();
    // a stale root is rejected
    let input = PrivacyWithdrawInput {
        nullifier: vec![8u8; 32],
        merkle_root: vec![9u8; 32],
        recipient: vec![6u8; 32],
        amount: 7,
        commitment: commitment.clone(),
    };
    let bad_root = build_tx(
        TxPayload::PrivacyWithdraw {
            nullifier: vec![8u8; 32],
            recipient: vec![6u8; 32],
            amount: 7,
            merkle_root: vec![9u8; 32],
            commitment: commitment.clone(),
            proof: stub_withdraw_proof(&input),
        },
        &sk,
        1,
    );
    assert_eq!(
        apply_tx(&cfg, &mut state, &mut domains, &vm, &bad_root, 0, 0).unwrap_err(),
        ExecError::MerkleRootMismatch
    );
    // an unknown note commitment is rejected
    let input2 = PrivacyWithdrawInput {
        nullifier: vec![8u8; 32],
        merkle_root: root.clone(),
        recipient: vec![6u8; 32],
        amount: 7,
        commitment: vec![12u8; 32],
    };
    let bad_commitment = build_tx(
        TxPayload::PrivacyWithdraw {
            nullifier: vec![8u8; 32],
            recipient: vec![6u8; 32],
            amount: 7,
            merkle_root: root,
            commitment: vec![12u8; 32],
            proof: stub_withdraw_proof(&input2),
        },
        &sk,
        1,
    );
    assert_eq!(
        apply_tx(&cfg, &mut state, &mut domains, &vm, &bad_commitment, 0, 0).unwrap_err(),
        ExecError::CommitmentUnknown
    );
}

#[test]
fn tx_round_trip_preserves_everything() {
    let sk = secret(21);
    let tx = build_tx(TxPayload::Transfer { to: vec![7u8; 32], amount: 42 }, &sk, 3);
    let encoded = canonical_encode(&tx);
    let decoded = canonical_decode(&encoded).unwrap();
    assert_eq!(decoded.chain_id, tx.chain_id);
    assert_eq!(decoded.nonce, tx.nonce);
    assert_eq!(decoded.gas_limit, tx.gas_limit);
    assert_eq!(decoded.max_fee, tx.max_fee);
    assert_eq!(decoded.public_key, tx.public_key);
    assert_eq!(decoded.signature, tx.signature);
    match (&decoded.payload, &tx.payload) {
        (TxPayload::Transfer { to: a, amount: x }, TxPayload::Transfer { to: b, amount: y }) => {
            assert_eq!(a, b);
            assert_eq!(x, y);
        },
        _ => panic!("payload kind changed in the round trip"),
    }
    // the decoded transaction verifies for the same sender
    let sender = verify_tx_signature(&tx).unwrap();
    let sender2 = verify_tx_signature(&decoded).unwrap();
    assert_eq!(sender, sender2);
    // re-encoding is byte-identical
    assert_eq!(canonical_encode(&decoded), encoded);
}

#[test]
fn pool_root_is_insertion_order_independent() {
    let a = vec![1u8; 32];
    let b = vec![2u8; 32];
    let c = vec![3u8; 32];
    let r1 = pool_root(&vec![a.clone(), b.clone(), c.clone()]);
    let r2 = pool_root(&vec![c, a, b]);
    assert_eq!(r1, r2);
}

#[test]
fn state_roots_converge_across_replicas() {
    // two replicas with the same genesis apply the same block and commit to
    // byte-identical roots, whatever order their stores were built in
    let sk = secret(23);
    let pk = pubkey_of(&sk);
    let addr = address_from_pubkey(&pk);
    let other = vec![9u8; 32];
    let g1 = devnet_genesis(vec![(addr.clone(), 500_000), (other.clone(), 700)]);
    let g2 = devnet_genesis(vec![(other, 700), (addr, 500_000)]);
    let (cfg1, mut s1) = from_genesis(&g1).unwrap();
    let (cfg2, mut s2) = from_genesis(&g2).unwrap();
    let mut d1 = DomainRuntime::new();
    let mut d2 = DomainRuntime::new();
    let vm = StoreVm {};
    let tx = build_tx(TxPayload::Transfer { to: vec![4u8; 32], amount: 10 }, &sk, 0);
    let block = Block {
        header: empty_header(0, vec![0u8; 32]),
        transactions: vec![tx],
        da_blobs: Vec::new(),
    };
    let r1 = apply_block(&cfg1, &mut s1, &mut d1, &vm, &block).unwrap();
    let tx2 = build_tx(TxPayload::Transfer { to: vec![4u8; 32], amount: 10 }, &sk, 0);
    let block2 = Block {
        header: empty_header(0, vec![0u8; 32]),
        transactions: vec![tx2],
        da_blobs: Vec::new(),
    };
    let r2 = apply_block(&cfg2, &mut s2, &mut d2, &vm, &block2).unwrap();
    assert_eq!(r1.state_root, r2.state_root);
    assert_eq!(balance(&s1, &vec![4u8; 32]), balance(&s2, &vec![4u8; 32]));
    assert!(balance(&s1, &vec![4u8; 32]) >= 10);
}

#[test]
fn supply_is_conserved_over_a_mixed_block() {
    let (cfg, mut state, mut domains, sk, _sender) = setup(10_000_000, 25);
    let vm = StoreVm {};
    fn measure(s: &ChainState) -> u128 {
        let balances: u128 = s.accounts.iter().map(|a| a.balance_x).sum();
        let stakes: u128 = s.validators.iter().map(|v| v.stake).sum();
        let fees = s.fee_pools.l1_gas + s.fee_pools.da + s.fee_pools.sequencer + s.fee_pools.treasury;
        let unbonds: u128 = s.pending_unbonds.iter().map(|u| u.amount).sum();
        balances + stakes + fees + unbonds + s.privacy_pool.total_shielded
    }
    assert_eq!(measure(&state), state.total_supply);
    let txs = vec![
        build_tx(TxPayload::Transfer { to: vec![4u8; 32], amount: 123 }, &sk, 0),
        build_tx(TxPayload::Stake { amount: 50_000 }, &sk, 1),
        build_tx(TxPayload::PrivacyDeposit { commitment: vec![5u8; 32], amount: 77 }, &sk, 2),
        build_tx(TxPayload::Unstake { amount: 20_000 }, &sk, 3),
    ];
    let block = Block {
        header: empty_header(0, vec![0u8; 32]),
        transactions: txs,
        da_blobs: Vec::new(),
    };
    apply_block(&cfg, &mut state, &mut domains, &vm, &block).unwrap();
    // the books still balance: measured value equals recorded supply,
    // including whatever the block minted
    assert_eq!(measure(&state), state.total_supply);
}

#[test]
fn slash_compacts_drained_delegations() {
    let (cfg, mut state, mut domains, sk, addr) = setup(1_000_000, 31);
    let vm = StoreVm {};
    let stake = build_tx(TxPayload::Stake { amount: 100_000 }, &sk, 0);
    apply_tx(&cfg, &mut state, &mut domains, &vm, &stake, 0, 0).unwrap();
    assert_eq!(state.validators.len(), 1);
    let delegate = build_tx(
        TxPayload::Delegate { validator: addr.clone(), amount: 1_000 },
        &sk,
        1,
    );
    apply_tx(&cfg, &mut state, &mut domains, &vm, &delegate, 0, 0).unwrap();
    assert_eq!(state.delegations.len(), 1);
    let treasury_before = state.fee_pools.treasury;
    let slash = build_tx(
        TxPayload::Slash { validator: addr.clone(), penalty_bps: 10_000, reason: None },
        &sk,
        2,
    );
    apply_tx(&cfg, &mut state, &mut domains, &vm, &slash, 0, 0).unwrap();
    // a full slash drains the validator and removes the zero-stake delegation row
    assert_eq!(state.validators[0].stake, 0);
    assert!(matches!(
        state.validators[0].status,
        kova_core::state::ValidatorStatus::Jailed
    ));
    assert_eq!(state.delegations.len(), 0);
    assert!(state.fee_pools.treasury > treasury_before);
}

#[test]
fn partial_slash_keeps_cut_delegations() {
    let (cfg, mut state, mut domains, sk, addr) = setup(1_000_000, 32);
    let vm = StoreVm {};
    let stake = build_tx(TxPayload::Stake { amount: 100_000 }, &sk, 0);
    apply_tx(&cfg, &mut state, &mut domains, &vm, &stake, 0, 0).unwrap();
    let delegate = build_tx(
        TxPayload::Delegate { validator: addr.clone(), amount: 1_000 },
        &sk,
        1,
    );
    apply_tx(&cfg, &mut state, &mut domains, &vm, &delegate, 0, 0).unwrap();
    // a ten-percent slash cuts the row pro rata and keeps it
    let slash = build_tx(
        TxPayload::Slash { validator: addr.clone(), penalty_bps: 1_000, reason: None },
        &sk,
        2,
    );
    apply_tx(&cfg, &mut state, &mut domains, &vm, &slash, 0, 0).unwrap();
    assert_eq!(state.delegations.len(), 1);
    assert_eq!(state.delegations[0].stake, 900);
}

#[test]
fn duplicate_privacy_deposit_is_rejected() {
    let (cfg, mut state, mut domains, sk, _addr) = setup(1_000_000, 33);
    let vm = StoreVm {};
    let commitment = vec![9u8; 32];
    let first = build_tx(
        TxPayload::PrivacyDeposit { commitment: commitment.clone(), amount: 10 },
        &sk,
        0,
    );
    apply_tx(&cfg, &mut state, &mut domains, &vm, &first, 0, 0).unwrap();
    let second = build_tx(
        TxPayload::PrivacyDeposit { commitment: commitment.clone(), amount: 10 },
        &sk,
        1,
    );
    assert_eq!(
        apply_tx(&cfg, &mut state, &mut domains, &vm, &second, 0, 0).unwrap_err(),
        ExecError::DuplicateCommitment
    );
    assert_eq!(state.privacy_pool.total_shielded, 10);
}

#[test]
fn genesis_state_starts_clean() {
    let (cfg, state, _domains, _sk, addr) = setup(123_456, 34);
    assert_eq!(nonce(&state, &addr), 0);
    assert_eq!(state.fee_pools.treasury, 0);
    assert_eq!(state.fee_pools.l1_gas, 0);
    assert_eq!(state.fee_pools.da, 0);
    assert_eq!(state.fee_pools.sequencer, 0);
    assert_eq!(state.last_reward_height, 0);
    assert_eq!(state.delegations.len(), 0);
    assert_eq!(cfg.block_time_ms, 1_000);
    assert_eq!(cfg.da_sample_count, 8);
}
