use kova_core::block::{Block, BlockHeader, hash_block};
use kova_core::consensus::{
    HotStuffEngine, SignedProposal, SignedVote, sign_proposal, sign_vote,
};
use kova_core::crypto::ed25519_public_key;
use kova_core::da::{DAConfig, InMemoryDA, verify_da_proof};
use kova_core::state::{Validator, ValidatorStatus};
use kova_core::tx::address_from_pubkey;
use kova_core::apply::from_genesis;
use kova_core::domains::{DomainRuntime, StoreVm};
use kova_core::node::{
    ConsensusMessage, Mempool, build_candidate_block, execute_and_seal, handle_consensus_message,
    is_local_leader, plan_tick,
};
use kova_core::runtime::{FeeSplit, GenesisConfig, RewardParams};
use kova_core::tx::{Tx, TxPayload, sign_bytes, tx_priority, tx_signing_bytes};

fn secret(tag: u8) -> Vec<u8> {
    vec![tag; 32]
}

fn make_validator(tag: u8, stake: u128) -> (Validator, Vec<u8>) {
    let sk = secret(tag);
    let pk = ed25519_public_key(&sk);
    let owner = address_from_pubkey(&pk);
    let v = Validator {
        owner,
        id: kova_core::crypto::uuid_v5_from_name(&pk),
        pubkey: pk,
        stake,
        status: ValidatorStatus::Active,
        commission_rate: 0,
    };
    (v, sk)
}

fn copy_validator(v: &Validator) -> Validator {
    Validator {
        owner: v.owner.clone(),
        id: v.id,
        pubkey: v.pubkey.clone(),
        stake: v.stake,
        status: v.status,
        commission_rate: v.commission_rate,
    }
}

fn empty_block_for(proposer: &Validator, height: u64) -> Block {
    Block {
        header: BlockHeader {
            parent_hash: vec![0u8; 32],
            height,
            timestamp: 0,
            proposer_id: proposer.owner.clone(),
            state_root: vec![0u8; 32],
            l1_tx_root: vec![0u8; 32],
            da_commitment: None,
            domain_roots: Vec::new(),
            gas_used: 0,
            gas_limit: 30_000_000,
            base_fee: 1,
            consensus_metadata: Vec::new(),
        },
        transactions: Vec::new(),
        da_blobs: Vec::new(),
    }
}

#[test]
fn quorum_reached_with_stake_weight() {
    let (v1, sk1) = make_validator(1, 10);
    let (v2, sk2) = make_validator(2, 10);
    let mut engine = HotStuffEngine::new(vec![copy_validator(&v1), copy_validator(&v2)]);
    let block_id = vec![0u8; 32];

    let vote1 = SignedVote {
        block_id: block_id.clone(),
        view: 0,
        voter: copy_validator(&v1),
        signature: sign_vote(&block_id, 0, &sk1),
    };
    engine.vote(vote1).unwrap();
    assert!(engine.pop_commit().is_none());

    let vote2 = SignedVote {
        block_id: block_id.clone(),
        view: 0,
        voter: copy_validator(&v2),
        signature: sign_vote(&block_id, 0, &sk2),
    };
    engine.vote(vote2).unwrap();
    assert!(engine.pop_commit().is_some());
}

#[test]
fn quorum_commit_survives_timeout_and_late_votes() {
    let (v1, sk1) = make_validator(1, 10);
    let (v2, sk2) = make_validator(2, 15);
    let (v3, sk3) = make_validator(3, 25);
    let mut engine = HotStuffEngine::new(vec![
        copy_validator(&v1),
        copy_validator(&v2),
        copy_validator(&v3),
    ]);

    let block = empty_block_for(&v1, 1);
    let proposal = SignedProposal {
        public_key: v1.pubkey.clone(),
        signature: sign_proposal(&block, &sk1),
        block,
    };
    engine.propose(proposal).unwrap();
    let block_for_id = empty_block_for(&v1, 1);
    let block_id = hash_block(&block_for_id);

    // a timeout bumps the view before the votes land
    let view_before = engine.current_view();
    engine.on_timeout(view_before);
    assert!(engine.current_view() >= view_before + 1);

    // late votes for the original view still accumulate to a quorum
    let vote0 = SignedVote {
        block_id: block_id.clone(),
        view: 0,
        voter: copy_validator(&v1),
        signature: sign_vote(&block_id, 0, &sk1),
    };
    engine.vote(vote0).unwrap();
    let vote1 = SignedVote {
        block_id: block_id.clone(),
        view: 0,
        voter: copy_validator(&v2),
        signature: sign_vote(&block_id, 0, &sk2),
    };
    engine.vote(vote1).unwrap();
    let vote2 = SignedVote {
        block_id: block_id.clone(),
        view: 0,
        voter: copy_validator(&v3),
        signature: sign_vote(&block_id, 0, &sk3),
    };
    engine.vote(vote2).unwrap();

    assert_eq!(engine.pop_commit().unwrap(), block_id);
}

#[test]
fn quorum_is_exact_and_duplicates_are_idempotent() {
    // stakes {10, 15, 25}: the threshold is 34, so 25 is not enough and 35 is
    let (v1, sk1) = make_validator(4, 10);
    let (v2, sk2) = make_validator(5, 15);
    let (v3, sk3) = make_validator(6, 25);
    let mut engine = HotStuffEngine::new(vec![
        copy_validator(&v1),
        copy_validator(&v2),
        copy_validator(&v3),
    ]);
    let block_id = vec![7u8; 32];

    let vote = |v: &Validator, sk: &Vec<u8>| SignedVote {
        block_id: block_id.clone(),
        view: 0,
        voter: copy_validator(v),
        signature: sign_vote(&block_id, 0, sk),
    };
    engine.vote(vote(&v1, &sk1)).unwrap();
    engine.vote(vote(&v2, &sk2)).unwrap();
    // 10 + 15 = 25 <= 33: no commit yet
    assert!(engine.pop_commit().is_none());
    // a duplicate vote by the same voter does not move the tally
    engine.vote(vote(&v2, &sk2)).unwrap();
    assert!(engine.pop_commit().is_none());
    // 25 more reaches 50 >= 34: the block commits
    engine.vote(vote(&v3, &sk3)).unwrap();
    assert_eq!(engine.pop_commit().unwrap(), block_id);
}

#[test]
fn leader_is_always_a_validator() {
    let (v1, _) = make_validator(8, 3);
    let (v2, _) = make_validator(9, 11);
    let (v3, _) = make_validator(10, 1);
    let roster = vec![copy_validator(&v1), copy_validator(&v2), copy_validator(&v3)];
    let engine = HotStuffEngine::new(roster);
    for view in 0..64u64 {
        let leader = engine.leader_for_view(view).expect("leader exists");
        assert!(
            engine
                .validator_set()
                .iter()
                .any(|v| v.id == leader.id && v.owner == leader.owner)
        );
    }
}

#[test]
fn submit_and_sample_blob() {
    let mut da = InMemoryDA::new();
    let blob = da.submit_blob(&b"l1".to_vec(), &b"hello".to_vec()).unwrap();
    let proof = da.prove_blob_availability(blob.id, 4).unwrap();
    assert_eq!(proof.blob_id, blob.id);
    assert!(proof.commitment.total_shards >= proof.samples.len());
    assert!(da.sample(blob.id, 2).unwrap());
}

#[test]
fn tampered_commitments_are_rejected() {
    let mut da = InMemoryDA::new();
    let blob = da
        .submit_blob(&b"domain-B".to_vec(), &b"resilient payload".to_vec())
        .unwrap();

    let mut proof = da.prove_blob_availability(blob.id, 4).unwrap();
    assert!(verify_da_proof(&proof));
    proof.commitment.root = vec![9u8; 32];
    assert!(!verify_da_proof(&proof));

    let mut proof2 = da.prove_blob_availability(blob.id, 4).unwrap();
    if let Some(sample) = proof2.samples.get_mut(0) {
        sample.merkle_path.push(vec![7u8; 32]);
    }
    assert!(!verify_da_proof(&proof2));
}

#[test]
fn two_kib_blob_tamper_detection() {
    // a 2 KiB blob with four data shards, two parity shards, 1 KiB shard size
    let mut da = InMemoryDA::with_config(DAConfig { shard_size: 1024, data_shards: 4, parity_shards: 2 });
    let mut blob_bytes = Vec::new();
    let mut x: u8 = 17;
    for _ in 0..2048 {
        blob_bytes.push(x);
        x = x.wrapping_mul(31).wrapping_add(7);
    }
    let blob = da.submit_blob(&b"l1".to_vec(), &blob_bytes).unwrap();
    assert_eq!(blob.commitment.total_shards, 6);
    let proof = da.prove_blob_availability(blob.id, 4).unwrap();
    assert!(verify_da_proof(&proof));
    let mut tampered = da.prove_blob_availability(blob.id, 4).unwrap();
    tampered.commitment.root = vec![9u8; 32];
    assert!(!verify_da_proof(&tampered));
    // a tampered shard hash no longer walks back to the root
    let mut bad_shard = da.prove_blob_availability(blob.id, 4).unwrap();
    if let Some(sample) = bad_shard.samples.get_mut(0) {
        sample.shard_hash = vec![1u8; 32];
    }
    assert!(!verify_da_proof(&bad_shard));
}

#[test]
fn unknown_blob_is_unavailable() {
    let da = InMemoryDA::new();
    assert!(da.prove_blob_availability(99, 2).is_err());
    assert!(da.sample(99, 2).is_err());
    assert!(da.get_blob(99).is_err());
}

#[test]
fn hashing_and_identity_wrappers_do_work() {
    // the digest differs from its input, so the hash wrapper cannot be the
    // identity
    let input = vec![0u8; 32];
    let digest = kova_core::zk_privacy::hash_bytes(&input);
    assert_eq!(digest.len(), 32);
    assert_ne!(digest, input);
    // distinct names give distinct identities, the same name the same one
    let a = kova_core::crypto::uuid_v5_from_name(&b"one".to_vec());
    let b = kova_core::crypto::uuid_v5_from_name(&b"two".to_vec());
    let c = kova_core::crypto::uuid_v5_from_name(&b"one".to_vec());
    assert_ne!(a, b);
    assert_eq!(a, c);
    // a signature verifies under its key and fails under another message
    let sk = secret(31);
    let pk = ed25519_public_key(&sk);
    let msg = b"attest".to_vec();
    let sig = kova_core::tx::sign_bytes(&sk, &msg);
    assert!(kova_core::tx::verify_signature_bytes(&pk, &sig, &msg).is_ok());
    assert!(kova_core::tx::verify_signature_bytes(&pk, &sig, &b"other".to_vec()).is_err());
}

#[test]
fn mempool_admits_deduplicates_and_orders() {

    let sk = secret(41);
    let pk = ed25519_public_key(&sk);
    let build = |nonce: u64, max_fee: u128| -> Tx {
        let mut tx = Tx {
            chain_id: b"kova-devnet".to_vec(),
            nonce,
            gas_limit: 21_000,
            max_fee: Some(max_fee),
            max_priority_fee: Some(0),
            gas_price: None,
            payload: TxPayload::Transfer { to: vec![4u8; 32], amount: 1 },
            public_key: pk.clone(),
            signature: Vec::new(),
        };
        let msg = tx_signing_bytes(&tx);
        tx.signature = sign_bytes(&sk, &msg);
        tx
    };
    let mut pool = Mempool::new();
    let low = build(0, 1);
    let high = build(1, 9);
    let mid = build(2, 5);
    assert!(pool.enqueue(low));
    assert!(pool.enqueue(high));
    assert!(pool.enqueue(mid));
    // a duplicate of an already-admitted transaction is dropped
    assert!(!pool.enqueue(build(0, 1)));
    // a tampered signature is dropped
    let mut bad = build(3, 2);
    bad.signature[0] ^= 1;
    assert!(!pool.enqueue(bad));
    assert_eq!(pool.len(), 3);
    let drained = pool.drain_sorted(1);
    assert_eq!(pool.len(), 0);
    assert_eq!(drained.len(), 3);
    for w in drained.windows(2) {
        assert!(tx_priority(&w[0], 1) >= tx_priority(&w[1], 1));
    }
    assert_eq!(drained[0].max_fee, Some(9));
}

#[test]
fn candidate_block_posts_payload_and_seals() {

    let sk = secret(43);
    let pk = ed25519_public_key(&sk);
    let addr = address_from_pubkey(&pk);
    let genesis = GenesisConfig {
        chain_id: b"kova-devnet".to_vec(),
        initial_validators: Vec::new(),
        initial_accounts: vec![(addr.clone(), 1_000_000)],
        block_time_ms: 1_000,
        max_gas_per_block: 30_000_000,
        base_fee: 1,
        da_sample_count: 8,
        slashing_double_sign: 5,
        fee_split: FeeSplit {
            l1_gas_burn_pct: 30,
            l1_gas_validators_pct: 70,
            da_validators_pct: 70,
            da_nodes_pct: 20,
            da_treasury_pct: 10,
            l2_sequencer_pct: 50,
            l2_da_costs_pct: 30,
            l2_l1_rent_pct: 20,
        },
        initial_total_supply: 0,
        reward_params: RewardParams::standard(),
        unbonding_delay_blocks: 10,
        slash_penalty_bps: 500,
    };
    let (cfg, mut state) = from_genesis(&genesis).unwrap();
    let mut domains = DomainRuntime::new();
    let mut da = kova_core::da::InMemoryDA::new();

    let mut tx = Tx {
        chain_id: b"kova-devnet".to_vec(),
        nonce: 0,
        gas_limit: 21_000,
        max_fee: Some(1),
        max_priority_fee: Some(0),
        gas_price: None,
        payload: TxPayload::Transfer { to: vec![6u8; 32], amount: 10 },
        public_key: pk.clone(),
        signature: Vec::new(),
    };
    let msg = tx_signing_bytes(&tx);
    tx.signature = sign_bytes(&sk, &msg);

    // an empty drain yields no candidate
    assert!(build_candidate_block(
        Vec::new(),
        vec![0u8; 32],
        0,
        0,
        vec![0u8; 32],
        &cfg,
        &mut da,
    )
    .is_none());

    let block = build_candidate_block(
        vec![tx],
        vec![0u8; 32],
        0,
        7,
        vec![0u8; 32],
        &cfg,
        &mut da,
    )
    .unwrap();
    assert_eq!(block.transactions.len(), 1);
    assert!(block.header.da_commitment.is_some());
    assert_eq!(block.da_blobs.len(), 1);

    let (sealed, id) = execute_and_seal(&cfg, &mut state, &mut domains, &StoreVm {}, &da, block)
        .unwrap();
    assert_eq!(id.len(), 32);
    assert_ne!(sealed.header.state_root, vec![0u8; 32]);
    assert_eq!(sealed.header.gas_used, 21_000);
}

#[test]
fn inbound_messages_drive_the_engine() {

    let (v1, sk1) = make_validator(44, 10);
    let (v2, sk2) = make_validator(45, 10);
    let mut engine = HotStuffEngine::new(vec![copy_validator(&v1), copy_validator(&v2)]);

    // the proposer plans a tick: a proposal and a self-vote
    let mut block = empty_block_for(&v1, 0);
    block.header.proposer_id = address_from_pubkey(&ed25519_public_key(&sk1));
    let block_id = hash_block(&block);
    let view = engine.current_view();
    let (proposal, self_vote) = plan_tick(&block, &block_id, view, &Some(copy_validator(&v1)), &sk1)
        .unwrap();
    let vote1 = self_vote.unwrap();

    // the peer handles the proposal and answers with its own vote
    let answer = handle_consensus_message(
        &mut engine,
        ConsensusMessage::Propose(proposal),
        &Some(copy_validator(&v2)),
        &sk2,
    );
    let vote2 = answer.unwrap();
    assert_eq!(vote2.voter.id, v2.id);

    // both votes accumulate to a quorum and the block commits
    handle_consensus_message(&mut engine, ConsensusMessage::Vote(vote1), &None, &sk2);
    handle_consensus_message(&mut engine, ConsensusMessage::Vote(vote2), &None, &sk2);
    assert_eq!(engine.pop_commit().unwrap(), block_id);

    // a timeout message advances the view
    let before = engine.current_view();
    handle_consensus_message(
        &mut engine,
        ConsensusMessage::Timeout { view: before, from: copy_validator(&v1) },
        &None,
        &sk2,
    );
    assert_eq!(engine.current_view(), before + 1);
    let _ = is_local_leader(&engine, &None);
}
