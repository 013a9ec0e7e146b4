use kova_core::domains::{DomainRuntime, DomainState, KvEntry};
use kova_core::root::SparseMerkleTree;
use kova_core::sequencer::{RotationPolicy, SequencerInfo, SequencerSet};
use kova_core::state::{DomainEntry, DomainParams, DomainType, SecurityModel};
use kova_core::vm::PrecompileRegistry;
use kova_core::zk::{ProgramDescriptor, ProgramId, ProgramRegistry};

#[test]
fn sparse_merkle_tree_tracks_keys() {
    let mut tree = SparseMerkleTree::new();
    let empty_root = tree.root();
    tree.set(&b"alpha".to_vec(), &b"one".to_vec());
    let one_root = tree.root();
    assert_ne!(empty_root, one_root);
    tree.set(&b"beta".to_vec(), &b"two".to_vec());
    tree.delete(&b"beta".to_vec());
    assert_eq!(tree.root(), one_root);
    tree.delete(&b"alpha".to_vec());
    assert_eq!(tree.root(), empty_root);
}

#[test]
fn domain_state_root_changes_with_content() {
    let empty = DomainState::empty();
    let empty_root = empty.root();
    let mut filled = DomainState::empty();
    filled.kv.push(KvEntry { key: b"k".to_vec(), value: b"v".to_vec() });
    assert_ne!(filled.root(), empty_root);
}

#[test]
fn domain_runtime_routes_messages() {
    let mut runtime = DomainRuntime::new();
    let entry = DomainEntry {
        domain_id: 7,
        kind: DomainType::Wasm,
        security_model: SecurityModel::SharedSecurity,
        sequencer_binding: None,
        bridge_contracts: Vec::new(),
        risk_params: DomainParams { kind: DomainType::Wasm, max_loss_bps: None, risk_cap: None },
    };
    runtime.register(&entry).unwrap();
    assert!(runtime.has_domain(7));
    assert_eq!(runtime.next_out_nonce(7), 0);
    runtime.push_outbox(kova_core::domains::CrossDomainMessage {
        from: 7,
        to: 9,
        nonce: 0,
        fee: 1,
        payload: b"ping".to_vec(),
    });
    assert_eq!(runtime.next_out_nonce(7), 1);
    let outbox = runtime.outbox(7).unwrap();
    assert_eq!(outbox.len(), 1);
    runtime.relay_message(kova_core::domains::CrossDomainMessage {
        from: 7,
        to: 9,
        nonce: 0,
        fee: 1,
        payload: b"ping".to_vec(),
    });
    assert!(runtime.has_domain(9));
}

#[test]
fn sequencer_set_rotates_and_records() {
    let members = vec![
        SequencerInfo { id: b"s0".to_vec(), stake: 5, endpoint: Vec::new() },
        SequencerInfo { id: b"s1".to_vec(), stake: 7, endpoint: Vec::new() },
    ];
    let mut set = SequencerSet::new(members, RotationPolicy::RoundRobin);
    assert_eq!(set.member_count(), 2);
    assert_eq!(set.active_leader(0).unwrap().id, b"s0".to_vec());
    assert_eq!(set.active_leader(1).unwrap().id, b"s1".to_vec());
    assert_eq!(set.active_leader(2).unwrap().id, b"s0".to_vec());
    set.enqueue_force_include(11);
    set.enqueue_force_include(12);
    assert_eq!(set.pop_force_include(), Some(11));
    assert_eq!(set.pop_force_include(), Some(12));
    assert_eq!(set.pop_force_include(), None);
    set.slash(&b"s1".to_vec(), &b"missed slot".to_vec());
    assert_eq!(set.slashing_events.len(), 1);
}

#[test]
fn registries_hold_entries() {
    let mut programs = ProgramRegistry::new();
    programs.register(ProgramDescriptor {
        id: ProgramId::Block,
        name: b"block".to_vec(),
        description: Vec::new(),
        version: b"1".to_vec(),
    });
    assert!(programs.get(&ProgramId::Block).is_some());
    assert!(programs.get(&ProgramId::Rollup).is_none());
    assert_eq!(programs.list().len(), 1);

    let mut pre = PrecompileRegistry::new();
    pre.register(&b"merkle".to_vec(), &b"tree helper".to_vec());
    assert_eq!(pre.list().len(), 1);
    let loaded = PrecompileRegistry::with_default_crypto();
    assert_eq!(loaded.list().len(), 10);
}

#[test]
fn domain_admission_rules() {
    assert!(kova_core::domain_configs::validate_module(&b"module".to_vec()));
    assert!(kova_core::domain_configs::validate_module(&Vec::new()));
    assert!(kova_core::domain_configs::allowed_operation(0));
    assert!(kova_core::domain_configs::allowed_operation(1));
    assert!(!kova_core::domain_configs::allowed_operation(2));
    assert_eq!(kova_core::domain_configs::channel_limits(), (1, 10_000));
    let header = kova_core::domain_configs::LightClientHeader {
        state_root: vec![0u8; 32],
        validator_set_hash: vec![0u8; 32],
        height: 5,
    };
    let packet = kova_core::domain_configs::CrossDomainPacket {
        src_domain: b"a".to_vec(),
        dst_domain: b"b".to_vec(),
        sequence: 1,
        payload: Vec::new(),
        timeout_height: 10,
    };
    assert!(kova_core::domain_configs::verify_packet(&packet, &header));
}

#[test]
fn registry_returns_latest_registration() {
    let mut programs = ProgramRegistry::new();
    programs.register(ProgramDescriptor {
        id: ProgramId::Block,
        name: b"block".to_vec(),
        description: Vec::new(),
        version: b"1".to_vec(),
    });
    programs.register(ProgramDescriptor {
        id: ProgramId::Block,
        name: b"block".to_vec(),
        description: b"updated".to_vec(),
        version: b"2".to_vec(),
    });
    let got = programs.get(&ProgramId::Block).unwrap();
    assert_eq!(got.version, b"2".to_vec());
    assert_eq!(got.description, b"updated".to_vec());
    assert_eq!(programs.list().len(), 1);
}
