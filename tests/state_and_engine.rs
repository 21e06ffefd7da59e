use execution_engine::host::{host_add, host_read, host_write, AccessError, HostError};
use execution_engine::deploy::{
    deploy_result, settle, DeployError, ExecutionResult, PreconditionKind, SessionOutcome,
};
use execution_engine::engine::{
    effective_protocol_version, CodeReplacement, CommitParseError, CommitRequest, CommitResponse,
    EffectEntry, EngineState, ExecuteResponse, GenesisAccount, GenesisConfig, GenesisResponse,
    QueryFailure, QueryRequest, QueryResponse, UpgradeConfig, UpgradeFailure, UpgradeResponse,
    WasmCosts,
};

fn costs(regular: u32) -> WasmCosts {
    WasmCosts {
        regular,
        div: 16,
        mul: 4,
        mem: 2,
        initial_mem: 4096,
        grow_mem: 8192,
        memcpy: 1,
        max_stack_height: 65536,
        opcodes_mul: 3,
        opcodes_div: 8,
    }
}
use execution_engine::global_state::{CommitResult, GlobalState, QueryResult};
use execution_engine::key::{AccessRights, Key};
use execution_engine::message::TransformMessage;
use execution_engine::tracking_copy::AddError;
use execution_engine::transform::Transform;
use execution_engine::uint::U512;
use execution_engine::validator::PublicKey;
use execution_engine::value::{Contract, NamedKey, ProtocolVersion, Value};
use execution_engine::wasm::{WasmError, WasmiBytes};

fn uref(b: u8) -> Key {
    Key::URef([b; 32], AccessRights::read_add_write())
}

fn success(r: CommitResult) -> [u8; 32] {
    match r {
        CommitResult::Success { post_state_hash } => post_state_hash,
        other => panic!("unexpected {:?}", other),
    }
}

fn u512_at(gs: &GlobalState, d: &[u8; 32], k: &Key) -> U512 {
    match gs.read(d, k) {
        Some(Value::UInt512(v)) => v,
        other => panic!("unexpected {:?}", other),
    }
}

#[test]
fn commit_of_empty_effects_keeps_digest() {
    let mut gs = GlobalState::new();
    let d0 = GlobalState::empty_state_hash();
    assert_eq!(success(gs.commit(&d0, vec![])), d0);
    let d1 = success(gs.commit(&d0, vec![(uref(1), Transform::Write(Value::UInt64(7)))]));
    assert_ne!(d1, d0);
    assert_eq!(success(gs.commit(&d1, vec![])), d1);
}

#[test]
fn commit_is_deterministic() {
    let mut gs = GlobalState::new();
    let d0 = GlobalState::empty_state_hash();
    let effects = || vec![
        (uref(1), Transform::Write(Value::UInt64(7))),
        (uref(1), Transform::AddUInt64(3)),
        (uref(2), Transform::Write(Value::Unit)),
    ];
    let a = success(gs.commit(&d0, effects()));
    let b = success(gs.commit(&d0, effects()));
    assert_eq!(a, b);
    let mut other = GlobalState::new();
    assert_eq!(success(other.commit(&d0, effects())), a);
    match gs.read(&a, &uref(1)) {
        Some(Value::UInt64(10)) => {}
        other => panic!("unexpected {:?}", other),
    }
    // The pre-state stays readable.
    assert!(gs.read(&d0, &uref(1)).is_none());
}

#[test]
fn commit_errors() {
    let mut gs = GlobalState::new();
    let d0 = GlobalState::empty_state_hash();
    match gs.commit(&[0u8; 32], vec![]) {
        CommitResult::RootNotFound => {}
        other => panic!("unexpected {:?}", other),
    }
    match gs.commit(&d0, vec![(uref(1), Transform::AddUInt64(1))]) {
        CommitResult::KeyNotFound(k) => assert_eq!(k, uref(1)),
        other => panic!("unexpected {:?}", other),
    }
    match gs.commit(&d0, vec![
        (uref(1), Transform::Write(Value::Unit)),
        (uref(1), Transform::AddUInt64(1)),
    ]) {
        CommitResult::TypeMismatch(_) => {}
        other => panic!("unexpected {:?}", other),
    }
    // Nothing was stored by the refused commits.
    assert!(gs.has_root(&d0));
}

#[test]
fn u512_add_saturates_in_commit() {
    let mut gs = GlobalState::new();
    let d0 = GlobalState::empty_state_hash();
    let d = success(gs.commit(&d0, vec![
        (uref(1), Transform::Write(Value::UInt512(U512::max_value()))),
        (uref(1), Transform::AddUInt512(U512::max_value())),
    ]));
    assert_eq!(u512_at(&gs, &d, &uref(1)), U512::max_value());
}

#[test]
fn query_follows_named_keys() {
    let mut gs = GlobalState::new();
    let d0 = GlobalState::empty_state_hash();
    let h = Key::Hash([9; 32]);
    let u = uref(4);
    let contract = Contract {
        bytes: vec![0, 97, 115, 109],
        named_keys: vec![NamedKey { name: "x".to_string(), key: u }],
        protocol_version: ProtocolVersion::v1_0_0(),
    };
    let d = success(gs.commit(&d0, vec![
        (h, Transform::Write(Value::Contract(contract))),
        (u, Transform::Write(Value::Int32(42))),
    ]));
    match gs.query(&d, &h, &vec!["x".to_string()]) {
        QueryResult::Success(Value::Int32(42)) => {}
        other => panic!("unexpected {:?}", other),
    }
    match gs.query(&d, &h, &vec!["y".to_string()]) {
        QueryResult::ValueNotFound(1) => {}
        other => panic!("unexpected {:?}", other),
    }
    match gs.query(&d, &h, &vec!["x".to_string(), "z".to_string()]) {
        QueryResult::ValueNotFound(2) => {}
        other => panic!("unexpected {:?}", other),
    }
    match gs.query(&d, &uref(77), &vec![]) {
        QueryResult::ValueNotFound(0) => {}
        other => panic!("unexpected {:?}", other),
    }
    match gs.query(&[1u8; 32], &h, &vec![]) {
        QueryResult::RootNotFound => {}
        other => panic!("unexpected {:?}", other),
    }
}

#[test]
fn tracking_copy_journal() {
    let mut gs = GlobalState::new();
    let d0 = GlobalState::empty_state_hash();
    let d = success(gs.commit(&d0, vec![(uref(1), Transform::Write(Value::UInt64(5)))]));
    let mut tc = gs.tracking_copy(&d).unwrap();
    match tc.read(&uref(1)) {
        Some(Value::UInt64(5)) => {}
        other => panic!("unexpected {:?}", other),
    }
    assert!(tc.read(&uref(2)).is_none());
    tc.add(uref(1), Transform::AddUInt64(2)).unwrap();
    match tc.read(&uref(1)) {
        Some(Value::UInt64(7)) => {}
        other => panic!("unexpected {:?}", other),
    }
    tc.write(uref(3), Value::Unit);
    match tc.add(uref(3), Transform::AddUInt64(1)) {
        Err(AddError::TypeMismatch(_)) => {}
        other => panic!("unexpected {:?}", other),
    }
    match tc.add(uref(9), Transform::AddUInt64(1)) {
        Err(AddError::KeyNotFound(k)) => assert_eq!(k, uref(9)),
        other => panic!("unexpected {:?}", other),
    }
    let effects = tc.effects();
    assert_eq!(effects.len(), 3);
    assert!(matches!(effects[0].1, Transform::Identity));
    assert!(matches!(effects[1].1, Transform::AddUInt64(2)));
    assert!(matches!(effects[2].1, Transform::Write(Value::Unit)));
    let d2 = success(gs.commit(&d, effects));
    match gs.read(&d2, &uref(1)) {
        Some(Value::UInt64(7)) => {}
        other => panic!("unexpected {:?}", other),
    }
}

fn genesis(engine: &mut EngineState, a: [u8; 32], b: [u8; 32]) -> (Vec<u8>, Vec<(Key, Transform)>) {
    let config = GenesisConfig {
        accounts: vec![
            GenesisAccount { public_key: PublicKey::new(a), balance: U512::from_u64(1_000_000_000) },
            GenesisAccount { public_key: PublicKey::new(b), balance: U512::zero() },
        ],
        wasm_costs: costs(1),
        initial_bonds: vec![
            (PublicKey::new(a), U512::from_u64(700)),
            (PublicKey::new(b), U512::from_u64(300)),
        ],
        mint_code: vec![1, 2, 3],
        pos_code: vec![4, 5, 6],
        protocol_version: ProtocolVersion::v1_0_0(),
    };
    match engine.run_genesis(config) {
        GenesisResponse::Success { post_state_hash, effects } => (post_state_hash, effects),
    }
}

fn commit_request(pre: &Vec<u8>, effects: Vec<(Key, Transform)>) -> CommitRequest {
    CommitRequest {
        protocol_version: ProtocolVersion::v1_0_0(),
        prestate_hash: pre.clone(),
        effects: effects
            .into_iter()
            .map(|(k, t)| EffectEntry { key: k.to_bytes(), transform: TransformMessage::from_transform(t) })
            .collect(),
    }
}

fn query_u512(engine: &EngineState, d: &Vec<u8>, k: Key) -> U512 {
    let req = QueryRequest { state_hash: d.clone(), base_key: k.to_bytes(), path: vec![] };
    match engine.query(&req) {
        QueryResponse::Success(Value::UInt512(v)) => v,
        other => panic!("unexpected {:?}", other),
    }
}

fn commit_ok(engine: &mut EngineState, pre: &Vec<u8>, effects: Vec<(Key, Transform)>) -> Vec<u8> {
    match engine.commit(commit_request(pre, effects)) {
        CommitResponse::Success { post_state_hash, .. } => post_state_hash,
        other => panic!("unexpected {:?}", other),
    }
}

#[test]
fn genesis_installs_accounts_and_purses() {
    let mut engine = EngineState::new();
    let (d, effects) = genesis(&mut engine, [10; 32], [11; 32]);
    assert_eq!(effects.len(), 6);
    let purse_a = match &effects[2].1 {
        Transform::Write(Value::Account(acc)) => acc.main_purse,
        other => panic!("unexpected {:?}", other),
    };
    assert_eq!(query_u512(&engine, &d, purse_a), U512::from_u64(1_000_000_000));
    let req = QueryRequest { state_hash: d.clone(), base_key: Key::Hash([1; 32]).to_bytes(), path: vec![] };
    match engine.query(&req) {
        QueryResponse::Success(Value::Contract(c)) => assert_eq!(c.bytes, vec![1, 2, 3]),
        other => panic!("unexpected {:?}", other),
    }
}

#[test]
fn transfer_scenario() {
    let mut engine = EngineState::new();
    let (d, effects) = genesis(&mut engine, [10; 32], [11; 32]);
    let purse = |i: usize| match &effects[i].1 {
        Transform::Write(Value::Account(acc)) => acc.main_purse,
        other => panic!("unexpected {:?}", other),
    };
    let (a, b) = (purse(2), purse(4));
    let payment_purse = uref(200);
    let rewards = uref(201);
    let d = commit_ok(&mut engine, &d, vec![
        (payment_purse, Transform::Write(Value::UInt512(U512::zero()))),
        (rewards, Transform::Write(Value::UInt512(U512::zero()))),
    ]);
    // Payment reserves 10,000; the session transfers 500 and burns 3,000 gas at price 1.
    let payment = vec![
        (a, Transform::Write(Value::UInt512(U512::from_u64(1_000_000_000 - 10_000)))),
        (payment_purse, Transform::AddUInt512(U512::from_u64(10_000))),
    ];
    let session = vec![
        (a, Transform::Write(Value::UInt512(U512::from_u64(1_000_000_000 - 10_000 - 500)))),
        (b, Transform::AddUInt512(U512::from_u64(500))),
    ];
    let outcome = SessionOutcome::Success { gas_used: 3_000 };
    let s = settle(10_000, 1, outcome);
    assert_eq!((s.spent, s.refund), (3_000, 7_000));
    let finalization = vec![
        (payment_purse, Transform::Write(Value::UInt512(U512::zero()))),
        (rewards, Transform::AddUInt512(U512::from_u64(s.spent))),
        (a, Transform::AddUInt512(U512::from_u64(s.refund))),
    ];
    let result = deploy_result(10_000, 1, payment, outcome, session, Some(finalization));
    let effects = match result {
        ExecutionResult::Executed { effects, gas_used, cost, error } => {
            assert_eq!((gas_used, cost, error), (3_000, 3_000, None));
            effects
        }
        other => panic!("unexpected {:?}", other),
    };
    let d = commit_ok(&mut engine, &d, effects);
    assert_eq!(query_u512(&engine, &d, a), U512::from_u64(1_000_000_000 - 500 - 3_000));
    assert_eq!(query_u512(&engine, &d, b), U512::from_u64(500));
    assert_eq!(query_u512(&engine, &d, rewards), U512::from_u64(3_000));
}

#[test]
fn revert_scenario_keeps_only_payment() {
    let k1 = uref(50);
    let payment = vec![(uref(60), Transform::AddUInt512(U512::from_u64(10_000)))];
    let session = vec![
        (k1, Transform::Write(Value::Int32(7))),
        (uref(61), Transform::AddUInt512(U512::from_u64(100))),
    ];
    let fin = vec![(uref(62), Transform::AddUInt512(U512::from_u64(10_000)))];
    match deploy_result(10_000, 2, payment, SessionOutcome::Revert(100), session, Some(fin)) {
        ExecutionResult::Executed { effects, gas_used, cost, error } => {
            assert_eq!(error, Some(DeployError::Revert(100)));
            assert_eq!((gas_used, cost), (5_000, 10_000));
            assert_eq!(effects.len(), 2);
            assert!(effects.iter().all(|(k, _)| *k != k1));
        }
        other => panic!("unexpected {:?}", other),
    }
}

#[test]
fn out_of_gas_scenario() {
    let session = vec![(uref(1), Transform::Write(Value::Unit))];
    match deploy_result(1_000, 1, vec![], SessionOutcome::OutOfGas, session, Some(vec![])) {
        ExecutionResult::Executed { effects, gas_used, cost, error } => {
            assert_eq!(error, Some(DeployError::OutOfGas));
            assert_eq!((gas_used, cost), (1_000, 1_000));
            assert!(effects.is_empty());
        }
        other => panic!("unexpected {:?}", other),
    }
    // Gas reported beyond the limit counts as running out.
    match deploy_result(1_000, 1, vec![], SessionOutcome::Success { gas_used: 5_000 }, vec![], Some(vec![])) {
        ExecutionResult::Executed { gas_used, error, .. } => {
            assert_eq!(gas_used, 1_000);
            assert_eq!(error, Some(DeployError::OutOfGas));
        }
        other => panic!("unexpected {:?}", other),
    }
}

#[test]
fn failed_finalization_rejects_deploy() {
    match deploy_result(1_000, 1, vec![], SessionOutcome::Success { gas_used: 1 }, vec![], None) {
        ExecutionResult::PreconditionFailure(PreconditionKind::FinalizationFailed) => {}
        other => panic!("unexpected {:?}", other),
    }
    match ExecutionResult::precondition_failure(PreconditionKind::InsufficientPayment) {
        ExecutionResult::PreconditionFailure(PreconditionKind::InsufficientPayment) => {}
        other => panic!("unexpected {:?}", other),
    }
}

#[test]
fn missing_parent_scenario() {
    let engine = EngineState::new();
    let zero = vec![0u8; 32];
    match engine.missing_parent(&zero) {
        Some(ExecuteResponse::MissingParent { hash }) => assert_eq!(hash, zero),
        other => panic!("unexpected {:?}", other),
    }
    let empty = GlobalState::empty_state_hash().to_vec();
    assert!(engine.missing_parent(&empty).is_none());
    match EngineState::execute_response(vec![]) {
        ExecuteResponse::Success { deploy_results } => assert!(deploy_results.is_empty()),
        other => panic!("unexpected {:?}", other),
    }
}

#[test]
fn engine_commit_request_errors() {
    let mut engine = EngineState::new();
    match engine.commit(commit_request(&vec![1, 2, 3], vec![])) {
        CommitResponse::FailedTransform(CommitParseError::InvalidPrestateHash) => {}
        other => panic!("unexpected {:?}", other),
    }
    let zero = vec![0u8; 32];
    match engine.commit(commit_request(&zero, vec![])) {
        CommitResponse::MissingPrestate { hash } => assert_eq!(hash, zero),
        other => panic!("unexpected {:?}", other),
    }
    let empty = GlobalState::empty_state_hash().to_vec();
    let mut req = commit_request(&empty, vec![]);
    req.effects.push(EffectEntry { key: vec![7], transform: TransformMessage::from_transform(Transform::Identity) });
    match engine.commit(req) {
        CommitResponse::FailedTransform(CommitParseError::InvalidKey) => {}
        other => panic!("unexpected {:?}", other),
    }
    match engine.commit(commit_request(&empty, vec![(uref(1), Transform::AddUInt64(1))])) {
        CommitResponse::KeyNotFound(k) => assert_eq!(k, uref(1)),
        other => panic!("unexpected {:?}", other),
    }
    assert_eq!(commit_ok(&mut engine, &empty, vec![]), empty);
}

#[test]
fn engine_query_errors() {
    let engine = EngineState::new();
    let bad = QueryRequest { state_hash: vec![1], base_key: uref(1).to_bytes(), path: vec![] };
    assert!(matches!(engine.query(&bad), QueryResponse::Failure(QueryFailure::InvalidStateHash)));
    let missing = QueryRequest { state_hash: vec![3; 32], base_key: uref(1).to_bytes(), path: vec![] };
    assert!(matches!(engine.query(&missing), QueryResponse::Failure(QueryFailure::RootNotFound)));
    let empty = GlobalState::empty_state_hash().to_vec();
    let bad_key = QueryRequest { state_hash: empty.clone(), base_key: vec![1, 2], path: vec![] };
    assert!(matches!(engine.query(&bad_key), QueryResponse::Failure(QueryFailure::InvalidKey)));
    let absent = QueryRequest { state_hash: empty, base_key: uref(1).to_bytes(), path: vec![] };
    assert!(matches!(engine.query(&absent), QueryResponse::Failure(QueryFailure::ValueNotFound(0))));
}

#[test]
fn upgrade_replaces_code_and_keeps_named_keys() {
    let mut engine = EngineState::new();
    let (d, _) = genesis(&mut engine, [10; 32], [11; 32]);
    let mint = Key::Hash([1; 32]);
    let d = commit_ok(&mut engine, &d, vec![(mint, Transform::AddKeys(vec![NamedKey { name: "n".to_string(), key: uref(5) }]))]);
    let config = UpgradeConfig {
        pre_state_hash: d.clone(),
        current_protocol_version: ProtocolVersion::v1_0_0(),
        new_protocol_version: ProtocolVersion::new(1, 1, 0),
        new_wasm_costs: costs(2),
        code_replacements: vec![CodeReplacement { key: mint, bytes: vec![9, 9] }],
    };
    let post = match engine.upgrade(config) {
        UpgradeResponse::Success { post_state_hash, effects } => {
            assert_eq!(effects.len(), 1);
            post_state_hash
        }
        other => panic!("unexpected {:?}", other),
    };
    assert_eq!(engine.wasm_costs(ProtocolVersion::new(1, 1, 0)), Some(costs(2)));
    assert_eq!(engine.wasm_costs(ProtocolVersion::v1_0_0()), Some(costs(1)));
    assert_eq!(engine.wasm_costs(ProtocolVersion::new(9, 0, 0)), None);
    let req = QueryRequest { state_hash: post, base_key: mint.to_bytes(), path: vec![] };
    match engine.query(&req) {
        QueryResponse::Success(Value::Contract(c)) => {
            assert_eq!(c.bytes, vec![9, 9]);
            assert_eq!(c.named_keys.len(), 1);
            assert_eq!(c.protocol_version, ProtocolVersion::new(1, 1, 0));
        }
        other => panic!("unexpected {:?}", other),
    }
}

#[test]
fn upgrade_refusals() {
    let mut engine = EngineState::new();
    let (d, _) = genesis(&mut engine, [10; 32], [11; 32]);
    let downgrade = UpgradeConfig {
        pre_state_hash: d.clone(),
        current_protocol_version: ProtocolVersion::new(2, 0, 0),
        new_protocol_version: ProtocolVersion::new(1, 9, 9),
        new_wasm_costs: costs(3),
        code_replacements: vec![],
    };
    assert!(matches!(engine.upgrade(downgrade), UpgradeResponse::Failure(UpgradeFailure::InvalidProtocolVersion)));
    assert_eq!(engine.wasm_costs(ProtocolVersion::new(1, 9, 9)), None);
    let not_contract = UpgradeConfig {
        pre_state_hash: d,
        current_protocol_version: ProtocolVersion::v1_0_0(),
        new_protocol_version: ProtocolVersion::v1_0_0(),
        new_wasm_costs: costs(4),
        code_replacements: vec![CodeReplacement { key: Key::Account([10; 32]), bytes: vec![] }],
    };
    match engine.upgrade(not_contract) {
        UpgradeResponse::Failure(UpgradeFailure::NotAContract(k)) => assert_eq!(k, Key::Account([10; 32])),
        other => panic!("unexpected {:?}", other),
    }
}

#[test]
fn protocol_version_defaults() {
    assert_eq!(effective_protocol_version(ProtocolVersion::new(0, 9, 0)), ProtocolVersion::v1_0_0());
    assert_eq!(effective_protocol_version(ProtocolVersion::new(1, 2, 3)), ProtocolVersion::new(1, 2, 3));
}

#[test]
fn module_bytes() {
    let minimal = [0u8, 97, 115, 109, 1, 0, 0, 0];
    let w = WasmiBytes::new(&minimal).unwrap();
    assert_eq!(w.into_bytes(), minimal.to_vec());
    assert_eq!(WasmiBytes::new(&[1, 2, 3]).unwrap_err(), WasmError::Deserialize);
    let mut trailing = minimal.to_vec();
    trailing.push(0);
    assert_eq!(WasmiBytes::new(&trailing).unwrap_err(), WasmError::Deserialize);
}

#[test]
fn bonded_validators_follow_genesis_bonds() {
    let mut engine = EngineState::new();
    let (d, _) = genesis(&mut engine, [10; 32], [11; 32]);
    match engine.commit(commit_request(&d, vec![])) {
        CommitResponse::Success { post_state_hash, bonded_validators } => {
            assert_eq!(post_state_hash, d);
            assert_eq!(bonded_validators.len(), 2);
            assert_eq!(bonded_validators[0].0.value(), [10; 32]);
            assert_eq!(bonded_validators[0].1, U512::from_u64(700));
            assert_eq!(bonded_validators[1].0.value(), [11; 32]);
            assert_eq!(bonded_validators[1].1, U512::from_u64(300));
        }
        other => panic!("unexpected {:?}", other),
    }
}

#[test]
fn upgrade_refusal_leaves_store() {
    let mut engine = EngineState::new();
    let (d, _) = genesis(&mut engine, [10; 32], [11; 32]);
    let bad = UpgradeConfig {
        pre_state_hash: vec![0u8; 32],
        current_protocol_version: ProtocolVersion::v1_0_0(),
        new_protocol_version: ProtocolVersion::v1_0_0(),
        new_wasm_costs: costs(4),
        code_replacements: vec![],
    };
    assert!(matches!(engine.upgrade(bad), UpgradeResponse::Failure(UpgradeFailure::RootNotFound)));
    assert!(engine.missing_parent(&d).is_none());
}

#[test]
fn host_operations_check_rights() {
    let mut gs = GlobalState::new();
    let d0 = GlobalState::empty_state_hash();
    let d = success(gs.commit(&d0, vec![(uref(1), Transform::Write(Value::UInt64(5)))]));
    let mut tc = gs.tracking_copy(&d).unwrap();
    let read_only = vec![Key::URef([1; 32], AccessRights { read: true, write: false, add: false })];
    match host_read(&mut tc, &read_only, &uref(1)) {
        Ok(Some(Value::UInt64(5))) => {}
        other => panic!("unexpected {:?}", other),
    }
    match host_write(&mut tc, &read_only, uref(1), Value::Unit) {
        Err(HostError::Access(AccessError::InvalidAccessRights)) => {}
        other => panic!("unexpected {:?}", other),
    }
    match host_add(&mut tc, &vec![], uref(1), Transform::AddUInt64(1)) {
        Err(HostError::Access(AccessError::ForgedReference)) => {}
        other => panic!("unexpected {:?}", other),
    }
    let all = vec![uref(1)];
    host_add(&mut tc, &all, uref(1), Transform::AddUInt64(1)).unwrap();
    match host_read(&mut tc, &all, &uref(1)) {
        Ok(Some(Value::UInt64(6))) => {}
        other => panic!("unexpected {:?}", other),
    }
    assert_eq!(tc.effects().len(), 2);
}

#[test]
fn batch_runs_against_running_post_state() {
    let mut gs = GlobalState::new();
    let d0 = GlobalState::empty_state_hash();
    let first = deploy_result(
        100,
        1,
        vec![(uref(1), Transform::Write(Value::UInt64(1)))],
        SessionOutcome::Success { gas_used: 10 },
        vec![(uref(1), Transform::AddUInt64(2))],
        Some(vec![]),
    );
    let mut batch = Vec::new();
    first.append_effects_to(&mut batch);
    ExecutionResult::precondition_failure(PreconditionKind::MissingAccount).append_effects_to(&mut batch);
    assert_eq!(batch.len(), 2);
    let mut tc = match gs.tracking_copy_after(&d0, batch) {
        Some(Ok(tc)) => tc,
        other => panic!("unexpected {:?}", other.map(|r| r.is_ok())),
    };
    match tc.read(&uref(1)) {
        Some(Value::UInt64(3)) => {}
        other => panic!("unexpected {:?}", other),
    }
    assert!(gs.tracking_copy_after(&[5u8; 32], vec![]).is_none());
}
