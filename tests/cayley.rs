use amari_mcp::{
    checksum, compute_simple_product_index, compute_cayley_table_for_signature, decode, encode, get_cayley_table,
    precompute_essential_tables, schedule_order, to_hex, validate_signature, CayleyError,
    CayleyTableRecord, GpuBatchHandler, PrecomputedSignatureEntry, Signature, TableSource,
    TableStore, MAX_DIMENSIONS,
};

const NOW: i64 = 1_700_000_000_000;

fn sig_components(p: u64, q: u64, r: u64) -> Vec<Option<u64>> {
    vec![Some(p), Some(q), Some(r)]
}

fn entry(p: u32, q: u32, r: u32, name: &str, priority: i32, essential: bool) -> PrecomputedSignatureEntry {
    PrecomputedSignatureEntry {
        signature: Signature::new(p, q, r),
        name: name.to_string(),
        priority,
        essential,
    }
}

#[test]
fn test_get_cayley_table_basic() {
    let mut store: Option<TableStore> = None;
    let response = get_cayley_table(&mut store, &sig_components(2, 0, 0), false, NOW).unwrap();
    assert_eq!(response.signature, Signature::new(2, 0, 0));
    assert_eq!(response.dimensions, 2);
    assert_eq!(response.basis_count, 4);
    assert_eq!(response.source, TableSource::Computed);
}

#[test]
fn test_get_cayley_table_different_signatures() {
    let mut store: Option<TableStore> = None;
    for sig in [[3u64, 0, 0], [2, 1, 0], [4, 0, 0]] {
        let response = get_cayley_table(&mut store, &sig_components(sig[0], sig[1], sig[2]), false, NOW)
            .unwrap();
        assert_eq!(
            response.signature,
            Signature::new(sig[0] as u32, sig[1] as u32, sig[2] as u32)
        );
    }
}

#[test]
fn test_get_cayley_table_invalid_signature() {
    let mut store: Option<TableStore> = None;
    let result = get_cayley_table(&mut store, &vec![Some(2), Some(0)], false, NOW);
    assert_eq!(result.unwrap_err(), CayleyError::InvalidSignature);
}

#[test]
fn test_get_cayley_table_missing_signature() {
    let mut store: Option<TableStore> = None;
    let result = get_cayley_table(&mut store, &vec![], false, NOW);
    assert_eq!(result.unwrap_err(), CayleyError::InvalidSignature);
}

#[test]
fn test_get_cayley_table_force_recompute() {
    let mut store = Some(TableStore::new());
    let response = get_cayley_table(&mut store, &sig_components(3, 0, 0), true, NOW).unwrap();
    assert_eq!(response.source, TableSource::Computed);
}

#[test]
fn test_cayley_table_identity_property() {
    let mut store: Option<TableStore> = None;
    let response = get_cayley_table(&mut store, &sig_components(3, 0, 0), false, NOW).unwrap();
    assert_eq!(response.basis_count, 1u64 << response.dimensions);
}

#[test]
fn test_cayley_table_structure() {
    let mut store: Option<TableStore> = None;
    let response = get_cayley_table(&mut store, &sig_components(2, 0, 0), false, NOW).unwrap();
    assert_eq!(response.table.coefficients.len(), 64);
    assert!(encode(&response.table.coefficients).len() > 0);
}

#[test]
fn test_reconstruct_3d_table() {
    let mut store: Option<TableStore> = None;
    let response = get_cayley_table(&mut store, &sig_components(3, 0, 0), false, NOW).unwrap();
    assert_eq!(response.dimensions, 3);
    assert_eq!(response.basis_count, 8);
}

#[test]
fn test_gpu_batch_handler_disabled() {
    let handler = GpuBatchHandler::new(false);
    assert_eq!(handler.check_available(), Err("GPU acceleration not enabled".to_string()));
    assert_eq!(GpuBatchHandler::new(true).check_available(), Ok(()));
}

#[test]
fn basis_counts_of_examples() {
    let mut store: Option<TableStore> = None;
    for (p, q, r, b) in [(3u64, 0u64, 0u64, 8u64), (2, 0, 0, 4), (1, 1, 0, 4), (0, 0, 0, 1), (2, 2, 2, 64)] {
        let response = get_cayley_table(&mut store, &sig_components(p, q, r), false, NOW).unwrap();
        assert_eq!(response.basis_count, b);
        assert_eq!(response.table.coefficients.len() as u64, b * b * b);
    }
}

#[test]
fn oversized_signature_is_rejected() {
    let mut store = Some(TableStore::new());
    let result = get_cayley_table(&mut store, &sig_components(4, 2, 1), true, NOW);
    assert_eq!(result.unwrap_err(), CayleyError::DimensionTooLarge);
    assert_eq!(
        validate_signature(&sig_components(12, 0, 0)).unwrap_err(),
        CayleyError::DimensionTooLarge
    );
    assert_eq!(MAX_DIMENSIONS, 6);
}

#[test]
fn malformed_components_are_rejected() {
    assert_eq!(
        validate_signature(&vec![Some(1), None, Some(0)]).unwrap_err(),
        CayleyError::InvalidSignature
    );
    assert_eq!(
        validate_signature(&vec![Some(1), Some(0), Some(0), Some(0)]).unwrap_err(),
        CayleyError::InvalidSignature
    );
    assert_eq!(
        validate_signature(&vec![Some(1u64 << 33), Some(0), Some(0)]).unwrap_err(),
        CayleyError::DimensionTooLarge
    );
    assert_eq!(
        validate_signature(&vec![Some(0), Some(u64::MAX), Some(u64::MAX)]).unwrap_err(),
        CayleyError::DimensionTooLarge
    );
    assert_eq!(validate_signature(&sig_components(1, 2, 3)), Ok(Signature::new(1, 2, 3)));
}

#[test]
fn table_of_one_direction() {
    let t = compute_cayley_table_for_signature(&Signature::new(1, 0, 0)).unwrap();
    assert_eq!(t.basis_count, 2);
    assert_eq!(t.coefficients, vec![1, 0, 0, 0, 0, 0, 1, 0]);
    let t = compute_cayley_table_for_signature(&Signature::new(0, 1, 0)).unwrap();
    assert_eq!(t.coefficients, vec![1, 0, 0, 0, 0, 0, -1, 0]);
    let t = compute_cayley_table_for_signature(&Signature::new(0, 0, 1)).unwrap();
    assert_eq!(t.coefficients, vec![1, 0, 0, 0, 0, 0, 0, 0]);
}

#[test]
fn table_of_two_directions_has_signed_products() {
    let t = compute_cayley_table_for_signature(&Signature::new(2, 0, 0)).unwrap();
    let at = |i: usize, j: usize, k: usize| t.coefficients[(i * 4 + j) * 4 + k];
    assert_eq!(at(1, 2, 3), 1);
    assert_eq!(at(2, 1, 3), -1);
    assert_eq!(at(3, 3, 0), 1);
    assert_eq!(at(1, 0, 1), 0);
}

#[test]
fn product_index_is_symmetric_difference() {
    let s = Signature::new(3, 0, 0);
    assert_eq!(compute_simple_product_index(0, 5, &s), Some(5));
    assert_eq!(compute_simple_product_index(6, 0, &s), Some(6));
    assert_eq!(compute_simple_product_index(3, 5, &s), Some(6));
}

#[test]
fn codec_round_trip_and_checksum() {
    let t = vec![1i8, 0, -1];
    let bytes = encode(&t);
    assert_eq!(to_hex(&bytes), "000000000000f03f0000000000000000000000000000f0bf");
    assert_eq!(decode(&bytes), Ok(t.clone()));
    assert_eq!(
        checksum(&t),
        "7b15f6ec67409b646deb5354750e3dcd8a7ab61292c53ef403cc2705de6e8668"
    );
    assert_eq!(checksum(&t), checksum(&t));
    assert_ne!(checksum(&t), checksum(&vec![1i8, 0, 1]));
    assert_eq!(checksum(&vec![]).len(), 64);
}

#[test]
fn codec_round_trip_of_a_table() {
    let t = compute_cayley_table_for_signature(&Signature::new(2, 1, 1)).unwrap();
    assert_eq!(decode(&encode(&t.coefficients)), Ok(t.coefficients.clone()));
}

#[test]
fn decode_rejects_malformed_bytes() {
    assert_eq!(decode(&vec![0u8; 7]), Err(CayleyError::DecodeCorruption));
    let mut bytes = encode(&vec![1i8]);
    bytes[7] = 0x40;
    assert_eq!(decode(&bytes), Err(CayleyError::DecodeCorruption));
    assert_eq!(decode(&vec![]), Ok(vec![]));
}

#[test]
fn precompute_then_lookup_is_cached() {
    let mut store = Some(TableStore::new());
    let registry = vec![entry(3, 0, 0, "3D Euclidean", 10, true)];
    let summary = precompute_essential_tables(store.as_mut().unwrap(), &registry, NOW);
    assert_eq!(summary.computed, 1);
    let response = get_cayley_table(&mut store, &sig_components(3, 0, 0), false, NOW).unwrap();
    assert_eq!(response.source, TableSource::Cached);
    assert!(response.checksum.is_some());
    let forced = get_cayley_table(&mut store, &sig_components(3, 0, 0), true, NOW).unwrap();
    assert_eq!(forced.source, TableSource::Computed);
    assert_eq!(forced.table, response.table);
    let saved = store.as_ref().unwrap().lookup(&Signature::new(3, 0, 0)).unwrap().computation_time_ms;
    let usage = store.as_ref().unwrap().usage(&Signature::new(3, 0, 0)).unwrap();
    assert_eq!(usage.hit_count, 1);
    assert_eq!(usage.time_saved_ms, saved);
    assert_eq!(usage.last_access_ms, NOW);
    get_cayley_table(&mut store, &sig_components(3, 0, 0), false, NOW + 5).unwrap();
    let usage = store.as_ref().unwrap().usage(&Signature::new(3, 0, 0)).unwrap();
    assert_eq!(usage.hit_count, 2);
    assert_eq!(usage.time_saved_ms, 2 * saved);
    assert_eq!(usage.last_access_ms, NOW + 5);
}

#[test]
fn clear_all_reverts_to_computed() {
    let mut store = Some(TableStore::new());
    let registry = vec![entry(3, 0, 0, "3D Euclidean", 10, true)];
    precompute_essential_tables(store.as_mut().unwrap(), &registry, NOW);
    let deleted = store.as_mut().unwrap().delete_all();
    assert_eq!(deleted, 1);
    let response = get_cayley_table(&mut store, &sig_components(3, 0, 0), false, NOW).unwrap();
    assert_eq!(response.source, TableSource::Computed);
    assert!(response.checksum.is_none());
}

#[test]
fn second_precompute_run_is_idle() {
    let mut store = TableStore::new();
    let registry = vec![
        entry(2, 0, 0, "plane", 5, false),
        entry(3, 0, 0, "space", 10, true),
        entry(12, 0, 0, "too big", 1, false),
        entry(3, 0, 0, "space again", 10, false),
    ];
    let first = precompute_essential_tables(&mut store, &registry, NOW);
    assert_eq!(first.total_signatures, 4);
    assert_eq!(first.computed, 2);
    assert_eq!(first.skipped, 1);
    assert_eq!(first.failed, 1);
    assert_eq!(first.total_bytes, 8 * (64 + 512));
    let second = precompute_essential_tables(&mut store, &registry, NOW);
    assert_eq!(second.computed, 0);
    assert_eq!(second.skipped, 3);
    assert_eq!(second.failed, 1);
    assert_eq!(store.len(), 2);
}

#[test]
fn force_recompute_without_store() {
    let mut store: Option<TableStore> = None;
    let response = get_cayley_table(&mut store, &sig_components(1, 1, 0), true, NOW).unwrap();
    assert_eq!(response.source, TableSource::Computed);
    assert_eq!(response.basis_count, 4);
    assert!(store.is_none());
}

#[test]
fn corrupted_record_falls_back_to_computation() {
    let mut inner = TableStore::new();
    let t = compute_cayley_table_for_signature(&Signature::new(1, 0, 0)).unwrap();
    let record = CayleyTableRecord {
        signature: Signature::new(1, 0, 0),
        dimensions: 1,
        basis_count: 2,
        payload: encode(&t.coefficients),
        checksum: "0000".to_string(),
        computed_at_ms: 0,
        computation_time_ms: 5,
        encoding: "f64-le".to_string(),
        precomputed: true,
    };
    assert_eq!(inner.insert(record), Ok(()));
    let mut store = Some(inner);
    let response = get_cayley_table(&mut store, &sig_components(1, 0, 0), false, NOW).unwrap();
    assert_eq!(response.source, TableSource::Computed);
    assert_eq!(response.table.coefficients, t.coefficients);
}

#[test]
fn duplicate_insert_is_refused() {
    let mut store = TableStore::new();
    let make = || CayleyTableRecord {
        signature: Signature::new(1, 0, 0),
        dimensions: 1,
        basis_count: 2,
        payload: vec![],
        checksum: String::new(),
        computed_at_ms: 0,
        computation_time_ms: 0,
        encoding: String::new(),
        precomputed: false,
    };
    assert_eq!(store.insert(make()), Ok(()));
    assert_eq!(store.insert(make()), Err(CayleyError::DuplicateKey));
    assert_eq!(store.len(), 1);
}

#[test]
fn schedule_orders_by_priority_then_essential() {
    let registry = vec![
        entry(1, 0, 0, "a", 1, false),
        entry(2, 0, 0, "b", 5, false),
        entry(3, 0, 0, "c", 5, true),
        entry(0, 0, 0, "d", 9, false),
    ];
    assert_eq!(schedule_order(&registry), vec![3, 2, 1, 0]);
}

#[test]
fn precomputed_records_carry_their_sizes_and_time() {
    let mut store = TableStore::new();
    precompute_essential_tables(&mut store, &vec![entry(2, 1, 0, "x", 1, false)], NOW);
    let rec = store.lookup(&Signature::new(2, 1, 0)).unwrap();
    assert_eq!(rec.dimensions, 3);
    assert_eq!(rec.basis_count, 8);
    assert_eq!(rec.computed_at_ms, NOW);
    assert!(rec.precomputed);
    assert_eq!(rec.payload.len(), 8 * 512);
    assert_eq!(rec.checksum.len(), 64);
}

#[test]
fn precompute_tolerates_a_corrupt_stored_record() {
    let mut store = TableStore::new();
    let bad = CayleyTableRecord {
        signature: Signature::new(9, 0, 0),
        dimensions: 0,
        basis_count: 0,
        payload: vec![1, 2, 3],
        checksum: String::new(),
        computed_at_ms: 0,
        computation_time_ms: 0,
        encoding: String::new(),
        precomputed: false,
    };
    assert_eq!(store.insert(bad), Ok(()));
    let registry = vec![entry(9, 0, 0, "held but too big", 5, true), entry(1, 0, 0, "small", 1, false)];
    let s = precompute_essential_tables(&mut store, &registry, NOW);
    assert_eq!(s.computed, 1);
    assert_eq!(s.skipped, 1);
    assert_eq!(s.failed, 0);
}
