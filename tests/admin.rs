use amari_mcp::{
    clear_precomputed_tables, get_cayley_table, get_precomputation_status, list_missing,
    precompute_essential_tables, PrecomputedSignatureEntry, Signature, TableSource, TableStore,
    PENDING_LIMIT,
};

const NOW: i64 = 1_700_000_000_000;

fn row(p: u32, q: u32, r: u32, priority: i32, essential: bool) -> PrecomputedSignatureEntry {
    PrecomputedSignatureEntry {
        signature: Signature::new(p, q, r),
        name: format!("{}-{}-{}", p, q, r),
        priority,
        essential,
    }
}

#[test]
fn table_id_names_the_signature() {
    assert_eq!(Signature::new(3, 0, 0).table_id(), "cayley_3_0_0");
    assert_eq!(Signature::new(12, 105, 0).table_id(), "cayley_12_105_0");
}

#[test]
fn response_labels_follow_the_source() {
    let mut store = Some(TableStore::new());
    let computed = get_cayley_table(&mut store, &vec![Some(2), Some(0), Some(0)], false, NOW).unwrap();
    assert!(!computed.cached());
    assert_eq!(computed.source_label(), "computed");
    assert_eq!(computed.table_id(), "cayley_2_0_0");
    assert_eq!(computed.table_size_bytes(), 8 * 64);

    precompute_essential_tables(store.as_mut().unwrap(), &vec![row(2, 0, 0, 1, true)], NOW);
    let cached = get_cayley_table(&mut store, &vec![Some(2), Some(0), Some(0)], false, NOW).unwrap();
    assert!(cached.cached());
    assert_eq!(cached.source, TableSource::Cached);
    assert_eq!(cached.source_label(), "precomputed");
    assert_eq!(cached.table, computed.table);
}

#[test]
fn missing_signatures_in_rank_order() {
    let mut store = TableStore::new();
    let registry = vec![row(1, 0, 0, 1, false), row(2, 0, 0, 3, false), row(3, 0, 0, 3, true)];
    precompute_essential_tables(&mut store, &vec![row(2, 0, 0, 0, false)], NOW);
    assert_eq!(list_missing(&store, &registry), vec![2, 0]);
}

#[test]
fn status_reports_totals_and_pending() {
    let mut store = TableStore::new();
    let empty = get_precomputation_status(&store, &vec![]);
    assert_eq!(empty.total_precomputed, 0);
    assert_eq!(empty.total_storage_bytes, 0);
    assert_eq!(empty.avg_computation_time_ms, None);
    assert_eq!(empty.essential_precomputed, 0);
    assert_eq!(empty.first_computed_ms, None);

    let mut registry = Vec::new();
    for i in 0..12 {
        registry.push(row(0, 0, 0, i, false));
    }
    registry.push(row(1, 0, 0, 50, true));
    precompute_essential_tables(&mut store, &vec![row(1, 0, 0, 0, false), row(2, 0, 0, 0, false)], NOW);
    let s = get_precomputation_status(&store, &registry);
    assert_eq!(s.total_precomputed, 2);
    assert_eq!(s.essential_precomputed, 1);
    assert_eq!(s.first_computed_ms, Some(NOW));
    assert_eq!(s.last_computed_ms, Some(NOW));
    assert_eq!(s.total_storage_bytes, 8 * (8 + 64));
    assert!(s.avg_computation_time_ms.is_some());
    assert_eq!(s.pending.len(), PENDING_LIMIT);
    assert_eq!(s.pending[0], 11);
    assert_eq!(s.pending[9], 2);
}

#[test]
fn clearing_empties_the_store() {
    let mut store = TableStore::new();
    precompute_essential_tables(&mut store, &vec![row(1, 0, 0, 0, false), row(0, 1, 0, 0, false)], NOW);
    assert_eq!(clear_precomputed_tables(&mut store), 2);
    assert_eq!(store.len(), 0);
    assert!(!store.contains(&Signature::new(1, 0, 0)));
}
