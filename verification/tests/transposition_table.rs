use connect_four::agents::minimax_alpha_beta_with_transposition_table::transposition_table::{
    NodeType, TranspositionTable, TranspositionTableEntry,
};

fn entry(value: isize, depth: usize) -> TranspositionTableEntry {
    TranspositionTableEntry {
        value,
        depth,
        node_type: NodeType::Exact,
        source_node_id: None,
    }
}

#[test]
fn new_table_is_empty() {
    let table = TranspositionTable::new();
    assert_eq!(table.len(), 0);
    assert!(table.get(7).is_none());
}

#[test]
fn insert_then_get() {
    let mut table = TranspositionTable::new();
    table.insert(7, entry(5, 2));
    assert_eq!(table.len(), 1);
    let found = table.get(7).unwrap();
    assert_eq!(found.value, 5);
    assert_eq!(found.depth, 2);
    assert!(table.get(8).is_none());
}

#[test]
fn deeper_entry_is_kept() {
    let mut table = TranspositionTable::new();
    table.insert(7, entry(5, 3));
    table.insert(7, entry(9, 2));
    assert_eq!(table.get(7).unwrap().value, 5);
    assert_eq!(table.get(7).unwrap().depth, 3);
    assert_eq!(table.len(), 1);
}

#[test]
fn equal_or_shallower_entry_is_replaced() {
    let mut table = TranspositionTable::new();
    table.insert(7, entry(5, 2));
    table.insert(7, TranspositionTableEntry {
        value: 9,
        depth: 2,
        node_type: NodeType::LowerBound,
        source_node_id: Some(4),
    });
    let found = table.get(7).unwrap();
    assert_eq!(found.value, 9);
    assert_eq!(found.node_type, NodeType::LowerBound);
    assert_eq!(found.source_node_id, Some(4));
    table.insert(7, entry(1, 4));
    assert_eq!(table.get(7).unwrap().value, 1);
}

#[test]
fn clear_forgets_everything() {
    let mut table = TranspositionTable::new();
    table.insert(1, entry(1, 1));
    table.insert(2, entry(2, 1));
    assert_eq!(table.len(), 2);
    table.clear();
    assert_eq!(table.len(), 0);
    assert!(table.get(1).is_none());
}

#[test]
fn insert_counts_new_hashes_only() {
    let mut table = TranspositionTable::new();
    table.insert(7, entry(5, 2));
    table.insert(9, entry(1, 1));
    assert_eq!(table.len(), 2);
    table.insert(7, entry(6, 4));
    assert_eq!(table.len(), 2);
    table.insert(9, entry(0, 0));
    assert_eq!(table.len(), 2);
    assert_eq!(table.get(9).unwrap().value, 1);
}
