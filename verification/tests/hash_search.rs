use pijersi_rs::hash::search::SearchTable;
use pijersi_rs::search::NodeType;

/// Reading a hash after storing an entry for it gives back the entry.
#[test]
fn test_search_table_insert_read() {
    let mut table = SearchTable::with_buckets(8);
    assert_eq!(table.read(1000), None);
    table.insert(1000, 4, 1448995, 123, NodeType::PV);
    assert_eq!(table.read(1000), Some((4, 1448995, 123, NodeType::PV)));
    assert_eq!(table.read(1001), None);
}

/// The depth and the indices are kept on 8 bits: the depth data of an action is dropped.
#[test]
fn test_search_table_truncation() {
    let mut table = SearchTable::with_buckets(4);
    table.insert(77, 300, 1448995 | (9 << 24), -5, NodeType::All);
    assert_eq!(table.read(77), Some((300 % 256, 1448995, -5, NodeType::All)));
}

/// A full bucket replaces its shallowest entry.
#[test]
fn test_search_table_replacement() {
    let mut table = SearchTable::with_buckets(1);
    table.insert(1, 5, 0, 1, NodeType::PV);
    table.insert(2, 3, 0, 2, NodeType::PV);
    table.insert(3, 7, 0, 3, NodeType::PV);
    table.insert(4, 6, 0, 4, NodeType::PV);
    table.insert(5, 9, 0, 5, NodeType::Cut);
    assert_eq!(table.read(2), None);
    assert_eq!(table.read(5), Some((9, 0, 5, NodeType::Cut)));
    assert_eq!(table.read(1), Some((5, 0, 1, NodeType::PV)));
}

/// An emptied table has none of its entries.
#[test]
fn test_search_table_empty() {
    let mut table = SearchTable::with_buckets(8);
    table.insert(1000, 4, 1448995, 123, NodeType::PV);
    table.empty();
    assert_eq!(table.read(1000), None);
}

/// An entry of a position is replaced by a deeper one, or by one as deep of a
/// PV node, and stays otherwise.
#[test]
fn test_search_table_same_position() {
    let mut table = SearchTable::with_buckets(8);
    table.insert(1000, 4, 1448995, 10, NodeType::Cut);
    table.insert(1000, 3, 1769248, 20, NodeType::PV);
    assert_eq!(table.read(1000), Some((4, 1448995, 10, NodeType::Cut)));
    table.insert(1000, 4, 1769248, 30, NodeType::All);
    assert_eq!(table.read(1000), Some((4, 1448995, 10, NodeType::Cut)));
    table.insert(1000, 4, 1769248, 40, NodeType::PV);
    assert_eq!(table.read(1000), Some((4, 1769248, 40, NodeType::PV)));
    table.insert(1000, 6, 1448995, 50, NodeType::All);
    assert_eq!(table.read(1000), Some((6, 1448995, 50, NodeType::All)));
    assert_eq!(table.read(1008), None);
}

/// Empty slots hold no entry: reading hash 0 finds nothing.
#[test]
fn test_search_table_no_empty_entry() {
    let mut table = SearchTable::with_buckets(8);
    assert_eq!(table.read(0), None);
    table.insert(8, 2, 1448995, 1, NodeType::PV);
    assert_eq!(table.read(0), None);
    assert_eq!(table.read(8), Some((2, 1448995, 1, NodeType::PV)));
}
