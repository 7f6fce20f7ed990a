use snowhead::tt::{TTEntry, TTFlag, TranspositionTable, MAX_TT_SIZE_MB, TT_ENTRY_BYTES};
use snowhead::types::moves::Move;
use snowhead::types::score::Value;

#[test]
fn size_mb_is_correctly_set() {
    let sizes = [1, 10, 100, 1000];
    let mut ttable;
    for size in sizes {
        ttable = TranspositionTable::new(size);
        assert_eq!(size, ttable.size_mb());
    }
}

#[test]
fn size_mb_is_set_to_limit() {
    let sizes = [1100, 1500];
    let mut ttable;
    for size in sizes {
        ttable = TranspositionTable::new(size);
        assert_eq!(MAX_TT_SIZE_MB, ttable.size_mb());
    }
}

#[test]
fn entry_size_matches_the_layout() {
    assert_eq!(std::mem::size_of::<TTEntry>(), TT_ENTRY_BYTES);
}

#[test]
fn new_table_has_entries_of_eight_bytes() {
    let t = TranspositionTable::new(1);
    assert_eq!(t.len(), 1024 * 1024 / 8);
    let t0 = TranspositionTable::new(0);
    assert_eq!(t0.len(), 0);
    assert_eq!(t0.size_mb(), 0);
}

#[test]
fn probe_of_empty_table_misses() {
    let mut t = TranspositionTable::new(1);
    let (hit, v, f, m) = t.probe(12345);
    assert!(!hit);
    assert_eq!(v, Value(0));
    assert_eq!(f, TTFlag::NONE);
    assert_eq!(m, Move(0));
}

#[test]
fn save_then_probe_reads_back() {
    let mut t = TranspositionTable::new(1);
    t.save(0xDEAD_BEEF, Value(-250), TTFlag::LOWER, Move(0x1234));
    let (hit, v, f, m) = t.probe(0xDEAD_BEEF);
    assert!(hit);
    assert_eq!(v, Value(-250));
    assert_eq!(f, TTFlag::LOWER);
    assert_eq!(m, Move(0x1234));
}

#[test]
fn save_keeps_low_sixteen_bits() {
    let mut t = TranspositionTable::new(1);
    t.save(7, Value(70000), TTFlag::EXACT, Move(0x1_0005));
    let (hit, v, _f, m) = t.probe(7);
    assert!(hit);
    assert_eq!(v, Value(70000 - 65536));
    assert_eq!(m, Move(5));
}

#[test]
fn saving_none_flag_reads_as_miss() {
    let mut t = TranspositionTable::new(1);
    t.save(99, Value(10), TTFlag::NONE, Move(3));
    let (hit, v, f, m) = t.probe(99);
    assert!(!hit);
    assert_eq!((v, f, m), (Value(0), TTFlag::NONE, Move(0)));
}

#[test]
fn clear_empties_the_table() {
    let mut t = TranspositionTable::new(1);
    t.save(42, Value(1), TTFlag::UPPER, Move(1));
    t.clear();
    let (hit, _, _, _) = t.probe(42);
    assert!(!hit);
}

#[test]
fn keys_in_the_same_slot_overwrite() {
    let mut t = TranspositionTable::new(1);
    let n = t.len() as u64;
    t.save(3, Value(1), TTFlag::EXACT, Move(1));
    t.save(3 + n, Value(2), TTFlag::EXACT, Move(2));
    let (_, v, _, m) = t.probe(3);
    assert_eq!((v, m), (Value(2), Move(2)));
}
