use std::collections::HashSet;
use voxel_terrain::coords::IVec3;
use voxel_terrain::table::ChunkTable;

#[test]
fn an_empty_table_holds_nothing() {
    let table: ChunkTable<u8> = ChunkTable::new();
    assert!(table.is_empty());
    assert!(table.keys().is_empty());
    assert!(table.values().is_empty());
    assert_eq!(table.get(IVec3::new(0, 0, 0)), None);
    assert!(!table.contains_key(IVec3::new(0, 0, 0)));
}

#[test]
fn insert_gives_back_what_was_there() {
    let mut table: ChunkTable<&str> = ChunkTable::new();
    let p = IVec3::new(-3, 7, 11);
    assert_eq!(table.insert(p, "first"), None);
    assert!(!table.is_empty());
    assert_eq!(table.insert(p, "second"), Some("first"));
    assert_eq!(table.get(p), Some(&"second"));
    assert_eq!(table.keys(), [p]);
    assert_eq!(table.values(), [&"second"]);
}

#[test]
fn remove_takes_one_value_out() {
    let mut table: ChunkTable<i32> = ChunkTable::new();
    table.insert(IVec3::new(1, 0, 0), 1);
    table.insert(IVec3::new(0, 1, 0), 2);
    table.insert(IVec3::new(0, 0, 1), 3);
    assert_eq!(table.remove(IVec3::new(0, 1, 0)), Some(2));
    assert_eq!(table.remove(IVec3::new(0, 1, 0)), None);
    assert_eq!(table.remove(IVec3::new(1, 1, 1)), None);
    assert!(table.contains_key(IVec3::new(1, 0, 0)));
    assert!(!table.contains_key(IVec3::new(0, 1, 0)));
    let mut values: Vec<i32> = table.values().into_iter().copied().collect();
    values.sort();
    assert_eq!(values, [1, 3]);
    table.remove(IVec3::new(1, 0, 0));
    table.remove(IVec3::new(0, 0, 1));
    assert!(table.is_empty());
}

#[test]
fn coordinates_that_differ_anywhere_are_kept_apart() {
    let mut table: ChunkTable<usize> = ChunkTable::new();
    let ends = [i32::MIN, -1, 0, 1, i32::MAX];
    let mut all = Vec::new();
    for x in ends {
        for y in ends {
            for z in ends {
                all.push(IVec3::new(x, y, z));
            }
        }
    }
    for (n, p) in all.iter().enumerate() {
        assert_eq!(table.insert(*p, n), None);
    }
    for (n, p) in all.iter().enumerate() {
        assert_eq!(table.get(*p), Some(&n));
    }
    let keys = table.keys();
    assert_eq!(keys.len(), 125);
    assert_eq!(keys.iter().copied().collect::<HashSet<IVec3>>(), all.iter().copied().collect());
    let values: HashSet<usize> = table.values().into_iter().copied().collect();
    assert_eq!(values, (0..125).collect());
}
