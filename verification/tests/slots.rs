use razed::column::ParallelIndexArrayColumn;
use razed::slots::SlotIndex;

#[test]
fn fresh_index_holds_the_degenerate_entry() {
    let index = SlotIndex::new();
    assert_eq!(index.len(), 1);
    assert_eq!(index.handles(), &[0]);
    assert_eq!(index.slots_map(), &[0]);
    assert!(index.free_list().is_empty());
    assert_eq!(index.get_indirect(0), Some(0));
    assert_eq!(index.get_indirect(1), None);
    assert_eq!(index.get_indirect_unchecked(1), 0);
    assert_eq!(index.get_indirect_unchecked(u32::MAX), 0);
}

#[test]
fn handles_are_numbered_from_one_and_reused_last_freed_first() {
    let mut index = SlotIndex::with_capacity(8);
    assert_eq!(index.put(), 1);
    assert_eq!(index.put(), 2);
    assert_eq!(index.put(), 3);
    assert_eq!(index.put(), 4);
    assert_eq!(index.handles(), &[0, 1, 2, 3, 4]);
    assert_eq!(index.slots_map(), &[0, 1, 2, 3, 4]);

    // freeing 2 moves the last row, that of 4, into its place
    assert_eq!(index.free(2), Some(2));
    assert_eq!(index.handles(), &[0, 1, 4, 3]);
    assert_eq!(index.slots_map(), &[0, 1, 0, 3, 2]);
    assert_eq!(index.free_list(), &[2]);
    assert_eq!(index.get_indirect(2), None);
    assert_eq!(index.get_indirect(4), Some(2));

    // freeing the last row moves nothing
    assert_eq!(index.free(3), Some(3));
    assert_eq!(index.handles(), &[0, 1, 4]);
    assert_eq!(index.free_list(), &[2, 3]);

    assert_eq!(index.put(), 3);
    assert_eq!(index.put(), 2);
    assert_eq!(index.put(), 5);
    assert_eq!(index.handles(), &[0, 1, 4, 3, 2, 5]);
    assert_eq!(index.slots_map(), &[0, 1, 4, 3, 2, 5]);
    assert!(index.free_list().is_empty());
}

#[test]
fn freeing_the_degenerate_or_a_dead_handle_changes_nothing() {
    let mut index = SlotIndex::new();
    index.put();
    index.put();
    assert_eq!(index.free(0), None);
    assert_eq!(index.free(7), None);
    assert_eq!(index.free(1), Some(1));
    assert_eq!(index.free(1), None);
    assert_eq!(index.handles(), &[0, 2]);
    assert_eq!(index.slots_map(), &[0, 0, 1]);
    assert_eq!(index.free_list(), &[1]);
}

#[test]
fn maps_stay_inverse_under_many_operations() {
    let mut index = SlotIndex::new();
    let mut live: Vec<u32> = Vec::new();
    let mut seed: u32 = 12345;
    let mut puts = 0usize;
    let mut frees = 0usize;
    for _ in 0..2000 {
        seed = seed.wrapping_mul(1664525).wrapping_add(1013904223);
        if live.is_empty() || (seed >> 16) % 3 != 0 {
            let h = index.put();
            assert_ne!(h, 0);
            assert!(!live.contains(&h));
            live.push(h);
            puts += 1;
        } else {
            let at = (seed >> 8) as usize % live.len();
            let h = live.swap_remove(at);
            assert!(index.free(h).is_some());
            frees += 1;
        }
        assert_eq!(index.len() - 1, puts - frees);
        assert_eq!(index.get_indirect(0), Some(0));
        for &h in &live {
            let at = index.get_indirect(h).unwrap() as usize;
            assert_eq!(index.handles()[at], h);
        }
        assert_eq!(index.slots_map().len(), index.len() + index.free_list().len());
    }
}

#[test]
fn a_column_reads_back_what_was_written() {
    let mut column: ParallelIndexArrayColumn<&str> = ParallelIndexArrayColumn::new("none");
    assert_eq!(column.len(), 1);
    assert_eq!(*column.get(0), "none");
    let a = column.put("a");
    let b = column.put("b");
    let c = column.put("c");
    assert_eq!((a, b, c), (1, 2, 3));
    assert_eq!(column.contiguous(), &["none", "a", "b", "c"]);
    assert_eq!(column.handles(), &[0, 1, 2, 3]);

    column.free(a);
    assert_eq!(column.contiguous(), &["none", "c", "b"]);
    assert_eq!(column.handles(), &[0, 3, 2]);
    assert_eq!(column.slots_map(), &[0, 0, 2, 1]);
    assert_eq!(*column.get(b), "b");
    assert_eq!(*column.get(c), "c");
    // a dead handle reads the degenerate row
    assert_eq!(*column.get(a), "none");
    assert_eq!(column.get_indirect(a), None);
    assert_eq!(column.get_indirect_unchecked(a), 0);
    assert_eq!(column.get_indirect(c), Some(1));

    let d = column.put("d");
    assert_eq!(d, a);
    assert_eq!(*column.get(d), "d");
    assert_eq!(column.len(), 4);

    assert!(column.set(b, "B"));
    assert!(!column.set(0, "zero"));
    assert!(!column.set(9, "nine"));
    assert_eq!(column.contiguous(), &["none", "c", "B", "d"]);

    column.free(0);
    column.free(9);
    assert_eq!(column.len(), 4);
    assert_eq!(*column.get(0), "none");
}

#[test]
fn live_count_is_puts_less_frees() {
    let mut column: ParallelIndexArrayColumn<u64> = ParallelIndexArrayColumn::with_capacity(0, 16);
    let handles: Vec<u32> = (0..10u64).map(|v| column.put(v * v)).collect();
    for &h in handles.iter().step_by(3) {
        column.free(h);
    }
    assert_eq!(column.len() - 1, 10 - 4);
    for (v, &h) in handles.iter().enumerate() {
        if v % 3 == 0 {
            assert_eq!(column.get_indirect(h), None);
        } else {
            assert_eq!(*column.get(h), (v * v) as u64);
        }
    }
}
