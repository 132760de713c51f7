use nx_layout_toolbox::mc::geometry::state0::state0_table_builder;

fn payload(tail: [u8; 8]) -> Vec<u8> {
    let mut p = vec![0x85u8, 0x03, 0x11, 0x22, 0x33, 0x44, 0x55, 0x66];
    p.extend_from_slice(&tail);
    p
}

#[test]
fn table_builder_two_long_symbols() {
    let p = payload([0x12, 0x34, 0x56, 0x78, 0x9a, 0xbc, 0xde, 0x13]);
    let t = state0_table_builder(&p, 0, p.len() - 8, 0, 0, 7);
    assert_eq!(t.w8, 643);
    assert_eq!(t.symbols, 2);
    assert_eq!(t.fwd, 6);
    assert_eq!(t.rev_ptr, usize::MAX);
    assert_eq!(t.rev_acc, 12071163507704680448);
    assert_eq!(t.rev_bitpos, 44);
    assert_eq!(t.dir_bit, 1);
    assert_eq!(t.entries, vec![285220363, 855645969]);
    assert_eq!(t.offsets, vec![0, 10968]);
    assert_eq!(t.cols, vec![0, 0]);
    assert_eq!(t.longs, vec![8721, 82995]);
    assert_eq!(t.byte_group_total, 43832);
    assert_eq!(t.max_prod, 90);
}

#[test]
fn table_builder_short_symbol_resets_width() {
    let p = payload([0x01, 0x02, 0x03, 0x04, 0x05, 0x06, 0x47, 0x11]);
    let t = state0_table_builder(&p, 0, p.len() - 8, 0, 0, 7);
    assert_eq!(t.symbols, 2);
    assert_eq!(t.fwd, 4);
    assert_eq!(t.rev_acc, 5782674835916541952);
    assert_eq!(t.dir_bit, 0);
    assert_eq!(t.entries, vec![285218052, 285213697]);
    assert_eq!(t.offsets, vec![0, 11]);
    assert_eq!(t.cols, vec![0, 11]);
    assert_eq!(t.longs, vec![74257]);
    assert_eq!(t.byte_group_total, 10968);
    assert_eq!(t.max_prod, 84);
}

#[test]
fn table_builder_without_symbols_reads_only_the_count_and_bit() {
    let p = vec![0x05u8, 0, 0, 0, 0, 0, 0, 0, 0x80];
    let t = state0_table_builder(&p, 0, 1, 0, 0, 7);
    assert_eq!(t.w8, 5);
    assert_eq!(t.symbols, 0);
    assert_eq!(t.fwd, 1);
    assert!(t.entries.is_empty());
    assert!(t.longs.is_empty());
    assert_eq!(t.byte_group_total, 0);
    assert_eq!(t.dir_bit, 0);
    assert_eq!(t.rev_bitpos, 50);
}
