use nx_layout_toolbox::texpipe::{natural_mip_count, round_up, Bc7Quality};

#[test]
fn mip_count_halves_to_one() {
    assert_eq!(natural_mip_count(1, 1), 1);
    assert_eq!(natural_mip_count(0, 0), 1);
    assert_eq!(natural_mip_count(256, 256), 9);
    assert_eq!(natural_mip_count(300, 1), 9);
    assert_eq!(natural_mip_count(1, 1024), 11);
    assert_eq!(natural_mip_count(u32::MAX, 3), 32);
}

#[test]
fn round_up_to_multiples() {
    assert_eq!(round_up(13, 4), 16);
    assert_eq!(round_up(16, 4), 16);
    assert_eq!(round_up(5, 0), 5);
    assert_eq!(round_up(0, 8), 0);
    assert_ne!(Bc7Quality::Fast, Bc7Quality::Slow);
}
