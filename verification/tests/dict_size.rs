use chd_codec::compression::lzma::LZMA_LEVEL;
use chd_codec::get_lzma_dict_size;

#[test]
fn dict_size_of_tiny_data_is_smallest_reduced_size() {
    assert_eq!(get_lzma_dict_size(9, 0), 4096);
    assert_eq!(get_lzma_dict_size(9, 1), 4096);
    assert_eq!(get_lzma_dict_size(9, 4095), 4096);
    assert_eq!(get_lzma_dict_size(9, 4096), 4096);
}

#[test]
fn dict_size_tries_two_before_three_at_each_shift() {
    // 2 << 11, 3 << 11, 2 << 12, 3 << 12, ...
    assert_eq!(get_lzma_dict_size(9, 4097), 6144);
    assert_eq!(get_lzma_dict_size(9, 6144), 6144);
    assert_eq!(get_lzma_dict_size(9, 6145), 8192);
    assert_eq!(get_lzma_dict_size(9, 8192), 8192);
    assert_eq!(get_lzma_dict_size(9, 8193), 12288);
    assert_eq!(get_lzma_dict_size(9, 12288), 12288);
    assert_eq!(get_lzma_dict_size(9, 12289), 16384);
}

#[test]
fn dict_size_of_powers_of_two() {
    let mut shift = 12;
    while shift <= 25 {
        let size = 1u32 << shift;
        assert_eq!(get_lzma_dict_size(9, size), size);
        assert_eq!(get_lzma_dict_size(9, size + 1), size + size / 2);
        assert_eq!(get_lzma_dict_size(9, size - 1), size);
        shift += 1;
    }
}

#[test]
fn dict_size_of_cd_hunks() {
    // Hunks of 4, 8 and 16 CD frames of 2448 bytes.
    assert_eq!(get_lzma_dict_size(9, 9792), 12288);
    assert_eq!(get_lzma_dict_size(9, 19584), 24576);
    assert_eq!(get_lzma_dict_size(9, 39168), 49152);
}

#[test]
fn dict_size_of_odd_sizes() {
    assert_eq!(get_lzma_dict_size(9, 4099), 6144);
    assert_eq!(get_lzma_dict_size(9, 65537), 98304);
    assert_eq!(get_lzma_dict_size(9, 1_000_001), 1_048_576);
    assert_eq!(get_lzma_dict_size(9, 1_048_577), 1_572_864);
    assert_eq!(get_lzma_dict_size(9, 50_331_647), 50_331_648);
    assert_eq!(get_lzma_dict_size(9, 50_331_649), 67_108_864);
}

#[test]
fn dict_size_where_level_size_equals_data_size() {
    // The size the level starts from is kept when it is no larger than the
    // data, and reduced to the same size when the data is one byte shorter.
    assert_eq!(get_lzma_dict_size(9, 1 << 26), 1 << 26);
    assert_eq!(get_lzma_dict_size(9, (1 << 26) - 1), 1 << 26);
    assert_eq!(get_lzma_dict_size(9, (1 << 26) + 1), 1 << 26);
    assert_eq!(get_lzma_dict_size(9, u32::MAX), 1 << 26);
}

#[test]
fn dict_size_of_each_level() {
    let big = u32::MAX;
    assert_eq!(get_lzma_dict_size(0, big), 1 << 14);
    assert_eq!(get_lzma_dict_size(1, big), 1 << 16);
    assert_eq!(get_lzma_dict_size(2, big), 1 << 18);
    assert_eq!(get_lzma_dict_size(3, big), 1 << 20);
    assert_eq!(get_lzma_dict_size(4, big), 1 << 22);
    assert_eq!(get_lzma_dict_size(5, big), 1 << 24);
    assert_eq!(get_lzma_dict_size(6, big), 1 << 25);
    assert_eq!(get_lzma_dict_size(7, big), 1 << 25);
    assert_eq!(get_lzma_dict_size(8, big), 1 << 26);
    assert_eq!(get_lzma_dict_size(9, big), 1 << 26);
    assert_eq!(get_lzma_dict_size(u32::MAX, big), 1 << 26);
}

#[test]
fn dict_size_of_low_level_is_reduced_too() {
    assert_eq!(get_lzma_dict_size(0, 100), 4096);
    assert_eq!(get_lzma_dict_size(0, 16383), 16384);
    assert_eq!(get_lzma_dict_size(0, 16384), 16384);
    assert_eq!(get_lzma_dict_size(0, 20000), 16384);
    assert_eq!(get_lzma_dict_size(5, 5000), 6144);
}

#[test]
fn dict_size_matches_scan_of_all_shifts() {
    // The published formula, written out: the first of 2 << i, 3 << i for
    // i = 11, 12, ... that holds the data.
    let sizes: [u32; 9] = [1, 4096, 4097, 9792, 100_000, 2_000_000, 33_554_433, 50_000_000, 67_108_863];
    for reduce_size in sizes {
        let mut expected: u32 = 0;
        let mut i = 11;
        while expected == 0 {
            if reduce_size <= 2 << i {
                expected = 2 << i;
            } else if reduce_size <= 3 << i {
                expected = 3 << i;
            }
            i += 1;
        }
        assert_eq!(get_lzma_dict_size(LZMA_LEVEL, reduce_size), expected);
    }
}

#[test]
fn reference_level_is_nine() {
    assert_eq!(LZMA_LEVEL, 9);
}
