use wget_faster_lib::chunks::{calculate_chunk_size, create_chunks, parallel_ranges};

#[test]
fn parallel_ranges_cover_the_file() {
    let r = parallel_ranges(10, 4, Some(3));
    assert_eq!(r, vec![(0, 2), (3, 5), (6, 8), (9, 9)]);
    assert_eq!(parallel_ranges(0, 4, Some(3)), vec![]);
    let auto = parallel_ranges(3 * 1024 * 1024, 8, None);
    assert_eq!(auto, vec![(0, 1048575), (1048576, 2097151), (2097152, 3145727)]);
    let big = parallel_ranges(80 * 1024 * 1024, 8, None);
    assert_eq!(big.len(), 8);
    assert_eq!(big[7], (73400320, 83886079));
    let huge = parallel_ranges(u64::MAX, 1, Some(u64::MAX));
    assert_eq!(huge, vec![(0, u64::MAX - 1)]);
}

#[test]
fn adaptive_chunks() {
    assert_eq!(calculate_chunk_size(1000, 4), 256 * 1024);
    assert_eq!(calculate_chunk_size(100 * 1024 * 1024, 4), 10 * 1024 * 1024);
    assert_eq!(calculate_chunk_size(4 * 1024 * 1024, 4), 1024 * 1024);
    assert_eq!(create_chunks(100, 110, 4), vec![(100, 103), (104, 107), (108, 109)]);
    assert_eq!(create_chunks(5, 5, 4), vec![]);
}
