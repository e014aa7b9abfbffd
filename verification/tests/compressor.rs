use selfplay::coord_compressor::CoordCompressor;

#[test]
fn coordinates_get_dense_indices_in_order_of_arrival() {
    let mut compressor = CoordCompressor::new();
    assert_eq!(compressor.len(), 0);
    assert_eq!(compressor.compress(&1000), 0);
    assert_eq!(compressor.compress(&7), 1);
    assert_eq!(compressor.compress(&1000), 0);
    assert_eq!(compressor.compress(&u64::MAX), 2);
    assert_eq!(compressor.compress(&7), 1);
    assert_eq!(compressor.len(), 3);
    assert_eq!(*compressor.decompress(0), 1000);
    assert_eq!(*compressor.decompress(1), 7);
    assert_eq!(*compressor.decompress(2), u64::MAX);
}

#[test]
fn capacity_does_not_change_the_indices() {
    let mut compressor = CoordCompressor::with_capacity(16);
    assert_eq!(compressor.len(), 0);
    for round in 0..3 {
        for v in 0..100u64 {
            let idx = compressor.compress(&(v * v));
            assert_eq!(idx, v as usize, "round {round}");
            assert_eq!(*compressor.decompress(idx), v * v);
        }
    }
    assert_eq!(compressor.len(), 100);
}
