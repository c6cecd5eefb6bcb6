use certified_dp::messages::{compress, decompress, frame, frame_length};

#[test]
fn frame_prefixes_length() {
    let f = frame(&[7u8, 8, 9]);
    assert_eq!(f, vec![3, 0, 0, 0, 7, 8, 9]);
    assert_eq!(frame_length([3, 0, 0, 0]), 3);
    assert_eq!(frame_length([0, 1, 0, 0]), 256);
    assert_eq!(frame_length([1, 2, 3, 4]), 0x04030201);
    assert_eq!(frame(&[]), vec![0, 0, 0, 0]);
}

#[test]
fn compress_round_trip() {
    let data: Vec<u8> = (0..200u32).map(|i| (i % 7) as u8).collect();
    let z = compress(&data);
    assert_ne!(z, data);
    assert_eq!(&z[0..2], &[0x1f, 0x8b]);
    assert_eq!(decompress(&z), Some(data));
    assert_eq!(decompress(&[1, 2, 3]), None);
}
