use qrbackup::qrcode::chunk_bytes;

fn sample(n: usize) -> Vec<u8> {
    (0..n).map(|i| (i % 251) as u8).collect()
}

#[test]
fn chunks_1300_bytes_at_density_1() {
    let data = sample(1300);
    let chunks = chunk_bytes(&data, 512);
    assert_eq!(chunks.len(), 3);
    assert_eq!(chunks[0].len(), 512);
    assert_eq!(chunks[1].len(), 512);
    assert_eq!(chunks[2].len(), 276);
    let concat: Vec<u8> = chunks.concat();
    assert_eq!(concat, data);
}

#[test]
fn chunks_empty_input_yields_no_chunk() {
    let data: Vec<u8> = Vec::new();
    let chunks = chunk_bytes(&data, 512);
    assert_eq!(chunks.len(), 0);
}

#[test]
fn chunks_exact_multiple_has_no_trailing_chunk() {
    let data = sample(1024);
    let chunks = chunk_bytes(&data, 512);
    assert_eq!(chunks.len(), 2);
    assert_eq!(chunks[0].len(), 512);
    assert_eq!(chunks[1].len(), 512);
    let concat: Vec<u8> = chunks.concat();
    assert_eq!(concat, data);
}

#[test]
fn chunks_1024_bytes_at_density_2_is_one_chunk() {
    let data = sample(1024);
    let chunks = chunk_bytes(&data, 1024);
    assert_eq!(chunks.len(), 1);
    assert_eq!(chunks[0].len(), 1024);
    assert_eq!(chunks[0], data);
}

#[test]
fn chunks_single_short_input() {
    let data = sample(7);
    let chunks = chunk_bytes(&data, 512);
    assert_eq!(chunks.len(), 1);
    assert_eq!(chunks[0], data);
}

#[test]
fn chunks_round_trip_many_lengths() {
    for len in [0usize, 1, 511, 512, 513, 1023, 1024, 1025, 3000] {
        for size in [512usize, 1024, 1536] {
            let data = sample(len);
            let chunks = chunk_bytes(&data, size);
            let expected = if len == 0 { 0 } else { (len + size - 1) / size };
            assert_eq!(chunks.len(), expected);
            for (i, c) in chunks.iter().enumerate() {
                assert!(!c.is_empty());
                if i + 1 < chunks.len() {
                    assert_eq!(c.len(), size);
                }
            }
            let concat: Vec<u8> = chunks.concat();
            assert_eq!(concat, data);
        }
    }
}
