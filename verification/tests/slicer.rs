use dstorage::slicer::{Chunk, Compiler, Slicer};

fn lengths(chunks: &[Chunk]) -> Vec<usize> {
    chunks.iter().map(|chunk| chunk.bytes.len()).collect()
}

#[test]
fn ten_bytes_in_three_chunks() {
    let buffer: Vec<u8> = (0..10).collect();
    let chunks = Slicer { buffer: buffer.clone(), slice_amount: 3 }.slice();
    assert_eq!(lengths(&chunks), vec![3, 3, 4]);
    assert_eq!(chunks[0].bytes, vec![0, 1, 2]);
    assert_eq!(chunks[1].bytes, vec![3, 4, 5]);
    assert_eq!(chunks[2].bytes, vec![6, 7, 8, 9]);
    assert_eq!(chunks.iter().map(|chunk| chunk.index).collect::<Vec<_>>(), vec![0, 1, 2]);
    assert_eq!(Compiler { slices: chunks }.compile(), buffer);
}

#[test]
fn zero_chunks_for_a_split_count_of_zero() {
    let chunks = Slicer { buffer: vec![1, 2, 3], slice_amount: 0 }.slice();
    assert!(chunks.is_empty());
    assert_eq!(Compiler { slices: chunks }.compile(), Vec::<u8>::new());
}

#[test]
fn reassembly_inverts_every_split() {
    let buffer: Vec<u8> = (0..=40).map(|i| (i * 7 % 251) as u8).collect();
    for n in 1..=buffer.len() + 3 {
        let chunks = Slicer { buffer: buffer.clone(), slice_amount: n }.slice();
        assert_eq!(chunks.len(), n);
        let base = buffer.len() / n;
        for chunk in &chunks[..n - 1] {
            assert_eq!(chunk.bytes.len(), base);
        }
        assert_eq!(chunks[n - 1].bytes.len(), buffer.len() - base * (n - 1));
        assert_eq!(Compiler { slices: chunks }.compile(), buffer);
    }
}

#[test]
fn an_even_split_has_equal_chunks() {
    let chunks = Slicer { buffer: vec![9; 12], slice_amount: 4 }.slice();
    assert_eq!(lengths(&chunks), vec![3, 3, 3, 3]);
}

#[test]
fn an_empty_buffer_splits_into_empty_chunks() {
    let chunks = Slicer { buffer: Vec::new(), slice_amount: 2 }.slice();
    assert_eq!(lengths(&chunks), vec![0, 0]);
    assert_eq!(Compiler { slices: chunks }.compile(), Vec::<u8>::new());
}

#[test]
fn chunks_are_joined_by_index_whatever_their_order() {
    let slices = vec![
        Chunk { index: 2, bytes: vec![5, 6] },
        Chunk { index: 0, bytes: vec![1, 2] },
        Chunk { index: 1, bytes: vec![3, 4] },
    ];
    assert_eq!(Compiler { slices }.compile(), vec![1, 2, 3, 4, 5, 6]);
}

#[test]
fn every_chunk_is_joined_whatever_its_index() {
    let slices = vec![
        Chunk { index: 7, bytes: vec![3] },
        Chunk { index: 0, bytes: vec![1] },
        Chunk { index: 0, bytes: vec![2] },
    ];
    assert_eq!(Compiler { slices }.compile(), vec![1, 2, 3]);
    let alone = vec![Chunk { index: 1, bytes: vec![9, 8] }];
    assert_eq!(Compiler { slices: alone }.compile(), vec![9, 8]);
}

#[test]
fn chunks_of_one_index_keep_the_order_of_the_list() {
    let slices = vec![
        Chunk { index: 2, bytes: vec![5] },
        Chunk { index: 1, bytes: vec![1] },
        Chunk { index: 2, bytes: vec![6] },
        Chunk { index: 1, bytes: vec![2] },
        Chunk { index: 1, bytes: vec![3] },
    ];
    assert_eq!(Compiler { slices }.compile(), vec![1, 2, 3, 5, 6]);
}
