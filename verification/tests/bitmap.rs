use coverage_bitmap::{popcount8, Bitmap, BitmapError, BitmapTrait, SparseBitmap};

#[test]
fn test_bitmap() {
    let mut bitmap = Bitmap::new(8);
    assert_eq!(bitmap.len(), 8);
    for i in 0..bitmap.len() {
        assert_eq!(bitmap.get(i), Ok(false));
    }

    assert_eq!(bitmap.set(0), Ok(()));
    assert_eq!(bitmap.get(0), Ok(true));
    assert_eq!(bitmap.popcount(), 1);

    assert_eq!(bitmap.clear(0), Ok(()));
    assert_eq!(bitmap.get(0), Ok(false));
    assert_eq!(bitmap.popcount(), 0);

    assert_eq!(bitmap.set_ubyte(0, 0x35), Ok(()));
    assert_eq!(bitmap.popcount(), popcount8(0x35) as usize);

    assert_eq!(bitmap.set_ubyte(0, 0x47), Ok(()));
    assert_eq!(bitmap.popcount(), popcount8(0x47) as usize);

    bitmap.clear_all();
    assert_eq!(bitmap.popcount(), 0);
}

#[test]
fn test_sparse_bitmap() {
    let mut bitmap = SparseBitmap::new(8);
    assert_eq!(bitmap.len(), 8);
    for i in 0..bitmap.len() {
        assert_eq!(bitmap.get(i), Ok(false));
    }

    assert_eq!(bitmap.set(0), Ok(()));
    assert!(bitmap.indices.contains(&0));
    assert_eq!(bitmap.get(0), Ok(true));
    assert_eq!(bitmap.popcount(), 1);

    assert_eq!(bitmap.clear(0), Ok(()));
    assert_eq!(bitmap.get(0), Ok(false));
    assert_eq!(bitmap.popcount(), 0);

    assert_eq!(bitmap.set_ubyte(0, 0x35), Ok(()));
    assert_eq!(bitmap.popcount(), popcount8(0x35) as usize);

    assert_eq!(bitmap.set_ubyte(0, 0x47), Ok(()));
    assert_eq!(bitmap.popcount(), popcount8(0x47) as usize);

    bitmap.clear_all();
    assert_eq!(bitmap.popcount(), 0);
}

#[test]
fn popcount8_counts_every_byte() {
    assert_eq!(popcount8(0x00), 0);
    assert_eq!(popcount8(0x01), 1);
    assert_eq!(popcount8(0x80), 1);
    assert_eq!(popcount8(0x35), 4);
    assert_eq!(popcount8(0x47), 4);
    assert_eq!(popcount8(0xFE), 7);
    assert_eq!(popcount8(0xFF), 8);
    for b in 0..=255u8 {
        assert_eq!(popcount8(b) as u32, b.count_ones());
    }
}

#[test]
fn length_is_rounded_up_to_whole_bytes() {
    let cases: [(usize, usize); 9] =
        [(0, 0), (1, 8), (7, 8), (8, 8), (9, 16), (16, 16), (17, 24), (63, 64), (1000, 1000)];
    for (asked, expected) in cases {
        let dense = Bitmap::new(asked);
        let sparse = SparseBitmap::new(asked);
        assert_eq!(dense.len(), expected);
        assert_eq!(sparse.len(), expected);
        assert_eq!(dense.buf.len(), expected / 8);
        assert_eq!(dense.popcount(), 0);
        assert_eq!(sparse.popcount(), 0);
        assert!(dense.is_well_formed());
        assert!(sparse.is_well_formed());
    }
    assert_eq!(Bitmap::new(1001).len(), 1008);
    assert_eq!(SparseBitmap::new(1001).len(), 1008);
}

#[test]
fn a_new_bitmap_has_no_bit_set() {
    let dense = Bitmap::new(20);
    let sparse = SparseBitmap::new(20);
    for i in 0..24 {
        assert_eq!(dense.get(i), Ok(false));
        assert_eq!(sparse.get(i), Ok(false));
    }
    for b in 0..3 {
        assert_eq!(dense.get_ubyte(b), Ok(0));
        assert_eq!(sparse.get_ubyte(b), Ok(0));
    }
    assert!(sparse.indices.is_empty());
}

#[test]
fn default_bitmap_is_empty() {
    let mut bitmap = Bitmap::default();
    assert_eq!(bitmap.len(), 0);
    assert_eq!(bitmap.popcount(), 0);
    assert_eq!(bitmap.get(0), Err(BitmapError::IndexOutOfRange));
    assert_eq!(bitmap.set(0), Err(BitmapError::IndexOutOfRange));
    assert_eq!(bitmap.get_ubyte(0), Err(BitmapError::IndexOutOfRange));
    bitmap.clear_all();
    assert_eq!(bitmap.len(), 0);
    assert!(bitmap.is_well_formed());
}

#[test]
fn set_is_idempotent_dense() {
    let mut bitmap = Bitmap::new(32);
    for i in [0usize, 7, 8, 13, 31] {
        let before = bitmap.popcount();
        assert_eq!(bitmap.set(i), Ok(()));
        assert_eq!(bitmap.get(i), Ok(true));
        assert_eq!(bitmap.popcount(), before + 1);
        assert_eq!(bitmap.set(i), Ok(()));
        assert_eq!(bitmap.get(i), Ok(true));
        assert_eq!(bitmap.popcount(), before + 1);
    }
    assert_eq!(bitmap.popcount(), 5);
    assert_eq!(bitmap.buf, vec![0x81, 0x21, 0x00, 0x80]);
    assert_eq!(bitmap.popcnt, 5);
}

#[test]
fn set_is_idempotent_sparse() {
    let mut bitmap = SparseBitmap::new(32);
    for i in [0usize, 7, 8, 13, 31] {
        let before = bitmap.popcount();
        assert_eq!(bitmap.set(i), Ok(()));
        assert_eq!(bitmap.get(i), Ok(true));
        assert_eq!(bitmap.popcount(), before + 1);
        assert_eq!(bitmap.set(i), Ok(()));
        assert_eq!(bitmap.get(i), Ok(true));
        assert_eq!(bitmap.popcount(), before + 1);
    }
    assert_eq!(bitmap.popcount(), 5);
    assert_eq!(bitmap.indices, vec![0, 7, 8, 13, 31]);
    assert_eq!(bitmap.len, 32);
}

#[test]
fn set_leaves_the_other_bits() {
    let mut dense = Bitmap::new(16);
    let mut sparse = SparseBitmap::new(16);
    assert_eq!(dense.set(10), Ok(()));
    assert_eq!(sparse.set(10), Ok(()));
    for i in 0..16 {
        assert_eq!(dense.get(i), Ok(i == 10));
        assert_eq!(sparse.get(i), Ok(i == 10));
    }
}

#[test]
fn clear_is_idempotent() {
    let mut dense = Bitmap::new(16);
    let mut sparse = SparseBitmap::new(16);
    assert_eq!(dense.set_ubyte(1, 0xFF), Ok(()));
    assert_eq!(sparse.set_ubyte(1, 0xFF), Ok(()));
    assert_eq!(dense.clear(12), Ok(()));
    assert_eq!(sparse.clear(12), Ok(()));
    assert_eq!(dense.popcount(), 7);
    assert_eq!(sparse.popcount(), 7);
    assert_eq!(dense.clear(12), Ok(()));
    assert_eq!(sparse.clear(12), Ok(()));
    assert_eq!(dense.popcount(), 7);
    assert_eq!(sparse.popcount(), 7);
    assert_eq!(dense.get_ubyte(1), Ok(0xEF));
    assert_eq!(sparse.get_ubyte(1), Ok(0xEF));
    assert_eq!(dense.clear(3), Ok(()));
    assert_eq!(sparse.clear(3), Ok(()));
    assert_eq!(dense.popcount(), 7);
    assert_eq!(sparse.popcount(), 7);
}

#[test]
fn set_then_clear_restores_dense() {
    let mut bitmap = Bitmap::new(24);
    assert_eq!(bitmap.set_ubyte(1, 0x5A), Ok(()));
    let before = bitmap.clone();
    for i in 0..24 {
        if bitmap.get(i) == Ok(false) {
            assert_eq!(bitmap.set(i), Ok(()));
            assert_eq!(bitmap.clear(i), Ok(()));
            assert_eq!(bitmap.get(i), Ok(false));
            assert_eq!(bitmap, before);
        }
    }
    assert_eq!(bitmap.popcount(), 4);
}

#[test]
fn set_then_clear_restores_sparse() {
    let mut bitmap = SparseBitmap::new(24);
    assert_eq!(bitmap.set_ubyte(1, 0x5A), Ok(()));
    let before = bitmap.clone();
    for i in 0..24 {
        if bitmap.get(i) == Ok(false) {
            assert_eq!(bitmap.set(i), Ok(()));
            assert_eq!(bitmap.clear(i), Ok(()));
            assert_eq!(bitmap.get(i), Ok(false));
            assert_eq!(bitmap.popcount(), before.popcount());
            for j in 0..24 {
                assert_eq!(bitmap.get(j), before.get(j));
            }
        }
    }
    assert_eq!(bitmap.popcount(), 4);
}

#[test]
fn set_then_clear_of_a_set_bit_takes_one_off() {
    let mut dense = Bitmap::new(8);
    let mut sparse = SparseBitmap::new(8);
    assert_eq!(dense.set_ubyte(0, 0x0F), Ok(()));
    assert_eq!(sparse.set_ubyte(0, 0x0F), Ok(()));
    assert_eq!(dense.set(2), Ok(()));
    assert_eq!(sparse.set(2), Ok(()));
    assert_eq!(dense.clear(2), Ok(()));
    assert_eq!(sparse.clear(2), Ok(()));
    assert_eq!(dense.get(2), Ok(false));
    assert_eq!(sparse.get(2), Ok(false));
    assert_eq!(dense.popcount(), 3);
    assert_eq!(sparse.popcount(), 3);
}

#[test]
fn bytes_are_packed_lowest_index_first() {
    let mut dense = Bitmap::new(16);
    let mut sparse = SparseBitmap::new(16);
    for (index, byte0, byte1) in
        [(0usize, 0x01u8, 0x00u8), (7, 0x81, 0x00), (9, 0x81, 0x02), (15, 0x81, 0x82), (4, 0x91, 0x82)]
    {
        assert_eq!(dense.set(index), Ok(()));
        assert_eq!(sparse.set(index), Ok(()));
        assert_eq!(dense.get_ubyte(0), Ok(byte0));
        assert_eq!(dense.get_ubyte(1), Ok(byte1));
        assert_eq!(sparse.get_ubyte(0), Ok(byte0));
        assert_eq!(sparse.get_ubyte(1), Ok(byte1));
    }
}

#[test]
fn a_written_byte_sets_its_eight_bits() {
    let mut dense = Bitmap::new(24);
    let mut sparse = SparseBitmap::new(24);
    assert_eq!(dense.set_ubyte(2, 0xA5), Ok(()));
    assert_eq!(sparse.set_ubyte(2, 0xA5), Ok(()));
    let set_bits = [16usize, 18, 21, 23];
    for i in 0..24 {
        assert_eq!(dense.get(i), Ok(set_bits.contains(&i)));
        assert_eq!(sparse.get(i), Ok(set_bits.contains(&i)));
    }
    assert_eq!(dense.buf, vec![0x00, 0x00, 0xA5]);
    assert_eq!(sparse.indices, vec![16, 18, 21, 23]);
    assert_eq!(dense.popcount(), 4);
    assert_eq!(sparse.popcount(), 4);
}

#[test]
fn a_written_byte_is_read_back_dense() {
    let mut bitmap = Bitmap::new(32);
    assert_eq!(bitmap.set_ubyte(0, 0x11), Ok(()));
    assert_eq!(bitmap.set_ubyte(3, 0x22), Ok(()));
    for v in 0..=255u8 {
        for b in [1usize, 2] {
            assert_eq!(bitmap.set_ubyte(b, v), Ok(()));
            assert_eq!(bitmap.get_ubyte(b), Ok(v));
        }
        assert_eq!(bitmap.get_ubyte(0), Ok(0x11));
        assert_eq!(bitmap.get_ubyte(3), Ok(0x22));
        assert_eq!(bitmap.popcount(), 4 + 2 * v.count_ones() as usize);
        assert!(bitmap.is_well_formed());
    }
}

#[test]
fn a_written_byte_is_read_back_sparse() {
    let mut bitmap = SparseBitmap::new(32);
    assert_eq!(bitmap.set_ubyte(0, 0x11), Ok(()));
    assert_eq!(bitmap.set_ubyte(3, 0x22), Ok(()));
    for v in 0..=255u8 {
        for b in [1usize, 2] {
            assert_eq!(bitmap.set_ubyte(b, v), Ok(()));
            assert_eq!(bitmap.get_ubyte(b), Ok(v));
        }
        assert_eq!(bitmap.get_ubyte(0), Ok(0x11));
        assert_eq!(bitmap.get_ubyte(3), Ok(0x22));
        assert_eq!(bitmap.popcount(), 4 + 2 * v.count_ones() as usize);
        assert!(bitmap.is_well_formed());
    }
}

#[test]
fn popcount_moves_by_the_difference_of_the_bytes() {
    let mut dense = Bitmap::new(16);
    let mut sparse = SparseBitmap::new(16);
    let mut expected: usize = 0;
    let mut held: [u8; 2] = [0, 0];
    for (b, v) in [(0usize, 0xFFu8), (1, 0x0F), (0, 0x01), (1, 0xF0), (0, 0x00), (1, 0xFF)] {
        assert_eq!(dense.set_ubyte(b, v), Ok(()));
        assert_eq!(sparse.set_ubyte(b, v), Ok(()));
        expected = expected - held[b].count_ones() as usize + v.count_ones() as usize;
        held[b] = v;
        assert_eq!(dense.popcount(), expected);
        assert_eq!(sparse.popcount(), expected);
    }
    assert_eq!(expected, 8);
}

#[test]
fn out_of_range_bit_index_is_refused() {
    for bits in [0usize, 8, 16, 64] {
        let mut dense = Bitmap::new(bits);
        let mut sparse = SparseBitmap::new(bits);
        if bits > 0 {
            assert_eq!(dense.set(bits - 1), Ok(()));
            assert_eq!(sparse.set(bits - 1), Ok(()));
        }
        let dense_before = dense.clone();
        let sparse_before = sparse.clone();
        for idx in [bits, bits + 1, bits + 8, usize::MAX] {
            assert_eq!(dense.get(idx), Err(BitmapError::IndexOutOfRange));
            assert_eq!(dense.set(idx), Err(BitmapError::IndexOutOfRange));
            assert_eq!(dense.clear(idx), Err(BitmapError::IndexOutOfRange));
            assert_eq!(sparse.get(idx), Err(BitmapError::IndexOutOfRange));
            assert_eq!(sparse.set(idx), Err(BitmapError::IndexOutOfRange));
            assert_eq!(sparse.clear(idx), Err(BitmapError::IndexOutOfRange));
        }
        assert_eq!(dense, dense_before);
        assert_eq!(sparse, sparse_before);
    }
}

#[test]
fn out_of_range_byte_index_is_refused() {
    for bits in [0usize, 8, 16, 64] {
        let mut dense = Bitmap::new(bits);
        let mut sparse = SparseBitmap::new(bits);
        if bits > 0 {
            assert_eq!(dense.set_ubyte(bits / 8 - 1, 0xC3), Ok(()));
            assert_eq!(sparse.set_ubyte(bits / 8 - 1, 0xC3), Ok(()));
        }
        let dense_before = dense.clone();
        let sparse_before = sparse.clone();
        for idx in [bits / 8, bits / 8 + 1, bits, usize::MAX / 8, usize::MAX] {
            if idx >= bits / 8 {
                assert_eq!(dense.get_ubyte(idx), Err(BitmapError::IndexOutOfRange));
                assert_eq!(dense.set_ubyte(idx, 0xFF), Err(BitmapError::IndexOutOfRange));
                assert_eq!(sparse.get_ubyte(idx), Err(BitmapError::IndexOutOfRange));
                assert_eq!(sparse.set_ubyte(idx, 0xFF), Err(BitmapError::IndexOutOfRange));
            }
        }
        assert_eq!(dense, dense_before);
        assert_eq!(sparse, sparse_before);
    }
}

#[test]
fn byte_index_is_not_a_bit_index() {
    let mut dense = Bitmap::new(64);
    let mut sparse = SparseBitmap::new(64);
    assert_eq!(dense.set_ubyte(7, 0x01), Ok(()));
    assert_eq!(sparse.set_ubyte(7, 0x01), Ok(()));
    assert_eq!(dense.get(56), Ok(true));
    assert_eq!(sparse.get(56), Ok(true));
    assert_eq!(dense.get_ubyte(0), Ok(0));
    assert_eq!(sparse.get_ubyte(0), Ok(0));
    assert_eq!(dense.get_ubyte(7), Ok(1));
    assert_eq!(sparse.get_ubyte(7), Ok(1));
    assert_eq!(dense.get_ubyte(8), Err(BitmapError::IndexOutOfRange));
    assert_eq!(sparse.get_ubyte(8), Err(BitmapError::IndexOutOfRange));
}

#[test]
fn both_strategies_report_the_same_popcounts() {
    let mut dense = Bitmap::new(8);
    let mut sparse = SparseBitmap::new(8);
    let mut dense_counts: Vec<usize> = Vec::new();
    let mut sparse_counts: Vec<usize> = Vec::new();

    assert_eq!(dense.set(0), Ok(()));
    assert_eq!(sparse.set(0), Ok(()));
    dense_counts.push(dense.popcount());
    sparse_counts.push(sparse.popcount());

    assert_eq!(dense.set_ubyte(0, 0x35), Ok(()));
    assert_eq!(sparse.set_ubyte(0, 0x35), Ok(()));
    dense_counts.push(dense.popcount());
    sparse_counts.push(sparse.popcount());

    assert_eq!(dense.set_ubyte(0, 0x47), Ok(()));
    assert_eq!(sparse.set_ubyte(0, 0x47), Ok(()));
    dense_counts.push(dense.popcount());
    sparse_counts.push(sparse.popcount());

    dense.clear_all();
    sparse.clear_all();
    dense_counts.push(dense.popcount());
    sparse_counts.push(sparse.popcount());

    let expected = vec![1, popcount8(0x35) as usize, popcount8(0x47) as usize, 0];
    assert_eq!(dense_counts, expected);
    assert_eq!(sparse_counts, expected);
    assert_eq!(expected, vec![1, 4, 4, 0]);
}

fn same_answers(dense: &Bitmap, sparse: &SparseBitmap) {
    assert_eq!(dense.len(), sparse.len());
    assert_eq!(dense.popcount(), sparse.popcount());
    for i in 0..dense.len() + 2 {
        assert_eq!(dense.get(i), sparse.get(i));
    }
    for b in 0..dense.len() / 8 + 2 {
        assert_eq!(dense.get_ubyte(b), sparse.get_ubyte(b));
    }
    assert!(dense.is_well_formed());
    assert!(sparse.is_well_formed());
}

#[test]
fn both_strategies_answer_alike_at_every_step() {
    let mut dense = Bitmap::new(40);
    let mut sparse = SparseBitmap::new(40);
    same_answers(&dense, &sparse);
    let mut state: u32 = 0x2545_F491;
    for _ in 0..600 {
        state = state.wrapping_mul(1_664_525).wrapping_add(1_013_904_223);
        let kind = (state >> 28) % 4;
        let index = ((state >> 8) % 44) as usize;
        let byte = (state >> 16) as u8;
        match kind {
            0 => assert_eq!(dense.set(index), sparse.set(index)),
            1 => assert_eq!(dense.clear(index), sparse.clear(index)),
            2 => assert_eq!(dense.set_ubyte(index % 6, byte), sparse.set_ubyte(index % 6, byte)),
            _ => {
                if index == 0 {
                    dense.clear_all();
                    sparse.clear_all();
                }
            }
        }
        same_answers(&dense, &sparse);
    }
}

#[test]
fn clear_all_clears_every_bit() {
    let mut dense = Bitmap::new(24);
    let mut sparse = SparseBitmap::new(24);
    for b in 0..3 {
        assert_eq!(dense.set_ubyte(b, 0xFF), Ok(()));
        assert_eq!(sparse.set_ubyte(b, 0xFF), Ok(()));
    }
    assert_eq!(dense.popcount(), 24);
    assert_eq!(sparse.popcount(), 24);
    dense.clear_all();
    sparse.clear_all();
    assert_eq!(dense.len(), 24);
    assert_eq!(sparse.len(), 24);
    assert_eq!(dense.popcount(), 0);
    assert_eq!(sparse.popcount(), 0);
    for i in 0..24 {
        assert_eq!(dense.get(i), Ok(false));
        assert_eq!(sparse.get(i), Ok(false));
    }
    assert_eq!(dense.buf, vec![0, 0, 0]);
    assert!(sparse.indices.is_empty());
    dense.clear_all();
    sparse.clear_all();
    assert_eq!(dense.popcount(), 0);
    assert_eq!(sparse.popcount(), 0);
}

#[test]
fn a_clone_holds_the_same_bits() {
    let mut dense = Bitmap::new(16);
    let mut sparse = SparseBitmap::new(16);
    assert_eq!(dense.set_ubyte(1, 0x3C), Ok(()));
    assert_eq!(sparse.set_ubyte(1, 0x3C), Ok(()));
    let dense_copy = dense.clone();
    let sparse_copy = sparse.clone();
    assert_eq!(dense_copy, dense);
    assert_eq!(sparse_copy, sparse);
    assert_eq!(dense.set(0), Ok(()));
    assert_eq!(sparse.set(0), Ok(()));
    assert_eq!(dense_copy.get(0), Ok(false));
    assert_eq!(sparse_copy.get(0), Ok(false));
    assert_eq!(dense_copy.popcount(), 4);
    assert_eq!(sparse_copy.popcount(), 4);
}

#[test]
fn ill_formed_dense_fields_are_found() {
    assert!(Bitmap { buf: vec![0x0F, 0xF0], popcnt: 8 }.is_well_formed());
    assert!(Bitmap { buf: Vec::new(), popcnt: 0 }.is_well_formed());
    assert!(!Bitmap { buf: vec![0x0F, 0xF0], popcnt: 7 }.is_well_formed());
    assert!(!Bitmap { buf: vec![0x0F, 0xF0], popcnt: 9 }.is_well_formed());
    assert!(!Bitmap { buf: Vec::new(), popcnt: 1 }.is_well_formed());
}

#[test]
fn ill_formed_sparse_fields_are_found() {
    assert!(SparseBitmap { indices: vec![3, 0, 15], len: 16 }.is_well_formed());
    assert!(SparseBitmap { indices: Vec::new(), len: 0 }.is_well_formed());
    assert!(!SparseBitmap { indices: vec![3, 0, 3], len: 16 }.is_well_formed());
    assert!(!SparseBitmap { indices: vec![3, 16], len: 16 }.is_well_formed());
    assert!(!SparseBitmap { indices: vec![3], len: 12 }.is_well_formed());
    assert!(!SparseBitmap { indices: vec![0], len: 0 }.is_well_formed());
}

#[test]
fn sparse_list_grows_at_its_end_and_keeps_its_order() {
    let mut bitmap = SparseBitmap::new(16);
    for i in [9usize, 3, 12, 3, 0, 9] {
        assert_eq!(bitmap.set(i), Ok(()));
    }
    assert_eq!(bitmap.indices, vec![9, 3, 12, 0]);
    assert_eq!(bitmap.clear(3), Ok(()));
    assert_eq!(bitmap.indices, vec![9, 12, 0]);
    assert_eq!(bitmap.clear(3), Ok(()));
    assert_eq!(bitmap.indices, vec![9, 12, 0]);
    assert_eq!(bitmap.clear(0), Ok(()));
    assert_eq!(bitmap.indices, vec![9, 12]);
    assert_eq!(bitmap.set(0), Ok(()));
    assert_eq!(bitmap.indices, vec![9, 12, 0]);
    assert_eq!(bitmap.len, 16);
    bitmap.clear_all();
    assert!(bitmap.indices.is_empty());
    assert_eq!(bitmap.len, 16);
}

#[test]
fn dense_fields_follow_the_bits() {
    let mut bitmap = Bitmap::new(16);
    assert_eq!((bitmap.buf.clone(), bitmap.popcnt), (vec![0x00, 0x00], 0));
    assert_eq!(bitmap.set(1), Ok(()));
    assert_eq!((bitmap.buf.clone(), bitmap.popcnt), (vec![0x02, 0x00], 1));
    assert_eq!(bitmap.set(15), Ok(()));
    assert_eq!((bitmap.buf.clone(), bitmap.popcnt), (vec![0x02, 0x80], 2));
    assert_eq!(bitmap.set_ubyte(0, 0x7E), Ok(()));
    assert_eq!((bitmap.buf.clone(), bitmap.popcnt), (vec![0x7E, 0x80], 7));
    assert_eq!(bitmap.clear(4), Ok(()));
    assert_eq!((bitmap.buf.clone(), bitmap.popcnt), (vec![0x6E, 0x80], 6));
    assert_eq!(bitmap.clear(0), Ok(()));
    assert_eq!((bitmap.buf.clone(), bitmap.popcnt), (vec![0x6E, 0x80], 6));
    bitmap.clear_all();
    assert_eq!((bitmap.buf.clone(), bitmap.popcnt), (vec![0x00, 0x00], 0));
}

fn mark_every_third<B: BitmapTrait>(bitmap: &mut B) -> usize {
    let mut marked = 0;
    let mut i = 0;
    while i < bitmap.len() {
        assert_eq!(bitmap.set(i), Ok(()));
        marked += 1;
        i += 3;
    }
    assert_eq!(bitmap.set(i), Err(BitmapError::IndexOutOfRange));
    marked
}

#[test]
fn one_caller_serves_both_strategies() {
    let mut dense = Bitmap::new(30);
    let mut sparse = SparseBitmap::new(30);
    assert_eq!(mark_every_third(&mut dense), 11);
    assert_eq!(mark_every_third(&mut sparse), 11);
    assert_eq!(dense.popcount(), 11);
    assert_eq!(sparse.popcount(), 11);
    assert_eq!(dense.buf, vec![0x49, 0x92, 0x24, 0x49]);
    for b in 0..4 {
        assert_eq!(sparse.get_ubyte(b), Ok(dense.buf[b]));
    }
}
