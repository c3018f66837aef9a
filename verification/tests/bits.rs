use bc_lifehash::bit_enumerator::{BitAggregator, BitEnumerator};

#[test]
fn enumerator_reads_most_significant_bit_first() {
    let mut e = BitEnumerator::new(vec![0b1010_0000, 0x01]);
    let mut bits = Vec::new();
    while e.has_next() {
        bits.push(e.next());
    }
    assert_eq!(
        bits,
        vec![
            true, false, true, false, false, false, false, false, false, false, false, false,
            false, false, false, true
        ]
    );
    assert!(!e.has_next());
}

#[test]
fn enumerator_reads_numbers() {
    let mut e = BitEnumerator::new(vec![0b1101_0110, 0xAB, 0xCD, 0xEF]);
    assert_eq!(e.next_uint2(), 3);
    assert_eq!(e.next_uint2(), 1);
    assert_eq!(e.next_uint2(), 1);
    assert_eq!(e.next_uint2(), 2);
    assert_eq!(e.next_uint8(), 0xAB);
    assert_eq!(e.next_uint16(), 0xCDEF);
    assert!(!e.has_next());
}

#[test]
fn enumerator_reads_across_bytes() {
    let mut e = BitEnumerator::new(vec![0x0F, 0xF0, 0x12]);
    assert!(!e.next());
    assert_eq!(e.next_uint16(), 0x1FE0);
    assert_eq!(e.next_uint2(), 0);
}

#[test]
fn enumerator_for_all_reads_the_rest() {
    let mut e = BitEnumerator::new(vec![0b1100_0011]);
    assert!(e.next());
    assert!(e.next());
    let rest = e.for_all();
    assert_eq!(rest, vec![false, false, false, false, true, true]);
    assert!(!e.has_next());
}

#[test]
fn enumerator_on_empty_data_claims_a_bit() {
    let e = BitEnumerator::new(Vec::new());
    assert!(e.has_next());
}

#[test]
fn aggregator_packs_bits() {
    let mut a = BitAggregator::new();
    assert_eq!(a.data(), Vec::<u8>::new());
    for b in [true, false, true, true, false, false, false, true, true] {
        a.append(b);
    }
    assert_eq!(a.data(), vec![0b1011_0001, 0b1000_0000]);
}

#[test]
fn aggregator_then_enumerator_round_trip() {
    let bits = [true, true, false, true, false, false, true, false, false, true, true, true, false, true, false, true];
    let mut a = BitAggregator::new();
    for b in bits {
        a.append(b);
    }
    let mut e = BitEnumerator::new(a.data());
    assert_eq!(e.for_all(), bits.to_vec());
}
