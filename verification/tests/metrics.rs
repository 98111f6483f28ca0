use rand::Rng;
use rand::SeedableRng;
use complife::metrics::{byte_frequency_histogram, entropy_fraction, unique_program_count, zero_byte_count};

#[test]
fn test_unique_program_count_all_different() {
    let programs: Vec<Vec<u8>> = (0..10u8).map(|i| vec![i; 4]).collect();
    assert_eq!(unique_program_count(&programs), 10);
}

#[test]
fn test_unique_program_count_all_same() {
    let programs: Vec<Vec<u8>> = (0..100).map(|_| vec![42u8; 4]).collect();
    assert_eq!(unique_program_count(&programs), 1);
}

#[test]
fn test_unique_program_count_empty() {
    let programs: Vec<Vec<u8>> = vec![];
    assert_eq!(unique_program_count(&programs), 0);
}

#[test]
fn test_zero_byte_count() {
    let programs = vec![vec![0u8, 1, 0, 2], vec![0, 0, 0, 3]];
    assert_eq!(zero_byte_count(&programs), 5);
}

#[test]
fn test_zero_byte_count_none() {
    let programs = vec![vec![1u8, 2, 3], vec![4, 5, 6]];
    assert_eq!(zero_byte_count(&programs), 0);
}

#[test]
fn test_byte_frequency_histogram() {
    let programs = vec![vec![0u8, 0, 1, 255], vec![0, 1, 1, 2]];
    let hist = byte_frequency_histogram(&programs);
    assert_eq!(hist[0], 3);
    assert_eq!(hist[1], 3);
    assert_eq!(hist[2], 1);
    assert_eq!(hist[255], 1);
    // All others should be 0
    assert_eq!(hist[3], 0);
    assert_eq!(hist[128], 0);
}

#[test]
fn test_byte_frequency_histogram_empty() {
    let programs: Vec<Vec<u8>> = vec![];
    let hist = byte_frequency_histogram(&programs);
    assert_eq!(hist.iter().sum::<usize>(), 0);
}


fn high_order_entropy(data: &[u8]) -> f64 {
    match entropy_fraction(data) {
        None => 0.0,
        Some((compressed, raw)) => compressed as f64 / raw as f64,
    }
}

#[test]
fn test_hoe_random_data_near_one() {
    // Pseudorandom data should be near-incompressible.
    let mut rng = rand::rngs::StdRng::seed_from_u64(12345);
    let data: Vec<u8> = (0..8192).map(|_| rng.gen()).collect();
    let hoe = high_order_entropy(&data);
    assert!(hoe > 0.9, "HOE of random data should be near 1.0, got {hoe}");
}

#[test]
fn test_hoe_repeated_data_low() {
    // All-same-byte data should be highly compressible.
    let data = vec![42u8; 8192];
    let hoe = high_order_entropy(&data);
    assert!(hoe < 0.1, "HOE of repeated data should be well below 1.0, got {hoe}");
}

#[test]
fn test_hoe_empty() {
    assert_eq!(high_order_entropy(&[]), 0.0);
}

#[test]
fn entropy_fraction_counts_compressed_and_raw_sizes() {
    let data = vec![7u8; 4096];
    let (compressed, raw) = entropy_fraction(&data).unwrap();
    assert_eq!(raw, 4096);
    assert!(compressed > 0 && compressed < 100);
    assert_eq!(entropy_fraction(&[]), None);
}

#[test]
fn histogram_counts_places_and_zero_count_is_its_first_entry() {
    let programs: Vec<Vec<u8>> = vec![vec![0, 7, 0, 255], vec![7, 7, 1], vec![], vec![0]];
    let hist = byte_frequency_histogram(&programs);
    for v in 0..=255u8 {
        let places = programs
            .iter()
            .flat_map(|p| p.iter())
            .filter(|&&x| x == v)
            .count();
        assert_eq!(hist[v as usize], places);
    }
    assert_eq!(zero_byte_count(&programs), hist[0]);
    assert_eq!(hist[0], 3);
    assert_eq!(hist[7], 3);
}
