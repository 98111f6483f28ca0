use complife::bff::Bff;
use complife::metrics::entropy_fraction;
use complife::soup::MutationRate;
use complife::soup2d::{Soup2d, Soup2dConfig};

fn high_order_entropy(data: &[u8]) -> f64 {
    match entropy_fraction(data) {
        None => 0.0,
        Some((compressed, raw)) => compressed as f64 / raw as f64,
    }
}


#[test]
fn test_neighbors_center() {
    let config = Soup2dConfig {
        width: 10,
        height: 10,
        program_size: 64,
        step_limit: 8192,
        mutation_rate: MutationRate { numerator: 0, denominator: 1 },
    };
    let soup = Soup2d::new(config, 42);
    let neighbors = soup.neighbors(5, 5);
    // 5x5 neighborhood minus center = 24
    assert_eq!(neighbors.len(), 24);
    // All should be within Chebyshev distance 2
    for &idx in neighbors {
        let nx: usize = idx % 10;
        let ny: usize = idx / 10;
        assert!(nx.abs_diff(5) <= 2);
        assert!(ny.abs_diff(5) <= 2);
        assert!(!(nx == 5 && ny == 5));
    }
}

#[test]
fn test_neighbors_corner() {
    let config = Soup2dConfig {
        width: 10,
        height: 10,
        program_size: 64,
        step_limit: 8192,
        mutation_rate: MutationRate { numerator: 0, denominator: 1 },
    };
    let soup = Soup2d::new(config, 42);
    let neighbors = soup.neighbors(0, 0);
    // (0..2, 0..2) = 3x3 = 9 cells minus self = 8
    assert_eq!(neighbors.len(), 8);
    for &idx in neighbors {
        let nx: usize = idx % 10;
        let ny: usize = idx / 10;
        assert!(nx <= 2);
        assert!(ny <= 2);
    }
}

#[test]
fn test_neighbors_edge() {
    let config = Soup2dConfig {
        width: 10,
        height: 10,
        program_size: 64,
        step_limit: 8192,
        mutation_rate: MutationRate { numerator: 0, denominator: 1 },
    };
    let soup = Soup2d::new(config, 42);
    let neighbors = soup.neighbors(0, 5);
    // x: 0..2 (3), y: 3..7 (5) = 15 - 1 = 14
    assert_eq!(neighbors.len(), 14);
}

#[test]
fn test_neighbors_opposite_corner() {
    let config = Soup2dConfig {
        width: 10,
        height: 10,
        program_size: 64,
        step_limit: 8192,
        mutation_rate: MutationRate { numerator: 0, denominator: 1 },
    };
    let soup = Soup2d::new(config, 42);
    let neighbors = soup.neighbors(9, 9);
    // x: 7..9 (3), y: 7..9 (3) = 9 - 1 = 8
    assert_eq!(neighbors.len(), 8);
}

#[test]
fn test_deterministic_2d_simulation() {
    let run = |seed: u64| -> Vec<Vec<u8>> {
        let config = Soup2dConfig {
            width: 5,
            height: 5,
            program_size: 16,
            step_limit: 256,
            mutation_rate: MutationRate { numerator: 1, denominator: 1000 },
        };
        let mut soup = Soup2d::new(config, seed);
        for _ in 0..10 {
            soup.run_epoch::<Bff>();
            soup.mutate();
        }
        soup.programs
    };
    assert_eq!(run(42), run(42));
    assert_ne!(run(42), run(99));
}

#[test]
fn soup2d_test_population_size() {
    let config = Soup2dConfig {
        width: 8,
        height: 6,
        program_size: 32,
        step_limit: 8192,
        mutation_rate: MutationRate { numerator: 0, denominator: 1 },
    };
    let soup = Soup2d::new(config, 42);
    assert_eq!(soup.programs.len(), 48);
    for prog in &soup.programs {
        assert_eq!(prog.len(), 32);
    }
}

#[test]
fn soup2d_test_population_bytes_length() {
    let config = Soup2dConfig {
        width: 8,
        height: 6,
        program_size: 32,
        step_limit: 8192,
        mutation_rate: MutationRate { numerator: 0, denominator: 1 },
    };
    let soup = Soup2d::new(config, 42);
    assert_eq!(soup.population_bytes().len(), 48 * 32);
}

#[test]
fn test_integration_small_2d_simulation() {


    let config = Soup2dConfig {
        width: 10,
        height: 10,
        program_size: 64,
        step_limit: 8192,
        mutation_rate: MutationRate { numerator: 3, denominator: 12500 },
    };
    let mut soup = Soup2d::new(config, 42);

    let initial_hoe = high_order_entropy(&soup.population_bytes());
    assert!(initial_hoe > 0.5, "Initial HOE should be reasonably high, got {initial_hoe}");

    for _ in 0..100 {
        soup.run_epoch::<Bff>();
        soup.mutate();
    }

    let final_hoe = high_order_entropy(&soup.population_bytes());
    assert!(final_hoe > 0.0, "Final HOE should be positive");
}

#[test]
fn test_mutation_disabled_2d() {
    let config = Soup2dConfig {
        width: 4,
        height: 4,
        program_size: 16,
        mutation_rate: MutationRate { numerator: 0, denominator: 1 },
        step_limit: 8192,
    };
    let mut soup = Soup2d::new(config, 42);
    let before = soup.programs.clone();
    soup.mutate();
    assert_eq!(soup.programs, before);
}


#[test]
fn full_rate_mutation_flips_one_bit_of_every_byte_2d() {
    let config = Soup2dConfig {
        width: 3,
        height: 2,
        program_size: 8,
        step_limit: 64,
        mutation_rate: MutationRate { numerator: 1, denominator: 1 },
    };
    let mut soup = Soup2d::new(config, 11);
    let before = soup.programs.clone();
    soup.mutate();
    for (p, q) in before.iter().zip(soup.programs.iter()) {
        for (a, b) in p.iter().zip(q.iter()) {
            assert_eq!((a ^ b).count_ones(), 1);
        }
    }
}

#[test]
fn neighbor_counts_follow_the_clipped_square() {
    let make = |width: usize, height: usize| {
        Soup2d::new(
            Soup2dConfig {
                width,
                height,
                program_size: 8,
                step_limit: 16,
                mutation_rate: MutationRate { numerator: 0, denominator: 1 },
            },
            7,
        )
    };
    let small = make(3, 2);
    assert_eq!(small.neighbors(0, 0).len(), 5);
    assert_eq!(small.neighbors(1, 1).len(), 5);
    let strip = make(7, 1);
    assert_eq!(strip.neighbors(3, 0).len(), 4);
    assert_eq!(strip.neighbors(0, 0).len(), 2);
    let wide = make(10, 10);
    assert_eq!(wide.neighbors(1, 5).len(), 19);
}
