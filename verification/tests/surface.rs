use complife::bff::Bff;
use complife::epoch::greedy_pairing_of;
use complife::grid::{flatten_lists, NeighborTable};
use complife::mesh::{build_face_adjacency, ring_faces};
use complife::soup::MutationRate;
use complife::surface::{parse_surface, SoupSurface, SoupSurfaceConfig, SurfaceSpec};

/// A neighbor table that lists the faces adjacent to each face of a torus.
fn torus_table(major: usize, minor: usize) -> NeighborTable {
    let faces = ring_faces(major, minor);
    let adj = build_face_adjacency(&faces, major * minor).unwrap();
    let (indices, ranges) = flatten_lists(&adj);
    NeighborTable::from_ranges(indices, ranges).unwrap()
}

fn small_config() -> SoupSurfaceConfig {
    SoupSurfaceConfig {
        program_size: 16,
        step_limit: 256,
        mutation_rate: MutationRate { numerator: 1, denominator: 1000 },
    }
}

#[test]
fn parse_surface_accepts_each_kind() {
    assert_eq!(parse_surface("flat:20x10"), Ok(SurfaceSpec::FlatGrid { width: 20, height: 10 }));
    assert_eq!(parse_surface("sphere:3"), Ok(SurfaceSpec::Sphere { subdivisions: 3 }));
    assert_eq!(parse_surface("torus:40x12"), Ok(SurfaceSpec::Torus { major: 40, minor: 12 }));
    assert_eq!(
        parse_surface("obj:meshes/a:b.obj"),
        Ok(SurfaceSpec::ObjFile { path: "meshes/a:b.obj".to_string() })
    );
}

#[test]
fn parse_surface_refuses_unknown_kind() {
    assert_eq!(
        parse_surface("cube:3"),
        Err("Invalid surface 'cube:3', expected flat:WxH, sphere:N, torus:MxN or obj:PATH".to_string())
    );
    assert_eq!(
        parse_surface("sphere"),
        Err("Invalid surface 'sphere', expected flat:WxH, sphere:N, torus:MxN or obj:PATH".to_string())
    );
}

#[test]
fn parse_surface_refuses_bad_sizes() {
    assert_eq!(
        parse_surface("flat:20"),
        Err("Invalid grid format '20', expected WxH (e.g. 240x135)".to_string())
    );
    assert_eq!(
        parse_surface("torus:0x5"),
        Err("Grid dimensions must be positive".to_string())
    );
    assert_eq!(
        parse_surface("sphere:two"),
        Err("Invalid sphere subdivisions: invalid digit found in string".to_string())
    );
}

#[test]
fn surface_labels() {
    assert_eq!(SurfaceSpec::Sphere { subdivisions: 1 }.label(), "Sphere");
    assert_eq!(SurfaceSpec::Torus { major: 3, minor: 3 }.label(), "Torus");
    assert_eq!(SurfaceSpec::FlatGrid { width: 1, height: 1 }.label(), "Flat Grid");
    assert_eq!(
        SurfaceSpec::HamsterTunnel { num_spheres: 3, segments: 3, seed: 0 }.label(),
        "Hamster Tunnel"
    );
    assert_eq!(SurfaceSpec::ObjFile { path: "x.obj".to_string() }.label(), "OBJ File");
}

#[test]
fn neighbor_table_from_ranges_checks_entries() {
    let table = NeighborTable::from_ranges(vec![1, 0, 2, 1], vec![(0, 1), (1, 3), (3, 4)]).unwrap();
    assert_eq!(table.num_cells(), 3);
    assert_eq!(table.neighbors_of(1), &[0, 2]);
    // A cell listed as its own neighbor.
    assert!(NeighborTable::from_ranges(vec![0], vec![(0, 1)]).is_none());
    // A neighbor that is no cell of the table.
    assert!(NeighborTable::from_ranges(vec![5], vec![(0, 1), (1, 1)]).is_none());
    // A range that leaves the list.
    assert!(NeighborTable::from_ranges(vec![1], vec![(0, 2), (0, 0)]).is_none());
    // A reversed range.
    assert!(NeighborTable::from_ranges(vec![1, 0], vec![(1, 0), (0, 0)]).is_none());
}

#[test]
fn surface_soup_one_program_per_cell() {
    let soup = SoupSurface::new(torus_table(4, 3), small_config(), 42);
    assert_eq!(soup.num_cells(), 24);
    assert_eq!(soup.programs.len(), 24);
    assert!(soup.programs.iter().all(|p| p.len() == 16));
    let mut buf = Vec::new();
    soup.population_bytes_into(&mut buf);
    assert_eq!(buf, soup.programs.concat());
}

#[test]
fn surface_soup_deterministic_epochs() {
    let run = |seed: u64| -> Vec<Vec<u8>> {
        let mut soup = SoupSurface::new(torus_table(4, 3), small_config(), seed);
        for _ in 0..10 {
            soup.run_epoch::<Bff>();
        }
        soup.programs
    };
    assert_eq!(run(42), run(42));
    assert_ne!(run(42), run(99));
}

#[test]
fn surface_soup_flip_bit_counts_bytes_across_programs() {
    let mut soup = SoupSurface::new(torus_table(4, 3), small_config(), 5);
    let before = soup.programs.clone();
    // Byte 35 is byte 3 of program 2 (programs of 16 bytes).
    soup.flip_bit(35, 7);
    let mut expected = before.clone();
    expected[2][3] ^= 0x80;
    assert_eq!(soup.programs, expected);
    soup.flip_bit(35, 7);
    assert_eq!(soup.programs, before);
}

#[test]
fn flatten_lists_lays_lists_end_to_end() {
    let (indices, ranges) = flatten_lists(&[vec![1, 2], vec![], vec![0]]);
    assert_eq!(indices, vec![1, 2, 0]);
    assert_eq!(ranges, vec![(0, 2), (2, 2), (2, 3)]);
}

#[test]
fn greedy_pairing_follows_order_picks_and_coins() {
    // A line of three cells: 0 - 1 - 2.
    let table = NeighborTable::from_ranges(vec![1, 0, 2, 1], vec![(0, 1), (1, 3), (3, 4)]).unwrap();
    // Cell 1 comes first and draws its second neighbor, cell 2; cell 0 then
    // draws cell 1, which is taken; cell 2 is taken.
    assert_eq!(greedy_pairing_of(&table, &[1, 0, 2], &[1, 0, 0], &[true, true, true]), vec![(1, 2)]);
    assert_eq!(greedy_pairing_of(&table, &[1, 0, 2], &[1, 0, 0], &[false, true, true]), vec![(2, 1)]);
    // Cell 0 first pairs with cell 1; cell 2's only neighbor is then taken.
    assert_eq!(greedy_pairing_of(&table, &[0, 2, 1], &[0, 0, 0], &[false, true, true]), vec![(1, 0)]);
}
