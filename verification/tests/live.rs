use complife::bff::Bff;
use complife::grid::NeighborTable;
use complife::live::{
    distinct_bytes, fill_colors_hash, identical_neighbors, instruction_count, neighbor_bit_distance,
    program_bit_distance, program_to_color, zero_count, ColorMode, ControlAction, ControlCommand,
    SimControl, SubstrateKind, SurfaceShape,
};
use complife::surface::SurfaceSpec;

#[test]
fn substrate_kind_labels_in_menu_order() {
    let labels: Vec<&str> = SubstrateKind::all().iter().map(|k| k.label()).collect();
    assert_eq!(
        labels,
        vec!["BFF", "Forth", "SUBLEQ", "RSUBLEQ4", "Qop", "Skim", "Rig", "Bits", "Echo"]
    );
}

#[test]
fn color_mode_labels_in_menu_order() {
    let labels: Vec<&str> = ColorMode::all().iter().map(|m| m.label()).collect();
    assert_eq!(
        labels,
        vec![
            "Hash",
            "Byte Entropy",
            "Zero Fraction",
            "Neighbor Similarity",
            "Instruction Density",
            "Unique Bytes",
            "Territorial Dominance",
        ]
    );
}

#[test]
fn program_color_is_fnv1a_hash() {
    // FNV-1a of no bytes is the offset basis 0x811C9DC5.
    assert_eq!(program_to_color(&[]), [0xC5, 0x9D, 0x1C]);
    // FNV-1a of "a" is 0xE40C292C.
    assert_eq!(program_to_color(b"a"), [0x2C, 0x29, 0x0C]);
    // FNV-1a of "foobar" is 0xBF9CF968.
    assert_eq!(program_to_color(b"foobar"), [0x68, 0xF9, 0x9C]);
}

#[test]
fn hash_colors_one_pixel_per_program() {
    let programs = vec![vec![], b"a".to_vec()];
    let mut colors = vec![9; 3];
    fill_colors_hash(&programs, &mut colors);
    assert_eq!(colors, vec![0xC5, 0x9D, 0x1C, 255, 0x2C, 0x29, 0x0C, 255]);
}

#[test]
fn per_program_counts() {
    assert_eq!(zero_count(&[0, 1, 0, 2, 0]), 3);
    assert_eq!(zero_count(&[]), 0);
    assert_eq!(distinct_bytes(&[7, 7, 0, 255, 7]), 3);
    assert_eq!(distinct_bytes(&[]), 0);
    // BFF's instructions are < > { } + - . , [ ]; 'x' and 0 are no-ops.
    assert_eq!(instruction_count::<Bff>(b"<x>+0-"), 4);
}

#[test]
fn bit_distance_over_shorter_program() {
    assert_eq!(program_bit_distance(&[0xFF, 0x0F], &[0x00, 0x0F]), 8);
    assert_eq!(program_bit_distance(&[0x01, 0xFF, 0xFF], &[0x02]), 2);
    assert_eq!(program_bit_distance(&[], &[0xFF]), 0);
}

#[test]
fn neighbor_distance_and_identical_neighbors() {
    // Cell 0 neighbors cells 1 and 2; cell 1 neighbors cell 0; cell 2 none.
    let table = NeighborTable::from_ranges(vec![1, 2, 0], vec![(0, 2), (2, 3), (3, 3)]).unwrap();
    let programs = vec![vec![0b1010, 0], vec![0b1010, 0], vec![0b0101, 1]];
    assert_eq!(neighbor_bit_distance(&programs, &table, 0), 0 + 5);
    assert_eq!(neighbor_bit_distance(&programs, &table, 2), 0);
    assert_eq!(identical_neighbors(&programs, &table, 0), 1);
    assert_eq!(identical_neighbors(&programs, &table, 1), 1);
    assert_eq!(identical_neighbors(&programs, &table, 2), 0);
}

#[test]
fn control_runs_until_the_last_epoch() {
    let mut c = SimControl::new(2, 5);
    assert!(c.should_run());
    let r = c.finish_epoch();
    assert!(!r.metrics_due && !r.last_epoch);
    let r = c.finish_epoch();
    assert!(r.metrics_due && r.last_epoch);
    assert!(!c.should_run());
    // Play does not run past the last epoch; a reset starts over.
    assert_eq!(c.handle(ControlCommand::Play, 10), ControlAction::Nothing);
    assert!(!c.should_run());
    assert_eq!(c.handle(ControlCommand::Reset, 10), ControlAction::Restart);
    assert_eq!(c.epoch, 0);
    assert!(c.should_run());
}

#[test]
fn control_metrics_every_interval() {
    let mut c = SimControl::new(100, 3);
    let due: Vec<bool> = (0..7).map(|_| c.finish_epoch().metrics_due).collect();
    assert_eq!(due, vec![false, false, true, false, false, true, false]);
}

#[test]
fn control_pause_color_and_program_requests() {
    let mut c = SimControl::new(10, 1);
    assert_eq!(c.handle(ControlCommand::Pause, 4), ControlAction::Nothing);
    assert!(!c.should_run());
    assert_eq!(c.handle(ControlCommand::Play, 4), ControlAction::Nothing);
    assert!(c.should_run());
    c.handle(ControlCommand::SetColorMode(ColorMode::Zeros), 4);
    assert_eq!(c.color_mode, ColorMode::Zeros);
    assert_eq!(c.handle(ControlCommand::RequestProgram(3), 4), ControlAction::SendProgram(3));
    assert_eq!(c.handle(ControlCommand::RequestProgram(4), 4), ControlAction::Nothing);
}

#[test]
fn surface_shape_round_trip() {
    assert_eq!(SurfaceShape::default(), SurfaceShape::Sphere { subdivisions: 4 });
    let spec = SurfaceSpec::HamsterTunnel { num_spheres: 5, segments: 16, seed: 7 };
    let shape = SurfaceShape::from_spec(&spec);
    assert_eq!(shape, SurfaceShape::HamsterTunnel { num_spheres: 5, segments: 16 });
    assert_eq!(shape.to_spec(7), spec);
    assert_eq!(
        shape.to_spec(9),
        SurfaceSpec::HamsterTunnel { num_spheres: 5, segments: 16, seed: 9 }
    );
    let obj = SurfaceSpec::ObjFile { path: "m.obj".to_string() };
    assert_eq!(SurfaceShape::from_spec(&obj).to_spec(0), obj);
    let torus = SurfaceSpec::Torus { major: 40, minor: 12 };
    assert_eq!(SurfaceShape::from_spec(&torus).to_spec(3), torus);
}
