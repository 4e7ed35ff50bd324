use flip::cell::{cell_glyph, color_rule, density_segment, CellTypes, ColorRule};
use flip::grid::FluidGrid;
use flip::render::{draw_calls, resize_target, DrawCall, Layer};
use flip::schedule::{simulation_steps, SimStep};
use flip::spawn::spawn_lattice;
use flip::text::frame_rows;

#[test]
fn glyphs_of_cell_types() {
    assert_eq!(cell_glyph(CellTypes::Solid), '#');
    assert_eq!(cell_glyph(CellTypes::Liquid), '~');
    assert_eq!(cell_glyph(CellTypes::Gas), ' ');
}

#[test]
fn frame_rows_top_row_first() {
    let mut g = FluidGrid::new(2, 2);
    // (0,0) solid, (0,1) gas, (1,0) gas, (1,1) liquid
    g.reset_cell_types(&vec![true, false, false, false]);
    g.mark_liquid(1, 1);
    let rows = frame_rows(&g);
    let text: Vec<String> = rows.iter().map(|r| r.iter().collect()).collect();
    assert_eq!(text, vec!["  ~~".to_string(), "##  ".to_string()]);
}

#[test]
fn color_rules() {
    assert_eq!(color_rule(CellTypes::Solid, false), ColorRule::Gray);
    assert_eq!(color_rule(CellTypes::Liquid, true), ColorRule::Mono);
    assert_eq!(color_rule(CellTypes::Liquid, false), ColorRule::Density);
    assert_eq!(color_rule(CellTypes::Gas, true), ColorRule::Black);
}

#[test]
fn density_segments() {
    assert_eq!(density_segment(0), Some(0));
    assert_eq!(density_segment(3), Some(3));
    assert_eq!(density_segment(4), None);
    assert_eq!(density_segment(-1), None);
}

#[test]
fn draw_calls_follow_switches() {
    assert_eq!(
        draw_calls(true, true, 10, 3),
        vec![
            DrawCall { layer: Layer::Grid, vertices: 4, instances: 10 },
            DrawCall { layer: Layer::Particles, vertices: 4, instances: 3 },
        ]
    );
    assert_eq!(
        draw_calls(false, true, 10, 3),
        vec![DrawCall { layer: Layer::Particles, vertices: 4, instances: 3 }]
    );
    assert!(draw_calls(false, false, 10, 3).is_empty());
}

#[test]
fn resize_ignores_zero_sides() {
    assert_eq!(resize_target((800, 600), (1024, 768)), (1024, 768));
    assert_eq!(resize_target((800, 600), (0, 768)), (800, 600));
    assert_eq!(resize_target((800, 600), (1024, 0)), (800, 600));
}

#[test]
fn simulation_steps_order() {
    assert_eq!(
        simulation_steps(true),
        vec![
            SimStep::IntegrateParticles,
            SimStep::PushParticlesApart,
            SimStep::HandleParticleCollisions,
            SimStep::TransferToGrid,
            SimStep::UpdateParticleDensity,
            SimStep::SolveIncompressibility,
            SimStep::TransferToParticles,
            SimStep::UpdateCellColors,
        ]
    );
    let without = simulation_steps(false);
    assert_eq!(without.len(), 7);
    assert!(!without.contains(&SimStep::PushParticlesApart));
}

#[test]
fn spawn_lattice_fills_rows() {
    assert_eq!(spawn_lattice(3, 2, 4), vec![(0, 0), (1, 0), (2, 0), (0, 1)]);
    assert_eq!(spawn_lattice(3, 2, 100).len(), 6);
    assert_eq!(spawn_lattice(3, 2, 100)[5], (2, 1));
    assert!(spawn_lattice(0, 5, 3).is_empty());
    assert!(spawn_lattice(4, 0, 3).is_empty());
    assert!(spawn_lattice(4, 4, 0).is_empty());
}

#[test]
fn spawn_sites_are_distinct() {
    let sites = spawn_lattice(5, 4, 20);
    for a in 0..sites.len() {
        for b in (a + 1)..sites.len() {
            assert_ne!(sites[a], sites[b]);
        }
        assert!(sites[a].0 < 5 && sites[a].1 < 4);
    }
}
