use flip::cell::CellTypes;
use flip::grid::{clamp_coord, FluidGrid};

#[test]
fn clamp_coord_limits_to_axis() {
    assert_eq!(clamp_coord(-3, 5), 0);
    assert_eq!(clamp_coord(7, 5), 4);
    assert_eq!(clamp_coord(2, 5), 2);
    assert_eq!(clamp_coord(0, 1), 0);
    assert_eq!(clamp_coord(i32::MIN, 3), 0);
    assert_eq!(clamp_coord(i32::MAX, 3), 2);
}

#[test]
fn new_grid_is_all_liquid() {
    let g = FluidGrid::new(3, 4);
    assert_eq!(g.cell_types.len(), 12);
    assert!(g.cell_types.iter().all(|t| *t == CellTypes::Liquid));
}

#[test]
fn cell_index_is_column_major() {
    let g = FluidGrid::new(3, 4);
    assert_eq!(g.cell_index(0, 0), 0);
    assert_eq!(g.cell_index(0, 3), 3);
    assert_eq!(g.cell_index(1, 0), 4);
    assert_eq!(g.cell_index(2, 3), 11);
}

#[test]
fn get_cell_reads_the_type() {
    let mut g = FluidGrid::new(2, 2);
    g.reset_cell_types(&vec![false, true, false, false]);
    assert_eq!(g.get_cell(0, 1), CellTypes::Solid);
    assert_eq!(g.get_cell(1, 1), CellTypes::Gas);
}

#[test]
fn particle_cell_clamps_coordinates() {
    let g = FluidGrid::new(3, 4);
    assert_eq!(g.particle_cell(-1, -1), 0);
    assert_eq!(g.particle_cell(9, 9), 11);
    assert_eq!(g.particle_cell(1, 2), 6);
}

#[test]
fn reset_makes_solid_or_gas() {
    let mut g = FluidGrid::new(2, 2);
    g.reset_cell_types(&vec![true, false, false, true]);
    assert_eq!(
        g.cell_types,
        vec![CellTypes::Solid, CellTypes::Gas, CellTypes::Gas, CellTypes::Solid]
    );
}

#[test]
fn mark_liquid_turns_gas_into_liquid_only() {
    let mut g = FluidGrid::new(2, 2);
    g.reset_cell_types(&vec![true, false, false, false]);
    g.mark_liquid(0, 1);
    assert_eq!(g.cell_types[1], CellTypes::Liquid);
    g.mark_liquid(0, 0);
    assert_eq!(g.cell_types[0], CellTypes::Solid);
    // marking twice is marking once
    let before = g.cell_types.clone();
    g.mark_liquid(0, 1);
    assert_eq!(g.cell_types, before);
    // out-of-range coordinates are clamped onto the grid
    g.mark_liquid(5, 5);
    assert_eq!(g.cell_types[3], CellTypes::Liquid);
    assert_eq!(g.cell_types[2], CellTypes::Gas);
}

#[test]
fn interpolation_cells_stay_off_the_last_row() {
    let g = FluidGrid::new(5, 4);
    let c = g.interpolation_cells(10, 1);
    assert_eq!((c.x0, c.x1, c.y0, c.y1), (3, 3, 1, 2));
    assert_eq!((c.nr0, c.nr1, c.nr2, c.nr3), (13, 13, 14, 14));
    let c = g.interpolation_cells(0, 0);
    assert_eq!((c.x0, c.x1, c.y0, c.y1), (0, 1, 0, 1));
    assert_eq!((c.nr0, c.nr1, c.nr2, c.nr3), (0, 4, 5, 1));
}

#[test]
fn interpolation_cells_on_a_single_cell_grid() {
    let g = FluidGrid::new(1, 1);
    let c = g.interpolation_cells(7, 7);
    assert_eq!((c.x0, c.x1, c.y0, c.y1), (0, 0, 0, 0));
    assert_eq!((c.nr0, c.nr1, c.nr2, c.nr3), (0, 0, 0, 0));
}

#[test]
fn sample_validity() {
    let mut g = FluidGrid::new(2, 2);
    g.reset_cell_types(&vec![false, true, false, false]);
    // gas cell whose lower neighbour is solid
    assert!(g.sample_is_valid(2, 1));
    // gas cell with no neighbour before it
    assert!(!g.sample_is_valid(0, 1));
    // gas cell whose left neighbour is gas
    assert!(!g.sample_is_valid(2, 2));
    // solid cell
    assert!(g.sample_is_valid(1, 2));
}

#[test]
fn fixed_velocity_mask_borders_solids() {
    let mut g = FluidGrid::new(3, 3);
    g.reset_cell_types(&vec![false, false, false, false, true, false, false, false, false]);
    let u = g.fixed_velocity_mask(0);
    assert_eq!(u, vec![false, false, false, false, true, false, false, true, false]);
    let v = g.fixed_velocity_mask(1);
    assert_eq!(v, vec![false, false, false, false, true, true, false, false, false]);
}

#[test]
fn pressure_cells_are_interior_liquid_cells() {
    let mut g = FluidGrid::new(4, 4);
    assert_eq!(g.pressure_cells(), vec![5, 6, 9, 10]);
    let mut solid = vec![false; 16];
    solid[6] = true;
    g.reset_cell_types(&solid);
    for k in [5, 9, 10] {
        g.mark_liquid((k / 4) as i32, (k % 4) as i32);
    }
    assert_eq!(g.pressure_cells(), vec![5, 9, 10]);
}

#[test]
fn pressure_cells_of_thin_grids_are_empty() {
    assert_eq!(FluidGrid::new(1, 1).pressure_cells(), Vec::<usize>::new());
    assert_eq!(FluidGrid::new(2, 5).pressure_cells(), Vec::<usize>::new());
}

#[test]
fn pressure_stencil_neighbours() {
    let g = FluidGrid::new(4, 4);
    assert_eq!(g.pressure_stencil(5), (1, 9, 4, 6));
    assert_eq!(g.pressure_stencil(10), (6, 14, 9, 11));
}

#[test]
fn liquid_cells_in_order() {
    let mut g = FluidGrid::new(2, 2);
    g.reset_cell_types(&vec![false, false, true, false]);
    g.mark_liquid(1, 1);
    g.mark_liquid(0, 0);
    assert_eq!(g.liquid_cells(), vec![0, 3]);
}

#[test]
fn mark_particles_liquid_marks_every_occupied_gas_cell() {
    let mut g = FluidGrid::new(3, 2);
    g.reset_cell_types(&vec![true, false, false, false, false, false]);
    g.mark_particles_liquid(&vec![(0, 0), (1, 1), (1, 1), (-4, 1), (9, 0)]);
    assert_eq!(
        g.cell_types,
        vec![
            CellTypes::Solid,
            CellTypes::Liquid,
            CellTypes::Gas,
            CellTypes::Liquid,
            CellTypes::Liquid,
            CellTypes::Gas,
        ]
    );
    g.mark_particles_liquid(&vec![]);
    assert_eq!(g.cell_types[2], CellTypes::Gas);
}
