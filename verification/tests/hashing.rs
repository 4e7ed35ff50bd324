use flip::hashing::ParticleHash;

fn sample() -> ParticleHash {
    let mut h = ParticleHash::new(3, 3, 10);
    let coords = vec![(0, 0), (2, 1), (0, 0), (-5, 10), (1, 1)];
    h.rebuild(&coords);
    h
}

#[test]
fn new_hash_is_empty() {
    let h = ParticleHash::new(3, 2, 4);
    assert_eq!(h.first_cell_particle, vec![0; 7]);
    assert_eq!(h.num_cell_particles, vec![0; 6]);
    assert_eq!(h.cell_particle_ids.len(), 4);
    assert_eq!(h.particle_cell_nrs.len(), 4);
}

#[test]
fn cell_of_clamps() {
    let h = ParticleHash::new(3, 3, 1);
    assert_eq!(h.cell_of(-5, 10), 2);
    assert_eq!(h.cell_of(2, 1), 7);
    assert_eq!(h.cell_of(100, -100), 6);
}

#[test]
fn rebuild_counts_and_bucket_starts() {
    let h = sample();
    assert_eq!(h.particle_cell_nrs[..5].to_vec(), vec![0, 7, 0, 2, 4]);
    assert_eq!(h.num_cell_particles, vec![2, 0, 1, 0, 1, 0, 0, 1, 0]);
    assert_eq!(h.first_cell_particle, vec![0, 2, 2, 3, 3, 4, 4, 4, 5, 5]);
}

#[test]
fn rebuild_fills_buckets_from_their_end() {
    let h = sample();
    assert_eq!(h.cell_particle_ids[..5].to_vec(), vec![2, 0, 3, 4, 1]);
}

#[test]
fn rebuild_places_every_particle_once_in_its_cell() {
    let h = sample();
    let n = 5;
    let mut seen = vec![0; n];
    for c in 0..9 {
        for k in h.first_cell_particle[c]..h.first_cell_particle[c + 1] {
            let p = h.cell_particle_ids[k];
            assert!(p < n);
            assert_eq!(h.particle_cell_nrs[p], c);
            seen[p] += 1;
        }
    }
    assert_eq!(seen, vec![1; n]);
}

#[test]
fn rebuild_keeps_unused_slots() {
    let mut h = sample();
    h.rebuild(&vec![(1, 1), (1, 1)]);
    assert_eq!(h.cell_particle_ids[..2].to_vec(), vec![1, 0]);
    // slots beyond the particles in use keep what they held
    assert_eq!(h.cell_particle_ids[2..5].to_vec(), vec![3, 4, 1]);
    assert_eq!(h.particle_cell_nrs[2..5].to_vec(), vec![0, 2, 4]);
    assert_eq!(h.first_cell_particle, vec![0, 0, 0, 0, 0, 2, 2, 2, 2, 2]);
}

#[test]
fn rebuild_with_no_particles() {
    let mut h = ParticleHash::new(2, 2, 3);
    h.rebuild(&vec![]);
    assert_eq!(h.first_cell_particle, vec![0; 5]);
}

#[test]
fn neighbor_candidates_around_a_corner() {
    let h = sample();
    assert_eq!(h.neighbor_candidates(0, 0, 0), vec![2, 4]);
    assert_eq!(h.neighbor_candidates(2, 0, 0), vec![0, 4]);
}

#[test]
fn neighbor_candidates_on_the_far_edge() {
    let h = sample();
    // particle 1 sits in cell (2, 1): columns 1..=2, rows 0..=2
    assert_eq!(h.neighbor_candidates(1, 2, 1), vec![4]);
    // raw coordinates are clamped before the window is formed
    assert_eq!(h.neighbor_candidates(1, 50, 1), vec![4]);
}

#[test]
fn neighbor_candidates_cover_the_whole_small_grid() {
    let h = sample();
    let mut c = h.neighbor_candidates(4, 1, 1);
    c.sort();
    assert_eq!(c, vec![0, 1, 2, 3]);
}
