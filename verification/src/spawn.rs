use vstd::prelude::*;

verus! {

pub open spec fn min_int(a: int, b: int) -> int {
    if a <= b {
        a
    } else {
        b
    }
}

/// The lattice sites `(column, row)` of the particles placed in the initial block
/// of fluid: rows of `num_x` sites are filled one after another, at most `num_y`
/// rows, and at most `max_particles` sites in all. Particle `k` takes site
/// `(k % num_x, k / num_x)`.
pub fn spawn_lattice(num_x: usize, num_y: usize, max_particles: usize) -> (sites: Vec<
    (usize, usize),
>)
    ensures
        sites@.len() == min_int(num_x * num_y, max_particles as int),
        sites@.len() <= max_particles,
        sites@.len() <= num_x * num_y,
        sites@.len() < max_particles ==> sites@.len() == num_x * num_y,
        forall|k: int|
            0 <= k < sites@.len() ==> #[trigger] sites@[k].0 == k % num_x as int && sites@[k].1
                == k / num_x as int,
{
    let mut sites: Vec<(usize, usize)> = Vec::new();
    let mut j: usize = 0;
    while j < num_y && sites.len() < max_particles
        invariant
            j <= num_y,
            sites@.len() <= max_particles,
            sites@.len() <= j * num_x,
            sites@.len() < max_particles ==> sites@.len() == j * num_x,
            forall|k: int|
                0 <= k < sites@.len() ==> #[trigger] sites@[k].0 == k % num_x as int
                    && sites@[k].1 == k / num_x as int,
        decreases num_y - j,
    {
        let mut i: usize = 0;
        while i < num_x && sites.len() < max_particles
            invariant
                j < num_y,
                i <= num_x,
                sites@.len() <= max_particles,
                sites@.len() == j * num_x + i,
                forall|k: int|
                    0 <= k < sites@.len() ==> #[trigger] sites@[k].0 == k % num_x as int
                        && sites@[k].1 == k / num_x as int,
            decreases num_x - i,
        {
            proof {
                vstd::arithmetic::div_mod::lemma_fundamental_div_mod_converse(
                    j * num_x + i,
                    num_x as int,
                    j as int,
                    i as int,
                );
            }
            sites.push((i, j));
            i = i + 1;
        }
        proof {
            assert(j * num_x + i <= (j + 1) * num_x) by (nonlinear_arith)
                requires
                    i <= num_x,
            ;
            assert((j + 1) * num_x == j * num_x + num_x) by (nonlinear_arith);
        }
        j = j + 1;
    }
    proof {
        assert(j * num_x <= num_y * num_x) by (nonlinear_arith)
            requires
                j <= num_y,
        ;
        assert(num_y * num_x == num_x * num_y) by (nonlinear_arith);
    }
    sites
}

/// Spawned particles occupy distinct lattice sites inside the block of `num_x`
/// columns and `num_y` rows.
pub proof fn lemma_spawn_sites_distinct(num_x: int, num_y: int, k1: int, k2: int)
    requires
        num_x >= 1,
        0 <= k1 < num_x * num_y,
        0 <= k2 < num_x * num_y,
        k1 != k2,
    ensures
        (k1 % num_x, k1 / num_x) != (k2 % num_x, k2 / num_x),
        0 <= k1 % num_x < num_x,
        0 <= k1 / num_x < num_y,
{
    vstd::arithmetic::div_mod::lemma_fundamental_div_mod(k1, num_x);
    vstd::arithmetic::div_mod::lemma_fundamental_div_mod(k2, num_x);
    let q = k1 / num_x;
    let r = k1 % num_x;
    assert(q < num_y) by (nonlinear_arith)
        requires
            k1 == num_x * q + r,
            0 <= r,
            k1 < num_x * num_y,
            num_x >= 1,
    ;
    assert(q >= 0) by (nonlinear_arith)
        requires
            k1 == num_x * q + r,
            r < num_x,
            k1 >= 0,
            num_x >= 1,
    ;
}

} // verus!
