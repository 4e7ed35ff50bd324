use vstd::prelude::*;

use crate::grid::{clamp_coord, clamped, lemma_index_in_grid};

verus! {

/// How many entries of `s` equal `c`.
pub open spec fn count_in(s: Seq<usize>, c: int) -> nat
    decreases s.len(),
{
    if s.len() == 0 {
        0
    } else {
        count_in(s.drop_last(), c) + if s.last() == c {
            1nat
        } else {
            0nat
        }
    }
}

/// How many entries of `s` are below `c`.
pub open spec fn count_below(s: Seq<usize>, c: int) -> nat
    decreases s.len(),
{
    if s.len() == 0 {
        0
    } else {
        count_below(s.drop_last(), c) + if s.last() < c {
            1nat
        } else {
            0nat
        }
    }
}

/// Where particle `i`, whose cell is `s[i]`, ends up in the sorted id list: the
/// particles of a cell fill the bucket of that cell from its end, so the later a
/// particle, the nearer the bucket's start.
pub open spec fn bucket_slot(s: Seq<usize>, i: int) -> int {
    count_below(s, s[i] + 1) - count_in(s.take(i + 1), s[i] as int)
}

proof fn lemma_count_below_succ(s: Seq<usize>, c: int)
    ensures
        count_below(s, c + 1) == count_below(s, c) + count_in(s, c),
    decreases s.len(),
{
    if s.len() > 0 {
        lemma_count_below_succ(s.drop_last(), c);
    }
}

proof fn lemma_count_below_mono(s: Seq<usize>, c: int, d: int)
    requires
        c <= d,
    ensures
        count_below(s, c) <= count_below(s, d),
    decreases s.len(),
{
    if s.len() > 0 {
        lemma_count_below_mono(s.drop_last(), c, d);
    }
}

proof fn lemma_count_below_all(s: Seq<usize>, m: int)
    requires
        forall|i: int| 0 <= i < s.len() ==> s[i] < m,
    ensures
        count_below(s, m) == s.len(),
    decreases s.len(),
{
    if s.len() > 0 {
        let t = s.drop_last();
        assert forall|i: int| 0 <= i < t.len() implies t[i] < m by {
            assert(t[i] == s[i]);
        }
        lemma_count_below_all(t, m);
    }
}

proof fn lemma_count_below_zero(s: Seq<usize>)
    ensures
        count_below(s, 0) == 0,
    decreases s.len(),
{
    if s.len() > 0 {
        lemma_count_below_zero(s.drop_last());
    }
}

proof fn lemma_count_in_take_step(s: Seq<usize>, i: int, c: int)
    requires
        0 <= i < s.len(),
    ensures
        count_in(s.take(i + 1), c) == count_in(s.take(i), c) + if s[i] == c {
            1nat
        } else {
            0nat
        },
{
    assert(s.take(i + 1).drop_last() =~= s.take(i));
}

proof fn lemma_count_in_take_mono(s: Seq<usize>, a: int, b: int, c: int)
    requires
        0 <= a <= b <= s.len(),
    ensures
        count_in(s.take(a), c) <= count_in(s.take(b), c),
    decreases b - a,
{
    if a < b {
        lemma_count_in_take_mono(s, a, b - 1, c);
        lemma_count_in_take_step(s, b - 1, c);
    }
}

proof fn lemma_count_in_le_all(s: Seq<usize>, a: int, c: int)
    requires
        0 <= a <= s.len(),
    ensures
        count_in(s.take(a), c) <= count_in(s, c),
{
    lemma_count_in_take_mono(s, a, s.len() as int, c);
    assert(s.take(s.len() as int) =~= s);
}

/// The slot of a particle lies inside the bucket of its cell.
proof fn lemma_slot_bounds(s: Seq<usize>, m: int, i: int)
    requires
        forall|k: int| 0 <= k < s.len() ==> s[k] < m,
        0 <= i < s.len(),
    ensures
        count_below(s, s[i] as int) <= bucket_slot(s, i) < count_below(s, s[i] + 1),
        count_below(s, s[i] + 1) <= s.len(),
{
    let c = s[i] as int;
    lemma_count_in_take_step(s, i, c);
    lemma_count_in_le_all(s, i + 1, c);
    lemma_count_below_succ(s, c);
    lemma_count_below_mono(s, c + 1, m);
    lemma_count_below_all(s, m);
}

/// Two different particles never share a slot.
proof fn lemma_slots_distinct(s: Seq<usize>, m: int, i: int, j: int)
    requires
        forall|k: int| 0 <= k < s.len() ==> s[k] < m,
        0 <= i < s.len(),
        0 <= j < s.len(),
        i != j,
    ensures
        bucket_slot(s, i) != bucket_slot(s, j),
{
    lemma_slot_bounds(s, m, i);
    lemma_slot_bounds(s, m, j);
    if s[i] == s[j] {
        let c = s[i] as int;
        if j < i {
            lemma_count_in_take_mono(s, j + 1, i, c);
            lemma_count_in_take_step(s, i, c);
        } else {
            lemma_count_in_take_mono(s, i + 1, j, c);
            lemma_count_in_take_step(s, j, c);
        }
    } else if s[i] < s[j] {
        lemma_count_below_mono(s, s[i] + 1, s[j] as int);
    } else {
        lemma_count_below_mono(s, s[j] + 1, s[i] as int);
    }
}

/// Every rank `v` of cell `c` among the first `m` entries belongs to some entry.
proof fn lemma_count_witness(s: Seq<usize>, m: int, c: int, v: int) -> (i: int)
    requires
        0 <= m <= s.len(),
        1 <= v <= count_in(s.take(m), c),
    ensures
        0 <= i < m,
        s[i] == c,
        count_in(s.take(i + 1), c) == v,
    decreases m,
{
    lemma_count_in_take_step(s, m - 1, c);
    if v <= count_in(s.take(m - 1), c) {
        lemma_count_witness(s, m - 1, c, v)
    } else {
        m - 1
    }
}

/// Removes every occurrence of `x` from `s`, keeping the order of the rest.
pub open spec fn without(s: Seq<usize>, x: usize) -> Seq<usize>
    decreases s.len(),
{
    if s.len() == 0 {
        Seq::empty()
    } else {
        let prev = without(s.drop_last(), x);
        if s.last() == x {
            prev
        } else {
            prev.push(s.last())
        }
    }
}

/// Spatial hash of the particles: for each cell of a coarse grid, the ids of the
/// particles in it, stored contiguously (counting sort). Cell `(x, y)` is number
/// `x * num_y + y`; the particles of cell `c` are
/// `cell_particle_ids[first_cell_particle[c] .. first_cell_particle[c + 1]]`.
pub struct ParticleHash {
    pub num_x: usize,
    pub num_y: usize,
    pub num_cell_particles: Vec<i32>,
    pub first_cell_particle: Vec<usize>,
    pub cell_particle_ids: Vec<usize>,
    pub particle_cell_nrs: Vec<usize>,
}

impl ParticleHash {
    pub open spec fn num_cells(&self) -> int {
        self.num_x * self.num_y
    }

    /// Well-formed: the sizes fit, and the bucket boundaries never decrease and stay
    /// inside the id list.
    pub open spec fn wf(&self) -> bool {
        &&& 1 <= self.num_x <= i32::MAX
        &&& 1 <= self.num_y <= i32::MAX
        &&& self.num_x * self.num_y <= i32::MAX
        &&& self.num_cell_particles@.len() == self.num_cells()
        &&& self.first_cell_particle@.len() == self.num_cells() + 1
        &&& self.particle_cell_nrs@.len() == self.cell_particle_ids@.len()
        &&& forall|a: int, b: int|
            0 <= a <= b <= self.num_cells() ==> #[trigger] self.first_cell_particle@[a]
                <= #[trigger] self.first_cell_particle@[b]
        &&& self.first_cell_particle@[self.num_cells()] <= self.cell_particle_ids@.len()
    }

    /// The cell of each particle, from its floored coordinates clamped into the grid.
    pub open spec fn cell_numbers(&self, coords: Seq<(i32, i32)>) -> Seq<usize> {
        Seq::new(
            coords.len(),
            |i: int|
                (clamped(coords[i].0 as int, self.num_x as int) * self.num_y + clamped(
                    coords[i].1 as int,
                    self.num_y as int,
                )) as usize,
        )
    }

    /// The hash indexes the first `n` particles: their cell numbers are recorded,
    /// each cell's count and bucket start are exact, and each particle sits in its
    /// slot.
    pub open spec fn indexes(&self, n: int) -> bool {
        let s = self.particle_cell_nrs@.take(n);
        &&& 0 <= n <= self.particle_cell_nrs@.len()
        &&& forall|i: int| 0 <= i < n ==> #[trigger] s[i] < self.num_cells()
        &&& forall|c: int|
            0 <= c < self.num_cells() ==> #[trigger] self.num_cell_particles@[c] == count_in(s, c)
        &&& forall|c: int|
            0 <= c <= self.num_cells() ==> #[trigger] self.first_cell_particle@[c] == count_below(
                s,
                c,
            )
        &&& forall|i: int|
            #![trigger bucket_slot(s, i)]
            0 <= i < n ==> self.cell_particle_ids@[bucket_slot(s, i)] == i
    }

    /// The ids stored in the bucket of cell `c`.
    pub open spec fn bucket(&self, c: int) -> Seq<usize> {
        self.cell_particle_ids@.subrange(
            self.first_cell_particle@[c] as int,
            self.first_cell_particle@[c + 1] as int,
        )
    }

    /// The bucket contents of cells `(x, y_lo) ..= (x, y_hi)`, each without `skip`.
    pub open spec fn gather_column(&self, x: int, y_lo: int, y_hi: int, skip: usize) -> Seq<
        usize,
    >
        decreases y_hi - y_lo + 1,
    {
        if y_hi < y_lo {
            Seq::empty()
        } else {
            self.gather_column(x, y_lo, y_hi - 1, skip) + without(
                self.bucket(x * self.num_y + y_hi),
                skip,
            )
        }
    }

    /// The bucket contents of the cells with `x_lo <= x <= x_hi` and
    /// `y_lo <= y <= y_hi`, column by column, each without `skip`.
    pub open spec fn gather_window(
        &self,
        x_lo: int,
        x_hi: int,
        y_lo: int,
        y_hi: int,
        skip: usize,
    ) -> Seq<usize>
        decreases x_hi - x_lo + 1,
    {
        if x_hi < x_lo {
            Seq::empty()
        } else {
            self.gather_window(x_lo, x_hi - 1, y_lo, y_hi, skip) + self.gather_column(
                x_hi,
                y_lo,
                y_hi,
                skip,
            )
        }
    }

    /// An empty hash over `num_x` by `num_y` cells for up to `max_particles`
    /// particles.
    pub fn new(num_x: usize, num_y: usize, max_particles: usize) -> (h: ParticleHash)
        requires
            1 <= num_x <= i32::MAX,
            1 <= num_y <= i32::MAX,
            num_x * num_y <= i32::MAX,
        ensures
            h.wf(),
            h.num_x == num_x,
            h.num_y == num_y,
            h.cell_particle_ids@.len() == max_particles,
            h.indexes(0),
            forall|k: int| 0 <= k < max_particles ==> #[trigger] h.cell_particle_ids@[k] == 0,
            forall|k: int| 0 <= k < max_particles ==> #[trigger] h.particle_cell_nrs@[k] == 0,
    {
        let nc = num_x * num_y;
        let mut counts: Vec<i32> = Vec::new();
        let mut first: Vec<usize> = Vec::new();
        let mut k: usize = 0;
        while k <= nc
            invariant
                nc == num_x * num_y,
                nc <= i32::MAX,
                k <= nc + 1,
                first@.len() == k,
                counts@.len() == if k <= nc {
                    k
                } else {
                    nc
                },
                forall|i: int| 0 <= i < first@.len() ==> first@[i] == 0,
                forall|i: int| 0 <= i < counts@.len() ==> counts@[i] == 0,
            decreases nc + 1 - k,
        {
            first.push(0);
            if k < nc {
                counts.push(0);
            }
            k = k + 1;
        }
        let mut ids: Vec<usize> = Vec::new();
        let mut nrs: Vec<usize> = Vec::new();
        let mut p: usize = 0;
        while p < max_particles
            invariant
                p <= max_particles,
                ids@.len() == p,
                nrs@.len() == p,
                forall|k: int| 0 <= k < p ==> #[trigger] ids@[k] == 0,
                forall|k: int| 0 <= k < p ==> #[trigger] nrs@[k] == 0,
            decreases max_particles - p,
        {
            ids.push(0);
            nrs.push(0);
            p = p + 1;
        }
        let h = ParticleHash {
            num_x,
            num_y,
            num_cell_particles: counts,
            first_cell_particle: first,
            cell_particle_ids: ids,
            particle_cell_nrs: nrs,
        };
        proof {
            let s = h.particle_cell_nrs@.take(0);
            assert forall|c: int| 0 <= c <= h.num_cells() implies #[trigger] h.first_cell_particle@[c]
                == count_below(s, c) by {
                assert(s.len() == 0);
            }
        }
        h
    }

    /// The cell of a particle with floored coordinates `(xi, yi)`.
    pub fn cell_of(&self, xi: i32, yi: i32) -> (c: usize)
        requires
            self.wf(),
        ensures
            c == clamped(xi as int, self.num_x as int) * self.num_y + clamped(
                yi as int,
                self.num_y as int,
            ),
            c < self.num_cells(),
    {
        let x = clamp_coord(xi, self.num_x);
        let y = clamp_coord(yi, self.num_y);
        proof {
            lemma_index_in_grid(x as int, y as int, self.num_x as int, self.num_y as int);
        }
        x * self.num_y + y
    }

    /// Sorts the first `coords.len()` particles into the buckets of their cells.
    /// `coords[i]` holds particle `i`'s position scaled by the inverse cell
    /// spacing and floored.
    #[verifier::spinoff_prover]
    #[verifier::rlimit(30)]
    pub fn rebuild(&mut self, coords: &Vec<(i32, i32)>)
        requires
            old(self).wf(),
            coords@.len() <= old(self).particle_cell_nrs@.len(),
            coords@.len() <= i32::MAX,
        ensures
            final(self).wf(),
            final(self).num_x == old(self).num_x,
            final(self).num_y == old(self).num_y,
            final(self).indexes(coords@.len() as int),
            final(self).particle_cell_nrs@.take(coords@.len() as int) == old(self).cell_numbers(
                coords@,
            ),
            final(self).particle_cell_nrs@.skip(coords@.len() as int)
                == old(self).particle_cell_nrs@.skip(coords@.len() as int),
            final(self).cell_particle_ids@.len() == old(self).cell_particle_ids@.len(),
            forall|k: int|
                coords@.len() <= k < old(self).cell_particle_ids@.len()
                    ==> #[trigger] final(self).cell_particle_ids@[k]
                    == old(self).cell_particle_ids@[k],
    {
        let n = coords.len();
        let nc = self.num_x * self.num_y;
        let ghost sg = self.cell_numbers(coords@);
        let ghost old_nrs = self.particle_cell_nrs@;
        let ghost old_ids = self.cell_particle_ids@;
        proof {
            assert forall|i: int| 0 <= i < n implies #[trigger] sg[i] < nc by {
                lemma_index_in_grid(
                    clamped(coords@[i].0 as int, self.num_x as int),
                    clamped(coords@[i].1 as int, self.num_y as int),
                    self.num_x as int,
                    self.num_y as int,
                );
            }
        }
        // count the particles of each cell

        let mut c: usize = 0;
        while c < nc
            invariant
                c <= nc,
                nc == self.num_cells(),
                self.wf(),
                self.num_x == old(self).num_x,
                self.num_y == old(self).num_y,
                self.particle_cell_nrs@ == old_nrs,
                self.cell_particle_ids@ == old_ids,
                self.first_cell_particle@ == old(self).first_cell_particle@,
                self.num_cell_particles@.len() == nc,
                forall|k: int| 0 <= k < c ==> self.num_cell_particles@[k] == 0,
            decreases nc - c,
        {
            self.num_cell_particles.set(c, 0);
            c = c + 1;
        }
        let mut i: usize = 0;
        while i < n
            invariant
                i <= n,
                n == coords@.len(),
                n <= i32::MAX,
                sg == old(self).cell_numbers(coords@),
                self.num_x == old(self).num_x,
                self.num_y == old(self).num_y,
                nc == self.num_cells(),
                self.wf(),
                self.num_cell_particles@.len() == nc,
                self.particle_cell_nrs@.len() == old_nrs.len(),
                n <= old_nrs.len(),
                forall|k: int| 0 <= k < n ==> #[trigger] sg[k] < nc,
                forall|k: int| 0 <= k < i ==> self.particle_cell_nrs@[k] == sg[k],
                forall|k: int|
                    i <= k < old_nrs.len() ==> self.particle_cell_nrs@[k] == old_nrs[k],
                forall|k: int|
                    0 <= k < nc ==> #[trigger] self.num_cell_particles@[k] == count_in(
                        sg.take(i as int),
                        k,
                    ),
                self.cell_particle_ids@ == old_ids,
                self.first_cell_particle@ == old(self).first_cell_particle@,
            decreases n - i,
        {
            let (xi, yi) = coords[i];
            let cell = self.cell_of(xi, yi);
            proof {
                lemma_count_in_take_step(sg, i as int, cell as int);
                lemma_count_in_le_all(sg, i as int, cell as int);
                assert(count_in(sg.take(i as int), cell as int) <= i) by {
                    lemma_count_in_bound(sg.take(i as int), cell as int);
                }
            }
            let cnt = self.num_cell_particles[cell];
            self.num_cell_particles.set(cell, cnt + 1);
            self.particle_cell_nrs.set(i, cell);
            proof {
                assert forall|k: int| 0 <= k < nc implies #[trigger] self.num_cell_particles@[k]
                    == count_in(sg.take(i + 1), k) by {
                    lemma_count_in_take_step(sg, i as int, k);
                }
            }
            i = i + 1;
        }
        proof {
            assert(sg.take(n as int) =~= sg);
            assert(self.particle_cell_nrs@.take(n as int) =~= sg);
            assert(self.particle_cell_nrs@.skip(n as int) =~= old_nrs.skip(n as int));
            lemma_count_below_all(sg, nc as int);
        }
        // bucket ends: inclusive prefix sums of the counts

        proof {
            lemma_count_below_zero(sg);
        }
        let mut first: i32 = 0;
        let mut c: usize = 0;
        while c < nc
            invariant
                c <= nc,
                nc == self.num_cells(),
                self.num_x == old(self).num_x,
                self.num_y == old(self).num_y,
                1 <= self.num_x <= i32::MAX,
                1 <= self.num_y <= i32::MAX,
                self.num_x * self.num_y <= i32::MAX,
                self.particle_cell_nrs@.take(n as int) == sg,
                self.particle_cell_nrs@.len() == old_nrs.len(),
                self.particle_cell_nrs@.skip(n as int) == old_nrs.skip(n as int),
                self.cell_particle_ids@ == old_ids,
                n <= old_ids.len(),
                n == sg.len(),
                count_below(sg, nc as int) == n,
                n <= i32::MAX,
                forall|k: int| 0 <= k < n ==> #[trigger] sg[k] < nc,
                self.num_cell_particles@.len() == nc,
                forall|k: int|
                    0 <= k < nc ==> #[trigger] self.num_cell_particles@[k] == count_in(sg, k),
                self.first_cell_particle@.len() == nc + 1,
                first == count_below(sg, c as int),
                forall|k: int|
                    0 <= k < c ==> #[trigger] self.first_cell_particle@[k] == count_below(
                        sg,
                        k + 1,
                    ),
            decreases nc - c,
        {
            proof {
                lemma_count_below_succ(sg, c as int);
                lemma_count_below_mono(sg, c + 1, nc as int);
            }
            first = first + self.num_cell_particles[c];
            self.first_cell_particle.set(c, first as usize);
            c = c + 1;
        }
        self.first_cell_particle.set(nc, first as usize);
        // place each particle: the bucket of its cell fills from its end

        let ghost before = self.first_cell_particle@;
        let mut i: usize = 0;
        while i < n
            invariant
                i <= n,
                n == sg.len(),
                nc == self.num_cells(),
                self.num_x == old(self).num_x,
                self.num_y == old(self).num_y,
                1 <= self.num_x <= i32::MAX,
                1 <= self.num_y <= i32::MAX,
                self.num_x * self.num_y <= i32::MAX,
                count_below(sg, nc as int) == n,
                forall|k: int| 0 <= k < n ==> #[trigger] sg[k] < nc,
                self.particle_cell_nrs@.take(n as int) == sg,
                self.particle_cell_nrs@.len() == old_nrs.len(),
                self.particle_cell_nrs@.skip(n as int) == old_nrs.skip(n as int),
                self.cell_particle_ids@.len() == old_ids.len(),
                n <= old_ids.len(),
                n <= old_nrs.len(),
                self.num_cell_particles@.len() == nc,
                forall|k: int|
                    0 <= k < nc ==> #[trigger] self.num_cell_particles@[k] == count_in(sg, k),
                self.first_cell_particle@.len() == nc + 1,
                self.first_cell_particle@[nc as int] == n,
                forall|k: int|
                    0 <= k < nc ==> #[trigger] self.first_cell_particle@[k] == count_below(
                        sg,
                        k + 1,
                    ) - count_in(sg.take(i as int), k),
                forall|j: int|
                    #![trigger bucket_slot(sg, j)]
                    0 <= j < i ==> self.cell_particle_ids@[bucket_slot(sg, j)] == j,
                forall|k: int|
                    n <= k < old_ids.len() ==> #[trigger] self.cell_particle_ids@[k]
                        == old_ids[k],
            decreases n - i,
        {
            let cell = self.particle_cell_nrs[i];
            proof {
                assert(self.particle_cell_nrs@.take(n as int)[i as int] == self.particle_cell_nrs@[i as int]);
                assert(sg[i as int] == cell);
                lemma_slot_bounds(sg, nc as int, i as int);
                lemma_count_in_take_step(sg, i as int, cell as int);
            }
            let slot = self.first_cell_particle[cell] - 1;
            self.first_cell_particle.set(cell, slot);
            self.cell_particle_ids.set(slot, i);
            proof {
                assert forall|j: int|
                    #![trigger bucket_slot(sg, j)]
                    0 <= j < i + 1 implies self.cell_particle_ids@[bucket_slot(sg, j)] == j by {
                    lemma_slot_bounds(sg, nc as int, j);
                    if j < i {
                        lemma_slots_distinct(sg, nc as int, i as int, j);
                    }
                }
                assert forall|k: int| 0 <= k < nc implies #[trigger] self.first_cell_particle@[k]
                    == count_below(sg, k + 1) - count_in(sg.take(i + 1), k) by {
                    lemma_count_in_take_step(sg, i as int, k);
                }
            }
            i = i + 1;
        }
        proof {
            assert(sg.take(n as int) =~= sg);
            assert forall|k: int| 0 <= k <= nc implies #[trigger] self.first_cell_particle@[k]
                == count_below(sg, k) by {
                if k < nc {
                    lemma_count_below_succ(sg, k);
                }
            }
            assert forall|a: int, b: int|
                0 <= a <= b <= nc implies #[trigger] self.first_cell_particle@[a]
                <= #[trigger] self.first_cell_particle@[b] by {
                lemma_count_below_mono(sg, a, b);
            }
        }
    }

    /// Lower end of the 3x3 neighbourhood around the clamped coordinate `c`.
    pub open spec fn window_low(c: int) -> int {
        if c - 1 > 0 { c - 1 } else { 0 }
    }

    /// Upper end of the 3x3 neighbourhood around the clamped coordinate `c` along an
    /// axis with `n` cells.
    pub open spec fn window_high(c: int, n: int) -> int {
        if c + 1 < n - 1 { c + 1 } else { n - 1 }
    }

    /// The ids that particle `i` is compared against when particles are pushed
    /// apart: the contents of the buckets of the up to 3x3 cells around the cell of
    /// its floored coordinates `(xi, yi)`, column by column, leaving out `i` itself.
    #[verifier::rlimit(30)]
    pub fn neighbor_candidates(&self, i: usize, xi: i32, yi: i32) -> (ids: Vec<usize>)
        requires
            self.wf(),
        ensures
            ({
                let cx = clamped(xi as int, self.num_x as int);
                let cy = clamped(yi as int, self.num_y as int);
                ids@ == self.gather_window(
                    Self::window_low(cx),
                    Self::window_high(cx, self.num_x as int),
                    Self::window_low(cy),
                    Self::window_high(cy, self.num_y as int),
                    i,
                )
            }),
    {
        let cx = clamp_coord(xi, self.num_x) as i32;
        let cy = clamp_coord(yi, self.num_y) as i32;
        let nx = self.num_x as i32;
        let ny = self.num_y as i32;
        let x0 = if cx - 1 > 0 { cx - 1 } else { 0 };
        let y0 = if cy - 1 > 0 { cy - 1 } else { 0 };
        let x1 = if cx + 1 < nx - 1 { cx + 1 } else { nx - 1 };
        let y1 = if cy + 1 < ny - 1 { cy + 1 } else { ny - 1 };
        let ghost nc = self.num_cells();
        let mut ids: Vec<usize> = Vec::new();
        let mut x = x0;
        while x <= x1
            invariant
                self.wf(),
                nc == self.num_cells(),
                nx == self.num_x,
                ny == self.num_y,
                0 <= x0 <= x,
                x <= x1 + 1,
                x1 < nx,
                0 <= y0 <= y1,
                y1 < ny,
                ids@ == self.gather_window(x0 as int, x - 1, y0 as int, y1 as int, i),
            decreases x1 - x + 1,
        {
            let mut y = y0;
            while y <= y1
                invariant
                    self.wf(),
                    nc == self.num_cells(),
                    nx == self.num_x,
                    ny == self.num_y,
                    0 <= x0 <= x <= x1,
                    x1 < nx,
                    0 <= y0 <= y,
                    y <= y1 + 1,
                    y1 < ny,
                    ids@ == self.gather_window(x0 as int, x - 1, y0 as int, y1 as int, i)
                        + self.gather_column(x as int, y0 as int, y - 1, i),
                decreases y1 - y + 1,
            {
                proof {
                    lemma_index_in_grid(x as int, y as int, nx as int, ny as int);
                }
                let cell = (x * ny + y) as usize;
                let start = self.first_cell_particle[cell];
                let end = self.first_cell_particle[cell + 1];
                let ghost base = ids@;
                let mut j = start;
                while j < end
                    invariant
                        self.wf(),
                        nc == self.num_cells(),
                        cell < nc,
                        start == self.first_cell_particle@[cell as int],
                        end == self.first_cell_particle@[cell + 1],
                        start <= j <= end,
                        end <= self.cell_particle_ids@.len(),
                        ids@ == base + without(
                            self.cell_particle_ids@.subrange(start as int, j as int),
                            i,
                        ),
                    decreases end - j,
                {
                    let id2 = self.cell_particle_ids[j];
                    if id2 != i {
                        ids.push(id2);
                    }
                    proof {
                        let prev = self.cell_particle_ids@.subrange(start as int, j as int);
                        let next = self.cell_particle_ids@.subrange(start as int, j + 1);
                        assert(next.drop_last() =~= prev);
                        assert(ids@ =~= base + without(next, i));
                    }
                    j = j + 1;
                }
                proof {
                    let a = self.gather_window(x0 as int, x - 1, y0 as int, y1 as int, i);
                    let b = self.gather_column(x as int, y0 as int, y - 1, i);
                    assert(cell == x * self.num_y + y);
                    assert(ids@ =~= a + (b + without(self.bucket(x * self.num_y + y), i)));
                }
                y = y + 1;
            }
            proof {
                assert(ids@ =~= self.gather_window(x0 as int, x as int, y0 as int, y1 as int, i));
            }
            x = x + 1;
        }
        ids
    }
}

/// After a rebuild over `n` particles the buckets partition them by cell: every id
/// stored in the bucket of cell `c` is a particle of cell `c`, every particle is
/// stored in the bucket of its cell, and no particle is stored twice.
#[verifier::rlimit(30)]
pub proof fn lemma_bucket_membership(h: ParticleHash, n: int)
    requires
        h.wf(),
        h.indexes(n),
    ensures
        forall|c: int, k: int|
            #![trigger h.first_cell_particle@[c], h.cell_particle_ids@[k]]
            0 <= c < h.num_cells() && h.first_cell_particle@[c] <= k < h.first_cell_particle@[c
                + 1] ==> {
                &&& h.cell_particle_ids@[k] < n
                &&& h.particle_cell_nrs@[h.cell_particle_ids@[k] as int] == c
            },
        forall|i: int|
            0 <= i < n ==> exists|k: int|
                h.first_cell_particle@[#[trigger] h.particle_cell_nrs@[i] as int] <= k
                    < h.first_cell_particle@[h.particle_cell_nrs@[i] + 1]
                    && h.cell_particle_ids@[k] == i,
        forall|k1: int, k2: int|
            0 <= k1 < n && 0 <= k2 < n && k1 != k2 ==> #[trigger] h.cell_particle_ids@[k1]
                != #[trigger] h.cell_particle_ids@[k2],
{
    let s = h.particle_cell_nrs@.take(n);
    let nc = h.num_cells();
    assert forall|i: int| 0 <= i < s.len() implies s[i] < nc by {
        assert(s[i] < nc);
    }
    // each slot below `n` is the slot of the particle stored there
    assert forall|c: int, k: int|
        #![trigger h.first_cell_particle@[c], h.cell_particle_ids@[k]]
        0 <= c < nc && h.first_cell_particle@[c] <= k < h.first_cell_particle@[c + 1] implies {
        &&& h.cell_particle_ids@[k] < n
        &&& h.particle_cell_nrs@[h.cell_particle_ids@[k] as int] == c
        &&& bucket_slot(s, h.cell_particle_ids@[k] as int) == k
    } by {
        lemma_count_below_succ(s, c);
        assert(s.take(n) =~= s);
        let v = count_below(s, c + 1) - k;
        let i = lemma_count_witness(s, n, c, v);
        assert(bucket_slot(s, i) == k);
        assert(h.cell_particle_ids@[k] == i);
        assert(s[i] == h.particle_cell_nrs@[i]);
    }
    assert forall|i: int| 0 <= i < n implies exists|k: int|
        h.first_cell_particle@[#[trigger] h.particle_cell_nrs@[i] as int] <= k
            < h.first_cell_particle@[h.particle_cell_nrs@[i] + 1] && h.cell_particle_ids@[k]
            == i by {
        lemma_slot_bounds(s, nc, i);
        assert(s[i] == h.particle_cell_nrs@[i]);
        assert(h.cell_particle_ids@[bucket_slot(s, i)] == i);
    }
    assert forall|k1: int, k2: int|
        0 <= k1 < n && 0 <= k2 < n && k1 != k2 implies #[trigger] h.cell_particle_ids@[k1]
        != #[trigger] h.cell_particle_ids@[k2] by {
        let c1 = bucket_of(h, n, k1);
        let c2 = bucket_of(h, n, k2);
    }
}

/// The cell whose bucket holds position `k < n`.
proof fn bucket_of(h: ParticleHash, n: int, k: int) -> (c: int)
    requires
        h.wf(),
        h.indexes(n),
        0 <= k < n,
        forall|c: int, k: int|
            #![trigger h.first_cell_particle@[c], h.cell_particle_ids@[k]]
            0 <= c < h.num_cells() && h.first_cell_particle@[c] <= k < h.first_cell_particle@[c
                + 1] ==> {
                &&& h.cell_particle_ids@[k] < n
                &&& h.particle_cell_nrs@[h.cell_particle_ids@[k] as int] == c
                &&& bucket_slot(h.particle_cell_nrs@.take(n), h.cell_particle_ids@[k] as int) == k
            },
    ensures
        0 <= c < h.num_cells(),
        h.first_cell_particle@[c] <= k < h.first_cell_particle@[c + 1],
        bucket_slot(h.particle_cell_nrs@.take(n), h.cell_particle_ids@[k] as int) == k,
{
    let s = h.particle_cell_nrs@.take(n);
    lemma_count_below_zero(s);
    assert forall|i: int| 0 <= i < s.len() implies s[i] < h.num_cells() by {
        assert(s[i] < h.num_cells());
    }
    lemma_count_below_all(s, h.num_cells());
    bucket_search(h, n, k, h.num_cells())
}

/// Finds the bucket among the first `m` cells that holds position `k`.
#[verifier::rlimit(30)]
proof fn bucket_search(h: ParticleHash, n: int, k: int, m: int) -> (c: int)
    requires
        h.wf(),
        h.indexes(n),
        0 <= m <= h.num_cells(),
        h.first_cell_particle@[0] <= k < h.first_cell_particle@[m],
        forall|c: int, k: int|
            #![trigger h.first_cell_particle@[c], h.cell_particle_ids@[k]]
            0 <= c < h.num_cells() && h.first_cell_particle@[c] <= k < h.first_cell_particle@[c
                + 1] ==> {
                &&& h.cell_particle_ids@[k] < n
                &&& h.particle_cell_nrs@[h.cell_particle_ids@[k] as int] == c
                &&& bucket_slot(h.particle_cell_nrs@.take(n), h.cell_particle_ids@[k] as int) == k
            },
    ensures
        0 <= c < m,
        h.first_cell_particle@[c] <= k < h.first_cell_particle@[c + 1],
        bucket_slot(h.particle_cell_nrs@.take(n), h.cell_particle_ids@[k] as int) == k,
    decreases m,
{
    if k < h.first_cell_particle@[m - 1] {
        bucket_search(h, n, k, m - 1)
    } else {
        m - 1
    }
}

proof fn lemma_without_contains(s: Seq<usize>, x: usize, v: usize)
    ensures
        without(s, x).contains(v) <==> (s.contains(v) && v != x),
    decreases s.len(),
{
    broadcast use vstd::seq_lib::group_seq_properties;

    if s.len() > 0 {
        lemma_without_contains(s.drop_last(), x, v);
        assert(s =~= s.drop_last().push(s.last()));
    }
}

/// `v`, other than `skip`, is stored in the bucket of cell `(x, y)`.
pub open spec fn in_window_cell(h: ParticleHash, x: int, y: int, skip: usize, v: usize) -> bool {
    without(h.bucket(x * h.num_y + y), skip).contains(v)
}

#[verifier::rlimit(30)]
proof fn lemma_column_contains(h: ParticleHash, x: int, y_lo: int, y_hi: int, skip: usize, v: usize)
    ensures
        h.gather_column(x, y_lo, y_hi, skip).contains(v) <==> exists|y: int|
            y_lo <= y <= y_hi && #[trigger] in_window_cell(h, x, y, skip, v),
    decreases y_hi - y_lo + 1,
{
    broadcast use vstd::seq_lib::group_seq_properties;

    if y_hi >= y_lo {
        lemma_column_contains(h, x, y_lo, y_hi - 1, skip, v);
        if h.gather_column(x, y_lo, y_hi, skip).contains(v) {
            if !h.gather_column(x, y_lo, y_hi - 1, skip).contains(v) {
                assert(in_window_cell(h, x, y_hi, skip, v));
            }
        }
        if exists|y: int| y_lo <= y <= y_hi && #[trigger] in_window_cell(h, x, y, skip, v) {
            let y = choose|y: int| y_lo <= y <= y_hi && #[trigger] in_window_cell(h, x, y, skip, v);
            if y < y_hi {
                assert(h.gather_column(x, y_lo, y_hi - 1, skip).contains(v));
            }
        }
    }
}

#[verifier::rlimit(30)]
proof fn lemma_window_contains(
    h: ParticleHash,
    x_lo: int,
    x_hi: int,
    y_lo: int,
    y_hi: int,
    skip: usize,
    v: usize,
)
    ensures
        h.gather_window(x_lo, x_hi, y_lo, y_hi, skip).contains(v) <==> exists|x: int, y: int|
            x_lo <= x <= x_hi && y_lo <= y <= y_hi && #[trigger] in_window_cell(h, x, y, skip, v),
    decreases x_hi - x_lo + 1,
{
    broadcast use vstd::seq_lib::group_seq_properties;

    if x_hi >= x_lo {
        lemma_window_contains(h, x_lo, x_hi - 1, y_lo, y_hi, skip, v);
        lemma_column_contains(h, x_hi, y_lo, y_hi, skip, v);
        if exists|x: int, y: int|
            x_lo <= x <= x_hi && y_lo <= y <= y_hi && #[trigger] in_window_cell(h, x, y, skip, v) {
            let (x, y) = choose|x: int, y: int|
                x_lo <= x <= x_hi && y_lo <= y <= y_hi && #[trigger] in_window_cell(
                    h,
                    x,
                    y,
                    skip,
                    v,
                );
            if x < x_hi {
                assert(h.gather_window(x_lo, x_hi - 1, y_lo, y_hi, skip).contains(v));
            } else {
                assert(h.gather_column(x_hi, y_lo, y_hi, skip).contains(v));
            }
        }
    }
}

proof fn lemma_bucket_entry(h: ParticleHash, n: int, c: int, k: int)
    requires
        h.wf(),
        h.indexes(n),
        0 <= c < h.num_cells(),
        h.first_cell_particle@[c] <= k < h.first_cell_particle@[c + 1],
    ensures
        h.cell_particle_ids@[k] < n,
        h.particle_cell_nrs@[h.cell_particle_ids@[k] as int] == c,
{
    lemma_bucket_membership(h, n);
}

#[verifier::rlimit(30)]
proof fn lemma_in_cell_bucket(h: ParticleHash, n: int, x: int, y: int, i: usize, v: usize)
    requires
        h.wf(),
        h.indexes(n),
        0 <= x < h.num_x,
        0 <= y < h.num_y,
        in_window_cell(h, x, y, i, v),
    ensures
        v < n,
        v != i,
        h.particle_cell_nrs@[v as int] == x * h.num_y + y,
{
    let c = x * h.num_y + y;
    lemma_index_in_grid(x, y, h.num_x as int, h.num_y as int);
    lemma_without_contains(h.bucket(c), i, v);
    let j = choose|j: int| 0 <= j < h.bucket(c).len() && h.bucket(c)[j] == v;
    let k = h.first_cell_particle@[c] + j;
    assert(h.first_cell_particle@[c] <= h.first_cell_particle@[c + 1]);
    assert(h.cell_particle_ids@[k] == v);
    lemma_bucket_entry(h, n, c, k);
}

/// Position of particle `v` inside the bucket of its cell.
#[verifier::rlimit(30)]
proof fn lemma_particle_slot(h: ParticleHash, n: int, v: int) -> (k: int)
    requires
        h.wf(),
        h.indexes(n),
        0 <= v < n,
    ensures
        h.particle_cell_nrs@[v] < h.num_cells(),
        h.first_cell_particle@[h.particle_cell_nrs@[v] as int] <= k < h.first_cell_particle@[h.particle_cell_nrs@[v]
            + 1],
        h.cell_particle_ids@[k] == v,
{
    let s = h.particle_cell_nrs@.take(n);
    let nc = h.num_cells();
    assert forall|i: int| 0 <= i < s.len() implies s[i] < nc by {
        assert(s[i] < nc);
    }
    lemma_slot_bounds(s, nc, v);
    assert(s[v] == h.particle_cell_nrs@[v]);
    assert(h.cell_particle_ids@[bucket_slot(s, v)] == v);
    bucket_slot(s, v)
}

proof fn lemma_cell_coords(c: int, nx: int, ny: int)
    requires
        0 <= c < nx * ny,
        ny >= 1,
    ensures
        c == (c / ny) * ny + c % ny,
        0 <= c / ny < nx,
        0 <= c % ny < ny,
{
    vstd::arithmetic::div_mod::lemma_fundamental_div_mod(c, ny);
    let x = c / ny;
    let y = c % ny;
    assert(c == x * ny + y && 0 <= x < nx) by (nonlinear_arith)
        requires
            c == ny * (c / ny) + c % ny,
            x == c / ny,
            y == c % ny,
            0 <= y < ny,
            0 <= c < nx * ny,
    ;
}

#[verifier::rlimit(30)]
proof fn lemma_cell_bucket_holds(h: ParticleHash, n: int, i: usize, v: usize)
    requires
        h.wf(),
        h.indexes(n),
        v < n,
        v != i,
    ensures
        ({
            let c = h.particle_cell_nrs@[v as int] as int;
            &&& 0 <= c / (h.num_y as int) < h.num_x
            &&& in_window_cell(h, c / h.num_y as int, c % h.num_y as int, i, v)
        }),
{
    let k = lemma_particle_slot(h, n, v as int);
    let c = h.particle_cell_nrs@[v as int] as int;
    lemma_cell_coords(c, h.num_x as int, h.num_y as int);
    let b = h.bucket(c);
    let j = k - h.first_cell_particle@[c];
    assert(b[j] == v);
    lemma_without_contains(b, i, v);
}

/// The particles that particle `i` is compared against are exactly the other
/// indexed particles whose cell lies in the 3x3 neighbourhood of cell `(cx, cy)`.
#[verifier::rlimit(30)]
pub proof fn lemma_candidates_are_neighbors(
    h: ParticleHash,
    n: int,
    i: usize,
    cx: int,
    cy: int,
    v: usize,
)
    requires
        h.wf(),
        h.indexes(n),
        0 <= cx < h.num_x,
        0 <= cy < h.num_y,
    ensures
        h.gather_window(
            ParticleHash::window_low(cx),
            ParticleHash::window_high(cx, h.num_x as int),
            ParticleHash::window_low(cy),
            ParticleHash::window_high(cy, h.num_y as int),
            i,
        ).contains(v) <==> {
            let c = h.particle_cell_nrs@[v as int] as int;
            &&& v < n
            &&& v != i
            &&& ParticleHash::window_low(cx) <= c / h.num_y as int <= ParticleHash::window_high(
                cx,
                h.num_x as int,
            )
            &&& ParticleHash::window_low(cy) <= c % h.num_y as int <= ParticleHash::window_high(
                cy,
                h.num_y as int,
            )
        },
{
    let x_lo = ParticleHash::window_low(cx);
    let x_hi = ParticleHash::window_high(cx, h.num_x as int);
    let y_lo = ParticleHash::window_low(cy);
    let y_hi = ParticleHash::window_high(cy, h.num_y as int);
    let ny = h.num_y as int;
    lemma_window_contains(h, x_lo, x_hi, y_lo, y_hi, i, v);
    if h.gather_window(x_lo, x_hi, y_lo, y_hi, i).contains(v) {
        let (x, y) = choose|x: int, y: int|
            x_lo <= x <= x_hi && y_lo <= y <= y_hi && #[trigger] in_window_cell(h, x, y, i, v);
        lemma_in_cell_bucket(h, n, x, y, i, v);
        lemma_index_in_grid(x, y, h.num_x as int, ny);
    }
    if v < n && v != i {
        lemma_cell_bucket_holds(h, n, i, v);
    }
}

proof fn lemma_count_in_bound(s: Seq<usize>, c: int)
    ensures
        count_in(s, c) <= s.len(),
    decreases s.len(),
{
    if s.len() > 0 {
        lemma_count_in_bound(s.drop_last(), c);
    }
}

} // verus!
