use vstd::prelude::*;

verus! {

/// The stages of one simulation step.
#[derive(PartialEq, Eq, Structural, Clone, Copy, Debug)]
pub enum SimStep {
    IntegrateParticles,
    PushParticlesApart,
    HandleParticleCollisions,
    TransferToGrid,
    UpdateParticleDensity,
    SolveIncompressibility,
    TransferToParticles,
    UpdateCellColors,
}

pub open spec fn step_sequence(separate_particles: bool) -> Seq<SimStep> {
    let head = seq![SimStep::IntegrateParticles];
    let separation = if separate_particles {
        seq![SimStep::PushParticlesApart]
    } else {
        Seq::empty()
    };
    head + separation + seq![
        SimStep::HandleParticleCollisions,
        SimStep::TransferToGrid,
        SimStep::UpdateParticleDensity,
        SimStep::SolveIncompressibility,
        SimStep::TransferToParticles,
        SimStep::UpdateCellColors,
    ]
}

/// The stages of one simulation step, in order: particles are integrated,
/// optionally pushed apart, kept inside the container, transferred to the grid,
/// the density is updated, the pressure is solved, velocities go back to the
/// particles, and the cells are coloured.
pub fn simulation_steps(separate_particles: bool) -> (steps: Vec<SimStep>)
    ensures
        steps@ == step_sequence(separate_particles),
        steps@ == if separate_particles {
            seq![
                SimStep::IntegrateParticles,
                SimStep::PushParticlesApart,
                SimStep::HandleParticleCollisions,
                SimStep::TransferToGrid,
                SimStep::UpdateParticleDensity,
                SimStep::SolveIncompressibility,
                SimStep::TransferToParticles,
                SimStep::UpdateCellColors,
            ]
        } else {
            seq![
                SimStep::IntegrateParticles,
                SimStep::HandleParticleCollisions,
                SimStep::TransferToGrid,
                SimStep::UpdateParticleDensity,
                SimStep::SolveIncompressibility,
                SimStep::TransferToParticles,
                SimStep::UpdateCellColors,
            ]
        },
{
    let mut steps: Vec<SimStep> = Vec::new();
    steps.push(SimStep::IntegrateParticles);
    if separate_particles {
        steps.push(SimStep::PushParticlesApart);
    }
    steps.push(SimStep::HandleParticleCollisions);
    steps.push(SimStep::TransferToGrid);
    steps.push(SimStep::UpdateParticleDensity);
    steps.push(SimStep::SolveIncompressibility);
    steps.push(SimStep::TransferToParticles);
    steps.push(SimStep::UpdateCellColors);
    assert(steps@ =~= step_sequence(separate_particles));
    steps
}

/// Whether particles are pushed apart only decides whether that one stage runs:
/// a step always starts by integrating the particles; with separation on, the
/// step is the step without it plus the separation inserted right after the
/// integration; without it, the stages run in the fixed order integrate, collide,
/// to grid, density, pressure, to particles, colours, and no separation happens.
pub proof fn lemma_step_order(separate_particles: bool)
    ensures
        step_sequence(separate_particles)[0] == SimStep::IntegrateParticles,
        step_sequence(true) == step_sequence(false).insert(1, SimStep::PushParticlesApart),
        step_sequence(false) == seq![
            SimStep::IntegrateParticles,
            SimStep::HandleParticleCollisions,
            SimStep::TransferToGrid,
            SimStep::UpdateParticleDensity,
            SimStep::SolveIncompressibility,
            SimStep::TransferToParticles,
            SimStep::UpdateCellColors,
        ],
        forall|i: int|
            0 <= i < step_sequence(false).len() ==> #[trigger] step_sequence(false)[i]
                != SimStep::PushParticlesApart,
{
    let off = step_sequence(false);
    assert(off =~= seq![
        SimStep::IntegrateParticles,
        SimStep::HandleParticleCollisions,
        SimStep::TransferToGrid,
        SimStep::UpdateParticleDensity,
        SimStep::SolveIncompressibility,
        SimStep::TransferToParticles,
        SimStep::UpdateCellColors,
    ]);
    assert(step_sequence(true) =~= off.insert(1, SimStep::PushParticlesApart));
}

} // verus!
