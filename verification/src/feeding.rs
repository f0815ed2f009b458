use vstd::prelude::*;

use crate::diet::Diet;

verus! {

/// How an animal looks to the feeding rules: its entity handle (as bits),
/// its id, its parent's id and its diet.
#[derive(Debug, Clone, Copy, PartialEq, Eq, Structural)]
pub struct Feeder {
    pub entity: u64,
    pub id: u64,
    pub parent_id: Option<u64>,
    pub diet: Diet,
}

/// How a predator's energy compares with its prey's: `Level` when neither
/// is greater than the other.
#[derive(Debug, Clone, Copy, PartialEq, Eq, Structural)]
pub enum EnergyOrder {
    Higher,
    Lower,
    Level,
}

impl EnergyOrder {
    /// The same comparison seen from the other animal.
    pub open spec fn flipped(self) -> EnergyOrder {
        match self {
            EnergyOrder::Higher => EnergyOrder::Lower,
            EnergyOrder::Lower => EnergyOrder::Higher,
            EnergyOrder::Level => EnergyOrder::Level,
        }
    }
}

/// Whether an animal of diet `predator` hunts an animal of diet `prey`:
/// omnivores and carnivores hunt every diet, herbivores and scavengers none.
pub open spec fn hunts(predator: Diet, prey: Diet) -> bool {
    predator == Diet::Omnivore || predator == Diet::Carnivore
}

/// When two animals could each eat the other, the predator wins the duel if
/// it has more energy, or on equal energy if its entity handle is larger.
pub open spec fn wins_duel(predator: Feeder, prey: Feeder, energy: EnergyOrder) -> bool {
    energy == EnergyOrder::Higher || (energy == EnergyOrder::Level && predator.entity > prey.entity)
}

/// The rule by which `predator` may feed on `prey` in a frame, overlap and
/// remaining energy aside.
pub open spec fn predation_allowed(predator: Feeder, prey: Feeder, energy: EnergyOrder) -> bool {
    &&& predator.entity != prey.entity
    &&& prey.parent_id != Some(predator.id)
    &&& hunts(predator.diet, prey.diet)
    &&& (hunts(prey.diet, predator.diet) ==> wins_duel(predator, prey, energy))
}

/// Whether `diet` hunts `prey`.
pub fn can_predate(diet: Diet, prey: Diet) -> (r: bool)
    ensures
        r == hunts(diet, prey),
{
    match diet {
        Diet::Herbivore | Diet::Scavenger => false,
        Diet::Omnivore => match prey {
            Diet::Herbivore | Diet::Omnivore | Diet::Carnivore | Diet::Scavenger => true,
        },
        Diet::Carnivore => match prey {
            Diet::Herbivore | Diet::Omnivore | Diet::Carnivore | Diet::Scavenger => true,
        },
    }
}

/// Decides whether `predator` may feed on `prey` this frame: never on
/// itself or its own offspring, only when its diet hunts the prey's, and,
/// when the prey could eat it back, only if it wins the duel.
pub fn may_predate(predator: &Feeder, prey: &Feeder, energy: EnergyOrder) -> (r: bool)
    ensures
        r == predation_allowed(*predator, *prey, energy),
{
    if predator.entity == prey.entity {
        return false;
    }
    match prey.parent_id {
        Some(parent) => {
            if parent == predator.id {
                return false;
            }
        },
        None => {},
    }
    if !can_predate(predator.diet, prey.diet) {
        return false;
    }
    if can_predate(prey.diet, predator.diet) {
        let predator_wins = match energy {
            EnergyOrder::Higher => true,
            EnergyOrder::Lower => false,
            EnergyOrder::Level => predator.entity > prey.entity,
        };
        if !predator_wins {
            return false;
        }
    }
    true
}

/// Law: two animals never both feed on each other in the same frame.
pub proof fn lemma_no_mutual_predation(a: Feeder, b: Feeder, energy: EnergyOrder)
    ensures
        !(predation_allowed(a, b, energy) && predation_allowed(b, a, energy.flipped())),
{
}

/// Law: only animals whose diet eats animals ever feed on another animal.
pub proof fn lemma_predators_eat_animals(a: Feeder, b: Feeder, energy: EnergyOrder)
    ensures
        predation_allowed(a, b, energy) ==> a.diet.eats_animals(),
{
}

/// Law: the hunting table. Omnivores and carnivores hunt animals of every
/// diet, carnivores included; herbivores and scavengers hunt none.
pub proof fn lemma_hunting_table(predator: Diet, prey: Diet)
    ensures
        hunts(predator, prey) == (predator == Diet::Omnivore || predator == Diet::Carnivore),
        hunts(Diet::Carnivore, prey),
        hunts(Diet::Omnivore, prey),
        !hunts(Diet::Herbivore, prey),
        !hunts(Diet::Scavenger, prey),
{
}

/// Law: between two hunters that are neither the same animal nor parent and
/// offspring, exactly the stronger one may feed on the other, and on equal
/// energy the one with the larger entity handle.
pub proof fn lemma_stronger_hunter_wins(a: Feeder, b: Feeder, energy: EnergyOrder)
    requires
        a.diet == Diet::Omnivore || a.diet == Diet::Carnivore,
        b.diet == Diet::Omnivore || b.diet == Diet::Carnivore,
        a.entity != b.entity,
        a.parent_id != Some(b.id),
        b.parent_id != Some(a.id),
    ensures
        predation_allowed(a, b, energy) == (energy == EnergyOrder::Higher || (energy
            == EnergyOrder::Level && a.entity > b.entity)),
        predation_allowed(a, b, energy) != predation_allowed(b, a, energy.flipped()),
{
}

/// Law: a hunter may feed on any animal that cannot hunt back, whatever the
/// energies, unless it is itself or its own offspring.
pub proof fn lemma_hunter_eats_harmless_prey(a: Feeder, b: Feeder, energy: EnergyOrder)
    requires
        a.diet == Diet::Omnivore || a.diet == Diet::Carnivore,
        b.diet == Diet::Herbivore || b.diet == Diet::Scavenger,
    ensures
        predation_allowed(a, b, energy) == (a.entity != b.entity && b.parent_id != Some(a.id)),
        !predation_allowed(b, a, energy.flipped()),
{
}

} // verus!
