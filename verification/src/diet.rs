use vstd::prelude::*;

use crate::rng::draw_i32_below;

verus! {

/// What an animal feeds on.
#[derive(Debug, Clone, Copy, PartialEq, Eq, Structural)]
pub enum Diet {
    Herbivore,
    Omnivore,
    Carnivore,
    Scavenger,
}

impl Diet {
    /// The diet that a uniform draw from `0..4` selects.
    pub open spec fn spec_from_draw(k: int) -> Diet {
        if k == 0 {
            Diet::Herbivore
        } else if k == 1 {
            Diet::Omnivore
        } else if k == 2 {
            Diet::Carnivore
        } else {
            Diet::Scavenger
        }
    }

    /// Maps a draw to a diet: 0 herbivore, 1 omnivore, 2 carnivore, anything else scavenger.
    pub fn from_draw(k: i32) -> (d: Diet)
        ensures
            d == Self::spec_from_draw(k as int),
    {
        match k {
            0 => Diet::Herbivore,
            1 => Diet::Omnivore,
            2 => Diet::Carnivore,
            _ => Diet::Scavenger,
        }
    }

    /// A diet chosen uniformly at random.
    pub fn random(rng: &mut rand::rngs::StdRng) -> (d: Diet)
        ensures
            exists|k: int| 0 <= k < 4 && d == Self::spec_from_draw(k),
    {
        let k = draw_i32_below(rng, 4);
        Self::from_draw(k)
    }

    pub open spec fn eats_plants(self) -> bool {
        self == Diet::Herbivore || self == Diet::Omnivore
    }

    pub open spec fn eats_animals(self) -> bool {
        self == Diet::Omnivore || self == Diet::Carnivore
    }

    pub open spec fn eats_carcasses(self) -> bool {
        self == Diet::Scavenger || self == Diet::Omnivore
    }

    /// Herbivores and omnivores graze on plants.
    pub fn can_eat_plants(self) -> (r: bool)
        ensures
            r == self.eats_plants(),
    {
        match self {
            Diet::Herbivore | Diet::Omnivore => true,
            _ => false,
        }
    }

    /// Omnivores and carnivores hunt other animals.
    pub fn can_eat_animals(self) -> (r: bool)
        ensures
            r == self.eats_animals(),
    {
        match self {
            Diet::Omnivore | Diet::Carnivore => true,
            _ => false,
        }
    }

    /// Scavengers and omnivores feed on carcasses.
    pub fn can_eat_carcasses(self) -> (r: bool)
        ensures
            r == self.eats_carcasses(),
    {
        match self {
            Diet::Scavenger | Diet::Omnivore => true,
            _ => false,
        }
    }
}

/// Law: the feeding table. Herbivores and omnivores graze on plants,
/// omnivores and carnivores eat other animals, and scavengers and omnivores
/// eat carcasses; so omnivores eat everything, and every diet eats something.
pub proof fn lemma_feeding_table(d: Diet)
    ensures
        d.eats_plants() == (d == Diet::Herbivore || d == Diet::Omnivore),
        d.eats_animals() == (d == Diet::Omnivore || d == Diet::Carnivore),
        d.eats_carcasses() == (d == Diet::Scavenger || d == Diet::Omnivore),
        Diet::Omnivore.eats_plants() && Diet::Omnivore.eats_animals() && Diet::Omnivore.eats_carcasses(),
        d.eats_plants() || d.eats_animals() || d.eats_carcasses(),
{
}

/// Law: the draws 0, 1, 2 and 3 select the four diets, each a different
/// one, and any other draw selects scavengers.
pub proof fn lemma_draw_table(k: int)
    ensures
        Diet::spec_from_draw(0) == Diet::Herbivore,
        Diet::spec_from_draw(1) == Diet::Omnivore,
        Diet::spec_from_draw(2) == Diet::Carnivore,
        Diet::spec_from_draw(3) == Diet::Scavenger,
        (k < 0 || k > 3) ==> Diet::spec_from_draw(k) == Diet::Scavenger,
{
}

} // verus!
