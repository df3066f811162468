//! The catalog: rarity tiers, biomes, herbs and the shop's configuration.
use vstd::prelude::*;

verus! {

/// How hard a herb is to come by, from the most common to the rarest.
#[derive(Clone, Copy, Debug, PartialEq, Eq, Structural, Hash, PartialOrd, Ord)]
pub enum Rarity {
    Common,
    Uncommon,
    Rare,
    VeryRare,
}

impl Rarity {
    /// Position of the tier in the order Common < Uncommon < Rare < VeryRare.
    pub open spec fn rank(self) -> nat {
        match self {
            Rarity::Common => 0,
            Rarity::Uncommon => 1,
            Rarity::Rare => 2,
            Rarity::VeryRare => 3,
        }
    }

    /// The tier one step rarer, if there is one.
    pub open spec fn successor(self) -> Option<Rarity> {
        match self {
            Rarity::Common => Some(Rarity::Uncommon),
            Rarity::Uncommon => Some(Rarity::Rare),
            Rarity::Rare => Some(Rarity::VeryRare),
            Rarity::VeryRare => None,
        }
    }

    /// The tier one step rarer, if there is one.
    pub fn next_rarity(self) -> (r: Option<Rarity>)
        ensures
            r == self.successor(),
            match r {
                Some(n) => n.rank() == self.rank() + 1,
                None => self.rank() == 3,
            },
    {
        match self {
            Rarity::Common => Some(Rarity::Uncommon),
            Rarity::Uncommon => Some(Rarity::Rare),
            Rarity::Rare => Some(Rarity::VeryRare),
            Rarity::VeryRare => None,
        }
    }
}

/// A terrain tag; a herb grows in some biomes, a shop stands in some.
#[derive(Clone, Copy, Debug, PartialEq, Eq, Structural, Hash, PartialOrd, Ord)]
pub enum Biome {
    MostTerrain,
    Coastal,
    Underdark,
    Desert,
    Mountain,
    Swamp,
    Forest,
    Arctic,
    Hills,
    Grasslands,
}

/// A catalog entry.
#[derive(Debug)]
pub struct Herb {
    pub name: String,
    pub rarity: Rarity,
    pub biomes: Vec<Biome>,
}

/// What a herb is, as a value: its name's characters, its tier, its biomes.
pub struct HerbView {
    pub name: Seq<char>,
    pub rarity: Rarity,
    pub biomes: Seq<Biome>,
}

impl View for Herb {
    type V = HerbView;

    open spec fn view(&self) -> HerbView {
        HerbView { name: self.name@, rarity: self.rarity, biomes: self.biomes@ }
    }
}

impl Clone for Herb {
    fn clone(&self) -> (r: Self)
        ensures
            r@ == self@,
    {
        let biomes = self.biomes.clone();
        assert(biomes@ =~= self.biomes@);
        Herb { name: self.name.clone(), rarity: self.rarity, biomes }
    }
}

/// Largest likelihood plus one: a likelihood `p` stands for the probability
/// `p / LIKELIHOOD_SCALE` that one more unit of a herb is in stock.
pub const LIKELIHOOD_SCALE: u32 = 16777216;

/// Price bounds (inclusive, in gold pieces) and stocking likelihood of a tier.
#[derive(Clone, Copy, Debug, PartialEq, Eq, Structural)]
pub struct RarityConfig {
    pub price_lower: u16,
    pub price_upper: u16,
    /// In units of `1 / LIKELIHOOD_SCALE`.
    pub likelihood: u32,
}

impl RarityConfig {
    /// The price range is not empty.
    pub open spec fn wf(&self) -> bool {
        self.price_lower <= self.price_upper
    }
}

/// One configuration for each of the four tiers.
#[derive(Clone, Copy, Debug, PartialEq, Eq, Structural)]
pub struct RarityConfigs {
    pub common: RarityConfig,
    pub uncommon: RarityConfig,
    pub rare: RarityConfig,
    pub very_rare: RarityConfig,
}

impl RarityConfigs {
    /// The configuration that belongs to a tier.
    pub open spec fn tier(&self, rarity: Rarity) -> RarityConfig {
        match rarity {
            Rarity::Common => self.common,
            Rarity::Uncommon => self.uncommon,
            Rarity::Rare => self.rare,
            Rarity::VeryRare => self.very_rare,
        }
    }

    /// The configuration of one tier.
    pub fn config(&self, rarity: Rarity) -> (r: &RarityConfig)
        ensures
            *r == self.tier(rarity),
    {
        match rarity {
            Rarity::Common => &self.common,
            Rarity::Uncommon => &self.uncommon,
            Rarity::Rare => &self.rare,
            Rarity::VeryRare => &self.very_rare,
        }
    }
}

/// Some biome of the herb is among the local ones.
pub open spec fn grows_locally(local: Seq<Biome>, herb: HerbView) -> bool {
    exists|i: int| 0 <= i < herb.biomes.len() && local.contains(#[trigger] herb.biomes[i])
}

/// The tier a herb is stocked at: its own where it grows locally, one step
/// rarer where it does not, and none (not stocked) past the rarest tier.
pub open spec fn effective_rarity_of(local: Seq<Biome>, herb: HerbView) -> Option<Rarity> {
    if grows_locally(local, herb) {
        Some(herb.rarity)
    } else {
        herb.rarity.successor()
    }
}

/// The shop: where it stands, its tiers, and its catalog.
#[derive(Debug)]
pub struct Config {
    /// The biomes counted as local; order and repetition do not matter.
    pub local_biomes: Vec<Biome>,
    pub rarities: RarityConfigs,
    pub herbs: Vec<Herb>,
}

impl Config {
    /// The shop can price every herb it stocks: the tier of each catalog
    /// herb that it stocks has a price range to draw from. Tiers that no
    /// herb is stocked at are not asked for one.
    pub open spec fn wf(&self) -> bool {
        forall|i: int| 0 <= i < self.herbs@.len() ==> self.can_price(#[trigger] self.herbs@[i]@)
    }

    /// The herb is not stocked, or its tier has a price range to draw from.
    pub open spec fn can_price(&self, herb: HerbView) -> bool {
        match self.stocked_rarity(herb) {
            Some(r) => self.rarities.tier(r).wf(),
            None => true,
        }
    }

    /// The tier this shop stocks a herb at, if any.
    pub open spec fn stocked_rarity(&self, herb: HerbView) -> Option<Rarity> {
        effective_rarity_of(self.local_biomes@, herb)
    }

    /// Whether some biome of the herb is local to this shop.
    pub fn is_local(&self, herb: &Herb) -> (r: bool)
        ensures
            r == grows_locally(self.local_biomes@, herb@),
    {
        let mut i: usize = 0;
        while i < herb.biomes.len()
            invariant
                i <= herb.biomes.len(),
                forall|k: int| 0 <= k < i ==> !self.local_biomes@.contains(#[trigger] herb.biomes@[k]),
            decreases herb.biomes.len() - i,
        {
            let b = herb.biomes[i];
            let mut j: usize = 0;
            while j < self.local_biomes.len()
                invariant
                    i < herb.biomes.len(),
                    j <= self.local_biomes.len(),
                    b == herb.biomes@[i as int],
                    forall|k: int| 0 <= k < j ==> self.local_biomes@[k] != b,
                decreases self.local_biomes.len() - j,
            {
                if self.local_biomes[j] == b {
                    assert(self.local_biomes@.contains(herb@.biomes[i as int]));
                    return true;
                }
                j = j + 1;
            }
            i = i + 1;
        }
        false
    }

    /// The tier this shop stocks a herb at: its declared one where it grows
    /// locally, else one step rarer; `None` for a non-local herb of the
    /// rarest tier, which is not stocked at all.
    pub fn effective_rarity(&self, herb: &Herb) -> (r: Option<Rarity>)
        ensures
            r == self.stocked_rarity(herb@),
            grows_locally(self.local_biomes@, herb@) ==> r == Some(herb.rarity),
            !grows_locally(self.local_biomes@, herb@) && herb.rarity == Rarity::VeryRare
                ==> r.is_none(),
            !grows_locally(self.local_biomes@, herb@) && herb.rarity != Rarity::VeryRare ==> {
                &&& r.is_some()
                &&& r.unwrap().rank() == herb.rarity.rank() + 1
            },
    {
        if self.is_local(herb) {
            Some(herb.rarity)
        } else {
            herb.rarity.next_rarity()
        }
    }
}

} // verus!
