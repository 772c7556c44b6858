//! The closed catalog of weather conditions and their static attributes:
//! default probability weight, rain intensity and group membership.

use vstd::prelude::*;

verus! {

use crate::sums::sum_prefix;

/// Number of conditions in the catalog.
pub const NUM_OPTIONS: usize = 15;

/// Denominator of every probability weight: a weight `w` stands for the
/// probability `w / WEIGHT_SCALE`. The default weights sum to exactly this.
pub const WEIGHT_SCALE: u64 = 1400000;

/// One discrete weather outcome. `Random` is a placeholder outcome whose
/// default weight is zero.
#[derive(Clone, Copy, Debug, PartialEq, Eq, Hash, Structural)]
pub enum WeatherOptions {
    Clear,
    LightCloud,
    MediumCloud,
    HeavyCloud,
    Overcast,
    LightRain,
    Rain,
    Storm,
    Thunderstorm,
    Foggy,
    FogWithRain,
    HeavyFog,
    HeavyFogWithRain,
    Hazy,
    Random,
}

/// The catalog in its fixed, stable iteration order.
pub open spec fn all_options() -> Seq<WeatherOptions> {
    seq![
        WeatherOptions::Clear,
        WeatherOptions::LightCloud,
        WeatherOptions::MediumCloud,
        WeatherOptions::HeavyCloud,
        WeatherOptions::Overcast,
        WeatherOptions::LightRain,
        WeatherOptions::Rain,
        WeatherOptions::Storm,
        WeatherOptions::Thunderstorm,
        WeatherOptions::Foggy,
        WeatherOptions::FogWithRain,
        WeatherOptions::HeavyFog,
        WeatherOptions::HeavyFogWithRain,
        WeatherOptions::Hazy,
        WeatherOptions::Random,
    ]
}

impl WeatherOptions {
    /// Position of this condition in the catalog order.
    pub open spec fn index_spec(self) -> int {
        match self {
            WeatherOptions::Clear => 0,
            WeatherOptions::LightCloud => 1,
            WeatherOptions::MediumCloud => 2,
            WeatherOptions::HeavyCloud => 3,
            WeatherOptions::Overcast => 4,
            WeatherOptions::LightRain => 5,
            WeatherOptions::Rain => 6,
            WeatherOptions::Storm => 7,
            WeatherOptions::Thunderstorm => 8,
            WeatherOptions::Foggy => 9,
            WeatherOptions::FogWithRain => 10,
            WeatherOptions::HeavyFog => 11,
            WeatherOptions::HeavyFogWithRain => 12,
            WeatherOptions::Hazy => 13,
            WeatherOptions::Random => 14,
        }
    }

    pub open spec fn rain_intensity_spec(self) -> usize {
        match self {
            WeatherOptions::LightRain => 1,
            WeatherOptions::Rain => 2,
            WeatherOptions::Storm => 3,
            WeatherOptions::Thunderstorm => 3,
            WeatherOptions::FogWithRain => 2,
            WeatherOptions::HeavyFogWithRain => 2,
            _ => 0,
        }
    }

    /// The group of meteorologically related conditions this one belongs to,
    /// the condition itself included.
    pub open spec fn group_spec(self) -> Seq<WeatherOptions> {
        match self {
            WeatherOptions::Clear | WeatherOptions::LightCloud => seq![
                WeatherOptions::Clear,
                WeatherOptions::LightCloud,
            ],
            WeatherOptions::MediumCloud | WeatherOptions::HeavyCloud
                | WeatherOptions::Overcast => seq![
                WeatherOptions::MediumCloud,
                WeatherOptions::HeavyCloud,
                WeatherOptions::Overcast,
            ],
            WeatherOptions::LightRain => seq![WeatherOptions::LightRain],
            WeatherOptions::Rain | WeatherOptions::FogWithRain
                | WeatherOptions::HeavyFogWithRain => seq![
                WeatherOptions::Rain,
                WeatherOptions::FogWithRain,
                WeatherOptions::HeavyFogWithRain,
            ],
            WeatherOptions::Storm | WeatherOptions::Thunderstorm => seq![
                WeatherOptions::Storm,
                WeatherOptions::Thunderstorm,
            ],
            WeatherOptions::Foggy | WeatherOptions::HeavyFog
                | WeatherOptions::Hazy => seq![
                WeatherOptions::Foggy,
                WeatherOptions::HeavyFog,
                WeatherOptions::Hazy,
            ],
            WeatherOptions::Random => seq![WeatherOptions::Random],
        }
    }

    /// Default probability weight, in units of `1 / WEIGHT_SCALE`.
    pub open spec fn default_weight_spec(self) -> u64 {
        match self {
            WeatherOptions::Clear => 240000,
            WeatherOptions::LightCloud => 200000,
            WeatherOptions::MediumCloud => 200000,
            WeatherOptions::HeavyCloud => 100000,
            WeatherOptions::Overcast => 100000,
            WeatherOptions::LightRain => 40000,
            WeatherOptions::Rain => 20000,
            WeatherOptions::Storm => 30000,
            WeatherOptions::Thunderstorm => 30000,
            WeatherOptions::Foggy => 100000,
            WeatherOptions::FogWithRain => 20000,
            WeatherOptions::HeavyFog => 100000,
            WeatherOptions::HeavyFogWithRain => 20000,
            WeatherOptions::Hazy => 200000,
            WeatherOptions::Random => 0,
        }
    }

    /// Catalog position, as executable code.
    pub fn index(&self) -> (i: usize)
        ensures
            i == self.index_spec(),
            i < NUM_OPTIONS,
    {
        match self {
            WeatherOptions::Clear => 0,
            WeatherOptions::LightCloud => 1,
            WeatherOptions::MediumCloud => 2,
            WeatherOptions::HeavyCloud => 3,
            WeatherOptions::Overcast => 4,
            WeatherOptions::LightRain => 5,
            WeatherOptions::Rain => 6,
            WeatherOptions::Storm => 7,
            WeatherOptions::Thunderstorm => 8,
            WeatherOptions::Foggy => 9,
            WeatherOptions::FogWithRain => 10,
            WeatherOptions::HeavyFog => 11,
            WeatherOptions::HeavyFogWithRain => 12,
            WeatherOptions::Hazy => 13,
            WeatherOptions::Random => 14,
        }
    }

    /// Integer severity of precipitation; 0 means dry.
    #[must_use]
    pub fn rain_intensity(&self) -> (r: usize)
        ensures
            r == self.rain_intensity_spec(),
    {
        match self {
            WeatherOptions::LightRain => 1,
            WeatherOptions::Rain => 2,
            WeatherOptions::Storm => 3,
            WeatherOptions::Thunderstorm => 3,
            WeatherOptions::FogWithRain => 2,
            WeatherOptions::HeavyFogWithRain => 2,
            _ => 0,
        }
    }

    /// The group of related conditions this one belongs to, itself included.
    pub fn get_group(&self) -> (g: Vec<WeatherOptions>)
        ensures
            g@ == self.group_spec(),
    {
        let mut g: Vec<WeatherOptions> = Vec::new();
        match self {
            WeatherOptions::Clear | WeatherOptions::LightCloud => {
                g.push(WeatherOptions::Clear);
                g.push(WeatherOptions::LightCloud);
            },
            WeatherOptions::MediumCloud | WeatherOptions::HeavyCloud
                | WeatherOptions::Overcast => {
                g.push(WeatherOptions::MediumCloud);
                g.push(WeatherOptions::HeavyCloud);
                g.push(WeatherOptions::Overcast);
            },
            WeatherOptions::LightRain => {
                g.push(WeatherOptions::LightRain);
            },
            WeatherOptions::Rain | WeatherOptions::FogWithRain
                | WeatherOptions::HeavyFogWithRain => {
                g.push(WeatherOptions::Rain);
                g.push(WeatherOptions::FogWithRain);
                g.push(WeatherOptions::HeavyFogWithRain);
            },
            WeatherOptions::Storm | WeatherOptions::Thunderstorm => {
                g.push(WeatherOptions::Storm);
                g.push(WeatherOptions::Thunderstorm);
            },
            WeatherOptions::Foggy | WeatherOptions::HeavyFog
                | WeatherOptions::Hazy => {
                g.push(WeatherOptions::Foggy);
                g.push(WeatherOptions::HeavyFog);
                g.push(WeatherOptions::Hazy);
            },
            WeatherOptions::Random => {
                g.push(WeatherOptions::Random);
            },
        }
        proof {
            assert(g@ =~= self.group_spec());
        }
        g
    }

    /// Default probability weight, in units of `1 / WEIGHT_SCALE`.
    pub fn get_default_probabiliy(&self) -> (w: u64)
        ensures
            w == self.default_weight_spec(),
    {
        match self {
            WeatherOptions::Clear => 240000,
            WeatherOptions::LightCloud => 200000,
            WeatherOptions::MediumCloud => 200000,
            WeatherOptions::HeavyCloud => 100000,
            WeatherOptions::Overcast => 100000,
            WeatherOptions::LightRain => 40000,
            WeatherOptions::Rain => 20000,
            WeatherOptions::Storm => 30000,
            WeatherOptions::Thunderstorm => 30000,
            WeatherOptions::Foggy => 100000,
            WeatherOptions::FogWithRain => 20000,
            WeatherOptions::HeavyFog => 100000,
            WeatherOptions::HeavyFogWithRain => 20000,
            WeatherOptions::Hazy => 200000,
            WeatherOptions::Random => 0,
        }
    }

    /// Every catalog condition in order.
    pub fn all() -> (v: Vec<WeatherOptions>)
        ensures
            v@ == all_options(),
    {
        let mut v: Vec<WeatherOptions> = Vec::new();
        v.push(WeatherOptions::Clear);
        v.push(WeatherOptions::LightCloud);
        v.push(WeatherOptions::MediumCloud);
        v.push(WeatherOptions::HeavyCloud);
        v.push(WeatherOptions::Overcast);
        v.push(WeatherOptions::LightRain);
        v.push(WeatherOptions::Rain);
        v.push(WeatherOptions::Storm);
        v.push(WeatherOptions::Thunderstorm);
        v.push(WeatherOptions::Foggy);
        v.push(WeatherOptions::FogWithRain);
        v.push(WeatherOptions::HeavyFog);
        v.push(WeatherOptions::HeavyFogWithRain);
        v.push(WeatherOptions::Hazy);
        v.push(WeatherOptions::Random);
        proof {
            assert(v@ =~= all_options());
        }
        v
    }

    /// The default weight of every condition, indexed in catalog order.
    pub fn get_default_probablities() -> (v: Vec<u64>)
        ensures
            v@ == default_weights(),
    {
        let opts = Self::all();
        let mut v: Vec<u64> = Vec::new();
        let mut i: usize = 0;
        while i < NUM_OPTIONS
            invariant
                opts@ == all_options(),
                i <= NUM_OPTIONS,
                v@.len() == i,
                forall|j: int| 0 <= j < i ==> v@[j] == all_options()[j].default_weight_spec(),
            decreases NUM_OPTIONS - i,
        {
            v.push(opts[i].get_default_probabiliy());
            i = i + 1;
        }
        proof {
            assert(v@ =~= default_weights());
        }
        v
    }
}

/// The default weights in catalog order.
pub open spec fn default_weights() -> Seq<u64> {
    Seq::new(NUM_OPTIONS as nat, |j: int| all_options()[j].default_weight_spec())
}

/// The catalog order lists each condition exactly at its own index.
pub proof fn lemma_catalog_index(o: WeatherOptions)
    ensures
        0 <= o.index_spec() < NUM_OPTIONS,
        all_options()[o.index_spec()] == o,
{
}

/// Indexing the catalog and taking a condition's index are inverse.
pub proof fn lemma_catalog_at(i: int)
    requires
        0 <= i < NUM_OPTIONS,
    ensures
        all_options()[i].index_spec() == i,
{
}

/// Every condition is a member of its own group.
pub proof fn lemma_own_group(o: WeatherOptions)
    ensures
        o.group_spec().contains(o),
{
    assert(o.group_spec().contains(o)) by {
        match o {
            WeatherOptions::Clear => assert(o.group_spec()[0] == o),
            WeatherOptions::LightCloud => assert(o.group_spec()[1] == o),
            WeatherOptions::MediumCloud => assert(o.group_spec()[0] == o),
            WeatherOptions::HeavyCloud => assert(o.group_spec()[1] == o),
            WeatherOptions::Overcast => assert(o.group_spec()[2] == o),
            WeatherOptions::LightRain => assert(o.group_spec()[0] == o),
            WeatherOptions::Rain => assert(o.group_spec()[0] == o),
            WeatherOptions::Storm => assert(o.group_spec()[0] == o),
            WeatherOptions::Thunderstorm => assert(o.group_spec()[1] == o),
            WeatherOptions::Foggy => assert(o.group_spec()[0] == o),
            WeatherOptions::FogWithRain => assert(o.group_spec()[1] == o),
            WeatherOptions::HeavyFog => assert(o.group_spec()[1] == o),
            WeatherOptions::HeavyFogWithRain => assert(o.group_spec()[2] == o),
            WeatherOptions::Hazy => assert(o.group_spec()[2] == o),
            WeatherOptions::Random => assert(o.group_spec()[0] == o),
        }
    }
}

/// The default catalog weights, `Random` excluded, sum to exactly one whole
/// probability: `Random` carries weight zero and the rest carry the entire
/// `WEIGHT_SCALE`.
pub proof fn lemma_default_weights_total()
    ensures
        sum_prefix(default_weights(), NUM_OPTIONS as int) == WEIGHT_SCALE,
        WeatherOptions::Random.default_weight_spec() == 0,
{
    reveal_with_fuel(sum_prefix, 16);
}

} // verus!
