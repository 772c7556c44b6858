//! The forecaster: builds a sanitized probability table and a slot plan from
//! the configuration, then generates a forecast for the requested sessions.
//!
//! Generation runs Race first, because the Race outcome decides whether rain
//! is in play for the whole weekend: Qualifying and Practice may only show
//! rain when the Race produced rain, and when it did, Practice receives one
//! condition drawn from the group of the Race's strongest rain condition,
//! placed in its last slot before the whole session is reshuffled.

use vstd::prelude::*;

verus! {

use crate::catalog::{
    all_options, default_weights, lemma_catalog_index, lemma_default_weights_total,
    WeatherOptions, NUM_OPTIONS, WEIGHT_SCALE,
};
use crate::config::{Config, ConfigError};
use crate::rng::shuffle_options;
use crate::sampler::{
    all_dry, all_positive, sample_in_group, sample_one, sample_session,
};
use crate::sums::{
    lemma_cnt_pos_of_member, lemma_cnt_subset_mask, lemma_opt_sum_of_some, none_cnt, opt_sum,
};
use crate::table::{
    rain_allowed_mask, spec_sanitized, usable_count_spec, ProbabilityTable,
};

/// The sessions of a race weekend.
#[derive(Clone, Copy, Debug, PartialEq, Eq, Hash, Structural)]
pub enum Sessions {
    Practice,
    Qualifying,
    Race,
}

/// Slot count per session when the configuration leaves it out, clamped into
/// 1..=4 when it does not.
pub open spec fn planned_slots(configured: Option<usize>, dflt: usize) -> usize {
    match configured {
        Some(n) => if n < 1 {
            1
        } else if n > 4 {
            4
        } else {
            n
        },
        None => dflt,
    }
}

/// How many weather slots each session's forecast holds.
#[derive(Debug)]
pub struct SessionSlotPlan {
    pub practice: usize,
    pub qualifying: usize,
    pub race: usize,
}

impl SessionSlotPlan {
    /// Every slot count sits in 1..=4.
    pub open spec fn wf(self) -> bool {
        &&& 1 <= self.practice <= 4
        &&& 1 <= self.qualifying <= 4
        &&& 1 <= self.race <= 4
    }

    pub open spec fn slots_spec(self, session: Sessions) -> usize {
        match session {
            Sessions::Practice => self.practice,
            Sessions::Qualifying => self.qualifying,
            Sessions::Race => self.race,
        }
    }

    /// The configured plan: defaults Practice 4, Qualifying 2, Race 4, and
    /// every configured count clamped into 1..=4.
    pub fn from_config(config: &Config) -> (p: SessionSlotPlan)
        ensures
            p.practice == planned_slots(config.practice_slots, 4),
            p.qualifying == planned_slots(config.qualifying_slots, 2),
            p.race == planned_slots(config.race_slots, 4),
            p.wf(),
    {
        SessionSlotPlan {
            practice: clamp_slots(config.practice_slots, 4),
            qualifying: clamp_slots(config.qualifying_slots, 2),
            race: clamp_slots(config.race_slots, 4),
        }
    }

    /// The slot count of one session.
    pub fn slots_for(&self, session: Sessions) -> (n: usize)
        ensures
            n == self.slots_spec(session),
    {
        match session {
            Sessions::Practice => self.practice,
            Sessions::Qualifying => self.qualifying,
            Sessions::Race => self.race,
        }
    }
}

fn clamp_slots(configured: Option<usize>, dflt: usize) -> (n: usize)
    ensures
        n == planned_slots(configured, dflt),
{
    match configured {
        Some(v) => if v < 1 {
            1
        } else if v > 4 {
            4
        } else {
            v
        },
        None => dflt,
    }
}

/// A forecast: one ordered condition sequence per requested session.
#[derive(Debug)]
pub struct WeatherForecast {
    pub practice: Option<Vec<WeatherOptions>>,
    pub qualifying: Option<Vec<WeatherOptions>>,
    pub race: Option<Vec<WeatherOptions>>,
}

impl WeatherForecast {
    pub open spec fn spec_get(self, session: Sessions) -> Option<Vec<WeatherOptions>> {
        match session {
            Sessions::Practice => self.practice,
            Sessions::Qualifying => self.qualifying,
            Sessions::Race => self.race,
        }
    }

    /// The forecast of one session, if that session was requested.
    pub fn get(&self, session: Sessions) -> (r: &Option<Vec<WeatherOptions>>)
        ensures
            *r == self.spec_get(session),
    {
        match session {
            Sessions::Practice => &self.practice,
            Sessions::Qualifying => &self.qualifying,
            Sessions::Race => &self.race,
        }
    }
}

impl Default for WeatherForecast {
    /// An empty forecast, with no session entries.
    fn default() -> (f: WeatherForecast)
        ensures
            f.practice is None,
            f.qualifying is None,
            f.race is None,
    {
        WeatherForecast { practice: None, qualifying: None, race: None }
    }
}

/// Some drawn condition carries rain.
pub open spec fn has_rain(s: Seq<WeatherOptions>) -> bool {
    exists|i: int| 0 <= i < s.len() && (#[trigger] s[i]).rain_intensity_spec() > 0
}

/// `c` is the condition a backwards-stable maximum search finds: it occurs
/// in `s`, no condition in `s` rains harder, and everything after its last
/// occurrence rains strictly less.
pub open spec fn is_peak_rain(s: Seq<WeatherOptions>, c: WeatherOptions) -> bool {
    exists|i: int|
        {
            &&& 0 <= i < s.len()
            &&& #[trigger] s[i] == c
            &&& forall|j: int|
                0 <= j < s.len() ==> (#[trigger] s[j]).rain_intensity_spec()
                    <= c.rain_intensity_spec()
            &&& forall|j: int|
                i < j < s.len() ==> (#[trigger] s[j]).rain_intensity_spec()
                    < c.rain_intensity_spec()
        }
}

/// At most one condition is the peak of a sequence.
pub proof fn lemma_peak_rain_unique(s: Seq<WeatherOptions>, c1: WeatherOptions, c2: WeatherOptions)
    requires
        is_peak_rain(s, c1),
        is_peak_rain(s, c2),
    ensures
        c1 == c2,
{
    let i1 = choose|i: int|
        {
            &&& 0 <= i < s.len()
            &&& #[trigger] s[i] == c1
            &&& forall|j: int|
                0 <= j < s.len() ==> (#[trigger] s[j]).rain_intensity_spec()
                    <= c1.rain_intensity_spec()
            &&& forall|j: int|
                i < j < s.len() ==> (#[trigger] s[j]).rain_intensity_spec()
                    < c1.rain_intensity_spec()
        };
    let i2 = choose|i: int|
        {
            &&& 0 <= i < s.len()
            &&& #[trigger] s[i] == c2
            &&& forall|j: int|
                0 <= j < s.len() ==> (#[trigger] s[j]).rain_intensity_spec()
                    <= c2.rain_intensity_spec()
            &&& forall|j: int|
                i < j < s.len() ==> (#[trigger] s[j]).rain_intensity_spec()
                    < c2.rain_intensity_spec()
        };
    if i1 < i2 {
        assert(s[i2].rain_intensity_spec() < c1.rain_intensity_spec());
        assert(s[i1].rain_intensity_spec() <= c2.rain_intensity_spec());
        assert(false);
    } else if i2 < i1 {
        assert(s[i1].rain_intensity_spec() < c2.rain_intensity_spec());
        assert(s[i2].rain_intensity_spec() <= c1.rain_intensity_spec());
        assert(false);
    }
}

/// The Race produced rain somewhere in its forecast.
pub open spec fn race_rain_in_play(f: WeatherForecast) -> bool {
    f.race matches Some(v) && has_rain(v@)
}

/// The condition with the strongest rain, later occurrences winning ties,
/// if any drawn condition rains at all. Mirrors a backwards-stable maximum
/// over rain intensity followed by a rain filter.
fn max_rain_option(v: &Vec<WeatherOptions>) -> (r: Option<WeatherOptions>)
    ensures
        r is Some <==> has_rain(v@),
        r matches Some(c) ==> is_peak_rain(v@, c) && c.rain_intensity_spec() > 0 && v@.contains(
            c,
        ),
{
    let mut best: Option<WeatherOptions> = None;
    let ghost mut bi: int = 0;
    let mut k: usize = 0;
    while k < v.len()
        invariant
            k <= v@.len(),
            best is None ==> k == 0,
            best matches Some(b) ==> {
                &&& 0 <= bi < k
                &&& v@[bi] == b
                &&& forall|j: int|
                    0 <= j < k ==> (#[trigger] v@[j]).rain_intensity_spec()
                        <= b.rain_intensity_spec()
                &&& forall|j: int|
                    bi < j < k ==> (#[trigger] v@[j]).rain_intensity_spec()
                        < b.rain_intensity_spec()
            },
        decreases v@.len() - k,
    {
        let cur = v[k];
        match best {
            None => {
                best = Some(cur);
                proof {
                    bi = k as int;
                }
            },
            Some(b) => {
                if cur.rain_intensity() >= b.rain_intensity() {
                    best = Some(cur);
                    proof {
                        bi = k as int;
                    }
                }
            },
        }
        k = k + 1;
    }
    match best {
        None => None,
        Some(b) => {
            if b.rain_intensity() > 0 {
                proof {
                    assert(v@[bi] == b);
                }
                Some(b)
            } else {
                None
            }
        },
    }
}

/// Owns the sanitized probability table and the slot plan; all draws of one
/// forecast read the same table.
#[derive(Debug)]
pub struct WeatherForecaster {
    pub probabilities: ProbabilityTable,
    pub weather_slots: SessionSlotPlan,
}

impl WeatherForecaster {
    /// A well-formed table, a well-formed plan, and at least one dry
    /// condition with positive weight, so a dry-only draw can always land.
    pub open spec fn wf(self) -> bool {
        &&& self.probabilities.wf()
        &&& self.weather_slots.wf()
        &&& usable_count_spec(self.probabilities@, false) > 0
    }

    /// Builds a forecaster from the configuration: the probability table is
    /// sanitized and normalized, the slot plan clamped. The flag reports the
    /// configured weights adding up to more than the whole mass (they were
    /// rescaled; the caller should warn). Rejects a configuration whose
    /// every entry is an explicit zero, and one whose entire mass sits on
    /// rain conditions, which would make a dry-only draw loop forever.
    pub fn new(config: &Config) -> (r: Result<(WeatherForecaster, bool), ConfigError>)
        requires
            config.wf(),
        ensures
            match r {
                Ok(fw) => {
                    &&& fw.0.wf()
                    &&& fw.0.probabilities@ == spec_sanitized(config.probabilities@)
                    &&& fw.0.weather_slots.practice == planned_slots(config.practice_slots, 4)
                    &&& fw.0.weather_slots.qualifying == planned_slots(
                        config.qualifying_slots,
                        2,
                    )
                    &&& fw.0.weather_slots.race == planned_slots(config.race_slots, 4)
                    &&& fw.1 == (opt_sum(config.probabilities@, NUM_OPTIONS as int)
                        > WEIGHT_SCALE)
                },
                Err(e) => match e {
                    ConfigError::NoProbabilityMass => {
                        &&& opt_sum(config.probabilities@, NUM_OPTIONS as int) == 0
                        &&& none_cnt(config.probabilities@, NUM_OPTIONS as int) == 0
                    },
                    ConfigError::AllWeightOnRain => {
                        &&& !(opt_sum(config.probabilities@, NUM_OPTIONS as int) == 0
                            && none_cnt(config.probabilities@, NUM_OPTIONS as int) == 0)
                        &&& usable_count_spec(spec_sanitized(config.probabilities@), false) == 0
                    },
                },
            },
    {
        let table = match ProbabilityTable::sanitize(&config.probabilities) {
            Ok(tw) => tw,
            Err(e) => {
                return Err(e);
            },
        };
        let (table, warned) = table;
        if table.usable_count(false) == 0 {
            return Err(ConfigError::AllWeightOnRain);
        }
        let plan = SessionSlotPlan::from_config(config);
        Ok((WeatherForecaster { probabilities: table, weather_slots: plan }, warned))
    }

    /// The weight the forecaster uses for one condition.
    pub fn probability_of(&self, o: WeatherOptions) -> (w: u64)
        requires
            self.wf(),
        ensures
            w == self.probabilities@[o.index_spec()],
    {
        self.probabilities.weight_of(o)
    }

    /// How many conditions a draw could select.
    pub fn get_available_weather_options(&self, with_rain: bool) -> (n: usize)
        requires
            self.wf(),
        ensures
            n == usable_count_spec(self.probabilities@, with_rain),
    {
        self.probabilities.usable_count(with_rain)
    }

    /// One weighted draw; dry unless rain is allowed.
    pub fn generate_weather_option(&self, might_rain: bool) -> (o: WeatherOptions)
        requires
            self.wf(),
        ensures
            self.probabilities@[o.index_spec()] > 0,
            !might_rain ==> o.rain_intensity_spec() == 0,
    {
        proof {
            self.lemma_usable_positive(might_rain);
        }
        sample_one(&self.probabilities, might_rain)
    }

    /// One weighted draw from the group of `weather_option`, which must
    /// itself carry positive weight.
    pub fn generate_weather_option_in_group(&self, weather_option: WeatherOptions) -> (o:
        WeatherOptions)
        requires
            self.wf(),
            self.probabilities@[weather_option.index_spec()] > 0,
        ensures
            weather_option.group_spec().contains(o),
            self.probabilities@[o.index_spec()] > 0,
    {
        sample_in_group(&self.probabilities, weather_option)
    }

    /// The conditions of one session: distinct whenever enough usable
    /// conditions exist, drawn with replacement otherwise.
    pub fn generate_single_session_forecast(&self, weather_slots: usize, might_rain: bool) -> (v:
        Vec<WeatherOptions>)
        requires
            self.wf(),
        ensures
            v@.len() == weather_slots,
            all_positive(self.probabilities@, v@),
            !might_rain ==> all_dry(v@),
            usable_count_spec(self.probabilities@, might_rain) >= weather_slots
                ==> v@.no_duplicates(),
    {
        proof {
            self.lemma_usable_positive(might_rain);
        }
        sample_session(&self.probabilities, weather_slots, might_rain)
    }

    /// Rain allowed or not, some draw can land.
    proof fn lemma_usable_positive(self, might_rain: bool)
        requires
            self.wf(),
        ensures
            usable_count_spec(self.probabilities@, might_rain) > 0,
    {
        if might_rain {
            lemma_cnt_subset_mask(
                self.probabilities@,
                rain_allowed_mask(false),
                rain_allowed_mask(true),
                NUM_OPTIONS as int,
            );
        }
    }

    /// Generates the forecast for the requested sessions, Race first.
    ///
    /// Each requested session receives exactly its planned number of slots,
    /// every drawn condition carries positive weight, and:
    /// - when the Race forecast holds no rain (or Race was not requested),
    ///   Qualifying and Practice are entirely dry;
    /// - when it does, Practice holds at least one member of the group of
    ///   the Race's strongest rain condition;
    /// - Race always, and Qualifying when its eligible pool is large enough,
    ///   hold no repeated condition.
    pub fn generate_forecast(&self, sessions: &Vec<Sessions>) -> (f: WeatherForecast)
        requires
            self.wf(),
        ensures
            f.race is Some <==> sessions@.contains(Sessions::Race),
            f.qualifying is Some <==> sessions@.contains(Sessions::Qualifying),
            f.practice is Some <==> sessions@.contains(Sessions::Practice),
            f.race matches Some(v) ==> {
                &&& v@.len() == self.weather_slots.race
                &&& all_positive(self.probabilities@, v@)
                &&& usable_count_spec(self.probabilities@, true) >= self.weather_slots.race
                    ==> v@.no_duplicates()
            },
            f.qualifying matches Some(v) ==> {
                &&& v@.len() == self.weather_slots.qualifying
                &&& all_positive(self.probabilities@, v@)
                &&& usable_count_spec(self.probabilities@, race_rain_in_play(f))
                    >= self.weather_slots.qualifying ==> v@.no_duplicates()
            },
            f.practice matches Some(v) ==> {
                &&& v@.len() == self.weather_slots.practice
                &&& all_positive(self.probabilities@, v@)
            },
            !race_rain_in_play(f) ==> {
                &&& (f.qualifying matches Some(v) ==> all_dry(v@))
                &&& (f.practice matches Some(v) ==> all_dry(v@) && (usable_count_spec(
                    self.probabilities@,
                    false,
                ) >= self.weather_slots.practice ==> v@.no_duplicates()))
            },
            race_rain_in_play(f) && f.practice is Some ==> forall|c: WeatherOptions|
                is_peak_rain(f.race->0@, c) ==> exists|j: int|
                    0 <= j < f.practice->0@.len() && c.group_spec().contains(
                        #[trigger] f.practice->0@[j],
                    ),
    {
        let mut f = WeatherForecast::default();

        if contains_session(sessions, Sessions::Race) {
            let race = self.generate_single_session_forecast(self.weather_slots.race, true);
            f.race = Some(race);
        }
        let race_rain: Option<WeatherOptions> = match &f.race {
            Some(v) => max_rain_option(v),
            None => None,
        };
        let rain_in_play = race_rain.is_some();
        proof {
            assert(rain_in_play == race_rain_in_play(f));
        }

        if contains_session(sessions, Sessions::Qualifying) {
            let quali = self.generate_single_session_forecast(
                self.weather_slots.qualifying,
                rain_in_play,
            );
            f.qualifying = Some(quali);
        }

        let practice_rain: Option<WeatherOptions> = match race_rain {
            Some(c) => {
                proof {
                    lemma_catalog_index(c);
                }
                Some(self.generate_weather_option_in_group(c))
            },
            None => None,
        };
        if contains_session(sessions, Sessions::Practice) {
            let mut practice = self.generate_single_session_forecast(
                self.weather_slots.practice,
                rain_in_play,
            );
            if let Some(pr) = practice_rain {
                let ghost pre = practice@;
                let last = practice.len() - 1;
                practice[last] = pr;
                let ghost before = practice@;
                shuffle_options(&mut practice);
                proof {
                    broadcast use vstd::seq_lib::group_to_multiset_ensures;

                    assert(before == pre.update(last as int, pr));
                    assert(before[last as int] == pr);
                    assert(before.contains(pr));
                    assert(before.to_multiset().count(pr) > 0);
                    assert(practice@.to_multiset().count(pr) > 0);
                    assert(practice@.contains(pr));
                    assert forall|k: int| 0 <= k < practice@.len() implies self.probabilities@[(
                    #[trigger] practice@[k]).index_spec()] > 0 by {
                        assert(practice@.contains(practice@[k]));
                        assert(practice@.to_multiset().count(practice@[k]) > 0);
                        assert(before.to_multiset().count(practice@[k]) > 0);
                        assert(before.contains(practice@[k]));
                        let j = choose|j: int| 0 <= j < before.len() && before[j] == practice@[k];
                        if j == last {
                            assert(before[j] == pr);
                        } else {
                            assert(before[j] == pre[j]);
                        }
                        assert(self.probabilities@[before[j].index_spec()] > 0);
                    }
                }
            }
            f.practice = Some(practice);
        }

        proof {
            if race_rain is Some && f.practice is Some {
                let c0 = race_rain->0;
                let pr0 = practice_rain->0;
                assert forall|c: WeatherOptions| is_peak_rain(f.race->0@, c) implies exists|
                    j: int,
                |
                    0 <= j < f.practice->0@.len() && c.group_spec().contains(
                        #[trigger] f.practice->0@[j],
                    ) by {
                    lemma_peak_rain_unique(f.race->0@, c, c0);
                    let j = choose|j: int|
                        0 <= j < f.practice->0@.len() && f.practice->0@[j] == pr0;
                    assert(c.group_spec().contains(f.practice->0@[j]));
                }
            }
        }
        f
    }
}

impl Default for WeatherForecaster {
    /// The forecaster of the default configuration: the catalog's default
    /// weights and the default slot plan.
    fn default() -> (f: WeatherForecaster)
        ensures
            f.wf(),
            f.probabilities@ == default_weights(),
            f.weather_slots.practice == 4,
            f.weather_slots.qualifying == 2,
            f.weather_slots.race == 4,
    {
        let config = Config::default();
        proof {
            lemma_opt_sum_of_some(config.probabilities@, default_weights(), NUM_OPTIONS as int);
            lemma_default_weights_total();
            assert(crate::table::spec_filled(config.probabilities@) =~= default_weights());
            crate::table::lemma_normalize_identity(default_weights());
            lemma_cnt_pos_of_member(
                default_weights(),
                rain_allowed_mask(false),
                NUM_OPTIONS as int,
                0,
            );
            assert(all_options()[0] == WeatherOptions::Clear);
            assert(rain_allowed_mask(false)[0]);
            assert(default_weights()[0] == 240000);
        }
        match Self::new(&config) {
            Ok(fw) => fw.0,
            Err(_) => {
                proof {
                    assert(false);
                }
                vstd::pervasive::unreached()
            },
        }
    }
}

/// Whether `sessions` holds `s`.
fn contains_session(sessions: &Vec<Sessions>, s: Sessions) -> (b: bool)
    ensures
        b == sessions@.contains(s),
{
    let mut i: usize = 0;
    while i < sessions.len()
        invariant
            i <= sessions@.len(),
            forall|j: int| 0 <= j < i ==> sessions@[j] != s,
        decreases sessions@.len() - i,
    {
        if sessions[i] == s {
            return true;
        }
        i = i + 1;
    }
    false
}

} // verus!
