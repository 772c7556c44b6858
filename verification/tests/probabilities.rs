use weather_forecaster::catalog::{WeatherOptions, NUM_OPTIONS, WEIGHT_SCALE};
use weather_forecaster::config::{Config, ConfigError};
use weather_forecaster::forecaster::WeatherForecaster;
use weather_forecaster::table::ProbabilityTable;

fn none_probabilities() -> Vec<Option<u64>> {
    let mut v: Vec<Option<u64>> = Vec::new();
    for _ in 0..NUM_OPTIONS {
        v.push(None);
    }
    v
}

#[test]
fn sane_probabilities() {
    let mut sum = 0.0;
    for option in WeatherOptions::all() {
        sum += option.get_default_probabiliy() as f64 / WEIGHT_SCALE as f64;
    }
    assert!((sum - 1.0).abs() <= 0.0001);
}

#[test]
fn default_weights_sum_exactly_to_scale() {
    let mut sum: u64 = 0;
    for option in WeatherOptions::all() {
        if option != WeatherOptions::Random {
            sum += option.get_default_probabiliy();
        }
    }
    assert_eq!(sum, WEIGHT_SCALE);
    assert_eq!(WeatherOptions::Random.get_default_probabiliy(), 0);
}

#[test]
fn sanitize_fills_missing_entries_evenly() {
    // Clear gets half the mass; the 14 missing entries share the rest.
    let mut input = none_probabilities();
    input[WeatherOptions::Clear.index()] = Some(700_000);
    let (table, warned) = ProbabilityTable::sanitize(&input).unwrap();
    assert!(!warned);
    assert_eq!(table.weight_of(WeatherOptions::Clear), 700_000);
    let fill = 700_000 / 14;
    for option in WeatherOptions::all() {
        if option != WeatherOptions::Clear {
            assert_eq!(table.weight_of(option), fill);
        }
    }
}

#[test]
fn sanitize_normalizes_total_exactly() {
    // A partial configuration whose fill share does not divide evenly:
    // normalization must still make the total exact.
    let mut input = none_probabilities();
    input[WeatherOptions::Clear.index()] = Some(420_000);
    input[WeatherOptions::Storm.index()] = Some(140_000);
    let (table, warned) = ProbabilityTable::sanitize(&input).unwrap();
    assert!(!warned);
    let mut sum: u64 = 0;
    for option in WeatherOptions::all() {
        sum += table.weight_of(option);
    }
    assert_eq!(sum, WEIGHT_SCALE);
}

#[test]
fn sanitize_warns_and_rescales_overflowing_mass() {
    // 15 entries of 200000 add up to more than the whole mass.
    let mut input = none_probabilities();
    for i in 0..NUM_OPTIONS {
        input[i] = Some(200_000);
    }
    let (table, warned) = ProbabilityTable::sanitize(&input).unwrap();
    assert!(warned);
    let mut sum: u64 = 0;
    for option in WeatherOptions::all() {
        let w = table.weight_of(option);
        assert!(w > 0);
        sum += w;
    }
    assert_eq!(sum, WEIGHT_SCALE);
}

#[test]
fn sanitize_keeps_default_table_unchanged() {
    let config = Config::default();
    let (table, warned) = ProbabilityTable::sanitize(&config.probabilities).unwrap();
    assert!(!warned);
    for option in WeatherOptions::all() {
        assert_eq!(table.weight_of(option), option.get_default_probabiliy());
    }
}

#[test]
fn all_zero_configuration_is_rejected() {
    let mut input = none_probabilities();
    for i in 0..NUM_OPTIONS {
        input[i] = Some(0);
    }
    assert_eq!(
        ProbabilityTable::sanitize(&input).unwrap_err(),
        ConfigError::NoProbabilityMass
    );
    let config = Config {
        probabilities: input,
        practice_slots: None,
        qualifying_slots: None,
        race_slots: None,
        set_clipboard: false,
    };
    assert_eq!(
        WeatherForecaster::new(&config).unwrap_err(),
        ConfigError::NoProbabilityMass
    );
}

#[test]
fn all_rain_configuration_is_rejected() {
    let mut input = none_probabilities();
    for i in 0..NUM_OPTIONS {
        input[i] = Some(0);
    }
    input[WeatherOptions::LightRain.index()] = Some(WEIGHT_SCALE);
    let config = Config {
        probabilities: input,
        practice_slots: None,
        qualifying_slots: None,
        race_slots: None,
        set_clipboard: false,
    };
    assert_eq!(
        WeatherForecaster::new(&config).unwrap_err(),
        ConfigError::AllWeightOnRain
    );
}

#[test]
fn usable_count_filters_rain_and_zero_weight() {
    let forecaster = WeatherForecaster::default();
    // 14 conditions carry default weight; Random carries none. Six of the
    // weighted ones rain.
    assert_eq!(forecaster.get_available_weather_options(true), 14);
    assert_eq!(forecaster.get_available_weather_options(false), 8);
}
