use weather_forecaster::catalog::{WeatherOptions, NUM_OPTIONS, WEIGHT_SCALE};
use weather_forecaster::config::Config;
use weather_forecaster::forecaster::WeatherForecaster;

fn single_condition_forecaster(only: WeatherOptions) -> WeatherForecaster {
    let mut input: Vec<Option<u64>> = Vec::new();
    for _ in 0..NUM_OPTIONS {
        input.push(Some(0));
    }
    input[only.index()] = Some(WEIGHT_SCALE);
    let config = Config {
        probabilities: input,
        practice_slots: None,
        qualifying_slots: None,
        race_slots: None,
        set_clipboard: false,
    };
    WeatherForecaster::new(&config).unwrap().0
}

#[test]
fn options_picked_correctly() {
    const NUMBER_OF_PICKS: usize = 10_000_000;
    let mut picked_times = vec![0usize; NUM_OPTIONS];

    let forecaster = WeatherForecaster::default();

    for _ in 0..NUMBER_OF_PICKS {
        let option = forecaster.generate_weather_option(true);
        picked_times[option.index()] += 1;
    }

    for option in WeatherOptions::all() {
        let real_probability = picked_times[option.index()] as f64 / NUMBER_OF_PICKS as f64;
        let actual_probability = option.get_default_probabiliy() as f64 / WEIGHT_SCALE as f64;
        println!("{option:?} should be {real_probability} and is {actual_probability}");
        assert!((real_probability - actual_probability).abs() <= 0.0005);
    }
}

#[test]
fn dry_draws_never_rain() {
    let forecaster = WeatherForecaster::default();
    for _ in 0..1000 {
        let session = forecaster.generate_single_session_forecast(4, false);
        assert_eq!(session.len(), 4);
        for option in &session {
            assert_eq!(option.rain_intensity(), 0);
        }
    }
}

#[test]
fn no_duplicates_when_enough_options() {
    let forecaster = WeatherForecaster::default();
    for _ in 0..1000 {
        let session = forecaster.generate_single_session_forecast(4, true);
        assert_eq!(session.len(), 4);
        for i in 0..session.len() {
            for j in 0..session.len() {
                if i != j {
                    assert_ne!(session[i], session[j]);
                }
            }
        }
    }
}

#[test]
fn duplicates_fall_back_when_options_run_out() {
    // Only one usable condition, four slots: the draw must repeat it.
    let forecaster = single_condition_forecaster(WeatherOptions::Clear);
    assert_eq!(forecaster.get_available_weather_options(true), 1);
    let session = forecaster.generate_single_session_forecast(4, true);
    assert_eq!(session.len(), 4);
    for option in &session {
        assert_eq!(*option, WeatherOptions::Clear);
    }
}

#[test]
fn single_weighted_condition_is_always_drawn() {
    // The whole mass on one condition: every draw must select it. This
    // fails if the random draw could ever reach the weight total itself.
    let forecaster = single_condition_forecaster(WeatherOptions::Overcast);
    for _ in 0..10_000 {
        assert_eq!(
            forecaster.generate_weather_option(true),
            WeatherOptions::Overcast
        );
    }
}

#[test]
fn group_draws_stay_in_group() {
    let forecaster = WeatherForecaster::default();
    for _ in 0..1000 {
        let option = forecaster.generate_weather_option_in_group(WeatherOptions::Storm);
        assert!(option == WeatherOptions::Storm || option == WeatherOptions::Thunderstorm);
    }
}

#[test]
fn sampler_draws_directly_from_a_table() {
    let config = Config::default();
    let (table, _) = weather_forecaster::table::ProbabilityTable::sanitize(&config.probabilities)
        .unwrap();
    for _ in 0..200 {
        let session = weather_forecaster::sampler::sample_session(&table, 3, false);
        assert_eq!(session.len(), 3);
        for option in &session {
            assert_eq!(option.rain_intensity(), 0);
        }
        let one = weather_forecaster::sampler::sample_one(&table, false);
        assert_eq!(one.rain_intensity(), 0);
        let related = weather_forecaster::sampler::sample_in_group(&table, WeatherOptions::Foggy);
        assert!(WeatherOptions::Foggy.get_group().contains(&related));
    }
}

#[test]
fn rain_intensities_match_catalog() {
    assert_eq!(WeatherOptions::Clear.rain_intensity(), 0);
    assert_eq!(WeatherOptions::LightRain.rain_intensity(), 1);
    assert_eq!(WeatherOptions::Rain.rain_intensity(), 2);
    assert_eq!(WeatherOptions::FogWithRain.rain_intensity(), 2);
    assert_eq!(WeatherOptions::HeavyFogWithRain.rain_intensity(), 2);
    assert_eq!(WeatherOptions::Storm.rain_intensity(), 3);
    assert_eq!(WeatherOptions::Thunderstorm.rain_intensity(), 3);
    assert_eq!(WeatherOptions::Hazy.rain_intensity(), 0);
}

#[test]
fn groups_match_catalog() {
    assert_eq!(
        WeatherOptions::Storm.get_group(),
        vec![WeatherOptions::Storm, WeatherOptions::Thunderstorm]
    );
    assert_eq!(
        WeatherOptions::Clear.get_group(),
        vec![WeatherOptions::Clear, WeatherOptions::LightCloud]
    );
    assert_eq!(
        WeatherOptions::Rain.get_group(),
        vec![
            WeatherOptions::Rain,
            WeatherOptions::FogWithRain,
            WeatherOptions::HeavyFogWithRain
        ]
    );
    assert_eq!(WeatherOptions::Random.get_group(), vec![WeatherOptions::Random]);
}
