use weather_forecaster::catalog::WeatherOptions;
use weather_forecaster::config::Config;
use weather_forecaster::forecaster::{Sessions, WeatherForecaster};

fn max_rain_condition(session: &[WeatherOptions]) -> Option<WeatherOptions> {
    let mut best: Option<WeatherOptions> = None;
    for &option in session {
        match best {
            None => best = Some(option),
            Some(b) => {
                if option.rain_intensity() >= b.rain_intensity() {
                    best = Some(option);
                }
            }
        }
    }
    best.filter(|b| b.rain_intensity() > 0)
}

#[test]
fn qualifying_only_has_one_dry_entry() {
    let forecaster = WeatherForecaster::default();
    for _ in 0..200 {
        let forecast = forecaster.generate_forecast(&vec![Sessions::Qualifying]);
        assert!(forecast.get(Sessions::Race).is_none());
        assert!(forecast.get(Sessions::Practice).is_none());
        let quali = forecast.get(Sessions::Qualifying).as_ref().unwrap();
        assert_eq!(quali.len(), 2);
        // No Race phase ran, so rain is not in play.
        for option in quali {
            assert_eq!(option.rain_intensity(), 0);
        }
    }
}

#[test]
fn full_weekend_respects_rain_propagation() {
    let forecaster = WeatherForecaster::default();
    let sessions = vec![Sessions::Practice, Sessions::Qualifying, Sessions::Race];
    let mut saw_rainy_race = false;
    let mut saw_dry_race = false;
    for _ in 0..2000 {
        let forecast = forecaster.generate_forecast(&sessions);
        let race = forecast.get(Sessions::Race).as_ref().unwrap();
        let quali = forecast.get(Sessions::Qualifying).as_ref().unwrap();
        let practice = forecast.get(Sessions::Practice).as_ref().unwrap();
        assert_eq!(race.len(), 4);
        assert_eq!(quali.len(), 2);
        assert_eq!(practice.len(), 4);

        match max_rain_condition(race) {
            None => {
                // A dry race forces a dry Qualifying and a dry Practice.
                saw_dry_race = true;
                for option in quali {
                    assert_eq!(option.rain_intensity(), 0);
                }
                for option in practice {
                    assert_eq!(option.rain_intensity(), 0);
                }
            }
            Some(rain) => {
                // Practice must hold a condition related to the race rain.
                saw_rainy_race = true;
                let group = rain.get_group();
                assert!(practice.iter().any(|o| group.contains(o)));
            }
        }
    }
    assert!(saw_rainy_race);
    assert!(saw_dry_race);
}

#[test]
fn race_forecast_has_distinct_conditions() {
    let forecaster = WeatherForecaster::default();
    let sessions = vec![Sessions::Race];
    for _ in 0..500 {
        let forecast = forecaster.generate_forecast(&sessions);
        let race = forecast.get(Sessions::Race).as_ref().unwrap();
        for i in 0..race.len() {
            for j in 0..race.len() {
                if i != j {
                    assert_ne!(race[i], race[j]);
                }
            }
        }
    }
}

#[test]
fn configured_slot_counts_are_respected() {
    let mut config = Config::default();
    config.practice_slots = Some(1);
    config.qualifying_slots = Some(4);
    config.race_slots = Some(2);
    let (forecaster, warned) = WeatherForecaster::new(&config).unwrap();
    assert!(!warned);
    let sessions = vec![Sessions::Practice, Sessions::Qualifying, Sessions::Race];
    let forecast = forecaster.generate_forecast(&sessions);
    assert_eq!(forecast.get(Sessions::Practice).as_ref().unwrap().len(), 1);
    assert_eq!(forecast.get(Sessions::Qualifying).as_ref().unwrap().len(), 4);
    assert_eq!(forecast.get(Sessions::Race).as_ref().unwrap().len(), 2);
}

#[test]
fn configured_slot_counts_are_clamped() {
    let mut config = Config::default();
    config.practice_slots = Some(9);
    config.qualifying_slots = Some(0);
    config.race_slots = None;
    let (forecaster, _) = WeatherForecaster::new(&config).unwrap();
    let sessions = vec![Sessions::Practice, Sessions::Qualifying, Sessions::Race];
    let forecast = forecaster.generate_forecast(&sessions);
    assert_eq!(forecast.get(Sessions::Practice).as_ref().unwrap().len(), 4);
    assert_eq!(forecast.get(Sessions::Qualifying).as_ref().unwrap().len(), 1);
    assert_eq!(forecast.get(Sessions::Race).as_ref().unwrap().len(), 4);
}

#[test]
fn no_requested_sessions_yields_empty_forecast() {
    let forecaster = WeatherForecaster::default();
    let forecast = forecaster.generate_forecast(&Vec::new());
    assert!(forecast.get(Sessions::Practice).is_none());
    assert!(forecast.get(Sessions::Qualifying).is_none());
    assert!(forecast.get(Sessions::Race).is_none());
}

#[test]
fn default_forecaster_uses_catalog_weights() {
    let forecaster = WeatherForecaster::default();
    for option in WeatherOptions::all() {
        assert_eq!(
            forecaster.probability_of(option),
            option.get_default_probabiliy()
        );
    }
}
