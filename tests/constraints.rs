use rust_ephem::daytime::{DaytimeConfig, TwilightType};
use rust_ephem::eclipse::{EclipseConfig, ShadowState};
use rust_ephem::omm_cache::get_omm_cache_path;

#[test]
fn daytime_names() {
    let e = DaytimeConfig { allow_daytime: false, twilight: TwilightType::Civil }.to_evaluator();
    assert_eq!(e.format_name(), "DaytimeConstraint(allow_daytime=false, twilight=civil)");
    let e = DaytimeConfig { allow_daytime: true, twilight: TwilightType::NoTwilight }.to_evaluator();
    assert_eq!(e.name(), "DaytimeConstraint(allow_daytime=true, twilight=none)");
    let e = DaytimeConfig { allow_daytime: true, twilight: TwilightType::Astronomical }.to_evaluator();
    assert_eq!(e.format_name(), "DaytimeConstraint(allow_daytime=true, twilight=astronomical)");
}

#[test]
fn daytime_twilight_angles() {
    let angle = |t| DaytimeConfig { allow_daytime: false, twilight: t }.to_evaluator().twilight_angle();
    assert_eq!(angle(TwilightType::NoTwilight), 0);
    assert_eq!(angle(TwilightType::Civil), -6);
    assert_eq!(angle(TwilightType::Nautical), -12);
    assert_eq!(angle(TwilightType::Astronomical), -18);
}

#[test]
fn daytime_polarity() {
    let night_only = DaytimeConfig { allow_daytime: false, twilight: TwilightType::Civil }.to_evaluator();
    assert!(night_only.is_violated(true));
    assert!(!night_only.is_violated(false));
    let day_only = DaytimeConfig { allow_daytime: true, twilight: TwilightType::Civil }.to_evaluator();
    assert!(!day_only.is_violated(true));
    assert!(day_only.is_violated(false));
    assert_eq!(
        night_only.violation_description(),
        "Daytime - target not visible during required nighttime hours"
    );
}

#[test]
fn eclipse_names_and_descriptions() {
    let umbra = EclipseConfig { umbra_only: true };
    let both = EclipseConfig { umbra_only: false };
    assert_eq!(umbra.name(), "Eclipse(umbra)");
    assert_eq!(both.name(), "Eclipse(umbra+penumbra)");
    assert_eq!(umbra.to_evaluator().violation_description(), "Observer in umbra");
    assert_eq!(both.to_evaluator().violation_description(), "Observer in shadow");
}

#[test]
fn eclipse_penumbra_counts_only_when_allowed() {
    let umbra = EclipseConfig { umbra_only: true }.to_evaluator();
    let both = EclipseConfig { umbra_only: false }.to_evaluator();
    // A point between the umbra and penumbra radii.
    let state = both.shadow_state(false, true);
    assert_eq!(state, ShadowState::Penumbra);
    assert!(both.is_violated(state));
    assert!(!umbra.is_violated(state));
    assert_eq!(umbra.shadow_state(true, true), ShadowState::Umbra);
    assert!(umbra.is_violated(ShadowState::Umbra));
    assert_eq!(umbra.shadow_state(false, false), ShadowState::Sunlit);
    assert!(!both.is_violated(ShadowState::Sunlit));
}

#[test]
fn omm_cache_paths() {
    assert_eq!(
        get_omm_cache_path("/var/cache/ephem", 25544, "celestrak"),
        "/var/cache/ephem/omm_cache/25544_celestrak.json"
    );
    assert_eq!(get_omm_cache_path("/tmp/", 0, "x"), "/tmp/omm_cache/0_x.json");
    assert_eq!(get_omm_cache_path("", 4294967295, "s"), "omm_cache/4294967295_s.json");
}
