use khushu::config::{
    CalculationMethod, LocationMode, MadhabChoice, PrayerTimesSource, StopCondition, ThemeMode, TimezoneMode,
};
use khushu::settings_model::{
    adhan_sound_index, location_mode_from_index, location_mode_index, madhab_from_index, madhab_index,
    method_from_index, method_index, preset_sound_path, source_from_index, source_index, stop_from_index,
    stop_index, theme_from_index, theme_index, timezone_mode_for_choice, timezone_mode_index,
};

#[test]
fn choice_lists_round_trip() {
    for t in [ThemeMode::System, ThemeMode::Light, ThemeMode::Dark] {
        assert_eq!(theme_from_index(theme_index(t)), t);
    }
    assert_eq!(theme_from_index(9), ThemeMode::System);
    for m in [LocationMode::Manual, LocationMode::City, LocationMode::Auto] {
        assert_eq!(location_mode_from_index(location_mode_index(m)), m);
    }
    assert_eq!(location_mode_from_index(7), LocationMode::Manual);
    assert_eq!(source_index(PrayerTimesSource::Mawaqit), 1);
    assert_eq!(source_from_index(1), PrayerTimesSource::Mawaqit);
    assert_eq!(source_from_index(3), PrayerTimesSource::Calculated);
    for i in 0..14 {
        assert_eq!(method_index(method_from_index(i)), i);
    }
    assert_eq!(method_index(CalculationMethod::Algeria), 13);
    assert_eq!(method_from_index(14), CalculationMethod::MWL);
    assert_eq!(madhab_from_index(madhab_index(MadhabChoice::Hanafi)), MadhabChoice::Hanafi);
    assert_eq!(madhab_from_index(5), MadhabChoice::Shafi);
    assert_eq!(stop_index(StopCondition::Unlimited), 0);
    assert_eq!(stop_from_index(3), StopCondition::Juz);
    assert_eq!(stop_from_index(9), StopCondition::Surah);
}

#[test]
fn timezone_choice_validates_named_zones() {
    let auto = TimezoneMode::Auto;
    assert_eq!(timezone_mode_index(&TimezoneMode::UtcOffset(60)), 2);
    assert_eq!(
        timezone_mode_for_choice(1, "europe/oslo", &auto, 0),
        TimezoneMode::Named("Europe/Oslo".to_string())
    );
    assert_eq!(timezone_mode_for_choice(1, "Mars/Base", &auto, 0), TimezoneMode::Auto);
    let kept = TimezoneMode::Named("Asia/Tokyo".to_string());
    assert_eq!(timezone_mode_for_choice(1, "Mars/Base", &kept, 0), kept);
    let blank = TimezoneMode::Named("  ".to_string());
    assert_eq!(timezone_mode_for_choice(1, "", &blank, 0), TimezoneMode::Auto);
    assert_eq!(timezone_mode_for_choice(2, "", &auto, -90), TimezoneMode::UtcOffset(-90));
    assert_eq!(timezone_mode_for_choice(0, "Europe/Oslo", &kept, 30), TimezoneMode::Auto);
}

#[test]
fn adhan_sound_entries() {
    let presets = vec!["Makkah.mp3".to_string(), "Madinah.mp3".to_string()];
    assert_eq!(adhan_sound_index(None, &presets), 0);
    assert_eq!(adhan_sound_index(Some("assets/audio/Madinah.mp3"), &presets), 3);
    assert_eq!(adhan_sound_index(Some("/home/u/custom.ogg"), &presets), 1);
    assert_eq!(preset_sound_path(&presets, 2).as_deref(), Some("assets/audio/Makkah.mp3"));
}
