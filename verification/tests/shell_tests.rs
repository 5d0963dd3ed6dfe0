use khushu::shell::{
    custom_sound_is_stale, is_background_launch, adhan_preset_label, audio_toggle_label, notification_icon, page_title, snap_tray_icon_path, tray_icon_name,
    tray_icon_theme_path, tray_labels, NotificationIcon, notification_buttons, notification_command, NotificationCommand,
};

#[test]
fn page_titles_by_page() {
    assert_eq!(page_title("home"), "Prayer Times");
    assert_eq!(page_title("quran"), "Noble Quran");
    assert_eq!(page_title("settings"), "Settings");
    assert_eq!(page_title("planner"), "Khushu");
}

#[test]
fn tray_menu_and_icons() {
    let labels = tray_labels();
    assert_eq!(labels.open_label, "Open Khushu");
    assert_eq!(labels.quit_label, "Quit");
    assert_eq!(snap_tray_icon_path("/snap/khushu/7"), "/snap/khushu/7/meta/gui/io.github.sniper1720.khushu-symbolic.svg");
    assert_eq!(
        tray_icon_name(Some("/snap/khushu/7"), true),
        "/snap/khushu/7/meta/gui/io.github.sniper1720.khushu-symbolic.svg"
    );
    assert_eq!(tray_icon_name(Some("/snap/khushu/7"), false), "io.github.sniper1720.khushu-symbolic");
    assert_eq!(tray_icon_name(None, true), "io.github.sniper1720.khushu-symbolic");
    assert_eq!(tray_icon_theme_path(Some("/snap/k")), "/snap/k/usr/share/icons");
    assert_eq!(tray_icon_theme_path(None), "");
}

#[test]
fn notification_icon_prefers_the_snap_file() {
    match notification_icon(Some("/snap/k"), true) {
        NotificationIcon::File(p) => {
            assert_eq!(p, "/snap/k/usr/share/icons/hicolor/scalable/apps/io.github.sniper1720.khushu.svg")
        }
        NotificationIcon::Themed(_) => panic!("expected the Snap's file"),
    }
    assert!(matches!(notification_icon(Some("/snap/k"), false), NotificationIcon::Themed(n) if n == "io.github.sniper1720.khushu"));
    assert!(matches!(notification_icon(None, false), NotificationIcon::Themed(_)));
}

#[test]
fn adhan_presets_and_button() {
    assert_eq!(adhan_preset_label("Makkah.mp3"), "Makkah Adhan");
    assert_eq!(adhan_preset_label("assets/Madinah.ogg"), "Madinah Adhan");
    assert_eq!(adhan_preset_label("/home/u/My Adhan.flac"), "My Adhan");
    assert_eq!(adhan_preset_label(""), "");
    assert_eq!(audio_toggle_label("Test Adhan", true), "⏹ Stop Adhan");
    assert_eq!(audio_toggle_label("Test Adhan", false), "Test Adhan");
}

#[test]
fn launch_flags_and_stale_sounds() {
    let args = |list: &[&str]| list.iter().map(|s| s.to_string()).collect::<Vec<String>>();
    assert!(is_background_launch(&args(&["khushu", "--background"])));
    assert!(!is_background_launch(&args(&["--background"])));
    assert!(!is_background_launch(&args(&["khushu", "--verbose"])));
    assert!(custom_sound_is_stale("/home/u/gone.mp3", false));
    assert!(!custom_sound_is_stale("/home/u/here.mp3", true));
    assert!(!custom_sound_is_stale("assets/audio/Makkah.mp3", false));
}

#[test]
fn adhan_notifications_get_a_stop_button() {
    let plain = notification_buttons(false, "Open", "Stop");
    assert_eq!(plain.len(), 1);
    assert_eq!(plain[0].0, "Open");
    assert!(plain[0].1 == NotificationCommand::OpenMain);
    let adhan = notification_buttons(true, "Open", "Stop");
    assert_eq!(adhan.len(), 2);
    assert_eq!(adhan[1].0, "Stop");
    assert!(adhan[1].1 == NotificationCommand::StopAdhan);
}

#[test]
fn notification_actions_map_to_commands() {
    assert!(notification_command("open") == Some(NotificationCommand::OpenMain));
    assert!(notification_command("stop") == Some(NotificationCommand::StopAdhan));
    assert!(notification_command("dismiss").is_none());
}
