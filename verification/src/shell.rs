//! The texts around the pages: window titles, the tray menu, the adhan
//! button and preset names, and the icon files a Snap install ships.
use vstd::prelude::*;
use vstd::string::*;
use crate::i18n;
use crate::text;

verus! {

/// The message a page's title translates, for the pages that have one.
pub open spec fn page_title_key(name: Seq<char>) -> Option<Seq<char>> {
    if name == "home"@ {
        Some("Prayer Times"@)
    } else if name == "calendar"@ {
        Some("Calendar"@)
    } else if name == "qibla"@ {
        Some("Qibla"@)
    } else if name == "adkar"@ {
        Some("Adkar"@)
    } else if name == "quran"@ {
        Some("Noble Quran"@)
    } else if name == "settings"@ {
        Some("Settings"@)
    } else {
        None
    }
}

/// The window title for a page; "Khushu" for any other name.
pub fn page_title(name: &str) -> (r: String)
    ensures
        match page_title_key(name@) {
            Some(k) => i18n::is_tr_of(r@, k),
            None => r@ == "Khushu"@,
        },
{
    proof {
        reveal_strlit("Prayer Times");
        reveal_strlit("Calendar");
        reveal_strlit("Qibla");
        reveal_strlit("Adkar");
        reveal_strlit("Noble Quran");
        reveal_strlit("Settings");
    }
    if text::str_equal(name, "home") {
        i18n::translate("Prayer Times")
    } else if text::str_equal(name, "calendar") {
        i18n::translate("Calendar")
    } else if text::str_equal(name, "qibla") {
        i18n::translate("Qibla")
    } else if text::str_equal(name, "adkar") {
        i18n::translate("Adkar")
    } else if text::str_equal(name, "quran") {
        i18n::translate("Noble Quran")
    } else if text::str_equal(name, "settings") {
        i18n::translate("Settings")
    } else {
        text::to_owned_string("Khushu")
    }
}

/// The labels of the tray menu's two items.
pub struct TrayLabels {
    pub open_label: String,
    pub quit_label: String,
}

/// The tray menu's labels in the interface language.
pub fn tray_labels() -> (r: TrayLabels)
    ensures
        i18n::is_tr_of(r.open_label@, "Open Khushu"@),
        i18n::is_tr_of(r.quit_label@, "Quit"@),
{
    proof {
        reveal_strlit("Open Khushu");
        reveal_strlit("Quit");
    }
    TrayLabels { open_label: i18n::translate("Open Khushu"), quit_label: i18n::translate("Quit") }
}

/// The symbolic icon a Snap install ships for the tray, under its `SNAP`
/// directory.
pub fn snap_tray_icon_path(snap: &str) -> (r: String)
    ensures
        r@ == snap@ + "/meta/gui/io.github.sniper1720.khushu-symbolic.svg"@,
{
    let mut r = text::to_owned_string(snap);
    r.append("/meta/gui/io.github.sniper1720.khushu-symbolic.svg");
    r
}

/// The tray icon: the Snap's icon file where running as a Snap and the file
/// exists, else the themed symbolic icon's name.
pub fn tray_icon_name(snap: Option<&str>, snap_icon_exists: bool) -> (r: String)
    ensures
        r@ == match snap {
            Some(s) => if snap_icon_exists {
                s@ + "/meta/gui/io.github.sniper1720.khushu-symbolic.svg"@
            } else {
                "io.github.sniper1720.khushu-symbolic"@
            },
            None => "io.github.sniper1720.khushu-symbolic"@,
        },
{
    match snap {
        Some(s) => {
            if snap_icon_exists {
                return snap_tray_icon_path(s);
            }
        },
        None => {},
    }
    text::to_owned_string("io.github.sniper1720.khushu-symbolic")
}

/// Where the tray looks for themed icons: the Snap's icon directory, or
/// nowhere special outside a Snap.
pub fn tray_icon_theme_path(snap: Option<&str>) -> (r: String)
    ensures
        r@ == match snap {
            Some(s) => s@ + "/usr/share/icons"@,
            None => Seq::<char>::empty(),
        },
{
    match snap {
        Some(s) => {
            let mut r = text::to_owned_string(s);
            r.append("/usr/share/icons");
            r
        },
        None => String::new(),
    }
}

/// The application icon a Snap install ships for notifications.
pub fn snap_notification_icon_path(snap: &str) -> (r: String)
    ensures
        r@ == snap@ + "/usr/share/icons/hicolor/scalable/apps/io.github.sniper1720.khushu.svg"@,
{
    let mut r = text::to_owned_string(snap);
    r.append("/usr/share/icons/hicolor/scalable/apps/io.github.sniper1720.khushu.svg");
    r
}

/// A notification's icon: a file, or a name from the icon theme.
pub enum NotificationIcon {
    File(String),
    Themed(String),
}

/// The notification icon: the Snap's icon file where running as a Snap and
/// the file exists, else the themed application icon.
pub fn notification_icon(snap: Option<&str>, snap_icon_exists: bool) -> (r: NotificationIcon)
    ensures
        match snap {
            Some(s) => if snap_icon_exists {
                r matches NotificationIcon::File(p) && p@ == s@
                    + "/usr/share/icons/hicolor/scalable/apps/io.github.sniper1720.khushu.svg"@
            } else {
                r matches NotificationIcon::Themed(n) && n@ == "io.github.sniper1720.khushu"@
            },
            None => r matches NotificationIcon::Themed(n) && n@ == "io.github.sniper1720.khushu"@,
        },
{
    match snap {
        Some(s) => {
            if snap_icon_exists {
                return NotificationIcon::File(snap_notification_icon_path(s));
            }
        },
        None => {},
    }
    NotificationIcon::Themed(text::to_owned_string("io.github.sniper1720.khushu"))
}

/// What a notification's button asks of the application.
#[derive(Debug, Clone, Copy, PartialEq, Eq, Structural)]
pub enum NotificationCommand {
    /// Bring the main window up.
    OpenMain,
    /// Stop the adhan that is playing.
    StopAdhan,
}

/// A notification's buttons, in order: "open" always, "stop" only on an
/// adhan notification.
pub fn notification_buttons(is_adhan: bool, open_label: &str, stop_label: &str) -> (r: Vec<(String, NotificationCommand)>)
    ensures
        r@.len() == if is_adhan { 2int } else { 1int },
        r@[0].0@ == open_label@ && r@[0].1 == NotificationCommand::OpenMain,
        is_adhan ==> r@[1].0@ == stop_label@ && r@[1].1 == NotificationCommand::StopAdhan,
{
    let mut r: Vec<(String, NotificationCommand)> = Vec::new();
    r.push((text::to_owned_string(open_label), NotificationCommand::OpenMain));
    if is_adhan {
        r.push((text::to_owned_string(stop_label), NotificationCommand::StopAdhan));
    }
    r
}

/// The command behind an action id that a notification server reports:
/// "open" and "stop"; any other id asks nothing.
pub fn notification_command(action: &str) -> (r: Option<NotificationCommand>)
    ensures
        action@ == "open"@ ==> r == Some(NotificationCommand::OpenMain),
        action@ == "stop"@ ==> r == Some(NotificationCommand::StopAdhan),
        action@ != "open"@ && action@ != "stop"@ ==> r is None,
{
    proof {
        reveal_strlit("open");
        reveal_strlit("stop");
        assert("open"@[0] != "stop"@[0]);
    }
    if text::str_equal(action, "open") {
        Some(NotificationCommand::OpenMain)
    } else if text::str_equal(action, "stop") {
        Some(NotificationCommand::StopAdhan)
    } else {
        None
    }
}

/// The label of an adhan button: "⏹ Stop Adhan" while the adhan plays, else
/// its own message.
pub fn audio_toggle_label(idle_label_key: &str, is_playing: bool) -> (r: String)
    requires
        !idle_label_key@.contains('\0'),
    ensures
        is_playing ==> i18n::is_tr_of(r@, "⏹ Stop Adhan"@),
        !is_playing ==> i18n::is_tr_of(r@, idle_label_key@),
{
    proof {
        reveal_strlit("⏹ Stop Adhan");
    }
    if is_playing {
        i18n::translate("⏹ Stop Adhan")
    } else {
        i18n::translate(idle_label_key)
    }
}

/// What std's `Path::file_stem` gives for a path: its last component
/// without the extension, if it has a last component.
pub uninterp spec fn path_file_stem(p: Seq<char>) -> Option<Seq<char>>;

/// The file stem of a path, with std's `Path::file_stem` (always valid
/// UTF-8 here, as the path is).
#[verifier::external_body]
fn file_stem(p: &str) -> (r: Option<String>)
    ensures
        match r {
            Some(s) => path_file_stem(p@) == Some(s@),
            None => path_file_stem(p@) is None,
        },
{
    std::path::Path::new(p).file_stem().and_then(|s| s.to_str()).map(|s| s.to_string())
}

/// The name of a built-in adhan: Makkah and Madinah by their translated
/// names, any other file by its stem (or the whole name where it has none).
pub fn adhan_preset_label(file_name: &str) -> (r: String)
    ensures
        ({
            let stem = match path_file_stem(file_name@) {
                Some(s) => s,
                None => file_name@,
            };
            if stem == "Makkah"@ {
                i18n::is_tr_of(r@, "Makkah Adhan"@)
            } else if stem == "Madinah"@ {
                i18n::is_tr_of(r@, "Madinah Adhan"@)
            } else {
                r@ == stem
            }
        }),
{
    proof {
        reveal_strlit("Makkah Adhan");
        reveal_strlit("Madinah Adhan");
    }
    let stem = match file_stem(file_name) {
        Some(s) => s,
        None => text::to_owned_string(file_name),
    };
    if text::str_equal(stem.as_str(), "Makkah") {
        i18n::translate("Makkah Adhan")
    } else if text::str_equal(stem.as_str(), "Madinah") {
        i18n::translate("Madinah Adhan")
    } else {
        stem
    }
}

/// Whether the command line asks for a start in the background: an
/// argument after the program's name is `--background`.
pub fn is_background_launch(args: &[String]) -> (r: bool)
    ensures
        r == exists|k: int| 1 <= k < args@.len() && #[trigger] args@[k]@ == "--background"@,
{
    let mut k: usize = 1;
    while k < args.len()
        invariant
            1 <= k,
            forall|m: int| 1 <= m < k && m < args@.len() ==> #[trigger] args@[m]@ != "--background"@,
        decreases args@.len() - k,
    {
        if text::str_equal(args[k].as_str(), "--background") {
            return true;
        }
        k = k + 1;
    }
    false
}

/// Whether a stored adhan sound is a custom file that is gone: not a
/// built-in sound under "assets/" and no longer on disk.
pub fn custom_sound_is_stale(path: &str, exists: bool) -> (r: bool)
    ensures
        r == (!(path@.len() >= 7 && path@.take(7) == "assets/"@) && !exists),
{
    let cs = text::chars_of(path);
    let prefix = text::chars_of("assets/");
    proof {
        reveal_strlit("assets/");
    }
    let builtin = cs.len() >= 7 && text::chars_match_at(cs.as_slice(), prefix.as_slice(), 0);
    proof {
        if cs@.len() >= 7 {
            assert(cs@.subrange(0, 7) =~= cs@.take(7));
        }
    }
    !builtin && !exists
}

} // verus!
