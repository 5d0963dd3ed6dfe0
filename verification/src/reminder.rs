//! The texts of prayer and Quran reminders, as notifications and as popup
//! windows. Every phrase goes through `tr`, so the contracts say which
//! message each part is a translation of and how the parts are joined.
use vstd::prelude::*;
use vstd::string::*;
use crate::i18n;
use crate::islamic_content::ContentCategory;
use crate::text;

verus! {

/// A reminder to show.
pub enum ReminderEvent {
    /// Before a prayer; may ask about the prayer before it (name, day number).
    PrePrayer { prayer_name: String, minutes_left: u32, prev_check: Option<(String, i32)> },
    PrayerTime { prayer_name: String },
    Iqamah { prayer_name: String, delay_mins: u32 },
    QuranWird {
        start_page: u32,
        end_page: u32,
        total_pages: u32,
        completed_pages: u32,
        remaining_pages: u32,
        target_page: u32,
        is_startup: bool,
    },
}

/// A desktop notification: title, body, whether it is the adhan, and the
/// labels of its two buttons.
pub struct NotificationContent {
    pub title: String,
    pub body: String,
    pub is_adhan: bool,
    pub open_label: String,
    pub stop_label: String,
}

/// `t` is what `tr` gives for `key`.
pub open spec fn tr_of(t: Seq<char>, key: Seq<char>) -> bool {
    i18n::is_tr_of(t, key)
}

/// `r` is a translation of `a`, a space and a translation of `b`.
pub open spec fn tr_pair(r: Seq<char>, a: Seq<char>, b: Seq<char>) -> bool {
    exists|x: Seq<char>, y: Seq<char>| #![trigger tr_of(x, a), tr_of(y, b)] tr_of(x, a) && tr_of(y, b) && r == x + " "@ + y
}

/// The texts that may be passed to `tr`: without a NUL character.
pub open spec fn tr_key(k: Seq<char>) -> bool {
    !k.contains('\0')
}

/// The prayer names an event carries are valid `tr` keys.
pub open spec fn event_keys_ok(e: ReminderEvent) -> bool {
    match e {
        ReminderEvent::PrePrayer { prayer_name, prev_check, .. } => tr_key(prayer_name@) && match prev_check {
            Some((n, _)) => tr_key(n@),
            None => true,
        },
        ReminderEvent::PrayerTime { prayer_name } => tr_key(prayer_name@),
        ReminderEvent::Iqamah { prayer_name, .. } => tr_key(prayer_name@),
        ReminderEvent::QuranWird { .. } => true,
    }
}

fn tr_text(key: &str) -> (r: String)
    requires
        tr_key(key@),
    ensures
        tr_of(r@, key@),
{
    i18n::translate(key)
}

/// `a`, a space, then `b`.
fn spaced(a: String, b: &str) -> (r: String)
    ensures
        r@ == a@ + " "@ + b@,
{
    let mut r = a;
    r.append(" ");
    r.append(b);
    r
}

/// The notification for a reminder: the upcoming prayer with the minutes
/// left (and the prayer before it, where one is to be checked), the
/// adhan, the iqamah with its delay, or today's Quran portion (its pages
/// at startup, the pages left later).
pub fn notification_content(event: &ReminderEvent) -> (r: NotificationContent)
    requires
        event_keys_ok(*event),
    ensures
        event is QuranWird ==> tr_of(r.open_label@, "Start Reading"@) && tr_of(r.stop_label@, "Later"@),
        !(event is QuranWird) ==> tr_of(r.open_label@, "Open Khushu"@) && tr_of(r.stop_label@, "Stop Adhan"@),
        r.is_adhan == (event is PrayerTime),
        match *event {
            ReminderEvent::PrePrayer { prayer_name, minutes_left, prev_check } => {
                &&& tr_pair(r.title@, "Upcoming Prayer:"@, prayer_name@)
                &&& exists|p: Seq<char>, i: Seq<char>, m: Seq<char>|
                    #![trigger tr_of(p, prayer_name@), tr_of(i, "is in"@), tr_of(m, "minutes"@)]
                    tr_of(p, prayer_name@) && tr_of(i, "is in"@) && tr_of(m, "minutes"@) && match prev_check {
                        Some((n, _)) => exists|q: Seq<char>, t: Seq<char>|
                            #![trigger tr_of(q, "Previous prayer"@), tr_of(t, n@)]
                            tr_of(q, "Previous prayer"@) && tr_of(t, n@) && r.body@ == p + " "@ + i + " "@
                                + text::decimal_text(minutes_left as nat) + " "@ + m + " ("@ + q + ": "@ + t + ")"@,
                        None => r.body@ == p + " "@ + i + " "@ + text::decimal_text(minutes_left as nat) + " "@ + m,
                    }
            },
            ReminderEvent::PrayerTime { prayer_name } => {
                &&& tr_pair(r.title@, "It's time for"@, prayer_name@)
                &&& exists|x: Seq<char>, y: Seq<char>|
                    #![trigger tr_of(x, "It is now time for"@), tr_of(y, prayer_name@)]
                    tr_of(x, "It is now time for"@) && tr_of(y, prayer_name@) && r.body@ == x + " "@ + y + "."@
            },
            ReminderEvent::Iqamah { prayer_name, delay_mins } => {
                &&& tr_pair(r.title@, "Iqamah"@, prayer_name@)
                &&& exists|x: Seq<char>, y: Seq<char>, m: Seq<char>|
                    #![trigger tr_of(x, "It is time for Iqamah of"@), tr_of(y, prayer_name@), tr_of(m, "minutes"@)]
                    tr_of(x, "It is time for Iqamah of"@) && tr_of(y, prayer_name@) && tr_of(m, "minutes"@) && r.body@
                        == x + " "@ + y + " ("@ + text::decimal_text(delay_mins as nat) + " "@ + m + ")."@
            },
            ReminderEvent::QuranWird { start_page, end_page, remaining_pages, is_startup, .. } => {
                &&& tr_of(r.title@, "Today's Quran Wird"@)
                &&& if is_startup {
                    exists|x: Seq<char>, y: Seq<char>|
                        #![trigger tr_of(x, "Don't forget your Quran reading for today."@), tr_of(y, "Pages"@)]
                        tr_of(x, "Don't forget your Quran reading for today."@) && tr_of(y, "Pages"@) && r.body@
                            == x + " ("@ + y + " "@ + text::decimal_text(start_page as nat) + "–"@
                            + text::decimal_text(end_page as nat) + ")"@
                } else {
                    exists|x: Seq<char>, y: Seq<char>|
                        #![trigger tr_of(x, "You still have"@), tr_of(y, "pages remaining"@)]
                        tr_of(x, "You still have"@) && tr_of(y, "pages remaining"@) && r.body@ == x + " "@
                            + text::decimal_text(remaining_pages as nat) + " "@ + y + "."@
                }
            },
        },
{
    proof {
        reveal_strlit("Open Khushu");
        reveal_strlit("Stop Adhan");
        reveal_strlit("Start Reading");
        reveal_strlit("Later");
        reveal_strlit("Upcoming Prayer:");
        reveal_strlit("is in");
        reveal_strlit("minutes");
        reveal_strlit("Previous prayer");
        reveal_strlit("It's time for");
        reveal_strlit("It is now time for");
        reveal_strlit("Iqamah");
        reveal_strlit("It is time for Iqamah of");
        reveal_strlit("Today's Quran Wird");
        reveal_strlit("Don't forget your Quran reading for today.");
        reveal_strlit("Pages");
        reveal_strlit("You still have");
        reveal_strlit("pages remaining");
    }
    match event {
        ReminderEvent::PrePrayer { prayer_name, minutes_left, prev_check } => {
            let up = tr_text("Upcoming Prayer:");
            let p1 = tr_text(prayer_name.as_str());
            let title = spaced(up, p1.as_str());
            let p2 = tr_text(prayer_name.as_str());
            let is_in = tr_text("is in");
            let mins = tr_text("minutes");
            let mut body = spaced(p2, is_in.as_str());
            body.append(" ");
            text::push_decimal(&mut body, *minutes_left as u64);
            body.append(" ");
            body.append(mins.as_str());
            let ghost base = body@;
            match prev_check {
                Some((prev_name, _)) => {
                    let q = tr_text("Previous prayer");
                    let t = tr_text(prev_name.as_str());
                    body.append(" (");
                    body.append(q.as_str());
                    body.append(": ");
                    body.append(t.as_str());
                    body.append(")");
                    proof {
                        assert(body@ == base + " ("@ + q@ + ": "@ + t@ + ")"@);
                    }
                },
                None => {},
            }
            NotificationContent {
                title,
                body,
                is_adhan: false,
                open_label: tr_text("Open Khushu"),
                stop_label: tr_text("Stop Adhan"),
            }
        },
        ReminderEvent::PrayerTime { prayer_name } => {
            let its = tr_text("It's time for");
            let p1 = tr_text(prayer_name.as_str());
            let title = spaced(its, p1.as_str());
            let now = tr_text("It is now time for");
            let p2 = tr_text(prayer_name.as_str());
            let mut body = spaced(now, p2.as_str());
            body.append(".");
            NotificationContent {
                title,
                body,
                is_adhan: true,
                open_label: tr_text("Open Khushu"),
                stop_label: tr_text("Stop Adhan"),
            }
        },
        ReminderEvent::Iqamah { prayer_name, delay_mins } => {
            let iq = tr_text("Iqamah");
            let p1 = tr_text(prayer_name.as_str());
            let title = spaced(iq, p1.as_str());
            let lead = tr_text("It is time for Iqamah of");
            let p2 = tr_text(prayer_name.as_str());
            let mins = tr_text("minutes");
            let mut body = spaced(lead, p2.as_str());
            body.append(" (");
            text::push_decimal(&mut body, *delay_mins as u64);
            body.append(" ");
            body.append(mins.as_str());
            body.append(").");
            NotificationContent {
                title,
                body,
                is_adhan: false,
                open_label: tr_text("Open Khushu"),
                stop_label: tr_text("Stop Adhan"),
            }
        },
        ReminderEvent::QuranWird { start_page, end_page, remaining_pages, is_startup, .. } => {
            let title = tr_text("Today's Quran Wird");
            let body = if *is_startup {
                let mut b = tr_text("Don't forget your Quran reading for today.");
                let pages = tr_text("Pages");
                b.append(" (");
                b.append(pages.as_str());
                b.append(" ");
                text::push_decimal(&mut b, *start_page as u64);
                b.append("–");
                text::push_decimal(&mut b, *end_page as u64);
                b.append(")");
                b
            } else {
                let lead = tr_text("You still have");
                let rest = tr_text("pages remaining");
                let mut b = lead;
                b.append(" ");
                text::push_decimal(&mut b, *remaining_pages as u64);
                b.append(" ");
                b.append(rest.as_str());
                b.append(".");
                b
            };
            NotificationContent {
                title,
                body,
                is_adhan: false,
                open_label: tr_text("Start Reading"),
                stop_label: tr_text("Later"),
            }
        },
    }
}


/// The heading of a prayer popup and the occasion its reminder is chosen
/// for.
pub struct PrayerPopup {
    pub title: String,
    pub hero: String,
    pub category: ContentCategory,
}

/// The heading of the popup for a prayer reminder: before the prayer, the
/// prayer and the minutes left; at its time, the call; at the iqamah, its
/// approach. A Quran reminder has a popup of its own (`None`).
pub fn prayer_popup_heading(event: &ReminderEvent) -> (r: Option<PrayerPopup>)
    requires
        event_keys_ok(*event),
    ensures
        r is None <==> event is QuranWird,
        match (*event, r) {
            (ReminderEvent::PrePrayer { prayer_name, minutes_left, .. }, Some(h)) => {
                &&& h.category == ContentCategory::PrePrayer
                &&& tr_of(h.title@, "Prayer Reminder"@)
                &&& exists|p: Seq<char>, i: Seq<char>, m: Seq<char>|
                    #![trigger tr_of(p, prayer_name@), tr_of(i, "in"@), tr_of(m, "minutes"@)]
                    tr_of(p, prayer_name@) && tr_of(i, "in"@) && tr_of(m, "minutes"@) && h.hero@ == p + " "@ + i
                        + " "@ + text::decimal_text(minutes_left as nat) + " "@ + m
            },
            (ReminderEvent::PrayerTime { prayer_name }, Some(h)) => {
                &&& h.category == ContentCategory::PrayerTime
                &&& tr_of(h.title@, "Prayer Time"@)
                &&& tr_pair(h.hero@, "It's time for"@, prayer_name@)
            },
            (ReminderEvent::Iqamah { prayer_name, .. }, Some(h)) => {
                &&& h.category == ContentCategory::Iqamah
                &&& tr_of(h.title@, "Iqamah Reminder"@)
                &&& tr_pair(h.hero@, "Approaching Iqamah for"@, prayer_name@)
            },
            _ => true,
        },
{
    proof {
        reveal_strlit("Prayer Reminder");
        reveal_strlit("in");
        reveal_strlit("minutes");
        reveal_strlit("Prayer Time");
        reveal_strlit("It's time for");
        reveal_strlit("Iqamah Reminder");
        reveal_strlit("Approaching Iqamah for");
    }
    match event {
        ReminderEvent::PrePrayer { prayer_name, minutes_left, .. } => {
            let p = tr_text(prayer_name.as_str());
            let i = tr_text("in");
            let m = tr_text("minutes");
            let mut hero = spaced(p, i.as_str());
            hero.append(" ");
            text::push_decimal(&mut hero, *minutes_left as u64);
            hero.append(" ");
            hero.append(m.as_str());
            Some(PrayerPopup { title: tr_text("Prayer Reminder"), hero, category: ContentCategory::PrePrayer })
        },
        ReminderEvent::PrayerTime { prayer_name } => {
            let lead = tr_text("It's time for");
            let p = tr_text(prayer_name.as_str());
            Some(PrayerPopup {
                title: tr_text("Prayer Time"),
                hero: spaced(lead, p.as_str()),
                category: ContentCategory::PrayerTime,
            })
        },
        ReminderEvent::Iqamah { prayer_name, .. } => {
            let lead = tr_text("Approaching Iqamah for");
            let p = tr_text(prayer_name.as_str());
            Some(PrayerPopup {
                title: tr_text("Iqamah Reminder"),
                hero: spaced(lead, p.as_str()),
                category: ContentCategory::Iqamah,
            })
        },
        ReminderEvent::QuranWird { .. } => None,
    }
}

/// The texts of the Quran reminder popup and the page its button opens.
pub struct WirdPopup {
    pub title: String,
    pub subtitle: String,
    pub goal_row: String,
    pub range_row: String,
    pub read_label: String,
    pub later_label: String,
    pub target_page: u32,
}

/// The Quran reminder popup: at startup, the day's goal in pages and a
/// "Start Reading" button; later, the pages done and left and "Continue
/// Reading"; always the day's range, and a button that opens the page to
/// read next.
pub fn wird_popup_content(
    start_page: u32,
    end_page: u32,
    total_pages: u32,
    completed_pages: u32,
    remaining_pages: u32,
    target_page: u32,
    is_startup: bool,
) -> (r: WirdPopup)
    ensures
        tr_of(r.title@, "Today's Quran Wird"@),
        tr_of(r.later_label@, "Later"@),
        r.target_page == target_page,
        exists|x: Seq<char>| #![trigger tr_of(x, "Today's Range"@)] tr_of(x, "Today's Range"@) && r.range_row@ == x + ": "@
            + text::decimal_text(start_page as nat) + "–"@ + text::decimal_text(end_page as nat),
        is_startup ==> {
            &&& tr_of(r.subtitle@, "Don't forget your Quran reading for today."@)
            &&& tr_of(r.read_label@, "Start Reading"@)
            &&& exists|g: Seq<char>, p: Seq<char>| #![trigger tr_of(g, "Today's Goal"@), tr_of(p, "pages"@)]
                tr_of(g, "Today's Goal"@) && tr_of(p, "pages"@) && r.goal_row@ == g + ": "@ + text::decimal_text(
                    total_pages as nat,
                ) + " "@ + p
        },
        !is_startup ==> {
            &&& tr_of(r.read_label@, "Continue Reading"@)
            &&& exists|x: Seq<char>, y: Seq<char>| #![trigger tr_of(x, "You still have"@), tr_of(y, "pages remaining"@)]
                tr_of(x, "You still have"@) && tr_of(y, "pages remaining"@) && r.subtitle@ == x + " "@ + text::decimal_text(
                    remaining_pages as nat,
                ) + " "@ + y + "."@
            &&& exists|c: Seq<char>, p: Seq<char>| #![trigger tr_of(c, "Completed"@), tr_of(p, "pages"@)]
                tr_of(c, "Completed"@) && tr_of(p, "pages"@) && r.goal_row@ == c + ": "@ + text::decimal_text(
                    completed_pages as nat,
                ) + " / "@ + text::decimal_text(total_pages as nat) + " "@ + p
        },
{
    proof {
        reveal_strlit("Today's Quran Wird");
        reveal_strlit("Later");
        reveal_strlit("Today's Range");
        reveal_strlit("Don't forget your Quran reading for today.");
        reveal_strlit("Start Reading");
        reveal_strlit("Today's Goal");
        reveal_strlit("pages");
        reveal_strlit("Continue Reading");
        reveal_strlit("You still have");
        reveal_strlit("pages remaining");
        reveal_strlit("Completed");
    }
    let title = tr_text("Today's Quran Wird");
    let mut range_row = tr_text("Today's Range");
    range_row.append(": ");
    text::push_decimal(&mut range_row, start_page as u64);
    range_row.append("–");
    text::push_decimal(&mut range_row, end_page as u64);
    let pages = tr_text("pages");
    if is_startup {
        let subtitle = tr_text("Don't forget your Quran reading for today.");
        let mut goal_row = tr_text("Today's Goal");
        goal_row.append(": ");
        text::push_decimal(&mut goal_row, total_pages as u64);
        goal_row.append(" ");
        goal_row.append(pages.as_str());
        WirdPopup {
            title,
            subtitle,
            goal_row,
            range_row,
            read_label: tr_text("Start Reading"),
            later_label: tr_text("Later"),
            target_page,
        }
    } else {
        let mut subtitle = tr_text("You still have");
        let rest = tr_text("pages remaining");
        subtitle.append(" ");
        text::push_decimal(&mut subtitle, remaining_pages as u64);
        subtitle.append(" ");
        subtitle.append(rest.as_str());
        subtitle.append(".");
        let mut goal_row = tr_text("Completed");
        goal_row.append(": ");
        text::push_decimal(&mut goal_row, completed_pages as u64);
        goal_row.append(" / ");
        text::push_decimal(&mut goal_row, total_pages as u64);
        goal_row.append(" ");
        goal_row.append(pages.as_str());
        WirdPopup {
            title,
            subtitle,
            goal_row,
            range_row,
            read_label: tr_text("Continue Reading"),
            later_label: tr_text("Later"),
            target_page,
        }
    }
}

/// A reminder's text in quotation marks.
pub fn quote_text(text: &str) -> (r: String)
    ensures
        r@ == "“"@ + text@ + "”"@,
{
    let mut r = text::to_owned_string("“");
    r.append(text);
    r.append("”");
    r
}

/// A reminder's source after a dash.
pub fn source_text(source: &str) -> (r: String)
    ensures
        r@ == "— "@ + source@,
{
    let mut r = text::to_owned_string("— ");
    r.append(source);
    r
}

/// The question about the previous prayer: "Did you pray" and its name.
pub fn previous_prayer_prompt(prev_name: &str) -> (r: String)
    requires
        tr_key(prev_name@),
    ensures
        exists|x: Seq<char>, y: Seq<char>| #![trigger tr_of(x, "Did you pray"@), tr_of(y, prev_name@)]
            tr_of(x, "Did you pray"@) && tr_of(y, prev_name@) && r@ == x + " "@ + y + "?"@,
{
    proof {
        reveal_strlit("Did you pray");
    }
    let lead = tr_text("Did you pray");
    let name = tr_text(prev_name);
    let mut r = spaced(lead, name.as_str());
    r.append("?");
    r
}

} // verus!
