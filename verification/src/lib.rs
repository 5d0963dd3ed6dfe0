//! Core logic of a prayer-times and Quran companion: locale handling,
//! reading and memorisation planners, prayer tracking and reminder content.

pub mod i18n;
pub mod text;
pub mod dates;
pub mod quran_index;
pub mod planner;
pub mod config;
pub mod prayer_tracker;
pub mod islamic_content;
pub mod security;
pub mod mawaqit;
pub mod location;
pub mod adkar;
pub mod platform;
pub mod arabic;
pub mod audio;
pub mod reminder;
pub mod calendar;
pub mod quran_pages;
pub mod style;
pub mod quran_text;
pub mod planner_progress;
pub mod shell;
pub mod settings_model;
pub mod locale_dirs;
