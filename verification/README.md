# khushu

The logic of Khushu, a prayer-times, Quran and adhkar companion for the
desktop, as a library whose behaviour is stated in contracts and proved with
Verus.

- `src/` is the verified library: reading and memorisation planners, the
  prayer log, reminders and their texts, the adhkar picks and favorites,
  settings values and their migration, the Hijri calendar grid, Quran page
  markers, layout and search, Mawaqit schedules, locale and time-zone labels,
  the audio decision step, and the small text and path helpers these use.
  Calls into chrono, chrono-tz, hijri_date, ICU, gettext, base64, rand,
  urlencoding, serde_json and reqwest's URL parser stand behind trusted
  wrappers whose contracts say what the call returns.
- `tests/` runs the library with those crates linked.
- `app/` is the command-line program around the library: files on disk,
  network requests, the environment, and the few computations done in
  floating point (qibla bearing, coordinates, progress percentages).
