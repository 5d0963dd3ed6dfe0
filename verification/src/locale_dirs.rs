//! Where the translation catalogs are looked for: the application's own
//! locale directory, and for the GTK and libadwaita catalogs the first
//! directory that holds one for the language. What exists on disk is found
//! out by the caller and handed in.
use vstd::prelude::*;
use vstd::string::*;
use crate::i18n;
use crate::text;

verus! {

/// The catalog file of `domain` for directory name `candidate` under `dir`.
pub open spec fn mo_path_text(dir: Seq<char>, candidate: Seq<char>, domain: Seq<char>) -> Seq<char> {
    dir + "/"@ + candidate + "/LC_MESSAGES/"@ + domain + ".mo"@
}

/// The catalog files of `domain` under `dir` tried for a locale value, one
/// per candidate directory name, in order; the catalog exists where one of
/// them does.
pub fn catalog_files(dir: &str, language: &str, domain: &str) -> (r: Vec<String>)
    ensures
        r@.len() == i18n::locale_candidates_text(language@).len(),
        forall|k: int| 0 <= k < r@.len() ==> (#[trigger] r@[k])@ == mo_path_text(
            dir@,
            i18n::locale_candidates_text(language@)[k],
            domain@,
        ),
{
    let cands = i18n::locale_candidates(language);
    let ghost cv = cands@.map_values(|s: String| s@);
    let mut r: Vec<String> = Vec::new();
    let mut k: usize = 0;
    while k < cands.len()
        invariant
            cv == cands@.map_values(|s: String| s@),
            cv == i18n::locale_candidates_text(language@),
            k <= cands@.len(),
            r@.len() == k,
            forall|m: int| 0 <= m < k ==> (#[trigger] r@[m])@ == mo_path_text(dir@, cv[m], domain@),
        decreases cands@.len() - k,
    {
        let mut p = text::to_owned_string(dir);
        p.append("/");
        p.append(cands[k].as_str());
        p.append("/LC_MESSAGES/");
        p.append(domain);
        p.append(".mo");
        proof {
            assert(cv[k as int] == cands@[k as int]@);
            assert(p@ =~= mo_path_text(dir@, cv[k as int], domain@));
        }
        r.push(p);
        k = k + 1;
    }
    r
}

/// What std's `Path::parent` gives for a path (as text), if it has one.
pub uninterp spec fn path_parent(p: Seq<char>) -> Option<Seq<char>>;

/// What std's `Path::join` makes of a base path and a relative path (as
/// text).
pub uninterp spec fn path_join(base: Seq<char>, rest: Seq<char>) -> Seq<char>;

/// The parent of a path, with std's `Path::parent`.
#[verifier::external_body]
fn parent_of(p: &str) -> (r: Option<String>)
    ensures
        match r {
            Some(s) => path_parent(p@) == Some(s@),
            None => path_parent(p@) is None,
        },
{
    std::path::Path::new(p).parent().map(|q| q.to_string_lossy().to_string())
}

/// Two paths joined, with std's `Path::join`.
#[verifier::external_body]
fn joined(base: &str, rest: &str) -> (r: String)
    ensures
        r@ == path_join(base@, rest@),
{
    std::path::Path::new(base).join(rest).to_string_lossy().to_string()
}

/// The directory the application ships the GTK and libadwaita catalogs
/// in: "khushu/locale" beside its own locale directory, or that directory
/// itself where it has no parent.
pub open spec fn bundled_dir_text(locale_dir: Seq<char>) -> Seq<char> {
    match path_parent(locale_dir) {
        Some(p) => path_join(p, "khushu/locale"@),
        None => locale_dir,
    }
}

pub fn bundled_locale_dir(locale_dir: &str) -> (r: String)
    ensures
        r@ == bundled_dir_text(locale_dir@),
{
    match parent_of(locale_dir) {
        Some(p) => joined(p.as_str(), "khushu/locale"),
        None => text::to_owned_string(locale_dir),
    }
}

/// Whether a catalog domain is one the application ships.
pub open spec fn is_bundled_domain(domain: Seq<char>) -> bool {
    domain == "gtk40"@ || domain == "libadwaita"@
}

/// The system directories searched for a library's catalog, in order: the
/// system locale directories, the Snap's, then the application's own.
pub open spec fn system_dirs_text(locale_dir: Seq<char>, snap: Option<Seq<char>>) -> Seq<Seq<char>> {
    seq!["/usr/share/locale"@, "/usr/share/locale-langpack"@] + match snap {
        Some(s) => seq![s + "/usr/share/locale"@],
        None => Seq::empty(),
    } + seq![locale_dir]
}

pub fn system_locale_dirs(locale_dir: &str, snap: Option<&str>) -> (r: Vec<String>)
    ensures
        r@.map_values(|s: String| s@) == system_dirs_text(
            locale_dir@,
            match snap {
                Some(s) => Some(s@),
                None => None,
            },
        ),
{
    let mut r: Vec<String> = Vec::new();
    r.push(text::to_owned_string("/usr/share/locale"));
    r.push(text::to_owned_string("/usr/share/locale-langpack"));
    match snap {
        Some(s) => {
            let mut d = text::to_owned_string(s);
            d.append("/usr/share/locale");
            r.push(d);
        },
        None => {},
    }
    r.push(text::to_owned_string(locale_dir));
    proof {
        assert(r@.map_values(|s: String| s@) =~= system_dirs_text(
            locale_dir@,
            match snap {
                Some(s) => Some(s@),
                None => None,
            },
        ));
    }
    r
}

/// Position of the first directory from `i` on that holds the catalog, or
/// `has.len()`.
pub open spec fn first_true_from(has: Seq<bool>, i: int) -> int
    decreases has.len() - i,
{
    if i >= has.len() || i < 0 {
        has.len() as int
    } else if has[i] {
        i
    } else {
        first_true_from(has, i + 1)
    }
}

/// The directory a library's catalog is bound to: the bundled directory for
/// a domain the application ships where it holds the catalog, else the
/// first system directory that holds it, else the application's own.
pub open spec fn library_dir_spec(
    domain: Seq<char>,
    bundled_dir: Seq<char>,
    bundled_has: bool,
    dirs: Seq<Seq<char>>,
    has: Seq<bool>,
    locale_dir: Seq<char>,
) -> Seq<char> {
    if is_bundled_domain(domain) && bundled_has {
        bundled_dir
    } else {
        let k = first_true_from(has, 0);
        if k < dirs.len() && k < has.len() {
            dirs[k]
        } else {
            locale_dir
        }
    }
}

/// Picks the directory a library's catalog is bound to, from whether the
/// bundled directory and each system directory hold it.
pub fn library_locale_dir(
    domain: &str,
    bundled_dir: &str,
    bundled_has_catalog: bool,
    dirs: &[String],
    has_catalog: &[bool],
    locale_dir: &str,
) -> (r: String)
    ensures
        r@ == library_dir_spec(
            domain@,
            bundled_dir@,
            bundled_has_catalog,
            dirs@.map_values(|s: String| s@),
            has_catalog@,
            locale_dir@,
        ),
{
    proof {
        reveal_strlit("gtk40");
        reveal_strlit("libadwaita");
    }
    if (text::str_equal(domain, "gtk40") || text::str_equal(domain, "libadwaita")) && bundled_has_catalog {
        return text::to_owned_string(bundled_dir);
    }
    let ghost dv = dirs@.map_values(|s: String| s@);
    let mut k: usize = 0;
    while k < has_catalog.len()
        invariant
            dv == dirs@.map_values(|s: String| s@),
            !(is_bundled_domain(domain@) && bundled_has_catalog),
            k <= has_catalog@.len(),
            first_true_from(has_catalog@, 0) == first_true_from(has_catalog@, k as int),
        decreases has_catalog@.len() - k,
    {
        if has_catalog[k] {
            if k < dirs.len() {
                proof {
                    assert(dv[k as int] == dirs@[k as int]@);
                }
                return dirs[k].clone();
            }
            return text::to_owned_string(locale_dir);
        }
        k = k + 1;
    }
    text::to_owned_string(locale_dir)
}

/// The application's locale directory: the build's directory where it
/// exists, else Flatpak's, else the Snap's own (or its system one), else a
/// build tree's `target/locale` (as found on disk), else `po`, else `./po`.
pub open spec fn locale_dir_spec(
    build_dir: Option<Seq<char>>,
    build_dir_exists: bool,
    flatpak_dir_exists: bool,
    snap: Option<Seq<char>>,
    snap_app_dir_exists: bool,
    target_locale: Option<Seq<char>>,
    po_exists: bool,
) -> Seq<char> {
    if build_dir is Some && build_dir_exists {
        build_dir->0
    } else if flatpak_dir_exists {
        "/app/share/locale"@
    } else if snap is Some {
        if snap_app_dir_exists {
            snap->0 + "/usr/share/khushu/locale"@
        } else {
            snap->0 + "/usr/share/locale"@
        }
    } else if target_locale is Some {
        target_locale->0
    } else if po_exists {
        "po"@
    } else {
        "./po"@
    }
}

/// The Snap's own locale directory, whose existence decides the choice.
pub fn snap_app_locale_dir(snap: &str) -> (r: String)
    ensures
        r@ == snap@ + "/usr/share/khushu/locale"@,
{
    let mut r = text::to_owned_string(snap);
    r.append("/usr/share/khushu/locale");
    r
}

/// Picks the application's locale directory from what exists.
pub fn choose_locale_dir(
    build_dir: Option<&str>,
    build_dir_exists: bool,
    flatpak_dir_exists: bool,
    snap: Option<&str>,
    snap_app_dir_exists: bool,
    target_locale: Option<&str>,
    po_exists: bool,
) -> (r: String)
    ensures
        r@ == locale_dir_spec(
            match build_dir {
                Some(s) => Some(s@),
                None => None,
            },
            build_dir_exists,
            flatpak_dir_exists,
            match snap {
                Some(s) => Some(s@),
                None => None,
            },
            snap_app_dir_exists,
            match target_locale {
                Some(s) => Some(s@),
                None => None,
            },
            po_exists,
        ),
{
    match build_dir {
        Some(d) => {
            if build_dir_exists {
                return text::to_owned_string(d);
            }
        },
        None => {},
    }
    if flatpak_dir_exists {
        return text::to_owned_string("/app/share/locale");
    }
    match snap {
        Some(s) => {
            if snap_app_dir_exists {
                return snap_app_locale_dir(s);
            }
            let mut r = text::to_owned_string(s);
            r.append("/usr/share/locale");
            return r;
        },
        None => {},
    }
    match target_locale {
        Some(t) => text::to_owned_string(t),
        None => if po_exists {
            text::to_owned_string("po")
        } else {
            text::to_owned_string("./po")
        },
    }
}

} // verus!
