use khushu::locale_dirs::{
    bundled_locale_dir, catalog_files, choose_locale_dir, library_locale_dir, snap_app_locale_dir,
    system_locale_dirs,
};

#[test]
fn catalog_files_follow_the_locale_candidates() {
    assert_eq!(
        catalog_files("/usr/share/locale", "pt_BR.UTF-8", "gtk40"),
        vec![
            "/usr/share/locale/pt_BR/LC_MESSAGES/gtk40.mo".to_string(),
            "/usr/share/locale/pt-BR/LC_MESSAGES/gtk40.mo".to_string(),
            "/usr/share/locale/pt/LC_MESSAGES/gtk40.mo".to_string(),
        ]
    );
    assert_eq!(catalog_files("d", "", "khushu"), vec!["d/en/LC_MESSAGES/khushu.mo".to_string()]);
}

#[test]
fn library_catalog_directories() {
    assert_eq!(bundled_locale_dir("/app/share/locale"), "/app/share/khushu/locale");
    let dirs = system_locale_dirs("/opt/k/locale", Some("/snap/k/1"));
    assert_eq!(
        dirs,
        vec![
            "/usr/share/locale".to_string(),
            "/usr/share/locale-langpack".to_string(),
            "/snap/k/1/usr/share/locale".to_string(),
            "/opt/k/locale".to_string(),
        ]
    );
    assert_eq!(system_locale_dirs("x", None).len(), 3);
    assert_eq!(library_locale_dir("gtk40", "/b", true, &dirs, &[true, false, false, false], "/own"), "/b");
    assert_eq!(
        library_locale_dir("other", "/b", true, &dirs, &[false, true, false, false], "/own"),
        "/usr/share/locale-langpack"
    );
    assert_eq!(library_locale_dir("libadwaita", "/b", false, &dirs, &[false, false, false, false], "/own"), "/own");
}

#[test]
fn application_locale_directory() {
    assert_eq!(choose_locale_dir(Some("/usr/local/share/locale"), true, true, None, false, None, true), "/usr/local/share/locale");
    assert_eq!(choose_locale_dir(Some("/missing"), false, true, None, false, None, true), "/app/share/locale");
    assert_eq!(snap_app_locale_dir("/snap/k/2"), "/snap/k/2/usr/share/khushu/locale");
    assert_eq!(choose_locale_dir(None, false, false, Some("/snap/k/2"), true, None, true), "/snap/k/2/usr/share/khushu/locale");
    assert_eq!(choose_locale_dir(None, false, false, Some("/snap/k/2"), false, None, true), "/snap/k/2/usr/share/locale");
    assert_eq!(choose_locale_dir(None, false, false, None, false, Some("/src/target/locale"), true), "/src/target/locale");
    assert_eq!(choose_locale_dir(None, false, false, None, false, None, true), "po");
    assert_eq!(choose_locale_dir(None, false, false, None, false, None, false), "./po");
}
