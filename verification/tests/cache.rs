use tealdeer::cache::{
    cache_dir_choice, cache_freshness, custom_page_name, custom_patch_name, find_page,
    last_update_age, list_page_names, official_page_paths, page_rel_path, platform_dir,
    should_update_cache, CacheFreshness, PageFact, PageLookupResult, PathSource,
    MAX_CACHE_AGE_SECS,
};
use tealdeer::error::TealdeerError;
use tealdeer::types::{get_os, should_enable_styles, ColorOptions, OsType};

#[test]
fn update_requested_always_updates() {
    assert!(should_update_cache(true, false, 100, Some(0)));
}

#[test]
fn auto_update_missing_cache_updates() {
    assert!(should_update_cache(false, true, 100, None));
}

#[test]
fn auto_update_respects_interval() {
    assert!(!should_update_cache(false, true, 100, Some(99)));
    assert!(should_update_cache(false, true, 100, Some(100)));
}

#[test]
fn no_update_without_request_or_auto_update() {
    assert!(!should_update_cache(false, false, 100, None));
}

#[test]
fn age_is_none_only_before_first_population() {
    assert_eq!(last_update_age(None, 12345), None);
    assert_eq!(last_update_age(Some(12345), 12345), Some(0));
    assert_eq!(last_update_age(Some(40), 100), Some(60));
    // A marker in the future counts as age zero rather than failing.
    assert_eq!(last_update_age(Some(200), 100), Some(0));
}

#[test]
fn freshness_classification() {
    assert_eq!(cache_freshness(None, MAX_CACHE_AGE_SECS), CacheFreshness::Missing);
    assert_eq!(cache_freshness(Some(MAX_CACHE_AGE_SECS), MAX_CACHE_AGE_SECS), CacheFreshness::Fresh);
    assert_eq!(
        cache_freshness(Some(MAX_CACHE_AGE_SECS + 1), MAX_CACHE_AGE_SECS),
        CacheFreshness::Stale(MAX_CACHE_AGE_SECS + 1)
    );
    assert_eq!(cache_freshness(Some(0), MAX_CACHE_AGE_SECS), CacheFreshness::Fresh);
}

#[test]
fn cache_dir_override_wins() {
    let r = cache_dir_choice(Some("/override".to_string()), Some("/default".to_string()));
    assert_eq!(r, Ok(("/override".to_string(), PathSource::EnvVar)));
    let r = cache_dir_choice(None, Some("/default".to_string()));
    assert_eq!(r, Ok(("/default".to_string(), PathSource::OsConvention)));
    let r = cache_dir_choice(None, None);
    assert!(matches!(r, Err(TealdeerError::ConfigError(_))));
}

#[test]
fn page_paths_follow_language_then_platform_order() {
    let langs = vec!["fr".to_string(), "en".to_string()];
    let paths = official_page_paths("tar", &langs, OsType::Linux);
    assert_eq!(
        paths,
        vec![
            "pages.fr/linux/tar.md",
            "pages.fr/common/tar.md",
            "pages/linux/tar.md",
            "pages/common/tar.md",
        ]
    );
}

#[test]
fn unknown_platform_probes_only_common_pages() {
    let langs = vec!["en".to_string()];
    let paths = official_page_paths("tar", &langs, OsType::Other);
    assert_eq!(paths, vec!["pages/common/tar.md"]);
}

#[test]
fn relative_path_shape() {
    assert_eq!(page_rel_path("tar", "en", "linux"), "pages/linux/tar.md");
    assert_eq!(page_rel_path("git-log", "pt_BR", "osx"), "pages.pt_BR/osx/git-log.md");
    assert_eq!(custom_page_name("tar"), "tar.md");
    assert_eq!(custom_patch_name("tar"), "tar.patch.md");
    assert_eq!(platform_dir(OsType::Windows), "windows");
}

#[test]
fn custom_override_page_wins_alone() {
    let officials = vec![PageFact { path: "pages/linux/tar.md".to_string(), exists: true }];
    let r = find_page(
        Some("custom/tar.md".to_string()),
        Some("custom/tar.patch.md".to_string()),
        &officials,
    );
    let r = r.expect("override must match");
    assert_eq!(r.paths(), vec!["custom/tar.md"]);
}

#[test]
fn patch_page_follows_official_page() {
    let officials = vec![PageFact { path: "pages/linux/tar.md".to_string(), exists: true }];
    let r = find_page(None, Some("custom/tar.patch.md".to_string()), &officials);
    let r = r.expect("official page must match");
    assert_eq!(r.paths(), vec!["pages/linux/tar.md", "custom/tar.patch.md"]);
}

#[test]
fn first_existing_official_page_wins() {
    let officials = vec![
        PageFact { path: "pages.fr/linux/tar.md".to_string(), exists: false },
        PageFact { path: "pages.fr/common/tar.md".to_string(), exists: true },
        PageFact { path: "pages/linux/tar.md".to_string(), exists: true },
    ];
    let r = find_page(None, None, &officials).expect("a page exists");
    assert_eq!(r.paths(), vec!["pages.fr/common/tar.md"]);
}

#[test]
fn lookup_misses_without_any_file() {
    let officials = vec![
        PageFact { path: "pages/linux/tar.md".to_string(), exists: false },
        PageFact { path: "pages/common/tar.md".to_string(), exists: false },
    ];
    // A patch file alone composes nothing: the lookup misses.
    let r = find_page(None, Some("custom/tar.patch.md".to_string()), &officials);
    assert_eq!(r, None);
}

#[test]
fn direct_render_request_is_a_single_file() {
    let r = PageLookupResult::with_page("some/file.md".to_string());
    assert_eq!(r.paths(), vec!["some/file.md"]);
    let r = r.with_optional_patch(Some("patch.md".to_string()));
    assert_eq!(r.paths(), vec!["some/file.md", "patch.md"]);
}

#[test]
fn page_listing_strips_suffix_and_deduplicates() {
    let files = vec![
        "tar.md".to_string(),
        "gzip.md".to_string(),
        "tar.md".to_string(),
        "notes.txt".to_string(),
    ];
    assert_eq!(list_page_names(&files), vec!["tar", "gzip"]);
}

#[test]
fn operating_system_classification() {
    assert_eq!(get_os("linux"), OsType::Linux);
    assert_eq!(get_os("macos"), OsType::OsX);
    assert_eq!(get_os("freebsd"), OsType::OsX);
    assert_eq!(get_os("windows"), OsType::Windows);
    assert_eq!(get_os("plan9"), OsType::Other);
}

#[test]
fn styling_switch() {
    assert!(should_enable_styles(ColorOptions::Always, false, true, false));
    assert!(!should_enable_styles(ColorOptions::Never, true, false, true));
    assert!(should_enable_styles(ColorOptions::Auto, true, false, true));
    assert!(!should_enable_styles(ColorOptions::Auto, true, true, true));
    assert!(!should_enable_styles(ColorOptions::Auto, true, false, false));
}

#[test]
fn error_kinds_carry_their_message() {
    assert_eq!(TealdeerError::CacheError("boom".to_string()).message(), "boom");
    assert_eq!(TealdeerError::ConfigError("bad".to_string()).message(), "bad");
    assert_eq!(TealdeerError::UpdateError("net".to_string()).message(), "net");
}
