use opio::downgrade::{
    archive_choice, archive_package_url, archive_versions, cache_entries, mark_cached,
    parse_archive_listing, ArchiveChoice,
};

const LISTING: &str = "<html><body><h1>Index of /packages/y/yay/</h1><hr><pre><a href=\"../\">../</a>\n<a href=\"yay-1.0-1-x86_64.pkg.tar.zst\">yay-1.0-1-x86_64.pkg.tar.zst</a>                       01-Jan-2020 10:00             1048576\r\n<a href=\"yay-1.0-1-x86_64.pkg.tar.zst.sig\">yay-1.0-1-x86_64.pkg.tar.zst.sig</a>                   01-Jan-2020 10:00                 310\n<a href=\"yay-2.0-1-x86_64.pkg.tar.zst\">yay-2.0-1-x86_64.pkg.tar.zst</a>                       01-Feb-2020 10:00             2097152\n<a href=\"yay-2.0-1-x86_64.pkg.tar.zst.sig\">yay-2.0-1-x86_64.pkg.tar.zst.sig</a>                   01-Feb-2020 10:00                 310\n<a href=\"yay-3.0-1-x86_64.pkg.tar.zst\">yay-3.0-1-x86_64.pkg.tar.zst</a>                       01-Mar-2020 10:00             3145728\n</pre><hr></body></html>";

#[test]
fn listing_gives_versions_but_the_last() {
    let versions = parse_archive_listing(LISTING);
    assert_eq!(
        versions,
        vec![
            "yay-1.0-1-x86_64.pkg.tar.zst   01-Jan-2020   10:00   1048576".to_string(),
            "yay-2.0-1-x86_64.pkg.tar.zst   01-Feb-2020   10:00   2097152".to_string(),
        ]
    );
}

#[test]
fn listing_without_packages_is_empty() {
    assert!(parse_archive_listing("<pre></pre>").is_empty());
    assert!(parse_archive_listing("<a href=\"a.pkg.tar.zst\">a</a>").is_empty());
}

#[test]
fn listing_keeps_empty_words_made_by_line_breaks() {
    let data = "x.pkg.tar.zst\">a.pkg.tar.zst</a> \n 5\n.pkg.tar.zst\">";
    assert_eq!(parse_archive_listing(data), vec!["a.pkg.tar.zst      5".to_string()]);
}

#[test]
fn versions_are_offered_newest_first() {
    let versions = archive_versions(LISTING, true, &vec![]);
    assert_eq!(
        versions,
        vec![
            "yay-2.0-1-x86_64.pkg.tar.zst   01-Feb-2020   10:00   2097152".to_string(),
            "yay-1.0-1-x86_64.pkg.tar.zst   01-Jan-2020   10:00   1048576".to_string(),
        ]
    );
}

#[test]
fn cached_versions_are_marked() {
    let cache = vec!["yay-1.0-1-x86_64.pkg.tar.zst".to_string()];
    let versions = archive_versions(LISTING, false, &cache);
    assert_eq!(versions[0], "yay-2.0-1-x86_64.pkg.tar.zst   01-Feb-2020   10:00   2097152");
    assert_eq!(versions[1], "yay-1.0-1-x86_64.pkg.tar.zst   [Cache]");
    let ignored = archive_versions(LISTING, true, &cache);
    assert_eq!(ignored[1], "yay-1.0-1-x86_64.pkg.tar.zst   01-Jan-2020   10:00   1048576");
}

#[test]
fn last_matching_cache_entry_wins() {
    let versions = vec!["abc".to_string(), "xyz".to_string()];
    let cache = vec!["a".to_string(), "ab".to_string()];
    assert_eq!(
        mark_cached(&versions, &cache),
        vec!["ab   [Cache]".to_string(), "xyz".to_string()]
    );
}

#[test]
fn cache_entries_keep_matching_names_without_quotes() {
    let names = vec![
        "\"yay-1.0-1-x86_64.pkg.tar.zst\"".to_string(),
        "\"vim-9.0-1-x86_64.pkg.tar.zst\"".to_string(),
        "\"yay-2.0-1-x86_64.pkg.tar.zst.sig\"".to_string(),
    ];
    assert_eq!(
        cache_entries(&names, "yay"),
        vec![
            "yay-1.0-1-x86_64.pkg.tar.zst".to_string(),
            "yay-2.0-1-x86_64.pkg.tar.zst.sig".to_string(),
        ]
    );
    assert!(cache_entries(&names, "emacs").is_empty());
}

#[test]
fn archive_directory_of_package() {
    assert_eq!(archive_package_url("yay"), "https://archive.archlinux.org/packages/y/yay");
}

#[test]
fn listed_version_is_downloaded_from_the_archive() {
    let choice = archive_choice("yay", "yay-1.0-1-x86_64.pkg.tar.zst   01-Jan-2020   10:00   1048576");
    assert_eq!(
        choice,
        Some(ArchiveChoice::Download {
            file: "yay-1.0-1-x86_64.pkg.tar.zst".to_string(),
            url: "https://archive.archlinux.org/packages/y/yay/yay-1.0-1-x86_64.pkg.tar.zst".to_string(),
        })
    );
}

#[test]
fn marked_version_is_still_downloaded() {
    let choice = archive_choice("yay", "yay-1.0-1-x86_64.pkg.tar.zst   [Cache]");
    assert!(matches!(choice, Some(ArchiveChoice::Download { .. })));
}

#[test]
fn second_field_naming_the_cache_installs_from_it() {
    assert_eq!(
        archive_choice("yay", "yay-1.0-1-x86_64.pkg.tar.zst [Cache]"),
        Some(ArchiveChoice::FromCache {
            path: "/var/cache/pacman/pkg/yay-1.0-1-x86_64.pkg.tar.zst".to_string()
        })
    );
}

#[test]
fn entry_without_space_has_no_choice() {
    assert_eq!(archive_choice("yay", "yay-1.0-1-x86_64.pkg.tar.zst"), None);
}
