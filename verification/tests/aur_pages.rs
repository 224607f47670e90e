use opio::helper::{
    aur_git_url, commit_package_name, commit_page_url, downgrade_entry_commit,
    downgrade_entry_label, parse_commit_log, parse_package_page, parse_search_results,
    search_entry, search_entry_name, snapshot_download,
};

const PACKAGE_PAGE: &str = "<div id=\"pkgdetails\" class=\"box\">\n<h2>Package Details: yay 12.3.5-1</h2>\n<table id=\"pkginfo\"><tr><th>Git Clone URL:</th><td><a class=\"copy\" href=\"https://aur.archlinux.org/yay.git\">https://aur.archlinux.org/yay.git</a></td></tr></table>";

#[test]
fn package_page_gives_name_version_and_git_url() {
    let (name, version, url) = parse_package_page(PACKAGE_PAGE).unwrap();
    assert_eq!(name, "yay");
    assert_eq!(version, "12.3.5-1");
    assert_eq!(url, "https://aur.archlinux.org/yay.git");
}

#[test]
fn package_page_without_details_is_refused() {
    assert_eq!(parse_package_page("<h2>Not found</h2>"), None);
}

#[test]
fn package_page_title_without_version_is_refused() {
    let page = "<h2>Package Details: yay</h2><a class=\"copy\" href=\"x\">";
    assert_eq!(parse_package_page(page), None);
}

#[test]
fn package_page_without_git_url_is_refused() {
    let page = "<h2>Package Details: yay 1.0-1</h2>";
    assert_eq!(parse_package_page(page), None);
}

const LOG_PAGE: &str = "<table class='list nowrap'><tr class='nohover'><th class='left'>Age</th><th class='left'>Commit message</th><th class='left'>Author</th></tr>\n<tr><td><span title='2024-01-02 10:00:00 +0000'>2 months</span></td><td><a href='/cgit/aur.git/commit/?h=yay&amp;id=abc123'>Update to 12.3.5</a></td><td>Jo</td></tr>\n<tr><td><span title='2023-12-01 10:00:00 +0000'>3 months</span></td><td><a href='/cgit/aur.git/commit/?h=yay&amp;id=def456'>Update to 12.3.4</a></td><td>Al</td></tr>\n</table>";

const FIRST_COMMIT: &str = "2 months[.]\x1b[1;34m[Commit message: Update to 12.3.5][.]\x1b[m\x1b[1;37mby: Jo\x1b[m[.]/cgit/aur.git/commit/?h=yay&amp;id=abc123";

#[test]
fn commit_log_lists_each_commit_with_its_link() {
    let commits = parse_commit_log(LOG_PAGE).unwrap();
    assert_eq!(commits.len(), 2);
    assert_eq!(commits[0], FIRST_COMMIT);
    assert_eq!(
        commits[1],
        "3 months[.]\x1b[1;34m[Commit message: Update to 12.3.4][.]\x1b[m\x1b[1;37mby: Al\x1b[m[.]/cgit/aur.git/commit/?h=yay&amp;id=def456"
    );
}

#[test]
fn commit_log_without_table_is_refused() {
    assert_eq!(parse_commit_log("<html></html>"), None);
}

#[test]
fn commit_log_row_without_link_is_refused() {
    let page = "<table class='list nowrap'><tr><td>Jo</td></tr></table>";
    assert_eq!(parse_commit_log(page), None);
}

#[test]
fn commit_log_with_empty_table_is_empty() {
    let page = "<table class='list nowrap'></table>";
    assert_eq!(parse_commit_log(page), Some(vec![]));
}

#[test]
fn logged_commit_gives_label_and_link() {
    let commits = parse_commit_log(LOG_PAGE).unwrap();
    assert_eq!(
        downgrade_entry_label(&commits[0]).unwrap(),
        "2 months \x1b[1;34m[Commit message: Update to 12.3.5] \x1b[m\x1b[1;37mby: Jo\x1b[m"
    );
    assert_eq!(
        downgrade_entry_commit(&commits[0]).unwrap(),
        "/cgit/aur.git/commit/?h=yay&amp;id=abc123"
    );
}

#[test]
fn entry_with_too_few_fields_has_no_label_or_link() {
    assert_eq!(downgrade_entry_label("a[.]b"), None);
    assert_eq!(downgrade_entry_commit("a[.]b[.]c"), None);
    assert_eq!(downgrade_entry_label("a[.]b[.]c"), Some("a b c".to_string()));
}

#[test]
fn commit_page_url_drops_html_escapes() {
    assert_eq!(
        commit_page_url("/cgit/aur.git/commit/?h=yay&amp;id=abc123"),
        "https://aur.archlinux.org/cgit/aur.git/commit/?h=yay&id=abc123"
    );
}

#[test]
fn commit_page_gives_snapshot_address_and_name() {
    let page = "<table><tr><th>download</th><td colspan='2' class='oid'><a href='/cgit/aur.git/snapshot/yay-abc123.tar.gz'>yay-abc123.tar.gz</a></td></tr></table>";
    let (url, name) = snapshot_download(page).unwrap();
    assert_eq!(url, "https://aur.archlinux.org/cgit/aur.git/snapshot/yay-abc123.tar.gz");
    assert_eq!(name, "yay-abc123.tar.gz");
    assert_eq!(commit_package_name(&name), "yay-abc123");
}

#[test]
fn commit_page_without_download_is_refused() {
    assert_eq!(snapshot_download("<th>commit</th>"), None);
    let page = "<th>download</th><td colspan='2' class='oid'><a href='/cgit/aur.git/plain/x'>x</a>";
    assert_eq!(snapshot_download(page), None);
}

#[test]
fn commit_package_name_without_suffix_is_whole_name() {
    assert_eq!(commit_package_name("yay-abc"), "yay-abc");
}

const SEARCH_PAGE: &str = "<table class=\"results\"><thead><tr><th>Name</th></tr></thead>\n<tbody>\n<tr>\n<td><a href=\"/packages/yay\">yay</a></td>\n<td>12.3.5-1</td>\n<td>2000</td>\n<td>20.5</td>\n<td class=\"wrap\">Yet another yogurt</td>\n<td>jguer</td>\n<td>2024-01-01 10:00 (UTC)</td>\n</tr>\n<tr>\n<td><a href=\"/packages/yay-bin\">yay-bin</a></td>\n<td class=\"flagged\">12.0.0-1</td>\n<td>10</td>\n<td>1.0</td>\n<td class=\"wrap\">Binary</td>\n<td>jguer</td>\n<td>2023-05-01 10:00 (UTC)</td>\n</tr>\n</tbody></table>";

#[test]
fn search_page_lists_results() {
    let results = parse_search_results(SEARCH_PAGE).unwrap();
    assert_eq!(results.len(), 2);
    assert_eq!(
        results[0],
        "yay \x1b[1;34m[12.3.5-1]\x1b[m \x1b[1;37m[2024-01-01 10:00 (UTC)]\x1b[m"
    );
    assert_eq!(
        results[1],
        "yay-bin [12.0.0-1] [2023-05-01 10:00 (UTC)] [FLAGGED OUTDATED]"
    );
}

#[test]
fn search_page_flag_with_date_sets_the_date() {
    let page = "<tbody><tr><td><a href=\"/packages/foo\">foo</a></td><td>1.0-1</td><td class=\"flagged\">2023-01-01 (UTC)</td></tr></tbody>";
    let results = parse_search_results(page).unwrap();
    assert_eq!(results, vec!["foo [1.0-1] [2023-01-01 (UTC)] [FLAGGED OUTDATED]".to_string()]);
}

#[test]
fn search_page_without_results_is_empty() {
    assert_eq!(parse_search_results("<p>No packages matched.</p>"), Some(vec![]));
}

#[test]
fn search_page_with_unreadable_cell_is_refused() {
    assert_eq!(parse_search_results("<tbody><tr><td>a</td><td</td></tr></tbody>"), None);
}

#[test]
fn search_result_name_is_read_back() {
    let results = parse_search_results(SEARCH_PAGE).unwrap();
    assert_eq!(search_entry_name(&results[1]), "yay-bin");
    let entry = search_entry("foo", "1.0", "today", false);
    assert_eq!(entry, "foo \x1b[1;34m[1.0]\x1b[m \x1b[1;37m[today]\x1b[m");
    assert_eq!(search_entry_name(&entry), "foo");
    let flagged = search_entry("foo", "1.0", "today", true);
    assert_eq!(flagged, "foo [1.0] [today] [FLAGGED OUTDATED]");
    assert_eq!(search_entry_name(&flagged), "foo");
}

#[test]
fn git_url_of_package() {
    assert_eq!(aur_git_url("yay"), "https://aur.archlinux.org/yay.git");
}
