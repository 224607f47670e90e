use opio::cli::{default_file_path, select_mode, Mode};
use opio::update::{plan_upgrade, UpgradePlan};
use opio::utils::banner::{about, banner_text};
use opio::utils::log::{error_line, success_line, wait_line, warning_line, ERROR};
use opio::utils::packages::{
    current_version_label, installed_version_text, is_up_to_date, reversed,
};
use opio::utils::status::status_mark;

#[test]
fn reversed_lists_backwards() {
    let v = vec!["a".to_string(), "b".to_string(), "c".to_string()];
    let r = reversed(&v);
    assert_eq!(r, vec!["c".to_string(), "b".to_string(), "a".to_string()]);
    assert_eq!(reversed(&r), v);
    assert!(reversed(&vec![]).is_empty());
}

#[test]
fn pacman_output_gives_current_version_label() {
    assert_eq!(
        current_version_label("yay 12.3.5-1\n"),
        Some(" [ current: 12.3.5-1 ]".to_string())
    );
    assert_eq!(current_version_label(""), Some(String::new()));
}

#[test]
fn pacman_output_without_version_gives_no_label() {
    assert_eq!(current_version_label("yay\n"), None);
    assert_eq!(current_version_label("  \n"), None);
}

#[test]
fn installed_version_is_read_back() {
    let label = current_version_label("yay 1:12.3.5-1\n").unwrap();
    assert_eq!(installed_version_text(&label), Some("1:12.3.5-1".to_string()));
    assert_eq!(installed_version_text(""), None);
}

#[test]
fn up_to_date_when_label_names_version() {
    let label = current_version_label("yay 12.3.5-1\n").unwrap();
    assert!(is_up_to_date(&label, "12.3.5-1"));
    assert!(!is_up_to_date(&label, "12.3.6-1"));
    assert!(is_up_to_date("", ""));
}

#[test]
fn upgrade_when_release_differs() {
    assert_eq!(
        plan_upgrade("0.1.0", "v0.2.0"),
        Some(UpgradePlan::Upgrade { latest: "0.2.0".to_string() })
    );
    assert_eq!(plan_upgrade("0.1.0", "v0.1.0"), Some(UpgradePlan::UpToDate));
    assert_eq!(plan_upgrade("0.1.0", "0.1.0"), None);
}

#[test]
fn download_directory_defaults() {
    assert_eq!(default_file_path("", "xsel", false), "/var/cache/pacman/pkg/");
    assert_eq!(default_file_path("", "xsel", true), "/tmp/");
    assert_eq!(default_file_path("", "", false), "/tmp/");
    assert_eq!(default_file_path("/home/me", "xsel", false), "/home/me");
    let once = default_file_path("", "xsel", false);
    assert_eq!(default_file_path(&once, "xsel", false), once);
}

#[test]
fn mode_precedence() {
    assert_eq!(select_mode(true, true, "a", "b", "c", "d", false), Mode::SelfUpgrade);
    assert_eq!(select_mode(false, true, "", "", "", "", false), Mode::Status);
    assert_eq!(select_mode(false, false, "", "", "", "", true), Mode::Missing);
    assert_eq!(select_mode(false, false, "a", "b", "c", "d", false), Mode::Install);
    assert_eq!(select_mode(false, false, "a", "b", "", "d", false), Mode::Search);
    assert_eq!(select_mode(false, false, "a", "b", "", "", false), Mode::Update);
    assert_eq!(select_mode(false, false, "a", "", "", "", true), Mode::DowngradeAur);
    assert_eq!(select_mode(false, false, "a", "", "", "", false), Mode::DowngradeArchive);
}

#[test]
fn log_lines() {
    assert_eq!(error_line("boom"), "\x1b[1;31m✘\x1b[m boom");
    assert_eq!(wait_line("wait"), "\x1b[1;34m⟳ wait\x1b[m\n");
    assert_eq!(success_line("ok"), "\x1b[1;34m› ok\x1b[m\n");
    assert_eq!(warning_line("hm"), "\x1b[1;33m⚠ hm\x1b[m\n");
    assert_eq!(ERROR, "\x1b[1;31m✕\x1b[m");
}

#[test]
fn banner_texts() {
    let a = about();
    assert!(a.starts_with("\x1b[1;34m\n"));
    assert!(a.ends_with("\x1b[1;31mAUR helper & package downgrader\x1b[m"));
    assert_eq!(banner_text(), format!("{}\n", a));
}

#[test]
fn status_marks() {
    assert_eq!(status_mark(true), "\x1b[1;34m✔\x1b[m");
    assert_eq!(status_mark(false), "\x1b[1;31m✕\x1b[m");
}
