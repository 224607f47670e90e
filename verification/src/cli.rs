//! The decisions taken from the command line: where packages are kept and
//! which mode runs.
use vstd::prelude::*;
use crate::text::{to_chars, to_string};

verus! {

/// Where downloaded packages go: the given path where there is one; else
/// pacman's cache for a downgrade from the archive, and `/tmp/` otherwise.
pub open spec fn spec_default_file_path(file_path: Seq<char>, downgrade: Seq<char>, aur: bool) -> Seq<char> {
    if file_path.len() == 0 {
        if downgrade.len() != 0 && !aur {
            "/var/cache/pacman/pkg/"@
        } else {
            "/tmp/"@
        }
    } else {
        file_path
    }
}

/// Chooses the directory that downloads go to.
pub fn default_file_path(file_path: &str, downgrade: &str, aur: bool) -> (path: String)
    ensures
        path@ == spec_default_file_path(file_path@, downgrade@, aur),
{
    if file_path.is_empty() {
        if !downgrade.is_empty() && !aur {
            to_string(to_chars("/var/cache/pacman/pkg/").as_slice())
        } else {
            to_string(to_chars("/tmp/").as_slice())
        }
    } else {
        to_string(to_chars(file_path).as_slice())
    }
}

/// What a run of the program does.
#[derive(Debug, Clone, Copy, PartialEq, Eq)]
pub enum Mode {
    /// Upgrade the program itself.
    SelfUpgrade,
    /// Check that the package sites answer.
    Status,
    /// No mode was asked for: an error.
    Missing,
    /// Install a package from the AUR.
    Install,
    /// Search the AUR and install a chosen result.
    Search,
    /// Update a package from the AUR.
    Update,
    /// Downgrade an AUR package to a chosen commit.
    DowngradeAur,
    /// Downgrade a package to a version from the Arch Linux Archive.
    DowngradeArchive,
}

/// The mode: a self upgrade or a status check come first; then, with no
/// package named for any mode, none; else install, search, update and
/// downgrade in that order of precedence, the downgrade from the AUR where
/// asked for.
pub open spec fn spec_select_mode(
    upgrade: bool,
    status: bool,
    downgrade: Seq<char>,
    update: Seq<char>,
    install: Seq<char>,
    search: Seq<char>,
    aur: bool,
) -> Mode {
    if upgrade {
        Mode::SelfUpgrade
    } else if status {
        Mode::Status
    } else if downgrade.len() == 0 && update.len() == 0 && install.len() == 0 && search.len() == 0 {
        Mode::Missing
    } else if install.len() != 0 {
        Mode::Install
    } else if search.len() != 0 {
        Mode::Search
    } else if update.len() != 0 {
        Mode::Update
    } else if aur {
        Mode::DowngradeAur
    } else {
        Mode::DowngradeArchive
    }
}

/// Chooses the mode from the command line's flags and package names.
pub fn select_mode(
    upgrade: bool,
    status: bool,
    downgrade: &str,
    update: &str,
    install: &str,
    search: &str,
    aur: bool,
) -> (mode: Mode)
    ensures
        mode == spec_select_mode(upgrade, status, downgrade@, update@, install@, search@, aur),
{
    let d = !downgrade.is_empty();
    let u = !update.is_empty();
    let i = !install.is_empty();
    let s = !search.is_empty();
    if upgrade {
        Mode::SelfUpgrade
    } else if status {
        Mode::Status
    } else if !d && !u && !i && !s {
        Mode::Missing
    } else if i {
        Mode::Install
    } else if s {
        Mode::Search
    } else if u {
        Mode::Update
    } else if aur {
        Mode::DowngradeAur
    } else {
        Mode::DowngradeArchive
    }
}


/// Choosing the download directory again changes nothing, and a directory is
/// always chosen.
pub proof fn default_file_path_settles(file_path: Seq<char>, downgrade: Seq<char>, aur: bool)
    ensures
        spec_default_file_path(spec_default_file_path(file_path, downgrade, aur), downgrade, aur)
            == spec_default_file_path(file_path, downgrade, aur),
        spec_default_file_path(file_path, downgrade, aur).len() > 0,
{
    reveal_strlit("/var/cache/pacman/pkg/");
    reveal_strlit("/tmp/");
}


/// Each mode runs exactly when the command line asks for it: a self upgrade
/// whenever asked; a status check when asked and no self upgrade is; then,
/// with neither, no mode only when no package is named at all, an install
/// whenever a package to install is named, a search whenever one to search
/// is named and none to install, an update whenever one to update is named
/// and none of the former, and a downgrade (from the AUR or the archive, as
/// asked) when only a package to downgrade is named.
pub proof fn mode_is_what_is_asked(
    upgrade: bool,
    status: bool,
    downgrade: Seq<char>,
    update: Seq<char>,
    install: Seq<char>,
    search: Seq<char>,
    aur: bool,
)
    ensures
        ({
            let mode = spec_select_mode(upgrade, status, downgrade, update, install, search, aur);
            let plain = !upgrade && !status;
            &&& (mode == Mode::SelfUpgrade) <==> upgrade
            &&& (mode == Mode::Status) <==> (!upgrade && status)
            &&& (mode == Mode::Missing) <==> (plain && downgrade.len() == 0 && update.len() == 0
                && install.len() == 0 && search.len() == 0)
            &&& (mode == Mode::Install) <==> (plain && install.len() > 0)
            &&& (mode == Mode::Search) <==> (plain && install.len() == 0 && search.len() > 0)
            &&& (mode == Mode::Update) <==> (plain && install.len() == 0 && search.len() == 0
                && update.len() > 0)
            &&& (mode == Mode::DowngradeAur) <==> (plain && install.len() == 0 && search.len() == 0
                && update.len() == 0 && downgrade.len() > 0 && aur)
            &&& (mode == Mode::DowngradeArchive) <==> (plain && install.len() == 0 && search.len()
                == 0 && update.len() == 0 && downgrade.len() > 0 && !aur)
        }),
{
}

} // verus!
