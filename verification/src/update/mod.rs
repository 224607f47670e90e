//! Deciding whether the program should upgrade itself.
use vstd::prelude::*;
use crate::text::{
    borderless, chars_eq, contains, lemma_split_after, lemma_split_no_match, nth, nth_exec, split,
    to_chars, to_string,
};

verus! {

/// What a self upgrade should do.
#[derive(Debug, PartialEq, Eq)]
pub enum UpgradePlan {
    /// A release newer than the running one exists: install it.
    Upgrade { latest: String },
    /// The running version is the latest release.
    UpToDate,
}

/// The latest release is the text after the first `v` of its tag, up to the
/// next `v`; an upgrade is due when it differs from the running version.
/// `None` where the tag has no `v`.
pub open spec fn spec_plan_upgrade(current: Seq<char>, tag: Seq<char>) -> Option<Option<Seq<char>>> {
    match nth(tag, "v"@, 1) {
        None => None,
        Some(latest) => if current != latest {
            Some(Some(latest))
        } else {
            Some(None)
        },
    }
}

/// The plan as an optional version to upgrade to.
pub open spec fn plan_view(p: UpgradePlan) -> Option<Seq<char>> {
    match p {
        UpgradePlan::Upgrade { latest } => Some(latest@),
        UpgradePlan::UpToDate => None,
    }
}

/// Decides on a self upgrade from the running version and the tag of the latest release.
pub fn plan_upgrade(current: &str, tag: &str) -> (plan: Option<UpgradePlan>)
    ensures
        plan matches Some(p) ==> spec_plan_upgrade(current@, tag@) == Some(plan_view(p)),
        plan is None ==> spec_plan_upgrade(current@, tag@) is None,
{
    proof {
        reveal_strlit("v");
    }
    match nth_exec(to_chars(tag).as_slice(), to_chars("v").as_slice(), 1) {
        None => None,
        Some(latest) => if !chars_eq(to_chars(current).as_slice(), latest.as_slice()) {
            Some(UpgradePlan::Upgrade { latest: to_string(latest.as_slice()) })
        } else {
            Some(UpgradePlan::UpToDate)
        },
    }
}


/// A release tagged `v` and the running version is no reason to upgrade,
/// where that version holds no `v`.
pub proof fn release_of_running_version_is_up_to_date(current: Seq<char>)
    requires
        !contains(current, "v"@),
    ensures
        spec_plan_upgrade(current, "v"@ + current) == Some(None::<Seq<char>>),
{
    reveal_strlit("v");
    let v = "v"@;
    assert(v =~= seq!['v']);
    assert(borderless(v));
    assert(!contains(Seq::<char>::empty(), v));
    assert(v + current =~= Seq::<char>::empty() + v + current);
    lemma_split_after(Seq::<char>::empty(), v, current);
    lemma_split_no_match(current, v);
    assert(split(v + current, v) =~= seq![Seq::<char>::empty(), current]);
}


/// The plan follows the release version read from the tag (the text after
/// its first `v`, up to the next `v`): an upgrade to it exactly when it
/// differs from the running version in any way, nothing to do exactly when
/// it is the running version, and no plan exactly when the tag has no `v`.
pub proof fn plan_follows_release_version(current: Seq<char>, tag: Seq<char>, latest: Seq<char>)
    ensures
        spec_plan_upgrade(current, tag) == Some(Some(latest)) <==> (nth(tag, "v"@, 1) == Some(latest)
            && latest != current),
        spec_plan_upgrade(current, tag) == Some(None::<Seq<char>>) <==> nth(tag, "v"@, 1) == Some(
            current,
        ),
        spec_plan_upgrade(current, tag) is None <==> nth(tag, "v"@, 1) is None,
{
}

/// A release tagged `v` and a version holding no `v` is an upgrade to that
/// version unless it is the running one.
pub proof fn plan_for_tagged_release(current: Seq<char>, latest: Seq<char>)
    requires
        !contains(latest, "v"@),
    ensures
        spec_plan_upgrade(current, "v"@ + latest) == (if latest != current {
            Some(Some(latest))
        } else {
            Some(None::<Seq<char>>)
        }),
{
    reveal_strlit("v");
    let v = "v"@;
    assert(v =~= seq!['v']);
    assert(borderless(v));
    assert(!contains(Seq::<char>::empty(), v));
    assert(v + latest =~= Seq::<char>::empty() + v + latest);
    lemma_split_after(Seq::<char>::empty(), v, latest);
    lemma_split_no_match(latest, v);
    assert(split(v + latest, v) =~= seq![Seq::<char>::empty(), latest]);
}

} // verus!
