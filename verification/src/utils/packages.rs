//! What is read from pacman and from its package cache.
use vstd::prelude::*;
use crate::text::{
    borderless, find_from, first, is_whitespace, join, lemma_borderless_by_last, lemma_contains_char,
    lemma_find_from, lemma_occurs_contains, lemma_split_after, lemma_split_no_match,
    lemma_split_pieces_free, occurs_at, split, split_from, trim_end, trim_start,
    contains, contains_exec, extend_chars, nth, nth_exec, replace, replace_exec, strings_of,
    to_chars, to_string, trim, trim_exec,
};

verus! {

/// The strings of `vector` in the opposite order.
pub fn reversed(vector: &Vec<String>) -> (reverse: Vec<String>)
    ensures
        strings_of(reverse@) == strings_of(vector@).reverse(),
{
    let mut reverse: Vec<String> = Vec::new();
    let n = vector.len();
    let mut i = n;
    while i > 0
        invariant
            i <= n == vector.len(),
            reverse.len() == n - i,
            forall|k: int| 0 <= k < n - i ==> #[trigger] reverse@[k]@ == vector@[n - 1 - k]@,
        decreases i,
    {
        i = i - 1;
        reverse.push(vector[i].clone());
    }
    assert(strings_of(reverse@) =~= strings_of(vector@).reverse());
    reverse
}

/// The label that follows a package's name: empty when pacman printed
/// nothing, else the second space-separated field of its trimmed output, as
/// ` [ current: VERSION ]`. `None` where that field is missing.
pub open spec fn spec_current_version_label(stdout: Seq<char>) -> Option<Seq<char>> {
    if stdout.len() == 0 {
        Some(seq![])
    } else {
        match nth(trim(stdout), " "@, 1) {
            Some(v) => Some(" [ current: "@ + v + " ]"@),
            None => None,
        }
    }
}

/// Turns the output of `pacman -Q PACKAGE` into the label shown after a
/// package's name; `None` where the output is not empty and has no version field.
pub fn current_version_label(stdout: &str) -> (label: Option<String>)
    ensures
        label matches Some(l) ==> spec_current_version_label(stdout@) == Some(l@),
        label is None ==> spec_current_version_label(stdout@) is None,
{
    let out = to_chars(stdout);
    if out.len() == 0 {
        return Some(String::new());
    }
    proof {
        reveal_strlit(" ");
    }
    let trimmed = trim_exec(out.as_slice());
    match nth_exec(trimmed.as_slice(), to_chars(" ").as_slice(), 1) {
        Some(v) => {
            let mut l = to_chars(" [ current: ");
            extend_chars(&mut l, v.as_slice());
            extend_chars(&mut l, to_chars(" ]").as_slice());
            Some(to_string(l.as_slice()))
        },
        None => None,
    }
}

/// The installed version as the update mode shows it: the label with every
/// `]` removed, the text after its first `current: `, trimmed.
pub open spec fn spec_installed_version_text(label: Seq<char>) -> Option<Seq<char>> {
    match nth(replace(label, "]"@, seq![]), "current: "@, 1) {
        Some(v) => Some(trim(v)),
        None => None,
    }
}

/// Recovers the installed version from a label; `None` where the label holds no `current: `.
pub fn installed_version_text(label: &str) -> (version: Option<String>)
    ensures
        version matches Some(v) ==> spec_installed_version_text(label@) == Some(v@),
        version is None ==> spec_installed_version_text(label@) is None,
{
    proof {
        reveal_strlit("]");
        reveal_strlit("current: ");
    }
    let l = to_chars(label);
    let empty: Vec<char> = Vec::new();
    let cleaned = replace_exec(l.as_slice(), to_chars("]").as_slice(), empty.as_slice());
    match nth_exec(cleaned.as_slice(), to_chars("current: ").as_slice(), 1) {
        Some(v) => Some(to_string(trim_exec(v.as_slice()).as_slice())),
        None => None,
    }
}

/// Whether the installed label already names `version`.
pub fn is_up_to_date(current: &str, version: &str) -> (b: bool)
    ensures
        b == contains(current@, version@),
{
    contains_exec(to_chars(current).as_slice(), to_chars(version).as_slice())
}


/// Listing in reverse what was listed in reverse gives back the first list.
pub proof fn reversed_twice(v: Seq<Seq<char>>)
    ensures
        v.reverse().reverse() == v,
{
    assert(v.reverse().reverse() =~= v);
}

/// Where pacman reports `version` for a package, the label of the installed
/// version names it, so that the AUR version `version` counts as up to date.
pub proof fn reported_version_is_up_to_date(stdout: Seq<char>, version: Seq<char>)
    requires
        stdout.len() > 0,
        nth(trim(stdout), " "@, 1) == Some(version),
    ensures
        spec_current_version_label(stdout) matches Some(label) && contains(label, version),
{
    reveal_strlit(" [ current: ");
    let label = " [ current: "@ + version + " ]"@;
    assert(label.subrange(12, (12 + version.len()) as int) =~= version);
    lemma_occurs_contains(label, version, 12);
}

/// What the update mode shows as the installed version is the version field
/// that pacman reported, where that field holds no `]`, does not end with
/// `current:` and has no white space at either end.
pub proof fn installed_version_round_trip(stdout: Seq<char>, version: Seq<char>)
    requires
        stdout.len() > 0,
        nth(trim(stdout), " "@, 1) == Some(version),
        !contains(version, "]"@),
        !(version.len() >= 8 && version.subrange(version.len() - 8, version.len() as int)
            == "current:"@),
        version.len() == 0 || (!is_whitespace(version[0]) && !is_whitespace(version.last())),
    ensures
        spec_current_version_label(stdout) matches Some(label) && spec_installed_version_text(label)
            == Some(version),
{
    reveal_strlit(" [ current: ");
    reveal_strlit(" ]");
    reveal_strlit("]");
    reveal_strlit("current: ");
    reveal_strlit(" ");
    reveal_strlit("current:");
    reveal_strlit(" [ ");
    let lead = " [ current: "@;
    let label = lead + version + " ]"@;
    // the version field holds no space: it is a piece of a split at spaces
    lemma_split_pieces_free(trim(stdout), " "@, 0);
    assert(!contains(version, " "@));
    assert(" "@ =~= seq![' ']);
    assert("]"@ =~= seq![']']);
    lemma_contains_char(version, ' ');
    lemma_contains_char(version, ']');
    // removing `]`: the only one is the last character
    let x = lead + version + " "@;
    assert forall|i: int| 0 <= i < x.len() implies x[i] != ']' by {
        if i < 12 {
            assert(x[i] == lead[i]);
        } else if i < 12 + version.len() {
            assert(x[i] == version[i - 12]);
        } else {
            assert(x[i] == ' ');
        }
    }
    lemma_contains_char(x, ']');
    assert(borderless(seq![']']));
    assert(label =~= x + seq![']'] + Seq::<char>::empty());
    lemma_split_after(x, seq![']'], Seq::<char>::empty());
    lemma_split_no_match(Seq::<char>::empty(), seq![']']);
    let pieces = split(label, "]"@);
    assert(pieces =~= seq![x, Seq::<char>::empty()]);
    assert(pieces.drop_last() =~= seq![x]);
    assert(join(pieces.drop_last(), Seq::<char>::empty()) == x);
    assert(join(pieces, Seq::<char>::empty()) == join(pieces.drop_last(), Seq::<char>::empty())
        + Seq::<char>::empty() + pieces.last());
    assert(join(pieces, Seq::<char>::empty()) =~= x);
    // the text after `current: `
    let cur = "current: "@;
    lemma_borderless_by_last(cur);
    let tail = version + " "@;
    assert(x =~= " [ "@ + cur + tail);
    assert(!contains(" [ "@, cur));
    lemma_split_after(" [ "@, cur, tail);
    lemma_find_from(tail, cur, 0);
    if contains(tail, cur) {
        let j = find_from(tail, cur, 0)->0;
        assert(tail.subrange(j, j + 9)[8] == ' ');
        assert(tail[j + 8] == ' ');
        assert(j + 8 == version.len());
        assert(version.subrange(version.len() - 8, version.len() as int) =~= "current:"@) by {
            assert forall|i: int| 0 <= i < 8 implies version.subrange(
                version.len() - 8,
                version.len() as int,
            )[i] == "current:"@[i] by {
                assert(tail.subrange(j, j + 9)[i] == cur[i]);
            }
        }
    }
    lemma_split_no_match(tail, cur);
    assert(nth(x, cur, 1) == Some(tail));
    // trimming the trailing space
    if version.len() == 0 {
        assert(tail =~= seq![' ']);
        assert(tail.drop_first() =~= Seq::<char>::empty());
        assert((' ' as u32) == 0x20);
        assert(is_whitespace(tail[0]));
        assert(trim_start(Seq::<char>::empty()) == Seq::<char>::empty());
        assert(trim_start(tail) == Seq::<char>::empty());
    } else {
        assert(trim_start(tail) == tail);
        assert(tail.drop_last() =~= version);
        assert(trim_end(tail) == trim_end(version));
    }
    assert(trim(tail) =~= version);
}


/// For pacman's usual answer `NAME VERSION` and a line break, the label
/// names exactly that version: ` [ current: VERSION ]`, where neither field
/// holds a space and the name does not start, nor the version end, with
/// white space.
pub proof fn version_label_of_pacman_answer(name: Seq<char>, version: Seq<char>)
    requires
        name.len() > 0,
        version.len() > 0,
        !is_whitespace(name[0]),
        !is_whitespace(version.last()),
        !contains(name, " "@),
        !contains(version, " "@),
    ensures
        spec_current_version_label(name + " "@ + version + "\n"@) == Some(
            " [ current: "@ + version + " ]"@,
        ),
{
    reveal_strlit(" ");
    reveal_strlit("\n");
    let sp = seq![' '];
    assert(" "@ =~= sp);
    assert(borderless(sp));
    let line = name + sp + version;
    let stdout = line + seq!['\n'];
    assert(name + " "@ + version + "\n"@ =~= stdout);
    assert(stdout[0] == name[0]);
    assert(trim_start(stdout) == stdout);
    assert(('\n' as u32) == 0xa);
    assert(is_whitespace(stdout.last()));
    assert(stdout.drop_last() =~= line);
    assert(line.last() == version.last());
    assert(trim_end(line) == line);
    assert(trim_end(stdout) == line);
    assert(trim(stdout) == line);
    lemma_split_after(name, sp, version);
    lemma_split_no_match(version, sp);
    assert(split(line, sp) =~= seq![name, version]);
}

} // verus!
