//! Downgrading a package from the Arch Linux Archive: reading the listing of
//! a package's archived versions, marking those in the local cache, and
//! choosing where the chosen version comes from.
use vstd::prelude::*;
use crate::text::{
    lemma_contains_char, lemma_split_pieces_free,
    contains, contains_exec, extend_chars, first, first_exec, join, join_exec, lemma_filter_push,
    nth, nth_exec, replace, replace_exec, split, split_exec, seqs_of, strings_of, to_chars,
    to_string,
};
use crate::utils::packages::reversed;

verus! {

/// A name from the cache directory, as it was rendered with quotes, minus every `"`.
pub open spec fn unquoted(name: Seq<char>) -> Seq<char> {
    replace(name, "\""@, seq![])
}

/// The cache entries of a package: the names (rendered with `{:?}`, quotes
/// included) that hold the package's name, each without its quotes, in order.
pub open spec fn spec_cache_entries(names: Seq<Seq<char>>, package: Seq<char>) -> Seq<Seq<char>> {
    names.filter(|n: Seq<char>| contains(n, package)).map_values(|n: Seq<char>| unquoted(n))
}

/// Picks the entries of the package cache that belong to `package`.
pub fn cache_entries(names: &Vec<String>, package: &str) -> (entries: Vec<String>)
    ensures
        strings_of(entries@) == spec_cache_entries(strings_of(names@), package@),
{
    proof {
        reveal_strlit("\"");
    }
    let pkg = to_chars(package);
    let quote = to_chars("\"");
    let empty: Vec<char> = Vec::new();
    let mut entries: Vec<String> = Vec::new();
    let ghost pred = |n: Seq<char>| contains(n, package@);
    for i in 0..names.len()
        invariant
            pkg@ == package@,
            quote@ == "\""@,
            quote@.len() == 1,
            empty@ == Seq::<char>::empty(),
            pred == (|n: Seq<char>| contains(n, package@)),
            strings_of(entries@) == strings_of(names@).take(i as int).filter(pred).map_values(
                |n: Seq<char>| unquoted(n),
            ),
    {
        let name = to_chars(names[i].as_str());
        let ghost before = strings_of(names@).take(i as int);
        assert(strings_of(names@).take(i + 1) =~= before.push(name@));
        proof {
            lemma_filter_push(before, name@, pred);
        }
        if contains_exec(name.as_slice(), pkg.as_slice()) {
            let e = replace_exec(name.as_slice(), quote.as_slice(), empty.as_slice());
            let ghost old_entries = entries@;
            entries.push(to_string(e.as_slice()));
            assert(strings_of(entries@) =~= strings_of(old_entries).push(unquoted(name@)));
            assert(before.filter(pred).push(name@).map_values(|n: Seq<char>| unquoted(n))
                =~= before.filter(pred).map_values(|n: Seq<char>| unquoted(n)).push(
                unquoted(name@),
            ));
        }
    }
    assert(strings_of(names@).take(names.len() as int) =~= strings_of(names@));
    entries
}


/// The words of a listing line: its space-separated pieces that are not empty.
pub open spec fn nonempty_words(ws: Seq<Seq<char>>) -> Seq<Seq<char>> {
    ws.filter(|w: Seq<char>| w.len() > 0)
}

/// A word without its carriage returns and line feeds.
pub open spec fn clean_word(w: Seq<char>) -> Seq<char> {
    replace(replace(w, "\r"@, seq![]), "\n"@, seq![])
}

/// One archived version as it is listed: the text of a listing piece up to
/// the next link, without `</a>`, its non-empty space-separated words cleaned
/// of line breaks and joined by three spaces.
pub open spec fn listing_entry(piece: Seq<char>) -> Seq<char> {
    let text = replace(first(piece, "<a href=\""@), "</a>"@, seq![]);
    join(nonempty_words(split(text, " "@)).map_values(|w: Seq<char>| clean_word(w)), "   "@)
}

/// The versions of an archive listing page, in page order: one for each
/// piece between two occurrences of `.pkg.tar.zst">`, the last occurrence
/// excluded.
pub open spec fn spec_parse_archive_listing(data: Seq<char>) -> Seq<Seq<char>> {
    let pieces = split(data, ".pkg.tar.zst\">"@);
    let n: int = if pieces.len() >= 2 { pieces.len() - 2 } else { 0 };
    Seq::new(n as nat, |k: int| listing_entry(pieces[k + 1]))
}

fn listing_entry_exec(piece: &[char]) -> (e: Vec<char>)
    ensures
        e@ == listing_entry(piece@),
{
    proof {
        reveal_strlit("<a href=\"");
        reveal_strlit("</a>");
        reveal_strlit(" ");
        reveal_strlit("\r");
        reveal_strlit("\n");
    }
    let empty: Vec<char> = Vec::new();
    assert(empty@ =~= Seq::<char>::empty());
    let head = first_exec(piece, to_chars("<a href=\"").as_slice());
    let text = replace_exec(head.as_slice(), to_chars("</a>").as_slice(), empty.as_slice());
    let ws = split_exec(text.as_slice(), to_chars(" ").as_slice());
    let cr = to_chars("\r");
    let lf = to_chars("\n");
    let mut words: Vec<Vec<char>> = Vec::new();
    let ghost pred = |w: Seq<char>| w.len() > 0;
    for i in 0..ws.len()
        invariant
            cr@ == "\r"@,
            lf@ == "\n"@,
            cr@.len() == 1,
            lf@.len() == 1,
            empty@ == Seq::<char>::empty(),
            pred == (|w: Seq<char>| w.len() > 0),
            seqs_of(words@) == seqs_of(ws@).take(i as int).filter(pred).map_values(
                |w: Seq<char>| clean_word(w),
            ),
    {
        let ghost before = seqs_of(ws@).take(i as int);
        assert(seqs_of(ws@).take(i + 1) =~= before.push(ws@[i as int]@));
        proof {
            lemma_filter_push(before, ws@[i as int]@, pred);
        }
        if ws[i].len() > 0 {
            let a = replace_exec(ws[i].as_slice(), cr.as_slice(), empty.as_slice());
            let b = replace_exec(a.as_slice(), lf.as_slice(), empty.as_slice());
            let ghost old_words = words@;
            words.push(b);
            assert(seqs_of(words@) =~= seqs_of(old_words).push(clean_word(ws@[i as int]@)));
            assert(before.filter(pred).push(ws@[i as int]@).map_values(
                |w: Seq<char>| clean_word(w),
            ) =~= before.filter(pred).map_values(|w: Seq<char>| clean_word(w)).push(
                clean_word(ws@[i as int]@),
            ));
        }
    }
    assert(seqs_of(ws@).take(ws.len() as int) =~= seqs_of(ws@));
    join_exec(&words, to_chars("   ").as_slice())
}

/// Reads the versions listed on an archive page, in page order.
pub fn parse_archive_listing(data: &str) -> (versions: Vec<String>)
    ensures
        strings_of(versions@) == spec_parse_archive_listing(data@),
{
    proof {
        reveal_strlit(".pkg.tar.zst\">");
    }
    let d = to_chars(data);
    let pieces = split_exec(d.as_slice(), to_chars(".pkg.tar.zst\">").as_slice());
    let mut versions: Vec<String> = Vec::new();
    let n: usize = if pieces.len() >= 2 { pieces.len() - 2 } else { 0 };
    for k in 0..n
        invariant
            n == (if pieces.len() >= 2 { pieces.len() - 2 } else { 0 }),
            seqs_of(pieces@) == split(d@, ".pkg.tar.zst\">"@),
            d@ == data@,
            versions.len() == k,
            forall|j: int| 0 <= j < k ==> #[trigger] versions@[j]@ == listing_entry(
                seqs_of(pieces@)[j + 1],
            ),
    {
        let e = listing_entry_exec(pieces[k + 1].as_slice());
        versions.push(to_string(e.as_slice()));
    }
    assert(strings_of(versions@) =~= spec_parse_archive_listing(data@));
    versions
}


/// How a listed version reads once the cache is consulted: the last cache
/// entry that it contains, followed by `   [Cache]`; itself when it contains none.
pub open spec fn cache_mark(version: Seq<char>, cache: Seq<Seq<char>>) -> Seq<char>
    decreases cache.len(),
{
    if cache.len() == 0 {
        version
    } else if contains(version, cache.last()) {
        cache.last() + "   [Cache]"@
    } else {
        cache_mark(version, cache.drop_last())
    }
}

/// Every listed version with its cache mark, in the same order.
pub open spec fn spec_mark_cached(versions: Seq<Seq<char>>, cache: Seq<Seq<char>>) -> Seq<Seq<char>> {
    versions.map_values(|v: Seq<char>| cache_mark(v, cache))
}

/// Replaces each listed version that contains a cache entry by that entry
/// (the last such one) marked `   [Cache]`.
pub fn mark_cached(versions: &Vec<String>, cache: &Vec<String>) -> (marked: Vec<String>)
    ensures
        strings_of(marked@) == spec_mark_cached(strings_of(versions@), strings_of(cache@)),
{
    proof {
        reveal_strlit("   [Cache]");
    }
    let mark = to_chars("   [Cache]");
    let mut marked: Vec<String> = Vec::new();
    for k in 0..versions.len()
        invariant
            mark@ == "   [Cache]"@,
            marked.len() == k,
            forall|j: int| 0 <= j < k ==> #[trigger] marked@[j]@ == cache_mark(
                versions@[j]@,
                strings_of(cache@),
            ),
    {
        let v = to_chars(versions[k].as_str());
        let mut label = v.clone();
        for c in 0..cache.len()
            invariant
                mark@ == "   [Cache]"@,
                v@ == versions@[k as int]@,
                label@ == cache_mark(v@, strings_of(cache@).take(c as int)),
        {
            let entry = to_chars(cache[c].as_str());
            assert(strings_of(cache@).take(c + 1).drop_last() =~= strings_of(cache@).take(
                c as int,
            ));
            if contains_exec(v.as_slice(), entry.as_slice()) {
                label = entry;
                extend_chars(&mut label, mark.as_slice());
            }
        }
        assert(strings_of(cache@).take(cache.len() as int) =~= strings_of(cache@));
        marked.push(to_string(label.as_slice()));
    }
    assert(strings_of(marked@) =~= spec_mark_cached(strings_of(versions@), strings_of(cache@)));
    marked
}

/// The versions offered for a downgrade from the archive: those of the
/// listing page, marked from the cache unless the cache is ignored, newest
/// (last on the page) first.
pub open spec fn spec_archive_versions(
    data: Seq<char>,
    ignore_cache: bool,
    cache: Seq<Seq<char>>,
) -> Seq<Seq<char>> {
    let listed = spec_parse_archive_listing(data);
    if ignore_cache {
        listed.reverse()
    } else {
        spec_mark_cached(listed, cache).reverse()
    }
}

/// The versions that the archive page `data` offers, as they are shown for choosing.
pub fn archive_versions(data: &str, ignore_cache: bool, cache: &Vec<String>) -> (versions: Vec<
    String,
>)
    ensures
        strings_of(versions@) == spec_archive_versions(data@, ignore_cache, strings_of(cache@)),
{
    let listed = parse_archive_listing(data);
    if ignore_cache {
        reversed(&listed)
    } else {
        let marked = mark_cached(&listed, cache);
        reversed(&marked)
    }
}

/// The archive directory of a package: `https://archive.archlinux.org/packages/`,
/// the package's first character, `/`, the package's name.
pub open spec fn spec_archive_package_url(name: Seq<char>) -> Seq<char> {
    "https://archive.archlinux.org/packages/"@ + seq![name[0]] + "/"@ + name
}

/// The archive directory that lists the versions of package `name`.
pub fn archive_package_url(name: &str) -> (url: String)
    requires
        name@.len() > 0,
    ensures
        url@ == spec_archive_package_url(name@),
{
    let n = to_chars(name);
    let mut u = to_chars("https://archive.archlinux.org/packages/");
    u.push(n[0]);
    extend_chars(&mut u, to_chars("/").as_slice());
    extend_chars(&mut u, n.as_slice());
    to_string(u.as_slice())
}

/// Where a chosen archive version is installed from.
#[derive(Debug, PartialEq, Eq)]
pub enum ArchiveChoice {
    /// The package file already in the cache, by its path.
    FromCache { path: String },
    /// The package file to download: its name and its address.
    Download { file: String, url: String },
}

/// The choice for entry `entry` of package `name`: split at single spaces,
/// the first piece is the file; when the second piece contains `Cache` it is
/// installed from `/var/cache/pacman/pkg/`, else downloaded from the
/// package's archive directory. `None` where the entry has no second piece.
pub open spec fn spec_archive_choice(name: Seq<char>, entry: Seq<char>) -> Option<
    (bool, Seq<char>, Seq<char>),
> {
    match nth(entry, " "@, 1) {
        None => None,
        Some(second) => {
            let file = first(entry, " "@);
            if contains(second, "Cache"@) {
                Some((true, "/var/cache/pacman/pkg/"@ + file, seq![]))
            } else {
                Some((false, file, spec_archive_package_url(name) + "/"@ + file))
            }
        },
    }
}

/// The choice as a triple: from the cache or not, the path or file, the address.
pub open spec fn choice_view(c: ArchiveChoice) -> (bool, Seq<char>, Seq<char>) {
    match c {
        ArchiveChoice::FromCache { path } => (true, path@, seq![]),
        ArchiveChoice::Download { file, url } => (false, file@, url@),
    }
}

/// Decides where the version listed as `entry` for package `name` comes from.
pub fn archive_choice(name: &str, entry: &str) -> (choice: Option<ArchiveChoice>)
    requires
        name@.len() > 0,
    ensures
        choice matches Some(c) ==> spec_archive_choice(name@, entry@) == Some(choice_view(c)),
        choice is None ==> spec_archive_choice(name@, entry@) is None,
{
    proof {
        reveal_strlit(" ");
        reveal_strlit("Cache");
    }
    let e = to_chars(entry);
    let space = to_chars(" ");
    match nth_exec(e.as_slice(), space.as_slice(), 1) {
        None => None,
        Some(second) => {
            let file = first_exec(e.as_slice(), space.as_slice());
            if contains_exec(second.as_slice(), to_chars("Cache").as_slice()) {
                let mut p = to_chars("/var/cache/pacman/pkg/");
                extend_chars(&mut p, file.as_slice());
                Some(ArchiveChoice::FromCache { path: to_string(p.as_slice()) })
            } else {
                let mut u = to_chars(archive_package_url(name).as_str());
                extend_chars(&mut u, to_chars("/").as_slice());
                extend_chars(&mut u, file.as_slice());
                Some(ArchiveChoice::Download { file: to_string(file.as_slice()), url: to_string(u.as_slice()) })
            }
        },
    }
}


/// A listed version is shown as it is unless it contains a cache entry; then
/// it is shown as one such entry followed by `   [Cache]`.
pub proof fn cache_mark_shape(version: Seq<char>, cache: Seq<Seq<char>>)
    ensures
        (forall|j: int| 0 <= j < cache.len() ==> !contains(version, #[trigger] cache[j]))
            ==> cache_mark(version, cache) == version,
        (exists|j: int| 0 <= j < cache.len() && contains(version, #[trigger] cache[j]))
            ==> exists|j: int|
            0 <= j < cache.len() && contains(version, #[trigger] cache[j]) && cache_mark(
                version,
                cache,
            ) == cache[j] + "   [Cache]"@,
    decreases cache.len(),
{
    if cache.len() > 0 {
        let rest = cache.drop_last();
        cache_mark_shape(version, rest);
        if contains(version, cache.last()) {
            assert(contains(version, cache[cache.len() - 1]));
        } else {
            if exists|j: int| 0 <= j < cache.len() && contains(version, #[trigger] cache[j]) {
                let j = choose|j: int| 0 <= j < cache.len() && contains(version, #[trigger] cache[j]);
                assert(j < cache.len() - 1);
                assert(rest[j] == cache[j]);
                let k = choose|k: int|
                    0 <= k < rest.len() && contains(version, #[trigger] rest[k]) && cache_mark(
                        version,
                        rest,
                    ) == rest[k] + "   [Cache]"@;
                assert(cache[k] == rest[k]);
            }
            assert forall|j: int| 0 <= j < rest.len() && !contains(version, #[trigger] cache[j]) implies !contains(version, rest[j]) by {
                assert(rest[j] == cache[j]);
            }
        }
    }
}

/// Joining pieces that hold no `c` with nothing between them leaves no `c`.
proof fn lemma_join_free(v: Seq<Seq<char>>, c: char)
    requires
        forall|k: int| 0 <= k < v.len() ==> !contains(#[trigger] v[k], seq![c]),
    ensures
        !contains(join(v, Seq::<char>::empty()), seq![c]),
    decreases v.len(),
{
    if v.len() == 1 {
        assert(!contains(v[0], seq![c]));
    } else if v.len() > 1 {
        let front = v.drop_last();
        assert forall|k: int| 0 <= k < front.len() implies !contains(#[trigger] front[k], seq![c]) by {
            assert(front[k] == v[k]);
        }
        lemma_join_free(front, c);
        let a = join(front, Seq::<char>::empty());
        let b = v.last();
        assert(!contains(b, seq![c]));
        lemma_contains_char(a, c);
        lemma_contains_char(b, c);
        let j = join(v, Seq::<char>::empty());
        assert(j =~= a + b);
        lemma_contains_char(j, c);
        if contains(j, seq![c]) {
            let i = choose|i: int| 0 <= i < j.len() && j[i] == c;
            if i < a.len() {
                assert(a[i] == c);
            } else {
                assert(b[i - a.len()] == c);
            }
        }
    }
}

/// No cache entry holds a quote.
pub proof fn cache_entries_unquoted(names: Seq<Seq<char>>, package: Seq<char>)
    ensures
        forall|k: int|
            0 <= k < spec_cache_entries(names, package).len() ==> !contains(
                #[trigger] spec_cache_entries(names, package)[k],
                "\""@,
            ),
{
    reveal_strlit("\"");
    assert("\""@ =~= seq!['"']);
    let kept = names.filter(|n: Seq<char>| contains(n, package));
    assert forall|k: int| 0 <= k < spec_cache_entries(names, package).len() implies !contains(
        #[trigger] spec_cache_entries(names, package)[k],
        "\""@,
    ) by {
        let n = kept[k];
        lemma_split_pieces_free(n, seq!['"'], 0);
        lemma_join_free(split(n, seq!['"']), '"');
        assert(spec_cache_entries(names, package)[k] == unquoted(n));
    }
}


/// The versions offered are those listed, newest first: as many as the
/// listing holds, the `k`-th offered being the `k`-th from the end of the
/// listing, marked from the cache unless the cache is ignored.
pub proof fn offered_versions_are_listing_reversed(
    data: Seq<char>,
    ignore_cache: bool,
    cache: Seq<Seq<char>>,
)
    ensures
        ({
            let listed = spec_parse_archive_listing(data);
            let offered = spec_archive_versions(data, ignore_cache, cache);
            &&& offered.len() == listed.len()
            &&& forall|k: int|
                0 <= k < listed.len() ==> #[trigger] offered[k] == (if ignore_cache {
                    listed[listed.len() - 1 - k]
                } else {
                    cache_mark(listed[listed.len() - 1 - k], cache)
                })
        }),
{
}

/// The archive directory of a package is the archive's package root, the
/// package's first character, `/`, and the package's name.
pub proof fn archive_directory_shape(name: Seq<char>)
    requires
        name.len() > 0,
    ensures
        ({
            let url = spec_archive_package_url(name);
            let root = "https://archive.archlinux.org/packages/"@;
            &&& url.len() == root.len() + 2 + name.len()
            &&& url.subrange(0, root.len() as int) == root
            &&& url[root.len() as int] == name[0]
            &&& url[(root.len() + 1) as int] == '/'
            &&& url.subrange((root.len() + 2) as int, url.len() as int) == name
        }),
{
    reveal_strlit("/");
    let root = "https://archive.archlinux.org/packages/"@;
    let url = spec_archive_package_url(name);
    assert(url.subrange(0, root.len() as int) =~= root);
    assert(url.subrange((root.len() + 2) as int, url.len() as int) =~= name);
}

/// A version listed as `FILE` followed by a space and more is installed from
/// `/var/cache/pacman/pkg/FILE` when the field after that space says
/// `Cache`, else downloaded as `FILE` from the package's archive directory,
/// where the file name holds no space.
pub proof fn archive_choice_shape(name: Seq<char>, file: Seq<char>, rest: Seq<char>)
    requires
        name.len() > 0,
        !contains(file, " "@),
    ensures
        ({
            let entry = file + " "@ + rest;
            let second = first(rest, " "@);
            spec_archive_choice(name, entry) == Some(
                if contains(second, "Cache"@) {
                    (true, "/var/cache/pacman/pkg/"@ + file, Seq::<char>::empty())
                } else {
                    (false, file, spec_archive_package_url(name) + "/"@ + file)
                },
            )
        }),
{
    reveal_strlit(" ");
    let sp = seq![' '];
    assert(" "@ =~= sp);
    assert(crate::text::borderless(sp));
    crate::text::lemma_split_after(file, sp, rest);
    crate::text::lemma_split_nonempty(rest, sp, 0);
}


/// A listing line of space-separated words shows the same words, each
/// whole, separated by three spaces: for non-empty words that hold no space,
/// no line break and no `<`.
pub proof fn listing_entry_words(ws: Seq<Seq<char>>)
    requires
        ws.len() >= 1,
        forall|k: int| 0 <= k < ws.len() ==> (#[trigger] ws[k]).len() > 0,
        forall|k: int, i: int|
            0 <= k < ws.len() && 0 <= i < ws[k].len() ==> {
                let c = #[trigger] ws[k][i];
                c != ' ' && c != '\r' && c != '\n' && c != '<'
            },
    ensures
        listing_entry(join(ws, " "@)) == join(ws, "   "@),
{
    reveal_strlit(" ");
    reveal_strlit("\r");
    reveal_strlit("\n");
    reveal_strlit("<a href=\"");
    reveal_strlit("</a>");
    let sp = seq![' '];
    assert(" "@ =~= sp);
    assert(crate::text::borderless(sp));
    let text = join(ws, sp);
    // the line holds no `<`
    lemma_join_chars(ws, sp, '<');
    lemma_join_chars(ws, sp, ' ');
    assert forall|k: int| 0 <= k < ws.len() implies !contains(#[trigger] ws[k], sp) by {
        lemma_contains_char(ws[k], ' ');
        if contains(ws[k], sp) {
            let i = choose|i: int| 0 <= i < ws[k].len() && ws[k][i] == ' ';
            assert(ws[k][i] != ' ');
        }
    }
    lemma_no_char_no_pattern(text, "<a href=\""@);
    lemma_no_char_no_pattern(text, "</a>"@);
    crate::text::lemma_split_no_match(text, "<a href=\""@);
    crate::text::lemma_split_no_match(text, "</a>"@);
    assert(first(text, "<a href=\""@) == text);
    assert(replace(text, "</a>"@, seq![]) == text);
    crate::text::join_then_split(ws, sp);
    // every word is kept and none is changed
    lemma_all_nonempty_kept(ws);
    assert forall|k: int| 0 <= k < ws.len() implies clean_word(#[trigger] ws[k]) == ws[k] by {
        let w = ws[k];
        assert forall|i: int| 0 <= i < w.len() implies w[i] != '\r' && w[i] != '\n' by {
            let c = ws[k][i];
        }
        assert("\r"@ =~= seq!['\r']);
        assert("\n"@ =~= seq!['\n']);
        lemma_contains_char(w, '\r');
        lemma_contains_char(w, '\n');
        crate::text::lemma_split_no_match(w, "\r"@);
        crate::text::lemma_split_no_match(w, "\n"@);
    }
    assert(ws.map_values(|w: Seq<char>| clean_word(w)) =~= ws);
}

/// Where no piece holds `c` and the separator is not `c`, the joined text holds no `c`.
proof fn lemma_join_chars(ws: Seq<Seq<char>>, sep: Seq<char>, c: char)
    requires
        forall|k: int, i: int| 0 <= k < ws.len() && 0 <= i < ws[k].len() ==> (#[trigger] ws[k][i]) != c || c == ' ',
        sep == seq![' '],
    ensures
        c != ' ' ==> forall|i: int| 0 <= i < join(ws, sep).len() ==> #[trigger] join(ws, sep)[i] != c,
    decreases ws.len(),
{
    if ws.len() > 1 {
        let front = ws.drop_last();
        assert forall|k: int, i: int| 0 <= k < front.len() && 0 <= i < front[k].len() implies (#[trigger] front[k][i]) != c || c == ' ' by {
            assert(front[k] == ws[k]);
        }
        lemma_join_chars(front, sep, c);
        let a = join(front, sep);
        let j = join(ws, sep);
        if c != ' ' {
            assert forall|i: int| 0 <= i < j.len() implies #[trigger] j[i] != c by {
                if i < a.len() {
                    assert(j[i] == a[i]);
                } else if i == a.len() {
                    assert(j[i] == ' ');
                } else {
                    assert(j[i] == ws.last()[i - a.len() - 1]);
                    assert(ws.last() == ws[ws.len() - 1]);
                }
            }
        }
    } else if ws.len() == 1 {
        if c != ' ' {
            assert forall|i: int| 0 <= i < join(ws, sep).len() implies #[trigger] join(ws, sep)[i] != c by {
                assert(join(ws, sep)[i] == ws[0][i]);
            }
        }
    }
}

/// Text without a pattern's first character holds no occurrence of it.
proof fn lemma_no_char_no_pattern(s: Seq<char>, p: Seq<char>)
    requires
        p.len() > 0,
        forall|i: int| 0 <= i < s.len() ==> #[trigger] s[i] != p[0],
    ensures
        !contains(s, p),
{
    crate::text::lemma_find_from(s, p, 0);
    if contains(s, p) {
        let i = crate::text::find_from(s, p, 0)->0;
        assert(s.subrange(i, i + p.len())[0] == s[i]);
    }
}

/// Keeping the non-empty words of a list of non-empty words keeps them all.
proof fn lemma_all_nonempty_kept(ws: Seq<Seq<char>>)
    requires
        forall|k: int| 0 <= k < ws.len() ==> (#[trigger] ws[k]).len() > 0,
    ensures
        nonempty_words(ws) == ws,
    decreases ws.len(),
{
    if ws.len() > 0 {
        let front = ws.drop_last();
        assert forall|k: int| 0 <= k < front.len() implies (#[trigger] front[k]).len() > 0 by {
            assert(front[k] == ws[k]);
        }
        lemma_all_nonempty_kept(front);
        lemma_filter_push(front, ws.last(), |w: Seq<char>| w.len() > 0);
        assert(front.push(ws.last()) =~= ws);
    } else {
        reveal_with_fuel(Seq::<_>::filter, 1);
    }
}


/// The cache entries of names one after another are those of each part,
/// one after another; a single name gives itself without quotes where it
/// contains the package, and nothing otherwise.
pub proof fn cache_entries_by_name(names1: Seq<Seq<char>>, names2: Seq<Seq<char>>, name: Seq<char>, package: Seq<char>)
    ensures
        spec_cache_entries(names1 + names2, package) == spec_cache_entries(names1, package)
            + spec_cache_entries(names2, package),
        spec_cache_entries(seq![name], package) == (if contains(name, package) {
            seq![unquoted(name)]
        } else {
            Seq::<Seq<char>>::empty()
        }),
{
    let pred = |n: Seq<char>| contains(n, package);
    Seq::filter_distributes_over_add(names1, names2, pred);
    assert(spec_cache_entries(names1 + names2, package) =~= spec_cache_entries(names1, package)
        + spec_cache_entries(names2, package));
    lemma_filter_push(Seq::<Seq<char>>::empty(), name, pred);
    reveal_with_fuel(Seq::<_>::filter, 1);
    assert(Seq::<Seq<char>>::empty().push(name) =~= seq![name]);
    assert(spec_cache_entries(seq![name], package) =~= (if contains(name, package) {
        seq![unquoted(name)]
    } else {
        Seq::<Seq<char>>::empty()
    }));
}

/// A name rendered in quotes, `"NAME"`, is the name itself once unquoted,
/// where the name holds no quote.
pub proof fn unquoted_rendering(name: Seq<char>)
    requires
        !contains(name, "\""@),
    ensures
        unquoted("\""@ + name + "\""@) == name,
{
    reveal_strlit("\"");
    let q = seq!['"'];
    assert("\""@ =~= q);
    assert(crate::text::borderless(q));
    let e = Seq::<char>::empty();
    let ws = seq![e, name, e];
    assert(!contains(e, q));
    assert forall|k: int| 0 <= k < ws.len() implies !contains(#[trigger] ws[k], q) by {}
    crate::text::join_then_split(ws, q);
    assert(ws.drop_last() =~= seq![e, name]);
    assert(ws.drop_last().drop_last() =~= seq![e]);
    assert(join(seq![e, name], q) == join(seq![e], q) + q + name);
    assert(join(ws, q) == join(seq![e, name], q) + q + e);
    assert(join(ws, q) =~= q + name + q);
    assert(join(seq![e, name], e) == join(seq![e], e) + e + name);
    assert(join(ws, e) == join(seq![e, name], e) + e + e);
    assert(join(ws, e) =~= name);
}

/// The cache entry that marks a version is the last one in the cache that
/// it contains.
pub proof fn cache_mark_uses_last_entry(version: Seq<char>, cache: Seq<Seq<char>>, j: int)
    requires
        0 <= j < cache.len(),
        contains(version, cache[j]),
        forall|i: int| j < i < cache.len() ==> !contains(version, #[trigger] cache[i]),
    ensures
        cache_mark(version, cache) == cache[j] + "   [Cache]"@,
    decreases cache.len(),
{
    if j < cache.len() - 1 {
        let rest = cache.drop_last();
        assert(!contains(version, cache[cache.len() - 1]));
        assert forall|i: int| j < i < rest.len() implies !contains(version, #[trigger] rest[i]) by {
            assert(rest[i] == cache[i]);
        }
        assert(rest[j] == cache[j]);
        cache_mark_uses_last_entry(version, rest, j);
    }
}


/// A listing page made of pieces separated by `.pkg.tar.zst">` offers one
/// version for each piece between two separators, in page order: every
/// piece but the first and the last.
pub proof fn listing_page_pieces(pieces: Seq<Seq<char>>)
    requires
        pieces.len() >= 2,
        forall|k: int| 0 <= k < pieces.len() ==> !contains(#[trigger] pieces[k], ".pkg.tar.zst\">"@),
    ensures
        spec_parse_archive_listing(join(pieces, ".pkg.tar.zst\">"@)) == pieces.subrange(
            1,
            pieces.len() - 1,
        ).map_values(|p: Seq<char>| listing_entry(p)),
{
    reveal_strlit(".pkg.tar.zst\">");
    crate::text::lemma_borderless_by_last(".pkg.tar.zst\">"@);
    crate::text::join_then_split(pieces, ".pkg.tar.zst\">"@);
    assert(spec_parse_archive_listing(join(pieces, ".pkg.tar.zst\">"@)) =~= pieces.subrange(
        1,
        pieces.len() - 1,
    ).map_values(|p: Seq<char>| listing_entry(p)));
}

} // verus!
