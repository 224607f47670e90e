//! The AUR: reading a package's page, its search results and the log of its
//! packaging repository, and the addresses and names derived from them.
use vstd::prelude::*;
use crate::text::{
    borderless, lemma_borderless_by_first, lemma_split_at_found, lemma_no_start_without_first_char, lemma_borderless_by_last, lemma_contains_char, lemma_first_concat, lemma_split_after, lemma_split_no_match,
    contains, contains_exec, lemma_contains_within, lemma_split_at_contained, lemma_split_nonempty,
    occurs_at, extend_chars, first, first_exec, join, join_exec, nth, nth_exec,
    replace, replace_exec, split, split_exec, seqs_of, strings_of, to_chars, to_string, trim,
    trim_exec,
};

verus! {

/// A package page read as `(name, version, git address)`: the text after the
/// first `Package Details: ` up to `</h2>` gives the name and the version as
/// its first two space-separated pieces; the git address is the text after
/// the first `<a class="copy" href="` up to the next `"`. `None` where a piece is missing.
pub open spec fn spec_parse_package_page(data: Seq<char>) -> Option<(Seq<char>, Seq<char>, Seq<char>)> {
    match nth(data, "Package Details: "@, 1) {
        None => None,
        Some(after) => {
            let title = first(after, "</h2>"@);
            match (nth(title, " "@, 1), nth(data, "<a class=\"copy\" href=\""@, 1)) {
                (Some(version), Some(link)) => Some((first(title, " "@), version, first(link, "\""@))),
                _ => None,
            }
        },
    }
}

/// Reads the name, the version and the git address off a package's AUR page.
pub fn parse_package_page(data: &str) -> (package: Option<(String, String, String)>)
    ensures
        package matches Some((n, v, u)) ==> spec_parse_package_page(data@) == Some((n@, v@, u@)),
        package is None ==> spec_parse_package_page(data@) is None,
{
    proof {
        reveal_strlit("Package Details: ");
        reveal_strlit("</h2>");
        reveal_strlit(" ");
        reveal_strlit("<a class=\"copy\" href=\"");
        reveal_strlit("\"");
    }
    let d = to_chars(data);
    let after = match nth_exec(d.as_slice(), to_chars("Package Details: ").as_slice(), 1) {
        Some(a) => a,
        None => return None,
    };
    let title = first_exec(after.as_slice(), to_chars("</h2>").as_slice());
    let space = to_chars(" ");
    let version = match nth_exec(title.as_slice(), space.as_slice(), 1) {
        Some(v) => v,
        None => return None,
    };
    let link = match nth_exec(d.as_slice(), to_chars("<a class=\"copy\" href=\"").as_slice(), 1) {
        Some(l) => l,
        None => return None,
    };
    let name = first_exec(title.as_slice(), space.as_slice());
    let url = first_exec(link.as_slice(), to_chars("\"").as_slice());
    Some((to_string(name.as_slice()), to_string(version.as_slice()), to_string(url.as_slice())))
}

/// The address of a commit page: `https://aur.archlinux.org` followed by the
/// link as the log gives it, with every `amp;` removed.
pub open spec fn spec_commit_page_url(commit_url: Seq<char>) -> Seq<char> {
    "https://aur.archlinux.org"@ + replace(commit_url, "amp;"@, seq![])
}

/// The address of the page of the commit that the log links as `commit_url`.
pub fn commit_page_url(commit_url: &str) -> (url: String)
    ensures
        url@ == spec_commit_page_url(commit_url@),
{
    proof {
        reveal_strlit("amp;");
    }
    let empty: Vec<char> = Vec::new();
    assert(empty@ =~= Seq::<char>::empty());
    let cleaned = replace_exec(to_chars(commit_url).as_slice(), to_chars("amp;").as_slice(), empty.as_slice());
    let mut u = to_chars("https://aur.archlinux.org");
    extend_chars(&mut u, cleaned.as_slice());
    to_string(u.as_slice())
}

/// A commit page read as `(download address, snapshot file name)`: the
/// address is `https://aur.archlinux.org` followed by the link after the
/// download header, up to the next `'`; the file name is what follows the
/// first `/snapshot/` in that address. `None` where either is missing.
pub open spec fn spec_snapshot_download(page: Seq<char>) -> Option<(Seq<char>, Seq<char>)> {
    match nth(page, "<th>download</th><td colspan='2' class='oid'><a href='"@, 1) {
        None => None,
        Some(link) => {
            let url = "https://aur.archlinux.org"@ + first(link, "'"@);
            match nth(url, "/snapshot/"@, 1) {
                None => None,
                Some(name) => Some((url, name)),
            }
        },
    }
}

/// Reads the snapshot's download address and file name off a commit page.
pub fn snapshot_download(page: &str) -> (download: Option<(String, String)>)
    ensures
        download matches Some((u, n)) ==> spec_snapshot_download(page@) == Some((u@, n@)),
        download is None ==> spec_snapshot_download(page@) is None,
{
    proof {
        reveal_strlit("<th>download</th><td colspan='2' class='oid'><a href='");
        reveal_strlit("'");
        reveal_strlit("/snapshot/");
    }
    let p = to_chars(page);
    let link = match nth_exec(
        p.as_slice(),
        to_chars("<th>download</th><td colspan='2' class='oid'><a href='").as_slice(),
        1,
    ) {
        Some(l) => l,
        None => return None,
    };
    let mut url = to_chars("https://aur.archlinux.org");
    extend_chars(&mut url, first_exec(link.as_slice(), to_chars("'").as_slice()).as_slice());
    match nth_exec(url.as_slice(), to_chars("/snapshot/").as_slice(), 1) {
        None => None,
        Some(name) => Some((to_string(url.as_slice()), to_string(name.as_slice()))),
    }
}

/// The directory that a snapshot archive unpacks to: its name up to the first `.tar.gz`.
pub fn commit_package_name(commit_name: &str) -> (name: String)
    ensures
        name@ == first(commit_name@, ".tar.gz"@),
{
    proof {
        reveal_strlit(".tar.gz");
    }
    to_string(first_exec(to_chars(commit_name).as_slice(), to_chars(".tar.gz").as_slice()).as_slice())
}

/// The package name of a search result: the text before its first space.
pub fn search_entry_name(entry: &str) -> (name: String)
    ensures
        name@ == first(entry@, " "@),
{
    proof {
        reveal_strlit(" ");
    }
    to_string(first_exec(to_chars(entry).as_slice(), to_chars(" ").as_slice()).as_slice())
}

/// The git address of an AUR package: `https://aur.archlinux.org/NAME.git`.
pub fn aur_git_url(name: &str) -> (url: String)
    ensures
        url@ == "https://aur.archlinux.org/"@ + name@ + ".git"@,
{
    let mut u = to_chars("https://aur.archlinux.org/");
    extend_chars(&mut u, to_chars(name).as_slice());
    extend_chars(&mut u, to_chars(".git").as_slice());
    to_string(u.as_slice())
}

/// The label of a logged commit: its first three `[.]`-separated fields
/// joined by single spaces; `None` where it has fewer than three.
pub open spec fn spec_downgrade_entry_label(entry: Seq<char>) -> Option<Seq<char>> {
    let fields = split(entry, "[.]"@);
    if fields.len() < 3 {
        None
    } else {
        Some(join(fields.take(3), " "@))
    }
}

/// The text shown for a logged commit when one is chosen.
pub fn downgrade_entry_label(entry: &str) -> (label: Option<String>)
    ensures
        label matches Some(l) ==> spec_downgrade_entry_label(entry@) == Some(l@),
        label is None ==> spec_downgrade_entry_label(entry@) is None,
{
    proof {
        reveal_strlit("[.]");
    }
    let mut fields = split_exec(to_chars(entry).as_slice(), to_chars("[.]").as_slice());
    if fields.len() < 3 {
        return None;
    }
    let ghost all = seqs_of(fields@);
    fields.truncate(3);
    assert(seqs_of(fields@) =~= all.take(3));
    Some(to_string(join_exec(&fields, to_chars(" ").as_slice()).as_slice()))
}

/// The commit link of a logged commit: its fourth `[.]`-separated field.
pub fn downgrade_entry_commit(entry: &str) -> (commit: Option<String>)
    ensures
        commit matches Some(c) ==> nth(entry@, "[.]"@, 3) == Some(c@),
        commit is None ==> nth(entry@, "[.]"@, 3) is None,
{
    proof {
        reveal_strlit("[.]");
    }
    match nth_exec(to_chars(entry).as_slice(), to_chars("[.]").as_slice(), 3) {
        Some(c) => Some(to_string(c.as_slice())),
        None => None,
    }
}


/// The text between the first `>` of a cell and the next `<`.
pub open spec fn cell_text(cell: Seq<char>) -> Seq<char> {
    first(split(cell, ">"@)[1], "<"@)
}

/// How one cell of a log row is shown: a cell with a link as the commit
/// message, one with a `</span>` as its text followed by `[.]`, any other
/// as the author.
pub open spec fn detail_label(cell: Seq<char>) -> Seq<char> {
    if contains(cell, "</a>"@) {
        "\x1b[1;34m[Commit message: "@ + cell_text(cell) + "][.]\x1b[m"@
    } else if contains(cell, "</span>"@) {
        cell_text(cell) + "[.]"@
    } else {
        "\x1b[1;37mby: "@ + cell + "\x1b[m"@
    }
}

/// The labels of the cells (each taken up to its `</td>`), one after another.
pub open spec fn details_text(cells: Seq<Seq<char>>) -> Seq<char>
    decreases cells.len(),
{
    if cells.len() == 0 {
        seq![]
    } else {
        details_text(cells.drop_last()) + detail_label(first(cells.last(), "</td>"@))
    }
}

/// One logged commit: the labels of the row's cells (the pieces after each
/// `<td>`), then `[.]` and the commit link (after the first
/// `<td><a href='`, up to `'>`). `None` where the row has no such link.
pub open spec fn commit_row(row: Seq<char>) -> Option<Seq<char>> {
    match nth(row, "<td><a href='"@, 1) {
        None => None,
        Some(link) => Some(details_text(split(row, "<td>"@).drop_first()) + "[.]"@ + first(link, "'>"@)),
    }
}

/// The rows of the log table: the pieces after each `<tr>` of the table
/// body (after the first `<table class='list nowrap'>`, up to `</table>`),
/// each up to its `</tr>`. `None` where there is no table.
pub open spec fn log_rows(data: Seq<char>) -> Option<Seq<Seq<char>>> {
    match nth(data, "<table class='list nowrap'>"@, 1) {
        None => None,
        Some(after) => Some(
            split(first(after, "</table>"@), "<tr>"@).drop_first().map_values(
                |r: Seq<char>| first(r, "</tr>"@),
            ),
        ),
    }
}

/// The commits of a log page, newest first as the page lists them; `None`
/// where there is no table or a row has no commit link.
pub open spec fn spec_parse_commit_log(data: Seq<char>) -> Option<Seq<Seq<char>>> {
    match log_rows(data) {
        None => None,
        Some(rows) => if forall|k: int| 0 <= k < rows.len() ==> #[trigger] commit_row(rows[k]) is Some {
            Some(rows.map_values(|r: Seq<char>| commit_row(r)->0))
        } else {
            None
        },
    }
}

fn cell_text_exec(cell: &[char]) -> (t: Vec<char>)
    requires
        split(cell@, ">"@).len() >= 2,
    ensures
        t@ == cell_text(cell@),
{
    proof {
        reveal_strlit(">");
        reveal_strlit("<");
    }
    let inner = nth_exec(cell, to_chars(">").as_slice(), 1).unwrap();
    first_exec(inner.as_slice(), to_chars("<").as_slice())
}

fn detail_label_exec(cell: &[char]) -> (l: Vec<char>)
    ensures
        l@ == detail_label(cell@),
{
    proof {
        reveal_strlit("</a>");
        reveal_strlit("</span>");
        reveal_strlit(">");
    }
    if contains_exec(cell, to_chars("</a>").as_slice()) {
        proof {
            assert("</a>"@.subrange(3, 4) =~= ">"@);
            lemma_contains_within(cell@, "</a>"@, ">"@, 3);
            lemma_split_at_contained(cell@, ">"@);
        }
        let mut l = to_chars("\x1b[1;34m[Commit message: ");
        extend_chars(&mut l, cell_text_exec(cell).as_slice());
        extend_chars(&mut l, to_chars("][.]\x1b[m").as_slice());
        l
    } else if contains_exec(cell, to_chars("</span>").as_slice()) {
        proof {
            assert("</span>"@.subrange(6, 7) =~= ">"@);
            lemma_contains_within(cell@, "</span>"@, ">"@, 6);
            lemma_split_at_contained(cell@, ">"@);
        }
        let mut l = cell_text_exec(cell);
        extend_chars(&mut l, to_chars("[.]").as_slice());
        l
    } else {
        let mut l = to_chars("\x1b[1;37mby: ");
        extend_chars(&mut l, cell);
        extend_chars(&mut l, to_chars("\x1b[m").as_slice());
        l
    }
}

fn commit_row_exec(row: &[char]) -> (c: Option<Vec<char>>)
    ensures
        c matches Some(v) ==> commit_row(row@) == Some(v@),
        c is None ==> commit_row(row@) is None,
{
    proof {
        reveal_strlit("<td><a href='");
        reveal_strlit("<td>");
        reveal_strlit("</td>");
        reveal_strlit("'>");
        reveal_strlit("[.]");
    }
    let link = match nth_exec(row, to_chars("<td><a href='").as_slice(), 1) {
        Some(l) => l,
        None => return None,
    };
    let cells = split_exec(row, to_chars("<td>").as_slice());
    let td_end = to_chars("</td>");
    let mut text: Vec<char> = Vec::new();
    for d in 1..cells.len()
        invariant
            td_end@ == "</td>"@,
            td_end@.len() == 5,
            seqs_of(cells@) == split(row@, "<td>"@),
            text@ == details_text(seqs_of(cells@).subrange(1, d as int)),
    {
        let cell = first_exec(cells[d].as_slice(), td_end.as_slice());
        extend_chars(&mut text, detail_label_exec(cell.as_slice()).as_slice());
        assert(seqs_of(cells@).subrange(1, d + 1).drop_last() =~= seqs_of(cells@).subrange(
            1,
            d as int,
        ));
    }
    proof {
        lemma_split_nonempty(row@, "<td>"@, 0);
        assert(seqs_of(cells@).subrange(1, cells.len() as int) =~= split(row@, "<td>"@).drop_first());
    }
    extend_chars(&mut text, to_chars("[.]").as_slice());
    extend_chars(&mut text, first_exec(link.as_slice(), to_chars("'>").as_slice()).as_slice());
    Some(text)
}

/// Reads the commits off the log page of a package's AUR repository, each
/// as its cell labels, `[.]` and its commit link.
pub fn parse_commit_log(data: &str) -> (commits: Option<Vec<String>>)
    ensures
        commits matches Some(v) ==> spec_parse_commit_log(data@) == Some(strings_of(v@)),
        commits is None ==> spec_parse_commit_log(data@) is None,
{
    proof {
        reveal_strlit("<table class='list nowrap'>");
        reveal_strlit("</table>");
        reveal_strlit("<tr>");
        reveal_strlit("</tr>");
    }
    let d = to_chars(data);
    let after = match nth_exec(d.as_slice(), to_chars("<table class='list nowrap'>").as_slice(), 1) {
        Some(a) => a,
        None => return None,
    };
    let body = first_exec(after.as_slice(), to_chars("</table>").as_slice());
    let pieces = split_exec(body.as_slice(), to_chars("<tr>").as_slice());
    let tr_end = to_chars("</tr>");
    let ghost rows = log_rows(data@)->0;
    proof {
        lemma_split_nonempty(body@, "<tr>"@, 0);
    }
    let mut commits: Vec<String> = Vec::new();
    for i in 1..pieces.len()
        invariant
            tr_end@ == "</tr>"@,
            tr_end@.len() == 5,
            pieces.len() >= 1,
            rows == seqs_of(pieces@).drop_first().map_values(|r: Seq<char>| first(r, "</tr>"@)),
            log_rows(data@) == Some(rows),
            commits.len() == i - 1,
            forall|k: int| 0 <= k < i - 1 ==> #[trigger] commit_row(rows[k]) == Some(commits@[k]@),
    {
        let row = first_exec(pieces[i].as_slice(), tr_end.as_slice());
        assert(row@ == rows[i - 1]);
        match commit_row_exec(row.as_slice()) {
            Some(c) => commits.push(to_string(c.as_slice())),
            None => {
                assert(commit_row(rows[i - 1]) is None);
                return None;
            },
        }
    }
    assert(strings_of(commits@) =~= rows.map_values(|r: Seq<char>| commit_row(r)->0));
    Some(commits)
}


/// How a search result is listed: `NAME [VERSION] [DATE] [FLAGGED OUTDATED]`
/// for a package flagged out of date, else `NAME` then the version in blue
/// and the date in white, each in brackets.
pub open spec fn entry_text(name: Seq<char>, version: Seq<char>, date: Seq<char>, outdated: bool) -> Seq<char> {
    if outdated {
        name + " ["@ + version + "] ["@ + date + "] [FLAGGED OUTDATED]"@
    } else {
        name + " \x1b[1;34m["@ + version + "]\x1b[m \x1b[1;37m["@ + date + "]\x1b[m"@
    }
}

fn entry_text_exec(name: &[char], version: &[char], date: &[char], outdated: bool) -> (e: Vec<char>)
    ensures
        e@ == entry_text(name@, version@, date@, outdated),
{
    let mut e: Vec<char> = Vec::new();
    extend_chars(&mut e, name);
    if outdated {
        extend_chars(&mut e, to_chars(" [").as_slice());
        extend_chars(&mut e, version);
        extend_chars(&mut e, to_chars("] [").as_slice());
        extend_chars(&mut e, date);
        extend_chars(&mut e, to_chars("] [FLAGGED OUTDATED]").as_slice());
    } else {
        extend_chars(&mut e, to_chars(" \x1b[1;34m[").as_slice());
        extend_chars(&mut e, version);
        extend_chars(&mut e, to_chars("]\x1b[m \x1b[1;37m[").as_slice());
        extend_chars(&mut e, date);
        extend_chars(&mut e, to_chars("]\x1b[m").as_slice());
    }
    e
}

/// Formats one search result.
pub fn search_entry(name: &str, version: &str, date: &str, outdated: bool) -> (entry: String)
    ensures
        entry@ == entry_text(name@, version@, date@, outdated),
{
    let e = entry_text_exec(
        to_chars(name).as_slice(),
        to_chars(version).as_slice(),
        to_chars(date).as_slice(),
        outdated,
    );
    to_string(e.as_slice())
}

/// The fields of a search result as they are read: name, version, date,
/// flagged out of date.
pub type ResultFields = (Seq<char>, Seq<char>, Seq<char>, bool);

/// Reading cell `d` of `n` (counted from 1) into the fields: cell 2 gives the
/// version and the last cell the date (the text after the cell's first `>`,
/// up to `</td`); a cell that links `/packages/` then gives the name (up to
/// the next `"`); else a cell that says `flagged` marks the package out of
/// date and gives, after its first `">`, the date when it says `UTC`, else
/// the version. `None` where a piece that is read is missing.
pub open spec fn search_step(st: ResultFields, d: int, n: int, cell: Seq<char>) -> Option<ResultFields> {
    let placed: Option<ResultFields> = if d == 2 {
        match nth(cell, ">"@, 1) {
            None => None,
            Some(x) => Some((st.0, first(x, "</td"@), st.2, st.3)),
        }
    } else if d == n {
        match nth(cell, ">"@, 1) {
            None => None,
            Some(x) => Some((st.0, st.1, first(x, "</td"@), st.3)),
        }
    } else {
        Some(st)
    };
    match placed {
        None => None,
        Some(s) => if contains(cell, "/packages/"@) {
            Some((first(split(cell, "/packages/"@)[1], "\""@), s.1, s.2, s.3))
        } else if contains(cell, "flagged"@) {
            match nth(cell, "\">"@, 1) {
                None => None,
                Some(x) => if contains(cell, "UTC"@) {
                    Some((s.0, s.1, x, true))
                } else {
                    Some((s.0, x, s.2, true))
                },
            }
        } else {
            Some(s)
        },
    }
}

/// The fields after reading cells `1..=upto` of a row split at `<td`, each
/// cell taken up to its `</td>`; all fields start empty and not flagged.
pub open spec fn search_fold(cells: Seq<Seq<char>>, upto: int, n: int) -> Option<ResultFields>
    decreases upto,
{
    if upto <= 0 {
        Some((seq![], seq![], seq![], false))
    } else {
        match search_fold(cells, upto - 1, n) {
            None => None,
            Some(st) => search_step(st, upto, n, first(cells[upto], "</td>"@)),
        }
    }
}

/// One search result, read from a row piece: the piece up to `</tr>`,
/// trimmed, has its cells read and is formatted.
pub open spec fn search_row(piece: Seq<char>) -> Option<Seq<char>> {
    let cells = split(trim(first(piece, "</tr>"@)), "<td"@);
    let n = cells.len() - 1;
    match search_fold(cells, n, n) {
        None => None,
        Some(st) => Some(entry_text(st.0, st.1, st.2, st.3)),
    }
}

/// The results of a search page: none where the page has no `<tbody>`;
/// else one for each piece after a `<tr>` in the text after the first
/// `<tbody>` up to `</tbody>`. `None` where a result cannot be read.
pub open spec fn spec_parse_search_results(data: Seq<char>) -> Option<Seq<Seq<char>>> {
    match nth(data, "<tbody>"@, 1) {
        None => Some(seq![]),
        Some(after) => {
            let rows = split(first(after, "</tbody>"@), "<tr>"@).drop_first();
            if forall|k: int| 0 <= k < rows.len() ==> #[trigger] search_row(rows[k]) is Some {
                Some(rows.map_values(|r: Seq<char>| search_row(r)->0))
            } else {
                None
            }
        },
    }
}

fn search_step_exec(
    name: Vec<char>,
    version: Vec<char>,
    date: Vec<char>,
    outdated: bool,
    d: usize,
    n: usize,
    cell: &[char],
) -> (r: Option<(Vec<char>, Vec<char>, Vec<char>, bool)>)
    ensures
        r matches Some(t) ==> search_step((name@, version@, date@, outdated), d as int, n as int, cell@)
            == Some((t.0@, t.1@, t.2@, t.3)),
        r is None ==> search_step((name@, version@, date@, outdated), d as int, n as int, cell@) is None,
{
    proof {
        reveal_strlit(">");
        reveal_strlit("</td");
        reveal_strlit("/packages/");
        reveal_strlit("\"");
        reveal_strlit("flagged");
        reveal_strlit("\">");
        reveal_strlit("UTC");
    }
    let mut name = name;
    let mut version = version;
    let mut date = date;
    let gt = to_chars(">");
    let td_end = to_chars("</td");
    if d == 2 {
        match nth_exec(cell, gt.as_slice(), 1) {
            None => return None,
            Some(x) => {
                version = first_exec(x.as_slice(), td_end.as_slice());
            },
        }
    } else if d == n {
        match nth_exec(cell, gt.as_slice(), 1) {
            None => return None,
            Some(x) => {
                date = first_exec(x.as_slice(), td_end.as_slice());
            },
        }
    }
    let packages = to_chars("/packages/");
    if contains_exec(cell, packages.as_slice()) {
        proof {
            lemma_split_at_contained(cell@, "/packages/"@);
        }
        let link = nth_exec(cell, packages.as_slice(), 1).unwrap();
        name = first_exec(link.as_slice(), to_chars("\"").as_slice());
        Some((name, version, date, outdated))
    } else if contains_exec(cell, to_chars("flagged").as_slice()) {
        match nth_exec(cell, to_chars("\">").as_slice(), 1) {
            None => None,
            Some(x) => if contains_exec(cell, to_chars("UTC").as_slice()) {
                Some((name, version, x, true))
            } else {
                Some((name, x, date, true))
            },
        }
    } else {
        Some((name, version, date, outdated))
    }
}

fn search_row_exec(piece: &[char]) -> (r: Option<Vec<char>>)
    ensures
        r matches Some(v) ==> search_row(piece@) == Some(v@),
        r is None ==> search_row(piece@) is None,
{
    proof {
        reveal_strlit("</tr>");
        reveal_strlit("<td");
        reveal_strlit("</td>");
    }
    let row = trim_exec(first_exec(piece, to_chars("</tr>").as_slice()).as_slice());
    let cells = split_exec(row.as_slice(), to_chars("<td").as_slice());
    let td_end = to_chars("</td>");
    proof {
        lemma_split_nonempty(row@, "<td"@, 0);
    }
    let n = cells.len() - 1;
    let mut name: Vec<char> = Vec::new();
    let mut version: Vec<char> = Vec::new();
    let mut date: Vec<char> = Vec::new();
    let mut outdated = false;
    assert(name@ =~= Seq::<char>::empty());
    assert(version@ =~= Seq::<char>::empty());
    assert(date@ =~= Seq::<char>::empty());
    let mut d: usize = 1;
    while d <= n
        invariant
            td_end@ == "</td>"@,
            td_end@.len() == 5,
            n == cells.len() - 1,
            row@ == trim(first(piece@, "</tr>"@)),
            seqs_of(cells@) == split(row@, "<td"@),
            1 <= d <= n + 1,
            search_fold(seqs_of(cells@), d - 1, n as int) == Some(
                (name@, version@, date@, outdated),
            ),
        decreases n + 1 - d,
    {
        let cell = first_exec(cells[d].as_slice(), td_end.as_slice());
        assert(cell@ == first(seqs_of(cells@)[d as int], "</td>"@));
        match search_step_exec(name, version, date, outdated, d, n, cell.as_slice()) {
            None => {
                assert(search_fold(seqs_of(cells@), d as int, n as int) is None);
                proof {
                    lemma_search_fold_stays_none(seqs_of(cells@), d as int, n as int, n as int);
                }
                return None;
            },
            Some(t) => {
                name = t.0;
                version = t.1;
                date = t.2;
                outdated = t.3;
            },
        }
        d = d + 1;
    }
    Some(entry_text_exec(name.as_slice(), version.as_slice(), date.as_slice(), outdated))
}

/// Once a row cannot be read, reading more of its cells does not mend it.
proof fn lemma_search_fold_stays_none(cells: Seq<Seq<char>>, from: int, upto: int, n: int)
    requires
        0 <= from <= upto,
        search_fold(cells, from, n) is None,
    ensures
        search_fold(cells, upto, n) is None,
    decreases upto - from,
{
    if from < upto {
        lemma_search_fold_stays_none(cells, from, upto - 1, n);
    }
}

/// Reads the results off an AUR search page, in page order.
pub fn parse_search_results(data: &str) -> (results: Option<Vec<String>>)
    ensures
        results matches Some(v) ==> spec_parse_search_results(data@) == Some(strings_of(v@)),
        results is None ==> spec_parse_search_results(data@) is None,
{
    proof {
        reveal_strlit("<tbody>");
        reveal_strlit("</tbody>");
        reveal_strlit("<tr>");
    }
    let d = to_chars(data);
    let mut results: Vec<String> = Vec::new();
    let after = match nth_exec(d.as_slice(), to_chars("<tbody>").as_slice(), 1) {
        Some(a) => a,
        None => {
            assert(strings_of(results@) =~= Seq::<Seq<char>>::empty());
            return Some(results);
        },
    };
    let body = first_exec(after.as_slice(), to_chars("</tbody>").as_slice());
    let pieces = split_exec(body.as_slice(), to_chars("<tr>").as_slice());
    proof {
        lemma_split_nonempty(body@, "<tr>"@, 0);
    }
    let ghost rows = seqs_of(pieces@).drop_first();
    for i in 1..pieces.len()
        invariant
            pieces.len() >= 1,
            rows == seqs_of(pieces@).drop_first(),
            rows == split(first(after@, "</tbody>"@), "<tr>"@).drop_first(),
            nth(data@, "<tbody>"@, 1) == Some(after@),
            results.len() == i - 1,
            forall|k: int| 0 <= k < i - 1 ==> #[trigger] search_row(rows[k]) == Some(results@[k]@),
    {
        match search_row_exec(pieces[i].as_slice()) {
            Some(r) => results.push(to_string(r.as_slice())),
            None => {
                assert(search_row(rows[i - 1]) is None);
                return None;
            },
        }
    }
    assert(strings_of(results@) =~= rows.map_values(|r: Seq<char>| search_row(r)->0));
    Some(results)
}


/// A search result that is chosen installs the package it names: the name
/// read back from a listed result is the name it was listed with, where that
/// name holds no space.
pub proof fn search_entry_name_round_trip(
    name: Seq<char>,
    version: Seq<char>,
    date: Seq<char>,
    outdated: bool,
)
    requires
        !contains(name, " "@),
    ensures
        first(entry_text(name, version, date, outdated), " "@) == name,
{
    reveal_strlit(" ");
    reveal_strlit(" [");
    reveal_strlit(" \x1b[1;34m[");
    let sp = " "@;
    assert(sp =~= seq![' ']);
    assert(borderless(sp));
    let rest = entry_text(name, version, date, outdated).subrange(
        (name.len() + 1) as int,
        entry_text(name, version, date, outdated).len() as int,
    );
    assert(entry_text(name, version, date, outdated) =~= name + sp + rest);
    lemma_split_after(name, sp, rest);
}

/// A logged commit whose fields hold no `[.]`: its label shows the first
/// three fields joined by spaces, and choosing it downgrades to its link.
pub proof fn downgrade_entry_fields(
    f1: Seq<char>,
    f2: Seq<char>,
    f3: Seq<char>,
    link: Seq<char>,
)
    requires
        !contains(f1, "[.]"@),
        !contains(f2, "[.]"@),
        !contains(f3, "[.]"@),
        !contains(link, "[.]"@),
    ensures
        ({
            let entry = f1 + "[.]"@ + f2 + "[.]"@ + f3 + "[.]"@ + link;
            &&& spec_downgrade_entry_label(entry) == Some(f1 + " "@ + f2 + " "@ + f3)
            &&& nth(entry, "[.]"@, 3) == Some(link)
        }),
{
    reveal_strlit("[.]");
    reveal_strlit(" ");
    let p = "[.]"@;
    lemma_borderless_by_last(p);
    let e3 = f3 + p + link;
    let e2 = f2 + p + e3;
    let e1 = f1 + p + e2;
    assert(f1 + p + f2 + p + f3 + p + link =~= e1);
    lemma_split_no_match(link, p);
    lemma_split_after(f3, p, link);
    lemma_split_after(f2, p, e3);
    lemma_split_after(f1, p, e2);
    let fields = split(e1, p);
    assert(fields =~= seq![f1, f2, f3, link]);
    let three = fields.take(3);
    assert(three =~= seq![f1, f2, f3]);
    assert(three.drop_last() =~= seq![f1, f2]);
    assert(three.drop_last().drop_last() =~= seq![f1]);
    assert(join(three.drop_last(), " "@) == join(seq![f1], " "@) + " "@ + f2);
    assert(join(three, " "@) =~= f1 + " "@ + f2 + " "@ + f3);
}

/// The fields that a logged commit shows for a row whose cells (each cut at
/// its `</td>`) are an age (a `</span>`), a message (a link) and an author:
/// the age, the message in brackets, and the author.
pub open spec fn commit_fields(age: Seq<char>, message: Seq<char>, author: Seq<char>) -> (Seq<char>, Seq<char>, Seq<char>) {
    (
        cell_text(age),
        "\x1b[1;34m[Commit message: "@ + cell_text(message) + "]"@,
        "\x1b[m"@ + "\x1b[1;37mby: "@ + author + "\x1b[m"@,
    )
}

/// Choosing a logged commit downgrades to the commit it links: for a row
/// with an age, a message and an author cell, the entry that the log gives
/// is labelled with the three fields it shows and yields its link, where
/// none of those fields nor the link holds `[.]`.
pub proof fn commit_entry_round_trip(
    c1: Seq<char>,
    c2: Seq<char>,
    c3: Seq<char>,
    link: Seq<char>,
)
    requires
        ({
            let age = first(c1, "</td>"@);
            let message = first(c2, "</td>"@);
            let author = first(c3, "</td>"@);
            let f = commit_fields(age, message, author);
            &&& contains(age, "</span>"@)
            &&& !contains(age, "</a>"@)
            &&& contains(message, "</a>"@)
            &&& !contains(author, "</a>"@)
            &&& !contains(author, "</span>"@)
            &&& !contains(f.0, "[.]"@)
            &&& !contains(f.1, "[.]"@)
            &&& !contains(f.2, "[.]"@)
            &&& !contains(link, "[.]"@)
        }),
    ensures
        ({
            let f = commit_fields(first(c1, "</td>"@), first(c2, "</td>"@), first(c3, "</td>"@));
            let entry = details_text(seq![c1, c2, c3]) + "[.]"@ + link;
            &&& spec_downgrade_entry_label(entry) == Some(f.0 + " "@ + f.1 + " "@ + f.2)
            &&& nth(entry, "[.]"@, 3) == Some(link)
        }),
{
    reveal_strlit("][.]\x1b[m");
    reveal_strlit("]");
    reveal_strlit("[.]");
    reveal_strlit("\x1b[m");
    let cells = seq![c1, c2, c3];
    let age = first(c1, "</td>"@);
    let message = first(c2, "</td>"@);
    let author = first(c3, "</td>"@);
    let f = commit_fields(age, message, author);
    assert(cells.drop_last() =~= seq![c1, c2]);
    assert(cells.drop_last().drop_last() =~= seq![c1]);
    assert(cells.drop_last().drop_last().drop_last() =~= Seq::<Seq<char>>::empty());
    let t1 = detail_label(age);
    let t2 = detail_label(message);
    let t3 = detail_label(author);
    assert(seq![c1].drop_last() =~= Seq::<Seq<char>>::empty());
    assert(seq![c1, c2].drop_last() =~= seq![c1]);
    assert(details_text(Seq::<Seq<char>>::empty()) == Seq::<char>::empty());
    assert(details_text(seq![c1]) == details_text(Seq::<Seq<char>>::empty()) + t1);
    assert(details_text(seq![c1]) =~= t1);
    assert(details_text(seq![c1, c2]) == details_text(seq![c1]) + t2);
    assert(details_text(cells) == details_text(seq![c1, c2]) + t3);
    assert(details_text(cells) =~= t1 + t2 + t3);
    assert(t1 + t2 + t3 + "[.]"@ + link =~= f.0 + "[.]"@ + f.1 + "[.]"@ + f.2 + "[.]"@ + link);
    downgrade_entry_fields(f.0, f.1, f.2, link);
}


/// A cell shows the whole text between its first `>` and the next `<`:
/// for a cell `prefix > t < rest` whose prefix holds no `>` and whose text
/// holds neither `<` nor `>`, the text shown is `t`, whatever else it holds.
pub proof fn cell_text_is_enclosed_text(prefix: Seq<char>, t: Seq<char>, rest: Seq<char>)
    requires
        !contains(prefix, ">"@),
        !contains(t, "<"@),
        !contains(t, ">"@),
    ensures
        cell_text(prefix + ">"@ + t + "<"@ + rest) == t,
{
    reveal_strlit(">");
    reveal_strlit("<");
    let gt = seq!['>'];
    let lt = seq!['<'];
    assert(">"@ =~= gt);
    assert("<"@ =~= lt);
    assert(borderless(gt));
    assert(borderless(lt));
    let tail = t + lt + rest;
    let cell = prefix + gt + tail;
    assert(prefix + ">"@ + t + "<"@ + rest =~= cell);
    lemma_split_after(prefix, gt, tail);
    crate::text::lemma_split_nonempty(tail, gt, 0);
    assert(split(cell, gt)[1] == first(tail, gt));
    let tl = t + lt;
    lemma_contains_char(t, '>');
    lemma_contains_char(tl, '>');
    assert forall|i: int| 0 <= i < tl.len() implies tl[i] != '>' by {
        if i == t.len() {
            assert(tl[i] == '<');
        }
    }
    lemma_contains_char(tl, '>');
    assert(tail =~= tl + rest);
    lemma_first_concat(tl, rest, '>');
    let piece = t + lt + first(rest, gt);
    assert(first(tail, gt) =~= piece);
    lemma_split_after(t, lt, first(rest, gt));
}


/// A package page reads as the name and version of its title and the
/// address of its git link: for a page `a`, `Package Details: `, the name, a
/// space, the version, `</h2>`, `b`, `<a class="copy" href="`, the address,
/// `"`, `c`, where each of the two markers occurs once, the name and version
/// hold no space and the title no `</h2>`, and the address holds no `"`.
pub proof fn package_page_shape(
    a: Seq<char>,
    name: Seq<char>,
    version: Seq<char>,
    b: Seq<char>,
    url: Seq<char>,
    c: Seq<char>,
)
    requires
        ({
            let pd = "Package Details: "@;
            let copy = "<a class=\"copy\" href=\""@;
            let title = name + " "@ + version;
            let after = title + "</h2>"@ + b + copy + url + "\""@ + c;
            &&& !contains(a, pd)
            &&& !contains(after, pd)
            &&& !contains(name, " "@)
            &&& !contains(version, " "@)
            &&& !contains(title, "</h2>"@)
            &&& !contains(a + pd + title + "</h2>"@ + b, copy)
            &&& !contains(url, "\""@)
            &&& !contains(url + "\""@ + c, copy)
        }),
    ensures
        spec_parse_package_page(
            a + "Package Details: "@ + name + " "@ + version + "</h2>"@ + b
                + "<a class=\"copy\" href=\""@ + url + "\""@ + c,
        ) == Some((name, version, url)),
{
    reveal_strlit("Package Details: ");
    reveal_strlit("<a class=\"copy\" href=\"");
    reveal_strlit("</h2>");
    reveal_strlit(" ");
    reveal_strlit("\"");
    let pd = "Package Details: "@;
    let copy = "<a class=\"copy\" href=\""@;
    let h2 = "</h2>"@;
    let sp = " "@;
    let q = "\""@;
    lemma_borderless_by_first(pd);
    lemma_borderless_by_first(copy);
    lemma_borderless_by_first(h2);
    assert(sp =~= seq![' ']);
    assert(q =~= seq!['"']);
    assert(borderless(sp));
    assert(borderless(q));
    let title = name + sp + version;
    let rest = b + copy + url + q + c;
    let after = title + h2 + rest;
    let data = a + pd + name + sp + version + h2 + b + copy + url + q + c;
    // the title
    assert(after =~= title + h2 + b + copy + url + q + c);
    assert(data =~= a + pd + after);
    lemma_split_after(a, pd, after);
    lemma_split_no_match(after, pd);
    assert(nth(data, pd, 1) == Some(after));
    lemma_split_after(title, h2, rest);
    assert(first(after, h2) == title);
    lemma_split_after(name, sp, version);
    lemma_split_no_match(version, sp);
    assert(split(title, sp) =~= seq![name, version]);
    // the git address
    let before = a + pd + title + h2 + b;
    let link = url + q + c;
    assert(data =~= before + copy + link);
    assert(link =~= url + q + c);
    lemma_split_after(before, copy, link);
    lemma_split_no_match(link, copy);
    assert(nth(data, copy, 1) == Some(link));
    lemma_split_after(url, q, c);
}


/// The text of a cell `attrs > t` read as a version or date: `t` itself,
/// where the attributes hold no `>` and `t` neither `>` nor `</td`.
proof fn lemma_field_text(attrs: Seq<char>, t: Seq<char>)
    requires
        !contains(attrs, ">"@),
        !contains(t, ">"@),
        !contains(t, "</td"@),
    ensures
        nth(attrs + ">"@ + t, ">"@, 1) matches Some(x) && first(x, "</td"@) == t,
{
    reveal_strlit(">");
    reveal_strlit("</td");
    let gt = seq!['>'];
    assert(">"@ =~= gt);
    assert(borderless(gt));
    lemma_split_after(attrs, gt, t);
    lemma_split_no_match(t, gt);
    lemma_split_no_match(t, "</td"@);
}

/// The second cell of a search result, `attrs > VERSION`, gives the
/// version whole, where the cell links no package and is not flagged, the
/// attributes hold no `>` and the version neither `>` nor `</td`.
pub proof fn search_version_cell(st: ResultFields, n: int, attrs: Seq<char>, version: Seq<char>)
    requires
        !contains(attrs, ">"@),
        !contains(version, ">"@),
        !contains(version, "</td"@),
        !contains(attrs + ">"@ + version, "/packages/"@),
        !contains(attrs + ">"@ + version, "flagged"@),
    ensures
        search_step(st, 2, n, attrs + ">"@ + version) == Some((st.0, version, st.2, st.3)),
{
    lemma_field_text(attrs, version);
}

/// The last cell of a search result, `attrs > DATE`, gives the date whole,
/// under the same conditions.
pub proof fn search_date_cell(st: ResultFields, n: int, attrs: Seq<char>, date: Seq<char>)
    requires
        n != 2,
        !contains(attrs, ">"@),
        !contains(date, ">"@),
        !contains(date, "</td"@),
        !contains(attrs + ">"@ + date, "/packages/"@),
        !contains(attrs + ">"@ + date, "flagged"@),
    ensures
        search_step(st, n, n, attrs + ">"@ + date) == Some((st.0, st.1, date, st.3)),
{
    lemma_field_text(attrs, date);
}

/// A cell that links `/packages/NAME"` gives the package name whole, where
/// the text before the link and the name hold no `/` and the name no `"`.
pub proof fn search_name_cell(st: ResultFields, d: int, n: int, x: Seq<char>, name: Seq<char>, y: Seq<char>)
    requires
        d != 2,
        d != n,
        forall|i: int| 0 <= i < x.len() ==> #[trigger] x[i] != '/',
        forall|i: int| 0 <= i < name.len() ==> #[trigger] name[i] != '/',
        !contains(name, "\""@),
    ensures
        search_step(st, d, n, x + "/packages/"@ + name + "\""@ + y) == Some((name, st.1, st.2, st.3)),
{
    reveal_strlit("/packages/");
    reveal_strlit("\"");
    let pk = "/packages/"@;
    let q = seq!['"'];
    assert("\""@ =~= q);
    assert(borderless(q));
    let rest = name + q + y;
    let cell = x + pk + rest;
    assert(x + "/packages/"@ + name + "\""@ + y =~= cell);
    lemma_no_start_without_first_char(x, pk, rest);
    lemma_split_at_found(x, pk, rest);
    assert(cell.subrange(x.len() as int, (x.len() + pk.len()) as int) =~= pk);
    crate::text::lemma_occurs_contains(cell, pk, x.len() as int);
    crate::text::lemma_split_nonempty(rest, pk, 0);
    assert(split(cell, pk)[1] == first(rest, pk));
    let u = name + q;
    assert forall|i: int| 0 <= i < u.len() implies #[trigger] u[i] != pk[0] by {
        if i < name.len() {
            assert(u[i] == name[i]);
        }
    }
    assert forall|j: int| 0 <= j < u.len() implies !occurs_at(u + y, pk, j) by {
        if occurs_at(u + y, pk, j) {
            assert((u + y).subrange(j, j + pk.len())[0] == (u + y)[j]);
            assert((u + y)[j] == u[j]);
        }
    }
    assert(rest =~= u + y);
    crate::text::lemma_split_shift_prefix(u, y, pk);
    assert(first(rest, pk) =~= name + q + first(y, pk));
    lemma_split_after(name, q, first(y, pk));
}


/// A flagged cell `attrs ">TEXT` marks the result out of date and gives
/// its text whole: as the date when the cell says `UTC`, else as the
/// version, where the attributes hold no `">`, the text none, and the cell
/// links no package.
pub proof fn search_flagged_cell(st: ResultFields, d: int, n: int, attrs: Seq<char>, t: Seq<char>)
    requires
        d != 2,
        d != n,
        contains(attrs, "flagged"@),
        !contains(attrs, "\">"@),
        !contains(t, "\">"@),
        !contains(attrs + "\">"@ + t, "/packages/"@),
    ensures
        search_step(st, d, n, attrs + "\">"@ + t) == Some(
            if contains(attrs + "\">"@ + t, "UTC"@) {
                (st.0, st.1, t, true)
            } else {
                (st.0, t, st.2, true)
            },
        ),
{
    reveal_strlit("\">");
    reveal_strlit("flagged");
    let m = "\">"@;
    lemma_borderless_by_first(m);
    lemma_split_after(attrs, m, t);
    lemma_split_no_match(t, m);
    let cell = attrs + m + t;
    assert(cell.subrange(0, attrs.len() as int) =~= attrs);
    crate::text::lemma_find_from(attrs, "flagged"@, 0);
    let i = crate::text::find_from(attrs, "flagged"@, 0)->0;
    assert(cell.subrange(i, i + 7) =~= attrs.subrange(i, i + 7));
    crate::text::lemma_occurs_contains(cell, "flagged"@, i);
}


/// A log row `<td>` AGE `<td>` MESSAGE `<td>` AUTHOR, whose message cell
/// starts `<a href='LINK'>`, gives the labels of its three cells, `[.]` and
/// the whole link: where no cell holds `<td>`, `<td><a href='` occurs only
/// at the message cell, and the link holds no `'>`.
pub proof fn commit_row_shape(c1: Seq<char>, link: Seq<char>, m: Seq<char>, c3: Seq<char>)
    requires
        ({
            let c2 = "<a href='"@ + link + "'>"@ + m;
            &&& !contains(c1, "<td>"@)
            &&& !contains(c2, "<td>"@)
            &&& !contains(c3, "<td>"@)
            &&& !contains("<td>"@ + c1, "<td><a href='"@)
            &&& !contains(link + "'>"@ + m + "<td>"@ + c3, "<td><a href='"@)
            &&& !contains(link, "'>"@)
        }),
    ensures
        ({
            let c2 = "<a href='"@ + link + "'>"@ + m;
            commit_row("<td>"@ + c1 + "<td>"@ + c2 + "<td>"@ + c3) == Some(
                details_text(seq![c1, c2, c3]) + "[.]"@ + link,
            )
        }),
{
    reveal_strlit("<td>");
    reveal_strlit("<td><a href='");
    reveal_strlit("<a href='");
    reveal_strlit("'>");
    let td = "<td>"@;
    let tda = "<td><a href='"@;
    let close = "'>"@;
    lemma_borderless_by_first(td);
    lemma_borderless_by_last(tda);
    lemma_borderless_by_first(close);
    let c2 = "<a href='"@ + link + close + m;
    let row = td + c1 + td + c2 + td + c3;
    // the cells
    let e = Seq::<char>::empty();
    assert(!contains(e, td));
    lemma_split_no_match(c3, td);
    lemma_split_after(c2, td, c3);
    lemma_split_after(c1, td, c2 + td + c3);
    lemma_split_after(e, td, c1 + td + c2 + td + c3);
    assert(row =~= e + td + (c1 + td + (c2 + td + c3)));
    assert(c1 + td + (c2 + td + c3) =~= c1 + td + c2 + td + c3);
    assert(split(row, td).drop_first() =~= seq![c1, c2, c3]);
    // the link
    let tail = link + close + m + td + c3;
    assert(row =~= (td + c1) + tda + tail);
    lemma_split_after(td + c1, tda, tail);
    lemma_split_no_match(tail, tda);
    assert(nth(row, tda, 1) == Some(tail));
    assert(tail =~= link + close + (m + td + c3));
    lemma_split_after(link, close, m + td + c3);
}

/// The rows of a log page: for a page `a`, the table's opening tag, each
/// row as `<tr>` ROW `</tr>`, `</table>` and `z`, the rows read are the
/// rows, where the opening tag occurs once and no row holds `<tr>` or `</tr>`.
pub proof fn log_rows_shape(a: Seq<char>, rows: Seq<Seq<char>>, z: Seq<char>)
    requires
        rows.len() >= 1,
        forall|k: int| 0 <= k < rows.len() ==> !contains(#[trigger] rows[k], "<tr>"@),
        forall|k: int| 0 <= k < rows.len() ==> !contains(#[trigger] rows[k], "</tr>"@),
        !contains(a, "<table class='list nowrap'>"@),
        !contains(
            "<tr>"@ + join(rows.map_values(|r: Seq<char>| r + "</tr>"@), "<tr>"@) + "</table>"@ + z,
            "<table class='list nowrap'>"@,
        ),
        !contains(join(rows.map_values(|r: Seq<char>| r + "</tr>"@), "<tr>"@), "</table>"@),
    ensures
        log_rows(
            a + "<table class='list nowrap'>"@ + "<tr>"@ + join(
                rows.map_values(|r: Seq<char>| r + "</tr>"@),
                "<tr>"@,
            ) + "</table>"@ + z,
        ) == Some(rows),
{
    reveal_strlit("<table class='list nowrap'>");
    reveal_strlit("</table>");
    reveal_strlit("<tr>");
    reveal_strlit("</tr>");
    let table = "<table class='list nowrap'>"@;
    let end = "</table>"@;
    let tr = "<tr>"@;
    let etr = "</tr>"@;
    lemma_borderless_by_first(table);
    lemma_borderless_by_first(end);
    lemma_borderless_by_first(tr);
    lemma_borderless_by_first(etr);
    let ended = rows.map_values(|r: Seq<char>| r + etr);
    let body = tr + join(ended, tr);
    let after = body + end + z;
    let data = a + table + after;
    assert(a + table + tr + join(ended, tr) + end + z =~= data);
    lemma_split_after(a, table, after);
    lemma_split_no_match(after, table);
    assert(nth(data, table, 1) == Some(after));
    // the body ends at `</table>`
    let e = Seq::<char>::empty();
    assert(!contains(e, tr));
    lemma_no_end_in_body(ended, tr, end);
    lemma_split_after(body, end, z);
    assert(first(after, end) == body);
    // each piece after a `<tr>` is a row followed by `</tr>`
    assert forall|k: int| 0 <= k < ended.len() implies !contains(#[trigger] ended[k], tr) by {
        lemma_no_pattern_before_other(rows[k], tr, etr);
    }
    crate::text::join_then_split(ended, tr);
    assert(body =~= e + tr + join(ended, tr));
    lemma_split_after(e, tr, join(ended, tr));
    assert(split(body, tr).drop_first() =~= ended);
    assert forall|k: int| 0 <= k < rows.len() implies first(#[trigger] ended[k], etr) == rows[k] by {
        assert(ended[k] =~= rows[k] + etr + e);
        lemma_split_after(rows[k], etr, e);
    }
    assert(ended.map_values(|r: Seq<char>| first(r, "</tr>"@)) =~= rows);
}

/// `<tr>` does not start inside `r + </tr>` where `r` holds no `<tr>`.
proof fn lemma_no_pattern_before_other(r: Seq<char>, tr: Seq<char>, etr: Seq<char>)
    requires
        tr == "<tr>"@,
        etr == "</tr>"@,
        !contains(r, tr),
    ensures
        !contains(r + etr, tr),
{
    reveal_strlit("<tr>");
    reveal_strlit("</tr>");
    let s = r + etr;
    crate::text::lemma_find_from(s, tr, 0);
    crate::text::lemma_find_from(r, tr, 0);
    if contains(s, tr) {
        let j = crate::text::find_from(s, tr, 0)->0;
        if j + 4 <= r.len() {
            assert(r.subrange(j, j + 4) =~= s.subrange(j, j + 4));
            assert(occurs_at(r, tr, j));
        } else {
            // an occurrence reaching into `</tr>` would need a `<` where `tr>` stands
            let w = s.subrange(j, j + 4);
            assert(w == tr);
            if j >= r.len() {
                assert(w[0] == s[j]);
                assert(s[j] == etr[j - r.len()]);
                assert(w[1] == s[j + 1]);
                assert(s[j + 1] == etr[j + 1 - r.len()]);
            } else {
                let o = r.len() - j;
                assert(w[o] == s[r.len() as int]);
                assert(s[r.len() as int] == etr[0]);
            }
        }
    }
}

/// The joined rows hold no `</table>` where none of them is cut by it.
proof fn lemma_no_end_in_body(ended: Seq<Seq<char>>, tr: Seq<char>, end: Seq<char>)
    requires
        tr == "<tr>"@,
        end == "</table>"@,
        !contains(join(ended, tr), end),
    ensures
        !contains(tr + join(ended, tr), end),
{
    reveal_strlit("<tr>");
    reveal_strlit("</table>");
    let j = join(ended, tr);
    let s = tr + j;
    crate::text::lemma_find_from(s, end, 0);
    crate::text::lemma_find_from(j, end, 0);
    if contains(s, end) {
        let i = crate::text::find_from(s, end, 0)->0;
        if i >= 4 {
            assert(j.subrange(i - 4, i + 4) =~= s.subrange(i, i + 8));
            assert(occurs_at(j, end, i - 4));
        } else {
            assert(s.subrange(i, i + 8)[1] == '/');
            assert(s[i + 1] == '/');
            assert(s[i + 1] == (if i + 1 < 4 { tr[i + 1] } else { j[i + 1 - 4] }));
            if i + 1 >= 4 {
                assert(s.subrange(i, i + 8)[0] == '<');
                assert(s[i] == tr[i]);
            }
        }
    }
}


/// A commit link is turned into its page's address by dropping every
/// `amp;`: the link's pieces between them, joined, after the site's address.
pub proof fn commit_page_url_drops_escapes(pieces: Seq<Seq<char>>)
    requires
        pieces.len() >= 1,
        forall|k: int| 0 <= k < pieces.len() ==> !contains(#[trigger] pieces[k], "amp;"@),
    ensures
        spec_commit_page_url(join(pieces, "amp;"@)) == "https://aur.archlinux.org"@ + join(
            pieces,
            Seq::<char>::empty(),
        ),
{
    reveal_strlit("amp;");
    lemma_borderless_by_first("amp;"@);
    crate::text::join_then_split(pieces, "amp;"@);
}

/// A commit page gives the address of the snapshot that its download header
/// links and the snapshot's file name: for a page `a`, the header, `DIR`,
/// `/snapshot/`, `FILE`, `'`, `c`, where the header first occurs after `a`
/// and not again, the link holds no `'`, its first `/snapshot/` is the one
/// before the file, and the file holds none.
pub proof fn snapshot_download_shape(a: Seq<char>, dir: Seq<char>, file: Seq<char>, c: Seq<char>)
    requires
        ({
            let dl = "<th>download</th><td colspan='2' class='oid'><a href='"@;
            let sn = "/snapshot/"@;
            let path = dir + sn + file;
            let rest = path + "'"@ + c;
            &&& crate::text::find_from(a + dl + rest, dl, 0) == Some(a.len() as int)
            &&& !contains(rest, dl)
            &&& !contains(path, "'"@)
            &&& crate::text::find_from(path, sn, 0) == Some(dir.len() as int)
            &&& !contains(file, sn)
        }),
    ensures
        spec_snapshot_download(
            a + "<th>download</th><td colspan='2' class='oid'><a href='"@ + dir + "/snapshot/"@
                + file + "'"@ + c,
        ) == Some(("https://aur.archlinux.org"@ + dir + "/snapshot/"@ + file, file)),
{
    reveal_strlit("<th>download</th><td colspan='2' class='oid'><a href='");
    reveal_strlit("/snapshot/");
    reveal_strlit("'");
    reveal_strlit("https://aur.archlinux.org");
    let dl = "<th>download</th><td colspan='2' class='oid'><a href='"@;
    let sn = "/snapshot/"@;
    let q = seq!['\''];
    assert("'"@ =~= q);
    assert(borderless(q));
    let site = "https://aur.archlinux.org"@;
    let path = dir + sn + file;
    let rest = path + q + c;
    let page = a + dl + rest;
    assert(a + dl + dir + sn + file + "'"@ + c =~= page);
    crate::text::lemma_split_at_first(a, dl, rest);
    lemma_split_no_match(rest, dl);
    assert(nth(page, dl, 1) == Some(rest));
    lemma_split_after(path, q, c);
    assert(first(rest, q) == path);
    let url = site + path;
    // no `/snapshot/` starts inside the site's address
    assert forall|j: int| 0 <= j < site.len() implies !occurs_at(site + (dir + sn + file), sn, j) by {
        let t = site + (dir + sn + file);
        if occurs_at(t, sn, j) {
            let w = t.subrange(j, j + 10);
            assert(w[0] == t[j]);
            assert(w[1] == t[j + 1]);
            if j + 1 < site.len() {
                assert(t[j] == site[j]);
                assert(t[j + 1] == site[j + 1]);
            } else {
                assert(t[j] == site[j]);
            }
        }
    }
    crate::text::lemma_split_shift_prefix(site, path, sn);
    crate::text::lemma_split_at_first(dir, sn, file);
    lemma_split_no_match(file, sn);
    crate::text::lemma_split_nonempty(path, sn, 0);
    assert(split(path, sn) =~= seq![dir, file]);
    assert(split(url, sn) =~= seq![site + dir, file]);
    assert(url =~= site + dir + sn + file);
}


/// A search page `a <tbody> P0 <tr> P1 ... <tr> Pn </tbody> z` lists one
/// result for each piece after a `<tr>`, in page order, where `<tbody>`
/// occurs once and the body holds no `</tbody>`; with no row there is no
/// result, and a row that cannot be read makes the page unreadable.
pub proof fn search_page_rows(a: Seq<char>, pieces: Seq<Seq<char>>, z: Seq<char>)
    requires
        pieces.len() >= 1,
        forall|k: int| 0 <= k < pieces.len() ==> !contains(#[trigger] pieces[k], "<tr>"@),
        !contains(a, "<tbody>"@),
        !contains(join(pieces, "<tr>"@) + "</tbody>"@ + z, "<tbody>"@),
        !contains(join(pieces, "<tr>"@), "</tbody>"@),
    ensures
        ({
            let page = a + "<tbody>"@ + join(pieces, "<tr>"@) + "</tbody>"@ + z;
            let rows = pieces.drop_first();
            &&& (forall|k: int| 0 <= k < rows.len() ==> #[trigger] search_row(rows[k]) is Some)
                ==> spec_parse_search_results(page) == Some(
                rows.map_values(|r: Seq<char>| search_row(r)->0),
            )
            &&& (exists|k: int| 0 <= k < rows.len() && #[trigger] search_row(rows[k]) is None)
                ==> spec_parse_search_results(page) is None
            &&& pieces.len() == 1 ==> spec_parse_search_results(page) == Some(
                Seq::<Seq<char>>::empty(),
            )
        }),
{
    reveal_strlit("<tbody>");
    reveal_strlit("</tbody>");
    reveal_strlit("<tr>");
    let tb = "<tbody>"@;
    let etb = "</tbody>"@;
    let tr = "<tr>"@;
    lemma_borderless_by_first(tb);
    lemma_borderless_by_first(etb);
    lemma_borderless_by_first(tr);
    let body = join(pieces, tr);
    let after = body + etb + z;
    let page = a + tb + body + etb + z;
    assert(page =~= a + tb + after);
    lemma_split_after(a, tb, after);
    lemma_split_no_match(after, tb);
    assert(nth(page, tb, 1) == Some(after));
    lemma_split_after(body, etb, z);
    crate::text::join_then_split(pieces, tr);
    let rows = pieces.drop_first();
    if pieces.len() == 1 {
        assert(rows.map_values(|r: Seq<char>| search_row(r)->0) =~= Seq::<Seq<char>>::empty());
    }
}

} // verus!
