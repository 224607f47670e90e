//! A model of the standard string operations that the scrapers use
//! (`contains`, `split`, `replace`, `join`, `trim`),
//! stated over sequences of characters, with verified implementations.
use vstd::prelude::*;

verus! {

/// Converts a string slice into its characters.
pub fn to_chars(s: &str) -> (v: Vec<char>)
    ensures
        v@ == s@,
{
    let mut v: Vec<char> = Vec::new();
    for c in it: s.chars()
        invariant
            v@ == it.seq().take(it.index() as int),
            it.seq() == s@,
    {
        v.push(c);
    }
    v
}


/// `String::push`: appends one character to the end of the string.
#[verifier::external_body]
fn push_char(s: &mut String, c: char)
    ensures
        final(s)@ == old(s)@.push(c),
{
    s.push(c);
}

/// Builds a string from a sequence of characters.
pub fn to_string(v: &[char]) -> (s: String)
    ensures
        s@ == v@,
{
    let mut s = String::new();
    for i in 0..v.len()
        invariant
            s@ == v@.take(i as int),
    {
        push_char(&mut s, v[i]);
        assert(v@.take(i + 1) == v@.take(i as int).push(v@[i as int]));
    }
    assert(v@.take(v.len() as int) == v@);
    s
}

/// Copies the characters of `s` from `a` (inclusive) to `b` (exclusive).
pub fn slice_chars(s: &[char], a: usize, b: usize) -> (v: Vec<char>)
    requires
        a <= b <= s.len(),
    ensures
        v@ == s@.subrange(a as int, b as int),
{
    let mut v: Vec<char> = Vec::new();
    let mut i = a;
    while i < b
        invariant
            a <= i <= b <= s.len(),
            v@ == s@.subrange(a as int, i as int),
        decreases b - i,
    {
        v.push(s[i]);
        i = i + 1;
    }
    v
}

/// `p` occurs in `s` starting at position `i`.
pub open spec fn occurs_at(s: Seq<char>, p: Seq<char>, i: int) -> bool {
    0 <= i && i + p.len() <= s.len() && s.subrange(i, i + p.len()) == p
}

/// The leftmost position at or after `from` where `p` occurs in `s`.
pub open spec fn find_from(s: Seq<char>, p: Seq<char>, from: int) -> Option<int>
    decreases s.len() + 1 - from,
{
    if from < 0 || from + p.len() > s.len() {
        None
    } else if occurs_at(s, p, from) {
        Some(from)
    } else {
        find_from(s, p, from + 1)
    }
}

/// What `find_from` returns: the first occurrence at or after `from`, or none at all.
pub proof fn lemma_find_from(s: Seq<char>, p: Seq<char>, from: int)
    requires
        0 <= from,
    ensures
        find_from(s, p, from) matches Some(i) ==> {
            &&& from <= i
            &&& i + p.len() <= s.len()
            &&& occurs_at(s, p, i)
            &&& forall|j: int| from <= j < i ==> !occurs_at(s, p, j)
        },
        find_from(s, p, from) is None ==> forall|j: int| from <= j ==> !occurs_at(s, p, j),
    decreases s.len() + 1 - from,
{
    if from + p.len() > s.len() {
    } else if occurs_at(s, p, from) {
    } else {
        lemma_find_from(s, p, from + 1);
    }
}

/// `s` holds `p` somewhere (`str::contains`).
pub open spec fn contains(s: Seq<char>, p: Seq<char>) -> bool {
    find_from(s, p, 0) is Some
}

fn occurs_at_exec(s: &[char], p: &[char], i: usize) -> (b: bool)
    ensures
        b == occurs_at(s@, p@, i as int),
{
    if i > s.len() || p.len() > s.len() - i {
        return false;
    }
    let mut k: usize = 0;
    while k < p.len()
        invariant
            i + p.len() <= s.len(),
            k <= p.len(),
            forall|j: int| 0 <= j < k ==> s@[i + j] == p@[j],
        decreases p.len() - k,
    {
        if s[i + k] != p[k] {
            assert(s@.subrange(i as int, i + p.len())[k as int] != p@[k as int]);
            return false;
        }
        k = k + 1;
    }
    assert(s@.subrange(i as int, i + p.len()) =~= p@);
    true
}

/// Finds the leftmost occurrence of `p` in `s` at or after `from`.
pub fn find_from_exec(s: &[char], p: &[char], from: usize) -> (r: Option<usize>)
    ensures
        r matches Some(i) ==> find_from(s@, p@, from as int) == Some(i as int),
        r is None ==> find_from(s@, p@, from as int) is None,
{
    let mut i = from;
    while i <= s.len() && p.len() <= s.len() - i
        invariant
            from <= i,
            find_from(s@, p@, from as int) == find_from(s@, p@, i as int),
        decreases s.len() + 1 - i,
    {
        if occurs_at_exec(s, p, i) {
            return Some(i);
        }
        assert(p@.len() > 0) by {
            if p@.len() == 0 {
                assert(s@.subrange(i as int, i as int) =~= p@);
            }
        }
        i = i + 1;
    }
    None
}

/// `str::contains` over characters.
pub fn contains_exec(s: &[char], p: &[char]) -> (b: bool)
    ensures
        b == contains(s@, p@),
{
    find_from_exec(s, p, 0).is_some()
}


/// The pieces of `s` between the non-overlapping leftmost occurrences of `p`,
/// scanning from `start` (`str::split` for a non-empty pattern). The
/// scrapers only split on non-empty literals; an empty pattern leaves the
/// text in one piece here.
pub open spec fn split_from(s: Seq<char>, p: Seq<char>, start: int) -> Seq<Seq<char>>
    decreases s.len() + 1 - start,
{
    if start < 0 || start > s.len() || p.len() == 0 {
        seq![s.subrange(start, s.len() as int)]
    } else {
        match find_from(s, p, start) {
            None => seq![s.subrange(start, s.len() as int)],
            Some(i) => {
                proof {
                    lemma_find_from(s, p, start);
                }
                seq![s.subrange(start, i)] + split_from(s, p, i + p.len())
            },
        }
    }
}

/// `s.split(p)`, as the sequence of its pieces.
pub open spec fn split(s: Seq<char>, p: Seq<char>) -> Seq<Seq<char>> {
    split_from(s, p, 0)
}

/// `s.split(p).collect::<Vec<_>>()[n]`, where the index exists.
pub open spec fn nth(s: Seq<char>, p: Seq<char>, n: int) -> Option<Seq<char>> {
    if 0 <= n < split(s, p).len() {
        Some(split(s, p)[n])
    } else {
        None
    }
}

/// `s.split(p).collect::<Vec<_>>()[0]`: the text before the first occurrence of `p`.
pub open spec fn first(s: Seq<char>, p: Seq<char>) -> Seq<char> {
    split(s, p)[0]
}

/// The pieces joined, with `sep` between each two (`[T]::join`).
pub open spec fn join(v: Seq<Seq<char>>, sep: Seq<char>) -> Seq<char>
    decreases v.len(),
{
    if v.len() == 0 {
        seq![]
    } else if v.len() == 1 {
        v[0]
    } else {
        join(v.drop_last(), sep) + sep + v.last()
    }
}

/// `s.replace(p, r)`: every occurrence of `p` replaced by `r`.
pub open spec fn replace(s: Seq<char>, p: Seq<char>, r: Seq<char>) -> Seq<char> {
    join(split(s, p), r)
}

/// The views of a sequence of character vectors.
pub open spec fn seqs_of(v: Seq<Vec<char>>) -> Seq<Seq<char>> {
    v.map_values(|x: Vec<char>| x@)
}

/// The views of a sequence of strings.
pub open spec fn strings_of(v: Seq<String>) -> Seq<Seq<char>> {
    v.map_values(|x: String| x@)
}

/// A split has at least one piece.
pub proof fn lemma_split_nonempty(s: Seq<char>, p: Seq<char>, start: int)
    ensures
        split_from(s, p, start).len() >= 1,
{
}

/// Splits `s` at every occurrence of `p`.
pub fn split_exec(s: &[char], p: &[char]) -> (r: Vec<Vec<char>>)
    requires
        p@.len() > 0,
    ensures
        seqs_of(r@) == split(s@, p@),
{
    let mut r: Vec<Vec<char>> = Vec::new();
    let mut start: usize = 0;
    loop
        invariant_except_break
            p@.len() > 0,
            start <= s.len(),
            split(s@, p@) == seqs_of(r@) + split_from(s@, p@, start as int),
        ensures
            split(s@, p@) == seqs_of(r@),
        decreases s.len() + 1 - start,
    {
        match find_from_exec(s, p, start) {
            None => {
                let piece = slice_chars(s, start, s.len());
                let ghost old_r = r@;
                r.push(piece);
                assert(seqs_of(r@) =~= seqs_of(old_r) + seq![piece@]);
                break;
            },
            Some(i) => {
                proof {
                    lemma_find_from(s@, p@, start as int);
                }
                let piece = slice_chars(s, start, i);
                let ghost old_r = r@;
                r.push(piece);
                assert(seqs_of(r@) =~= seqs_of(old_r) + seq![piece@]);
                assert(split_from(s@, p@, start as int) == seq![piece@] + split_from(
                    s@,
                    p@,
                    i + p@.len(),
                ));
                assert(seqs_of(old_r) + (seq![piece@] + split_from(s@, p@, i + p@.len())) =~= (
                seqs_of(old_r) + seq![piece@]) + split_from(s@, p@, i + p@.len()));
                start = i + p.len();
            },
        }
    }
    r
}


/// The piece of `s` with index `n` after splitting at `p`, if there is one.
pub fn nth_exec(s: &[char], p: &[char], n: usize) -> (r: Option<Vec<char>>)
    requires
        p@.len() > 0,
    ensures
        r matches Some(v) ==> nth(s@, p@, n as int) == Some(v@),
        r is None ==> nth(s@, p@, n as int) is None,
{
    let mut pieces = split_exec(s, p);
    if n < pieces.len() {
        let ghost before = pieces@;
        let v = pieces.swap_remove(n);
        assert(v@ == seqs_of(before)[n as int]);
        Some(v)
    } else {
        None
    }
}

/// The text of `s` before the first occurrence of `p` (all of it when there is none).
pub fn first_exec(s: &[char], p: &[char]) -> (r: Vec<char>)
    requires
        p@.len() > 0,
    ensures
        r@ == first(s@, p@),
{
    proof {
        lemma_split_nonempty(s@, p@, 0);
    }
    match nth_exec(s, p, 0) {
        Some(v) => v,
        None => Vec::new(),
    }
}

/// Appends the characters of `b` to `a`.
pub fn extend_chars(a: &mut Vec<char>, b: &[char])
    ensures
        final(a)@ == old(a)@ + b@,
{
    for i in 0..b.len()
        invariant
            a@ == old(a)@ + b@.take(i as int),
    {
        a.push(b[i]);
        assert(b@.take(i + 1) == b@.take(i as int).push(b@[i as int]));
    }
    assert(b@.take(b.len() as int) == b@);
}

/// Joins the pieces with `sep` between each two.
pub fn join_exec(v: &Vec<Vec<char>>, sep: &[char]) -> (r: Vec<char>)
    ensures
        r@ == join(seqs_of(v@), sep@),
{
    let mut r: Vec<char> = Vec::new();
    for i in 0..v.len()
        invariant
            r@ == join(seqs_of(v@).take(i as int), sep@),
    {
        if i != 0 {
            extend_chars(&mut r, sep);
        }
        extend_chars(&mut r, v[i].as_slice());
        assert(seqs_of(v@).take(i + 1).drop_last() =~= seqs_of(v@).take(i as int));
    }
    assert(seqs_of(v@).take(v.len() as int) =~= seqs_of(v@));
    r
}

/// Replaces every occurrence of `p` in `s` with `r`.
pub fn replace_exec(s: &[char], p: &[char], r: &[char]) -> (out: Vec<char>)
    requires
        p@.len() > 0,
    ensures
        out@ == replace(s@, p@, r@),
{
    let pieces = split_exec(s, p);
    join_exec(&pieces, r)
}

/// `char::is_whitespace`: the characters with the Unicode White_Space property.
pub open spec fn is_whitespace(c: char) -> bool {
    let u = c as u32;
    ||| 0x9 <= u <= 0xd
    ||| u == 0x20
    ||| u == 0x85
    ||| u == 0xa0
    ||| u == 0x1680
    ||| 0x2000 <= u <= 0x200a
    ||| u == 0x2028
    ||| u == 0x2029
    ||| u == 0x202f
    ||| u == 0x205f
    ||| u == 0x3000
}

/// Whether `c` is white space.
pub fn is_whitespace_exec(c: char) -> (b: bool)
    ensures
        b == is_whitespace(c),
{
    let u = c as u32;
    (0x9 <= u && u <= 0xd) || u == 0x20 || u == 0x85 || u == 0xa0 || u == 0x1680 || (0x2000 <= u
        && u <= 0x200a) || u == 0x2028 || u == 0x2029 || u == 0x202f || u == 0x205f || u == 0x3000
}

/// `s` without its leading white space.
pub open spec fn trim_start(s: Seq<char>) -> Seq<char>
    decreases s.len(),
{
    if s.len() > 0 && is_whitespace(s[0]) {
        trim_start(s.drop_first())
    } else {
        s
    }
}

/// `s` without its trailing white space.
pub open spec fn trim_end(s: Seq<char>) -> Seq<char>
    decreases s.len(),
{
    if s.len() > 0 && is_whitespace(s.last()) {
        trim_end(s.drop_last())
    } else {
        s
    }
}

/// `str::trim`: `s` without leading and trailing white space.
pub open spec fn trim(s: Seq<char>) -> Seq<char> {
    trim_end(trim_start(s))
}

/// Removes leading and trailing white space.
pub fn trim_exec(s: &[char]) -> (r: Vec<char>)
    ensures
        r@ == trim(s@),
{
    let n = s.len();
    let mut a: usize = 0;
    assert(s@.subrange(0, n as int) =~= s@);
    while a < n && is_whitespace_exec(s[a])
        invariant
            a <= n == s@.len(),
            trim_start(s@) == trim_start(s@.subrange(a as int, n as int)),
        decreases n - a,
    {
        assert(s@.subrange(a as int, n as int).drop_first() =~= s@.subrange(a + 1, n as int));
        a = a + 1;
    }
    let mut b: usize = n;
    assert(trim_start(s@) == s@.subrange(a as int, n as int));
    while b > a && is_whitespace_exec(s[b - 1])
        invariant
            a <= b <= n == s@.len(),
            trim(s@) == trim_end(s@.subrange(a as int, b as int)),
        decreases b,
    {
        assert(s@.subrange(a as int, b as int).drop_last() =~= s@.subrange(a as int, b - 1));
        b = b - 1;
    }
    slice_chars(s, a, b)
}


/// Keeping the items that satisfy `pred` commutes with appending one item.
pub proof fn lemma_filter_push<A>(s: Seq<A>, x: A, pred: spec_fn(A) -> bool)
    ensures
        s.push(x).filter(pred) == (if pred(x) {
            s.filter(pred).push(x)
        } else {
            s.filter(pred)
        }),
{
    reveal_with_fuel(Seq::<_>::filter, 1);
    assert(s.push(x).drop_last() =~= s);
}


/// Text that holds `q`, where `q` holds `p`, holds `p`.
pub proof fn lemma_contains_within(s: Seq<char>, q: Seq<char>, p: Seq<char>, j: int)
    requires
        contains(s, q),
        occurs_at(q, p, j),
    ensures
        contains(s, p),
{
    lemma_find_from(s, q, 0);
    let i = find_from(s, q, 0)->0;
    assert(s.subrange(i + j, i + j + p.len()) =~= q.subrange(j, j + p.len()));
    assert(occurs_at(s, p, i + j));
    lemma_find_from(s, p, 0);
}

/// Text that holds `p` splits at `p` into at least two pieces.
pub proof fn lemma_split_at_contained(s: Seq<char>, p: Seq<char>)
    requires
        p.len() > 0,
        contains(s, p),
    ensures
        split(s, p).len() >= 2,
{
    lemma_find_from(s, p, 0);
    let i = find_from(s, p, 0)->0;
    lemma_split_nonempty(s, p, i + p.len());
}


/// Whether two character sequences are equal.
pub fn chars_eq(a: &[char], b: &[char]) -> (e: bool)
    ensures
        e == (a@ == b@),
{
    if a.len() != b.len() {
        return false;
    }
    for i in 0..a.len()
        invariant
            a.len() == b.len(),
            forall|j: int| 0 <= j < i ==> a@[j] == b@[j],
    {
        if a[i] != b[i] {
            return false;
        }
    }
    assert(a@ =~= b@);
    true
}


/// No proper prefix of `p` is also a suffix of it, so an occurrence of `p`
/// cannot overlap a following one.
pub open spec fn borderless(p: Seq<char>) -> bool {
    forall|k: int| 0 < k < p.len() ==> #[trigger] p.subrange(0, k) != p.subrange(p.len() - k, p.len() as int)
}

/// A pattern whose last character occurs nowhere else in it is borderless.
pub proof fn lemma_borderless_by_last(p: Seq<char>)
    requires
        p.len() > 0,
        forall|i: int| 0 <= i < p.len() - 1 ==> p[i] != p.last(),
    ensures
        borderless(p),
{
    assert forall|k: int| 0 < k < p.len() implies #[trigger] p.subrange(0, k) != p.subrange(
        p.len() - k,
        p.len() as int,
    ) by {
        assert(p.subrange(0, k)[k - 1] == p[k - 1]);
        assert(p.subrange(p.len() - k, p.len() as int)[k - 1] == p.last());
    }
}

/// The leftmost occurrence is where one is and none is before.
pub proof fn lemma_find_from_is(s: Seq<char>, p: Seq<char>, from: int, i: int)
    requires
        0 <= from <= i,
        occurs_at(s, p, i),
        forall|j: int| from <= j < i ==> !occurs_at(s, p, j),
    ensures
        find_from(s, p, from) == Some(i),
    decreases i - from,
{
    if from < i {
        lemma_find_from_is(s, p, from + 1, i);
    }
}

/// Searching in `x + s` past `x` is searching in `s`.
pub proof fn lemma_find_from_shift(x: Seq<char>, s: Seq<char>, p: Seq<char>, k: int)
    requires
        0 <= k,
    ensures
        find_from(x + s, p, x.len() + k) == (match find_from(s, p, k) {
            Some(i) => Some(i + x.len()),
            None => None,
        }),
    decreases s.len() + 1 - k,
{
    let t = x + s;
    if k + p.len() <= s.len() {
        assert(t.subrange(x.len() + k, x.len() + k + p.len()) =~= s.subrange(k, k + p.len()));
        if !occurs_at(s, p, k) {
            lemma_find_from_shift(x, s, p, k + 1);
        }
    }
}

/// Splitting `x + s` past `x` is splitting `s`.
pub proof fn lemma_split_from_shift(x: Seq<char>, s: Seq<char>, p: Seq<char>, k: int)
    requires
        0 <= k <= s.len(),
        p.len() > 0,
    ensures
        split_from(x + s, p, x.len() + k) == split_from(s, p, k),
    decreases s.len() + 1 - k,
{
    let t = x + s;
    lemma_find_from_shift(x, s, p, k);
    lemma_find_from(s, p, k);
    match find_from(s, p, k) {
        None => {
            assert(t.subrange(x.len() + k, t.len() as int) =~= s.subrange(k, s.len() as int));
        },
        Some(i) => {
            assert(t.subrange(x.len() + k, x.len() + i) =~= s.subrange(k, i));
            lemma_split_from_shift(x, s, p, i + p.len());
        },
    }
}

/// Text without `p` is one piece.
pub proof fn lemma_split_no_match(s: Seq<char>, p: Seq<char>)
    requires
        p.len() > 0,
        !contains(s, p),
    ensures
        split(s, p) == seq![s],
{
    assert(s.subrange(0, s.len() as int) =~= s);
}

/// Where `x` holds no `p` and `p` is borderless, the first `p` of `x + p + y`
/// is the one after `x`.
pub proof fn lemma_find_after(x: Seq<char>, p: Seq<char>, y: Seq<char>)
    requires
        p.len() > 0,
        borderless(p),
        !contains(x, p),
    ensures
        find_from(x + p + y, p, 0) == Some(x.len() as int),
{
    let t = x + p + y;
    lemma_find_from(x, p, 0);
    assert(t.subrange(x.len() as int, (x.len() + p.len()) as int) =~= p);
    assert forall|j: int| 0 <= j < x.len() implies !occurs_at(t, p, j) by {
        if occurs_at(t, p, j) {
            if j + p.len() <= x.len() {
                assert(x.subrange(j, j + p.len()) =~= t.subrange(j, j + p.len()));
                assert(occurs_at(x, p, j));
            } else {
                let k = j + p.len() - x.len();
                assert(0 < k < p.len());
                assert(p.subrange(0, k) =~= t.subrange(x.len() as int, j + p.len()));
                assert(p.subrange(p.len() - k, p.len() as int) =~= t.subrange(
                    x.len() as int,
                    j + p.len(),
                ));
                assert(p.subrange(0, k) == p.subrange(p.len() - k, p.len() as int));
            }
        }
    }
    lemma_find_from_is(t, p, 0, x.len() as int);
}

/// Where `x` holds no `p` and `p` is borderless, `x + p + y` splits into `x`
/// and the pieces of `y`.
pub proof fn lemma_split_after(x: Seq<char>, p: Seq<char>, y: Seq<char>)
    requires
        p.len() > 0,
        borderless(p),
        !contains(x, p),
    ensures
        split(x + p + y, p) == seq![x] + split(y, p),
{
    let t = x + p + y;
    lemma_find_after(x, p, y);
    assert(t.subrange(0, x.len() as int) =~= x);
    assert(t =~= (x + p) + y);
    lemma_split_from_shift(x + p, y, p, 0);
}

/// No piece of a split holds the pattern.
pub proof fn lemma_split_pieces_free(s: Seq<char>, p: Seq<char>, start: int)
    requires
        p.len() > 0,
        0 <= start <= s.len(),
    ensures
        forall|k: int| 0 <= k < split_from(s, p, start).len() ==> !contains(
            #[trigger] split_from(s, p, start)[k],
            p,
        ),
    decreases s.len() + 1 - start,
{
    lemma_find_from(s, p, start);
    match find_from(s, p, start) {
        None => {
            let piece = s.subrange(start, s.len() as int);
            lemma_find_from(piece, p, 0);
            if contains(piece, p) {
                let j = find_from(piece, p, 0)->0;
                assert(s.subrange(start + j, start + j + p.len()) =~= piece.subrange(j, j + p.len()));
                assert(occurs_at(s, p, start + j));
            }
        },
        Some(i) => {
            let piece = s.subrange(start, i);
            lemma_find_from(piece, p, 0);
            if contains(piece, p) {
                let j = find_from(piece, p, 0)->0;
                assert(s.subrange(start + j, start + j + p.len()) =~= piece.subrange(j, j + p.len()));
                assert(occurs_at(s, p, start + j));
            }
            lemma_split_pieces_free(s, p, i + p.len());
            let rest = split_from(s, p, i + p.len());
            assert forall|k: int| 0 <= k < split_from(s, p, start).len() implies !contains(
                #[trigger] split_from(s, p, start)[k],
                p,
            ) by {
                if k > 0 {
                    assert(split_from(s, p, start)[k] == rest[k - 1]);
                }
            }
        },
    }
}

/// A one-character pattern occurs exactly where its character does.
pub proof fn lemma_contains_char(s: Seq<char>, c: char)
    ensures
        contains(s, seq![c]) <==> exists|i: int| 0 <= i < s.len() && s[i] == c,
{
    lemma_find_from(s, seq![c], 0);
    if exists|i: int| 0 <= i < s.len() && s[i] == c {
        let i = choose|i: int| 0 <= i < s.len() && s[i] == c;
        assert(s.subrange(i, i + 1) =~= seq![c]);
        assert(occurs_at(s, seq![c], i));
    }
    if contains(s, seq![c]) {
        let i = find_from(s, seq![c], 0)->0;
        assert(s.subrange(i, i + 1)[0] == s[i]);
    }
}

/// An occurrence makes `contains` hold.
pub proof fn lemma_occurs_contains(s: Seq<char>, p: Seq<char>, i: int)
    requires
        occurs_at(s, p, i),
    ensures
        contains(s, p),
{
    lemma_find_from(s, p, 0);
}


/// The text before the first `c` of `a + b`, where `a` holds no `c`, is `a`
/// followed by the text of `b` before its first `c`.
pub proof fn lemma_first_concat(a: Seq<char>, b: Seq<char>, c: char)
    requires
        !contains(a, seq![c]),
    ensures
        first(a + b, seq![c]) == a + first(b, seq![c]),
{
    let p = seq![c];
    assert(borderless(p));
    lemma_find_from(b, p, 0);
    lemma_contains_char(a, c);
    match find_from(b, p, 0) {
        Some(j) => {
            let b0 = b.subrange(0, j);
            let b1 = b.subrange(j + 1, b.len() as int);
            assert(b.subrange(j, j + 1) =~= p);
            assert(b =~= b0 + p + b1);
            assert forall|i: int| 0 <= i < b0.len() implies b0[i] != c by {
                assert(b.subrange(i, i + 1) =~= seq![b0[i]]);
                if b0[i] == c {
                    assert(occurs_at(b, p, i));
                }
            }
            lemma_contains_char(b0, c);
            lemma_split_after(b0, p, b1);
            let a0 = a + b0;
            assert forall|i: int| 0 <= i < a0.len() implies a0[i] != c by {
                if i >= a.len() {
                    assert(a0[i] == b0[i - a.len()]);
                }
            }
            lemma_contains_char(a0, c);
            assert(a + b =~= a0 + p + b1);
            lemma_split_after(a0, p, b1);
        },
        None => {
            lemma_contains_char(b, c);
            assert forall|i: int| 0 <= i < b.len() implies b[i] != c by {
                assert(b.subrange(i, i + 1) =~= seq![b[i]]);
                if b[i] == c {
                    assert(occurs_at(b, p, i));
                }
            }
            lemma_contains_char(b, c);
            let ab = a + b;
            assert forall|i: int| 0 <= i < ab.len() implies ab[i] != c by {
                if i >= a.len() {
                    assert(ab[i] == b[i - a.len()]);
                }
            }
            lemma_contains_char(ab, c);
            lemma_split_no_match(ab, p);
            lemma_split_no_match(b, p);
        },
    }
}


/// A pattern whose first character occurs nowhere else in it is borderless.
pub proof fn lemma_borderless_by_first(p: Seq<char>)
    requires
        p.len() > 0,
        forall|i: int| 0 < i < p.len() ==> #[trigger] p[i] != p[0],
    ensures
        borderless(p),
{
    assert forall|k: int| 0 < k < p.len() implies #[trigger] p.subrange(0, k) != p.subrange(
        p.len() - k,
        p.len() as int,
    ) by {
        assert(p.subrange(0, k)[0] == p[0]);
        assert(p.subrange(p.len() - k, p.len() as int)[0] == p[p.len() - k]);
    }
}

/// Where no occurrence of `p` in `u + v` starts inside `u`, the text of
/// `u + v` before its first `p` is `u` followed by that of `v`, and the
/// later pieces are those of `v`.
pub proof fn lemma_split_shift_prefix(u: Seq<char>, v: Seq<char>, p: Seq<char>)
    requires
        p.len() > 0,
        forall|j: int| 0 <= j < u.len() ==> !occurs_at(u + v, p, j),
    ensures
        split(u + v, p) == seq![u + first(v, p)] + split(v, p).drop_first(),
{
    let t = u + v;
    lemma_find_from_shift(u, v, p, 0);
    lemma_find_from(v, p, 0);
    lemma_split_nonempty(v, p, 0);
    // searching from 0 finds what searching from |u| finds
    lemma_find_from_skip(t, p, 0, u.len() as int);
    match find_from(v, p, 0) {
        None => {
            assert(t.subrange(0, t.len() as int) =~= u + v.subrange(0, v.len() as int));
        },
        Some(j) => {
            assert(t.subrange(0, u.len() + j) =~= u + v.subrange(0, j));
            lemma_split_from_shift(u, v, p, j + p.len());
            assert(split(v, p) == seq![v.subrange(0, j)] + split_from(v, p, j + p.len()));
            assert(split(v, p).drop_first() =~= split_from(v, p, j + p.len()));
        },
    }
}

/// Where no occurrence starts in `[k, m)`, searching from `k` is searching from `m`.
pub proof fn lemma_find_from_skip(s: Seq<char>, p: Seq<char>, k: int, m: int)
    requires
        0 <= k <= m,
        forall|j: int| k <= j < m ==> !occurs_at(s, p, j),
    ensures
        find_from(s, p, k) == find_from(s, p, m),
    decreases m - k,
{
    if k < m {
        lemma_find_from_skip(s, p, k + 1, m);
        if k + p.len() > s.len() {
            lemma_find_from(s, p, m);
            lemma_find_from(s, p, k + 1);
        }
    }
}

/// Splitting then joining with the same pattern gives back the text.
pub proof fn split_then_join(s: Seq<char>, p: Seq<char>)
    requires
        p.len() > 0,
    ensures
        join(split(s, p), p) == s,
{
    lemma_split_join_from(s, p, 0);
    assert(s.subrange(0, s.len() as int) =~= s);
}

pub proof fn lemma_join_cons(x: Seq<char>, rest: Seq<Seq<char>>, sep: Seq<char>)
    requires
        rest.len() > 0,
    ensures
        join(seq![x] + rest, sep) == x + sep + join(rest, sep),
    decreases rest.len(),
{
    let v = seq![x] + rest;
    if rest.len() == 1 {
        assert(v.drop_last() =~= seq![x]);
        assert(join(rest, sep) == rest[0]);
    } else {
        assert(v.drop_last() =~= seq![x] + rest.drop_last());
        lemma_join_cons(x, rest.drop_last(), sep);
        assert(join(v, sep) == join(v.drop_last(), sep) + sep + v.last());
        assert(join(rest, sep) == join(rest.drop_last(), sep) + sep + rest.last());
    }
}

proof fn lemma_split_join_from(s: Seq<char>, p: Seq<char>, start: int)
    requires
        p.len() > 0,
        0 <= start <= s.len(),
    ensures
        join(split_from(s, p, start), p) == s.subrange(start, s.len() as int),
    decreases s.len() + 1 - start,
{
    lemma_find_from(s, p, start);
    match find_from(s, p, start) {
        None => {},
        Some(i) => {
            let rest = split_from(s, p, i + p.len());
            lemma_split_join_from(s, p, i + p.len());
            lemma_split_nonempty(s, p, i + p.len());
            lemma_join_cons(s.subrange(start, i), rest, p);
            assert(s.subrange(i, i + p.len()) == p);
            assert(s.subrange(start, s.len() as int) =~= s.subrange(start, i) + p + s.subrange(
                i + p.len(),
                s.len() as int,
            ));
        },
    }
}


/// Where `p` starts nowhere inside `x`, `x + p + y` splits into `x` and the
/// pieces of `y`.
pub proof fn lemma_split_at_found(x: Seq<char>, p: Seq<char>, y: Seq<char>)
    requires
        p.len() > 0,
        forall|j: int| 0 <= j < x.len() ==> !occurs_at(x + p + y, p, j),
    ensures
        split(x + p + y, p) == seq![x] + split(y, p),
{
    let t = x + p + y;
    assert(t.subrange(x.len() as int, (x.len() + p.len()) as int) =~= p);
    lemma_find_from_is(t, p, 0, x.len() as int);
    assert(t.subrange(0, x.len() as int) =~= x);
    assert(t =~= (x + p) + y);
    lemma_split_from_shift(x + p, y, p, 0);
}

/// A pattern starts nowhere inside text that lacks its first character.
pub proof fn lemma_no_start_without_first_char(x: Seq<char>, p: Seq<char>, y: Seq<char>)
    requires
        p.len() > 0,
        forall|i: int| 0 <= i < x.len() ==> #[trigger] x[i] != p[0],
    ensures
        forall|j: int| 0 <= j < x.len() ==> !occurs_at(x + p + y, p, j),
{
    assert forall|j: int| 0 <= j < x.len() implies !occurs_at(x + p + y, p, j) by {
        if occurs_at(x + p + y, p, j) {
            assert((x + p + y).subrange(j, j + p.len())[0] == (x + p + y)[j]);
            assert((x + p + y)[j] == x[j]);
        }
    }
}


/// Joining pieces that hold no borderless `p` with `p` and splitting at `p`
/// gives back the pieces.
pub proof fn join_then_split(ws: Seq<Seq<char>>, p: Seq<char>)
    requires
        ws.len() >= 1,
        p.len() > 0,
        borderless(p),
        forall|k: int| 0 <= k < ws.len() ==> !contains(#[trigger] ws[k], p),
    ensures
        split(join(ws, p), p) == ws,
    decreases ws.len(),
{
    if ws.len() == 1 {
        lemma_split_no_match(ws[0], p);
        assert(seq![ws[0]] =~= ws);
    } else {
        let rest = ws.drop_first();
        assert(ws =~= seq![ws[0]] + rest);
        assert forall|k: int| 0 <= k < rest.len() implies !contains(#[trigger] rest[k], p) by {
            assert(rest[k] == ws[k + 1]);
        }
        join_then_split(rest, p);
        lemma_join_cons(ws[0], rest, p);
        assert(!contains(ws[0], p));
        lemma_split_after(ws[0], p, join(rest, p));
    }
}


/// Where the first `p` of `x + p + y` is the one after `x`, the text splits
/// into `x` and the pieces of `y`.
pub proof fn lemma_split_at_first(x: Seq<char>, p: Seq<char>, y: Seq<char>)
    requires
        p.len() > 0,
        find_from(x + p + y, p, 0) == Some(x.len() as int),
    ensures
        split(x + p + y, p) == seq![x] + split(y, p),
{
    lemma_find_from(x + p + y, p, 0);
    lemma_split_at_found(x, p, y);
}


/// Trimming removes exactly the white space around the text: for `x`
/// between runs of white space, where `x` is empty or neither starts nor
/// ends with white space, the trimmed text is `x`.
pub proof fn trim_removes_surrounding_space(lead: Seq<char>, x: Seq<char>, trail: Seq<char>)
    requires
        forall|i: int| 0 <= i < lead.len() ==> is_whitespace(#[trigger] lead[i]),
        forall|i: int| 0 <= i < trail.len() ==> is_whitespace(#[trigger] trail[i]),
        x.len() > 0 ==> !is_whitespace(x[0]) && !is_whitespace(x.last()),
    ensures
        trim(lead + x + trail) == x,
{
    lemma_trim_start_skips(lead, x + trail);
    assert(lead + x + trail =~= lead + (x + trail));
    if x.len() == 0 {
        assert(x + trail =~= trail);
        lemma_trim_start_skips(trail, x);
        assert(trail + x =~= trail);
        assert(trim_end(x) == x);
    } else {
        assert((x + trail)[0] == x[0]);
        lemma_trim_end_skips(x, trail);
    }
}

proof fn lemma_trim_start_skips(lead: Seq<char>, y: Seq<char>)
    requires
        forall|i: int| 0 <= i < lead.len() ==> is_whitespace(#[trigger] lead[i]),
    ensures
        trim_start(lead + y) == trim_start(y),
    decreases lead.len(),
{
    if lead.len() > 0 {
        assert((lead + y)[0] == lead[0]);
        assert((lead + y).drop_first() =~= lead.drop_first() + y);
        let rest = lead.drop_first();
        assert forall|i: int| 0 <= i < rest.len() implies is_whitespace(#[trigger] rest[i]) by {
            assert(rest[i] == lead[i + 1]);
        }
        lemma_trim_start_skips(rest, y);
    } else {
        assert(lead + y =~= y);
    }
}

proof fn lemma_trim_end_skips(x: Seq<char>, trail: Seq<char>)
    requires
        forall|i: int| 0 <= i < trail.len() ==> is_whitespace(#[trigger] trail[i]),
        x.len() > 0,
        !is_whitespace(x.last()),
    ensures
        trim_end(x + trail) == x,
    decreases trail.len(),
{
    if trail.len() > 0 {
        assert((x + trail).last() == trail.last());
        assert(is_whitespace(trail[trail.len() - 1]));
        assert((x + trail).drop_last() =~= x + trail.drop_last());
        let rest = trail.drop_last();
        assert forall|i: int| 0 <= i < rest.len() implies is_whitespace(#[trigger] rest[i]) by {
            assert(rest[i] == trail[i]);
        }
        lemma_trim_end_skips(x, rest);
    } else {
        assert(x + trail =~= x);
    }
}

} // verus!
