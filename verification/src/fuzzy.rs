//! Matching a typed query against a title, forgivingly.
//!
//! Titles and queries meet in a normal form: lower-cased, without Latin
//! diacritics, words separated by single spaces. Against that form a query is
//! ranked in tiers: equal, a prefix, a substring, all words present in any
//! order, and last a bounded number of misspelt letters per word. The bound is
//! read off the typed word: none up to three letters, one up to seven, two
//! beyond.

use vstd::prelude::*;

use crate::text;
use crate::text::{chars_of, holds, joined, same, split_on, starts, string_of};

verus! {

// ---------------------------------------------------------------------
// Model
// ---------------------------------------------------------------------

/// One character without its diacritic.
pub open spec fn folded(c: char) -> char {
    if "áàâãäåāăą"@.contains(c) {
        'a'
    } else if "éèêëēĕėęě"@.contains(c) {
        'e'
    } else if "íìîïīĭį"@.contains(c) {
        'i'
    } else if "óòôõöøōŏő"@.contains(c) {
        'o'
    } else if "úùûüūŭůűų"@.contains(c) {
        'u'
    } else if "çćčĉċ"@.contains(c) {
        'c'
    } else if "ñńňņ"@.contains(c) {
        'n'
    } else if "ýÿ"@.contains(c) {
        'y'
    } else if "šśş"@.contains(c) {
        's'
    } else if "žźż"@.contains(c) {
        'z'
    } else if c == 'ł' {
        'l'
    } else if c == 'ğ' {
        'g'
    } else if c == 'ð' {
        'd'
    } else if c == 'þ' {
        'p'
    } else {
        c
    }
}

/// Every character lower-cased and without its diacritic.
pub open spec fn flattened(s: Seq<char>) -> Seq<char>
    decreases s.len(),
{
    if s.len() == 0 {
        Seq::empty()
    } else {
        flattened(s.drop_last()) + text::lower_case(s.last()).map_values(|c: char| folded(c))
    }
}

/// The fragments that are not empty.
pub open spec fn nonempty(fragments: Seq<Seq<char>>) -> Seq<Seq<char>>
    decreases fragments.len(),
{
    if fragments.len() == 0 {
        Seq::empty()
    } else if fragments.last().len() == 0 {
        nonempty(fragments.drop_last())
    } else {
        nonempty(fragments.drop_last()).push(fragments.last())
    }
}

/// The characters that separate words.
pub open spec fn word_breaks() -> Set<char> {
    Set::new(|c: char| !text::is_word_char(c))
}

/// The words of a text, flattened.
pub open spec fn words(raw: Seq<char>) -> Seq<Seq<char>> {
    nonempty(text::split(flattened(raw), word_breaks()))
}

/// The normal form of a text: its flattened words, one space apart.
pub open spec fn normal(raw: Seq<char>) -> Seq<char> {
    text::join(words(raw), seq![' '])
}

pub open spec fn min2(a: nat, b: nat) -> nat {
    if a <= b {
        a
    } else {
        b
    }
}

/// Levenshtein distance: the fewest insertions, deletions and
/// substitutions that turn `a` into `b`.
pub open spec fn lev(a: Seq<char>, b: Seq<char>) -> nat
    decreases a.len() + b.len(),
{
    if a.len() == 0 {
        b.len()
    } else if b.len() == 0 {
        a.len()
    } else {
        let change = lev(a.drop_last(), b.drop_last()) + if a.last() == b.last() {
            0nat
        } else {
            1nat
        };
        let drop = lev(a.drop_last(), b) + 1;
        let insert = lev(a, b.drop_last()) + 1;
        min2(change, min2(drop, insert))
    }
}

/// How many edits a word of this many letters may be wrong by.
pub open spec fn allowance(letters: nat) -> nat {
    if letters <= 3 {
        0
    } else if letters <= 7 {
        1
    } else {
        2
    }
}

/// The words of a normalised text.
pub open spec fn tokens(s: Seq<char>) -> Seq<Seq<char>> {
    nonempty(text::split(s, set![' ']))
}

/// The fewest edits that turn `word` into one of `hay`, within its
/// allowance.
pub open spec fn edits(word: Seq<char>, hay: Seq<Seq<char>>) -> Option<nat>
    decreases hay.len(),
{
    if hay.len() == 0 {
        None
    } else {
        let before = edits(word, hay.drop_last());
        let d = lev(word, hay.last());
        if d > allowance(word.len()) {
            before
        } else {
            match before {
                Some(e) => Some(min2(e, d)),
                None => Some(d),
            }
        }
    }
}

/// The edits all of `query` needs, when every word is within reach.
pub open spec fn total_edits(query: Seq<Seq<char>>, hay: Seq<Seq<char>>) -> Option<nat>
    decreases query.len(),
{
    if query.len() == 0 {
        Some(0)
    } else {
        match (total_edits(query.drop_last(), hay), edits(query.last(), hay)) {
            (Some(t), Some(e)) => Some(t + e),
            _ => None,
        }
    }
}

/// Whether some word of `hay` holds `word`.
pub open spec fn inside_some(word: Seq<char>, hay: Seq<Seq<char>>) -> bool {
    exists|j: int| 0 <= j < hay.len() && text::has_text(#[trigger] hay[j], word)
}

/// Whether every word of `query` stands inside some word of `hay`.
pub open spec fn all_inside(query: Seq<Seq<char>>, hay: Seq<Seq<char>>) -> bool {
    forall|i: int| 0 <= i < query.len() ==> inside_some(#[trigger] query[i], hay)
}

/// The rank of a normalised query against one normalised field.
pub open spec fn rank(q: Seq<char>, hay: Seq<char>) -> Option<nat> {
    if hay.len() == 0 {
        None
    } else if hay == q {
        Some(1000)
    } else if text::has_prefix(hay, q) {
        Some(900)
    } else if text::has_text(hay, q) {
        Some(800)
    } else if tokens(q).len() == 0 {
        None
    } else if all_inside(tokens(q), tokens(hay)) {
        Some(700)
    } else {
        match total_edits(tokens(q), tokens(hay)) {
            Some(t) => Some(
                if t <= 600 {
                    (600 - t) as nat
                } else {
                    0
                },
            ),
            None => None,
        }
    }
}

/// The rank of a query against the field at `i`.
pub open spec fn field_rank(query: Seq<char>, fields: Seq<&str>, i: int) -> Option<nat> {
    rank(normal(query), normal(fields[i]@))
}

/// Whether `r` is the best rank of a query over the fields: none when the
/// query has no word or no field matches.
pub open spec fn is_score(r: Option<u32>, query: Seq<char>, fields: Seq<&str>) -> bool {
    match r {
        Some(m) => {
            &&& normal(query).len() > 0
            &&& exists|i: int|
                0 <= i < fields.len() && #[trigger] field_rank(query, fields, i) == Some(m as nat)
            &&& forall|i: int|
                0 <= i < fields.len() ==> match #[trigger] field_rank(query, fields, i) {
                    Some(n) => n <= m,
                    None => true,
                }
        },
        None => normal(query).len() == 0 || forall|i: int|
            0 <= i < fields.len() ==> (#[trigger] field_rank(query, fields, i)) is None,
    }
}

// ---------------------------------------------------------------------
// Characters
// ---------------------------------------------------------------------

fn one_of_text(c: char, set: &str) -> (r: bool)
    ensures
        r == set@.contains(c),
{
    let chars = chars_of(set);
    text::one_of(c, &chars)
}

/// Fold one character to its unaccented ASCII form.
fn fold(c: char) -> (r: char)
    ensures
        r == folded(c),
{
    if one_of_text(c, "áàâãäåāăą") {
        'a'
    } else if one_of_text(c, "éèêëēĕėęě") {
        'e'
    } else if one_of_text(c, "íìîïīĭį") {
        'i'
    } else if one_of_text(c, "óòôõöøōŏő") {
        'o'
    } else if one_of_text(c, "úùûüūŭůűų") {
        'u'
    } else if one_of_text(c, "çćčĉċ") {
        'c'
    } else if one_of_text(c, "ñńňņ") {
        'n'
    } else if one_of_text(c, "ýÿ") {
        'y'
    } else if one_of_text(c, "šśş") {
        's'
    } else if one_of_text(c, "žźż") {
        'z'
    } else if c == 'ł' {
        'l'
    } else if c == 'ğ' {
        'g'
    } else if c == 'ð' {
        'd'
    } else if c == 'þ' {
        'p'
    } else {
        c
    }
}

fn flatten(raw: &str) -> (r: Vec<char>)
    ensures
        r@ == flattened(raw@),
{
    let chars = chars_of(raw);
    let mut out: Vec<char> = Vec::new();
    let mut i: usize = 0;
    while i < chars.len()
        invariant
            i <= chars.len(),
            out@ == flattened(chars@.take(i as int)),
        decreases chars.len() - i,
    {
        assert(chars@.take(i + 1).drop_last() == chars@.take(i as int));
        let ghost before = out@;
        let low = text::lowercase(chars[i]);
        let ghost mapped = low@.map_values(|c: char| folded(c));
        let mut j: usize = 0;
        while j < low.len()
            invariant
                j <= low.len(),
                mapped == low@.map_values(|c: char| folded(c)),
                out@ == before + mapped.take(j as int),
            decreases low.len() - j,
        {
            assert(mapped.take(j + 1) =~= mapped.take(j as int).push(folded(low@[j as int])));
            out.push(fold(low[j]));
            j += 1;
        }
        assert(mapped.take(low.len() as int) =~= mapped);
        i += 1;
    }
    assert(chars@.take(chars.len() as int) == chars@);
    out
}

/// The words of a flattened text.
fn split_words(s: &[char]) -> (r: Vec<Vec<char>>)
    ensures
        text::chars_views(r@) == nonempty(text::split(s@, word_breaks())),
{
    let ghost seps = word_breaks();
    let mut out: Vec<Vec<char>> = Vec::new();
    let mut current: Vec<char> = Vec::new();
    let ghost mut done = Seq::<Seq<char>>::empty();
    let mut i: usize = 0;
    while i < s.len()
        invariant
            i <= s.len(),
            seps == word_breaks(),
            done.push(current@) == text::split(s@.take(i as int), seps),
            text::chars_views(out@) == nonempty(done),
        decreases s.len() - i,
    {
        assert(s@.take(i + 1).drop_last() == s@.take(i as int));
        assert(done.push(current@).last() == current@);
        let ghost cur = current@;
        let ghost kept = text::chars_views(out@);
        if text::is_alphanumeric(s[i]) {
            assert(!seps.contains(s@[i as int]));
            current.push(s[i]);
            assert(done.push(cur).update(done.len() as int, current@) =~= done.push(current@));
        } else {
            assert(seps.contains(s@[i as int]));
            assert(done.push(cur).drop_last() =~= done);
            if current.len() > 0 {
                out.push(current);
                assert(text::chars_views(out@) =~= kept.push(cur));
            }
            current = Vec::new();
            proof {
                done = done.push(cur);
            }
        }
        i += 1;
    }
    assert(s@.take(s.len() as int) == s@);
    assert(done.push(current@).drop_last() =~= done);
    let ghost cur = current@;
    let ghost kept = text::chars_views(out@);
    if current.len() > 0 {
        out.push(current);
        assert(text::chars_views(out@) =~= kept.push(cur));
    }
    out
}

fn normal_chars(raw: &str) -> (r: Vec<char>)
    ensures
        r@ == normal(raw@),
{
    let flat = flatten(raw);
    let found = split_words(&flat);
    let mut space: Vec<char> = Vec::new();
    space.push(' ');
    assert(space@ =~= seq![' ']);
    joined(&found, &space)
}

/// Lower-case, unaccented, and punctuation-free: every run of characters
/// that are not alphanumeric becomes one space, and none is left at the
/// ends.
pub fn normalise(raw: &str) -> (r: String)
    ensures
        r@ == normal(raw@),
{
    let chars = normal_chars(raw);
    string_of(&chars)
}

// ---------------------------------------------------------------------
// Distance
// ---------------------------------------------------------------------

proof fn lemma_lev_bounds(a: Seq<char>, b: Seq<char>)
    ensures
        lev(a, b) >= a.len() - b.len(),
        lev(a, b) >= b.len() - a.len(),
        lev(a, b) <= a.len() || lev(a, b) <= b.len(),
    decreases a.len() + b.len(),
{
    if a.len() > 0 && b.len() > 0 {
        lemma_lev_bounds(a.drop_last(), b.drop_last());
        lemma_lev_bounds(a.drop_last(), b);
        lemma_lev_bounds(a, b.drop_last());
    }
}

/// Whatever bounds one row of the table from below bounds every later row.
proof fn lemma_rows_never_shrink(a: Seq<char>, b: Seq<char>, i: int, k: int, n: int, m: nat)
    requires
        0 <= i <= k <= a.len(),
        0 <= n <= b.len(),
        forall|j: int| 0 <= j <= b.len() ==> lev(a.take(i), #[trigger] b.take(j)) >= m,
    ensures
        lev(a.take(k), b.take(n)) >= m,
    decreases k - i, n,
{
    if k == i {
        assert(lev(a.take(i), b.take(n)) >= m);
    } else {
        let row = a.take(k);
        assert(row.drop_last() =~= a.take(k - 1));
        lemma_rows_never_shrink(a, b, i, k - 1, n, m);
        if n == 0 {
            assert(b.take(0).len() == 0);
            assert(lev(a.take(k - 1), b.take(0)) == k - 1) by {
                if k - 1 == 0 {
                    assert(a.take(0).len() == 0);
                }
            }
        } else {
            assert(b.take(n).drop_last() =~= b.take(n - 1));
            lemma_rows_never_shrink(a, b, i, k - 1, n - 1, m);
            lemma_rows_never_shrink(a, b, i, k, n - 1, m);
        }
    }
}

/// One row of the distance table: `row[j]` is the distance between the
/// first `i` letters of `a` and the first `j` of `b`.
spec fn is_row(row: Seq<usize>, a: Seq<char>, b: Seq<char>, i: int, upto: int) -> bool {
    forall|j: int| 0 <= j < upto ==> #[trigger] row[j] == lev(a.take(i), b.take(j))
}

/// Levenshtein distance, abandoned as soon as it exceeds `max`.
pub fn within(a: &[char], b: &[char], max: usize) -> (r: Option<usize>)
    ensures
        match r {
            Some(d) => d == lev(a@, b@) && d <= max,
            None => lev(a@, b@) > max,
        },
{
    let n: usize = a.len();
    let w: usize = b.len();
    proof {
        lemma_lev_bounds(a@, b@);
    }
    let gap: usize = if n > w {
        n - w
    } else {
        w - n
    };
    if gap > max {
        return None;
    }
    let mut prev: Vec<usize> = Vec::new();
    let mut j: usize = 0;
    while j < w
        invariant
            w == b.len(),
            j <= w,
            prev@.len() == j,
            is_row(prev@, a@, b@, 0, j as int),
        decreases w - j,
    {
        assert(a@.take(0).len() == 0);
        assert(lev(a@.take(0), b@.take(j as int)) == j);
        prev.push(j);
        j += 1;
    }
    assert(lev(a@.take(0), b@.take(w as int)) == w);
    prev.push(w);
    assert(prev.len() == w + 1);
    assert(is_row(prev@, a@, b@, 0, w + 1));
    let mut i: usize = 0;
    while i < n
        invariant
            n == a.len(),
            w == b.len(),
            w < usize::MAX,
            i <= n,
            prev@.len() == w + 1,
            is_row(prev@, a@, b@, i as int, w + 1),
        decreases n - i,
    {
        let mut cur: Vec<usize> = Vec::new();
        cur.push(i + 1);
        let mut row_best: usize = i + 1;
        assert(b@.take(0).len() == 0);
        assert(a@.take(i + 1).len() == i + 1);
        assert(cur@[0] == lev(a@.take(i + 1), b@.take(0)));
        let mut j: usize = 0;
        while j < w
            invariant
                n == a.len(),
                w == b.len(),
                w < usize::MAX,
                i < n,
                j <= w,
                prev@.len() == w + 1,
                is_row(prev@, a@, b@, i as int, w + 1),
                cur@.len() == j + 1,
                is_row(cur@, a@, b@, i + 1, j + 1),
                forall|x: int| 0 <= x <= j ==> row_best <= #[trigger] cur@[x],
                row_best <= i + 1,
            decreases w - j,
        {
            proof {
                assert(a@.take(i + 1).drop_last() =~= a@.take(i as int));
                assert(b@.take(j + 1).drop_last() =~= b@.take(j as int));
                lemma_lev_bounds(a@.take(i as int), b@.take(j as int));
                assert(prev@[j as int] == lev(a@.take(i as int), b@.take(j as int)));
                assert(prev@[j + 1] == lev(a@.take(i as int), b@.take(j + 1)));
                assert(cur@[j as int] == lev(a@.take(i + 1), b@.take(j as int)));
            }
            let cost: usize = if a[i] == b[j] {
                0
            } else {
                1
            };
            let mut d: usize = prev[j] + cost;
            if prev[j + 1] < d {
                d = prev[j + 1] + 1;
            }
            if cur[j] < d {
                d = cur[j] + 1;
            }
            assert(d == lev(a@.take(i + 1), b@.take(j + 1)));
            cur.push(d);
            if d < row_best {
                row_best = d;
            }
            j += 1;
        }
        if row_best > max {
            proof {
                let m = (max + 1) as nat;
                assert forall|x: int| 0 <= x <= b@.len() implies lev(
                    a@.take(i + 1),
                    #[trigger] b@.take(x),
                ) >= m by {
                    assert(cur@[x] == lev(a@.take(i + 1), b@.take(x)));
                }
                lemma_rows_never_shrink(a@, b@, i + 1, n as int, w as int, m);
                assert(a@.take(n as int) =~= a@);
                assert(b@.take(w as int) =~= b@);
            }
            return None;
        }
        prev = cur;
        i += 1;
    }
    assert(a@.take(n as int) =~= a@);
    assert(b@.take(w as int) =~= b@);
    let d: usize = prev[w];
    if d <= max {
        Some(d)
    } else {
        None
    }
}

/// How many edits a word of this many letters may be wrong by.
fn budget(letters: usize) -> (r: usize)
    ensures
        r == allowance(letters as nat),
{
    if letters <= 3 {
        0
    } else if letters <= 7 {
        1
    } else {
        2
    }
}

// ---------------------------------------------------------------------
// Ranking
// ---------------------------------------------------------------------

fn token_list(s: &[char]) -> (r: Vec<Vec<char>>)
    ensures
        text::chars_views(r@) == tokens(s@),
{
    let mut space: Vec<char> = Vec::new();
    space.push(' ');
    assert(space@.to_set() =~= set![' ']) by {
        assert(space@[0] == ' ');
    }
    let fragments = split_on(s, &space);
    let ghost all = text::chars_views(fragments@);
    let mut out: Vec<Vec<char>> = Vec::new();
    let mut i: usize = 0;
    while i < fragments.len()
        invariant
            i <= fragments.len(),
            all == text::chars_views(fragments@),
            text::chars_views(out@) == nonempty(all.take(i as int)),
        decreases fragments.len() - i,
    {
        let ghost before = text::chars_views(out@);
        assert(all.take(i + 1).drop_last() == all.take(i as int));
        assert(all[i as int] == fragments@[i as int]@);
        if fragments[i].len() > 0 {
            out.push(text::copied(&fragments[i]));
            assert(text::chars_views(out@) =~= before.push(all[i as int]));
        }
        i += 1;
    }
    assert(all.take(fragments.len() as int) == all);
    out
}

fn word_inside(word: &[char], hay: &[Vec<char>]) -> (r: bool)
    ensures
        r == inside_some(word@, text::chars_views(hay@)),
{
    let ghost h = text::chars_views(hay@);
    let mut j: usize = 0;
    while j < hay.len()
        invariant
            j <= hay.len(),
            h == text::chars_views(hay@),
            forall|x: int| 0 <= x < j ==> !text::has_text(#[trigger] h[x], word@),
        decreases hay.len() - j,
    {
        assert(h[j as int] == hay@[j as int]@);
        if holds(&hay[j], word) {
            return true;
        }
        j += 1;
    }
    false
}

fn every_word_inside(query: &[Vec<char>], hay: &[Vec<char>]) -> (r: bool)
    ensures
        r == all_inside(text::chars_views(query@), text::chars_views(hay@)),
{
    let ghost q = text::chars_views(query@);
    let ghost h = text::chars_views(hay@);
    let mut i: usize = 0;
    while i < query.len()
        invariant
            i <= query.len(),
            q == text::chars_views(query@),
            h == text::chars_views(hay@),
            forall|x: int| 0 <= x < i ==> inside_some(#[trigger] q[x], h),
        decreases query.len() - i,
    {
        assert(q[i as int] == query@[i as int]@);
        if !word_inside(&query[i], hay) {
            return false;
        }
        i += 1;
    }
    true
}

fn fewest_edits(word: &[char], hay: &[Vec<char>]) -> (r: Option<usize>)
    ensures
        match r {
            Some(e) => edits(word@, text::chars_views(hay@)) == Some(e as nat) && e <= 2,
            None => edits(word@, text::chars_views(hay@)) is None,
        },
{
    let ghost h = text::chars_views(hay@);
    let most: usize = budget(word.len());
    let mut best: Option<usize> = None;
    let mut j: usize = 0;
    while j < hay.len()
        invariant
            j <= hay.len(),
            h == text::chars_views(hay@),
            most == allowance(word@.len()),
            match best {
                Some(e) => edits(word@, h.take(j as int)) == Some(e as nat) && e <= 2,
                None => edits(word@, h.take(j as int)) is None,
            },
        decreases hay.len() - j,
    {
        assert(h.take(j + 1).drop_last() == h.take(j as int));
        assert(h.take(j + 1).last() == hay@[j as int]@);
        if let Some(d) = within(word, &hay[j], most) {
            best = match best {
                Some(e) => if d < e {
                    Some(d)
                } else {
                    Some(e)
                },
                None => Some(d),
            };
        }
        j += 1;
    }
    assert(h.take(hay.len() as int) == h);
    best
}

fn edits_in_all(query: &[Vec<char>], hay: &[Vec<char>]) -> (r: Option<u128>)
    ensures
        match r {
            Some(t) => total_edits(text::chars_views(query@), text::chars_views(hay@)) == Some(
                t as nat,
            ),
            None => total_edits(text::chars_views(query@), text::chars_views(hay@)) is None,
        },
{
    let ghost q = text::chars_views(query@);
    let ghost h = text::chars_views(hay@);
    let mut total: u128 = 0;
    let mut i: usize = 0;
    while i < query.len()
        invariant
            i <= query.len(),
            q == text::chars_views(query@),
            h == text::chars_views(hay@),
            total <= 2 * i,
            total_edits(q.take(i as int), h) == Some(total as nat),
        decreases query.len() - i,
    {
        assert(q.take(i + 1).drop_last() == q.take(i as int));
        assert(q.take(i + 1).last() == query@[i as int]@);
        match fewest_edits(&query[i], hay) {
            Some(e) => {
                total = total + e as u128;
            },
            None => {
                proof {
                    lemma_one_word_out_of_reach(q, h, i + 1);
                }
                return None;
            },
        }
        i += 1;
    }
    assert(q.take(query.len() as int) == q);
    Some(total)
}

proof fn lemma_one_word_out_of_reach(q: Seq<Seq<char>>, h: Seq<Seq<char>>, i: int)
    requires
        0 <= i <= q.len(),
        total_edits(q.take(i), h) is None,
    ensures
        total_edits(q, h) is None,
    decreases q.len() - i,
{
    if i == q.len() {
        assert(q.take(i) =~= q);
    } else {
        assert(q.take(i + 1).drop_last() =~= q.take(i));
        lemma_one_word_out_of_reach(q, h, i + 1);
    }
}

/// The rank of a normalised query against one normalised field.
pub fn score_one(q: &[char], hay: &[char]) -> (r: Option<u32>)
    ensures
        match r {
            Some(n) => rank(q@, hay@) == Some(n as nat),
            None => rank(q@, hay@) is None,
        },
{
    if hay.len() == 0 {
        return None;
    }
    if same(hay, q) {
        return Some(1000);
    }
    if starts(hay, q) {
        return Some(900);
    }
    if holds(hay, q) {
        return Some(800);
    }
    let q_tokens = token_list(q);
    let h_tokens = token_list(hay);
    assert(tokens(q@).len() == q_tokens.len());
    if q_tokens.len() == 0 {
        return None;
    }
    if every_word_inside(&q_tokens, &h_tokens) {
        return Some(700);
    }
    match edits_in_all(&q_tokens, &h_tokens) {
        Some(t) => if t <= 600 {
            Some(600 - t as u32)
        } else {
            Some(0)
        },
        None => None,
    }
}

/// Best match of `query` against any of `fields`, or `None`. The number is
/// a rank: higher is a better match, and only the ordering is meaningful.
pub fn score(query: &str, fields: &[&str]) -> (r: Option<u32>)
    ensures
        is_score(r, query@, fields@),
{
    let q = normal_chars(query);
    if q.len() == 0 {
        return None;
    }
    let mut best: Option<u32> = None;
    let mut i: usize = 0;
    while i < fields.len()
        invariant
            i <= fields.len(),
            q@ == normal(query@),
            match best {
                Some(m) => {
                    &&& exists|j: int|
                        0 <= j < i && #[trigger] field_rank(query@, fields@, j) == Some(m as nat)
                    &&& forall|j: int|
                        0 <= j < i ==> match #[trigger] field_rank(query@, fields@, j) {
                            Some(n) => n <= m,
                            None => true,
                        }
                },
                None => forall|j: int|
                    0 <= j < i ==> (#[trigger] field_rank(query@, fields@, j)) is None,
            },
        decreases fields.len() - i,
    {
        let hay = normal_chars(fields[i]);
        let one = score_one(&q, &hay);
        assert(field_rank(query@, fields@, i as int) == rank(q@, hay@));
        if let Some(n) = one {
            best = match best {
                Some(m) => if n > m {
                    Some(n)
                } else {
                    Some(m)
                },
                None => Some(n),
            };
        }
        i += 1;
    }
    best
}

// ---------------------------------------------------------------------
// Laws
// ---------------------------------------------------------------------

/// Distance does not depend on which text is called first.
pub proof fn distance_is_symmetric(a: Seq<char>, b: Seq<char>)
    ensures
        lev(a, b) == lev(b, a),
    decreases a.len() + b.len(),
{
    if a.len() > 0 && b.len() > 0 {
        distance_is_symmetric(a.drop_last(), b.drop_last());
        distance_is_symmetric(a.drop_last(), b);
        distance_is_symmetric(a, b.drop_last());
    }
}

/// Two texts are no edits apart exactly when they are the same text.
pub proof fn no_distance_is_equality(a: Seq<char>, b: Seq<char>)
    ensures
        lev(a, b) == 0 <==> a == b,
    decreases a.len(),
{
    if a.len() == 0 || b.len() == 0 {
        if a.len() == 0 && b.len() == 0 {
            assert(a =~= b);
        }
    } else {
        no_distance_is_equality(a.drop_last(), b.drop_last());
        if lev(a, b) == 0 {
            assert(a =~= a.drop_last().push(a.last()));
            assert(b =~= b.drop_last().push(b.last()));
        }
    }
}

/// The tiers are in order: a misspelt match is worth at most 600, words in
/// any order 700, a substring 800, a prefix 900 and the title itself 1000.
pub proof fn tiers_are_ordered(q: Seq<char>, hay: Seq<char>)
    ensures
        match rank(q, hay) {
            Some(n) => {
                &&& n <= 1000
                &&& n == 1000 <==> hay == q
                &&& n >= 900 <==> text::has_prefix(hay, q)
                &&& n >= 800 <==> text::has_text(hay, q)
                &&& n >= 700 <==> text::has_text(hay, q) || all_inside(tokens(q), tokens(hay))
            },
            None => hay.len() == 0 || !text::has_text(hay, q),
        },
{
    if hay == q {
        assert(hay.subrange(0, q.len() as int) =~= q);
    }
    if text::has_prefix(hay, q) {
        assert(text::occurs_at(hay, q, 0));
    }
}

/// More edits rank lower: of two titles that only a misspelling finds, the
/// one that needed fewer edits is not ranked below.
pub proof fn fewer_edits_rank_higher(q: Seq<char>, near: Seq<char>, far: Seq<char>)
    requires
        rank(q, near) matches Some(n) && n <= 600,
        rank(q, far) matches Some(n) && n <= 600,
        total_edits(tokens(q), tokens(near))->0 < total_edits(tokens(q), tokens(far))->0,
    ensures
        rank(q, near)->0 >= rank(q, far)->0,
        total_edits(tokens(q), tokens(near))->0 < 600 ==> rank(q, near)->0 > rank(q, far)->0,
{
}

/// A query that normalises to a field's own normal form is a perfect match.
pub proof fn an_exact_title_beats_everything(query: Seq<char>, field: Seq<char>)
    requires
        normal(query) == normal(field),
        normal(query).len() > 0,
    ensures
        rank(normal(query), normal(field)) == Some(1000nat),
{
}

proof fn lemma_nonempty(fragments: Seq<Seq<char>>, seps: Set<char>)
    requires
        forall|i: int| 0 <= i < fragments.len() ==> text::free_of(#[trigger] fragments[i], seps),
    ensures
        forall|i: int|
            0 <= i < nonempty(fragments).len() ==> (#[trigger] nonempty(fragments)[i]).len() > 0
                && text::free_of(nonempty(fragments)[i], seps),
    decreases fragments.len(),
{
    if fragments.len() > 0 {
        let before = fragments.drop_last();
        assert forall|i: int| 0 <= i < before.len() implies text::free_of(
            #[trigger] before[i],
            seps,
        ) by {
            assert(before[i] == fragments[i]);
        }
        lemma_nonempty(before, seps);
        assert(text::free_of(fragments[fragments.len() - 1], seps));
        let kept = nonempty(before);
        assert forall|i: int| 0 <= i < nonempty(fragments).len() implies (#[trigger] nonempty(
            fragments,
        )[i]).len() > 0 && text::free_of(nonempty(fragments)[i], seps) by {
            if i < kept.len() {
                assert(nonempty(fragments)[i] == kept[i]);
            }
        }
    }
}

/// A normal form is words one space apart: every word is a non-empty run of
/// letters and digits.
pub proof fn a_normal_form_is_words(raw: Seq<char>)
    ensures
        normal(raw) == text::join(words(raw), seq![' ']),
        forall|i: int, j: int|
            0 <= i < words(raw).len() && 0 <= j < words(raw)[i].len() ==> text::is_word_char(
                #[trigger] words(raw)[i][j],
            ),
        forall|i: int| 0 <= i < words(raw).len() ==> (#[trigger] words(raw)[i]).len() > 0,
        forall|i: int|
            0 <= i < words(raw).len() ==> text::free_of(#[trigger] words(raw)[i], word_breaks()),
        tokens(normal(raw)) == words(raw),
{
    text::lemma_split_free(flattened(raw), word_breaks());
    lemma_nonempty(text::split(flattened(raw), word_breaks()), word_breaks());
    assert forall|i: int, j: int|
        0 <= i < words(raw).len() && 0 <= j < words(raw)[i].len() implies text::is_word_char(
        #[trigger] words(raw)[i][j],
    ) by {
        assert(text::free_of(words(raw)[i], word_breaks()));
        assert(!word_breaks().contains(words(raw)[i][j]));
    }
    let w = words(raw);
    assert forall|i: int| 0 <= i < w.len() implies text::free_of(#[trigger] w[i], set![' ']) by {
        assert forall|j: int| 0 <= j < w[i].len() implies !set![' '].contains(
            #[trigger] w[i][j],
        ) by {
            assert(text::is_word_char(w[i][j]));
        }
    }
    text::lemma_split_join(w, ' ', set![' ']);
    if w.len() == 0 {
        let none = seq![Seq::<char>::empty()];
        assert(none.drop_last() =~= Seq::<Seq<char>>::empty());
        assert(nonempty(none.drop_last()) =~= Seq::<Seq<char>>::empty());
        assert(nonempty(none) == nonempty(none.drop_last()));
        assert(w =~= Seq::empty());
    } else {
        lemma_nothing_to_drop(w);
    }
}

proof fn lemma_nothing_to_drop(fragments: Seq<Seq<char>>)
    requires
        forall|i: int| 0 <= i < fragments.len() ==> (#[trigger] fragments[i]).len() > 0,
    ensures
        nonempty(fragments) == fragments,
    decreases fragments.len(),
{
    if fragments.len() > 0 {
        let before = fragments.drop_last();
        assert forall|i: int| 0 <= i < before.len() implies (#[trigger] before[i]).len() > 0 by {
            assert(before[i] == fragments[i]);
        }
        lemma_nothing_to_drop(before);
        assert(fragments[fragments.len() - 1].len() > 0);
        assert(before.push(fragments.last()) =~= fragments);
    } else {
        assert(fragments =~= Seq::empty());
    }
}

/// Whether two spaces stand next to each other at `i`.
pub open spec fn doubled_at(s: Seq<char>, i: int) -> bool {
    0 <= i && i + 1 < s.len() && s[i] == ' ' && s[i + 1] == ' '
}

/// Words of a normal form written one space apart: they start and end in a
/// letter or digit, and no space stands next to another.
proof fn lemma_joined_words(w: Seq<Seq<char>>)
    requires
        forall|i: int|
            0 <= i < w.len() ==> (#[trigger] w[i]).len() > 0 && text::free_of(w[i], word_breaks()),
    ensures
        ({
            let s = text::join(w, seq![' ']);
            &&& s.len() == 0 <==> w.len() == 0
            &&& s.len() > 0 ==> text::is_word_char(s[0]) && text::is_word_char(s.last())
            &&& forall|i: int| !#[trigger] doubled_at(s, i)
            &&& forall|i: int| 0 <= i < s.len() ==> s[i] == ' ' || text::is_word_char(#[trigger] s[i])
        }),
    decreases w.len(),
{
    let s = text::join(w, seq![' ']);
    if w.len() > 0 {
        let last = w[w.len() - 1];
        assert(last.len() > 0 && text::free_of(last, word_breaks()));
        assert forall|i: int| 0 <= i < last.len() implies text::is_word_char(#[trigger] last[i]) by {
            assert(!word_breaks().contains(last[i]));
        }
        if w.len() == 1 {
            assert(s == last);
            assert forall|i: int| !#[trigger] doubled_at(s, i) by {
                if 0 <= i < s.len() {
                    assert(text::is_word_char(last[i]));
                }
            }
        } else {
            let before = w.drop_last();
            assert forall|i: int| 0 <= i < before.len() implies (#[trigger] before[i]).len() > 0
                && text::free_of(before[i], word_breaks()) by {
                assert(before[i] == w[i]);
            }
            lemma_joined_words(before);
            let head = text::join(before, seq![' ']);
            assert(s =~= head + seq![' '] + last);
            let n = head.len() as int;
            assert forall|i: int| 0 <= i < s.len() implies s[i] == ' ' || text::is_word_char(
                #[trigger] s[i],
            ) by {
                if i < n {
                    assert(s[i] == head[i]);
                } else if i > n {
                    assert(s[i] == last[i - n - 1]);
                }
            }
            assert forall|i: int| !#[trigger] doubled_at(s, i) by {
                assert(!doubled_at(head, i));
                if 0 <= i && i + 1 < s.len() {
                    if i < n {
                        assert(s[i] == head[i]);
                        if i + 1 < n {
                            assert(s[i + 1] == head[i + 1]);
                        } else {
                            assert(s[i] == head.last());
                        }
                    } else {
                        assert(s[i + 1] == last[i - n]);
                        assert(text::is_word_char(last[i - n]));
                    }
                }
            }
            assert(s.last() == last.last());
            assert(text::is_word_char(last[last.len() - 1]));
            assert(s[0] == head[0]);
        }
    }
}

proof fn lemma_split_has_no_word(s: Seq<char>)
    ensures
        nonempty(text::split(s, word_breaks())).len() == 0 <==> forall|i: int|
            0 <= i < s.len() ==> !text::is_word_char(#[trigger] s[i]),
        text::split(s, word_breaks()).last().len() > 0 ==> s.len() > 0 && text::is_word_char(
            s.last(),
        ),
        text::split(s, word_breaks()).len() >= 1,
    decreases s.len(),
{
    let f = text::split(s, word_breaks());
    if s.len() == 0 {
        let none = seq![Seq::<char>::empty()];
        assert(none.drop_last() =~= Seq::<Seq<char>>::empty());
        assert(nonempty(none.drop_last()).len() == 0);
    } else {
        let before = s.drop_last();
        lemma_split_has_no_word(before);
        let g = text::split(before, word_breaks());
        let last = s[s.len() - 1];
        if word_breaks().contains(s.last()) {
            assert(f.drop_last() =~= g);
            assert(nonempty(f) == nonempty(g));
            assert(!text::is_word_char(last));
            assert forall|i: int| 0 <= i < s.len() && nonempty(g).len() == 0 implies
                !text::is_word_char(#[trigger] s[i]) by {
                if i < before.len() {
                    assert(!text::is_word_char(before[i]));
                }
            }
        } else {
            assert(text::is_word_char(last));
            assert(f.last().len() > 0);
            assert(nonempty(f).len() > 0);
        }
        if nonempty(f).len() != 0 && forall|i: int|
            0 <= i < s.len() ==> !text::is_word_char(#[trigger] s[i]) {
            assert(!text::is_word_char(last));
            assert forall|i: int| 0 <= i < before.len() implies !text::is_word_char(
                #[trigger] before[i],
            ) by {
                assert(before[i] == s[i]);
            }
        }
    }
}

/// A normal form has no space at its ends and none doubled, holds letters,
/// digits and spaces only, and is empty exactly when the text, lower-cased
/// and without diacritics, has no letter or digit.
pub proof fn a_normal_form_is_single_spaced(raw: Seq<char>)
    ensures
        normal(raw).len() > 0 ==> normal(raw)[0] != ' ' && normal(raw).last() != ' ',
        forall|i: int| !#[trigger] doubled_at(normal(raw), i),
        forall|i: int|
            0 <= i < normal(raw).len() ==> normal(raw)[i] == ' ' || text::is_word_char(
                #[trigger] normal(raw)[i],
            ),
        normal(raw).len() == 0 <==> forall|i: int|
            0 <= i < flattened(raw).len() ==> !text::is_word_char(#[trigger] flattened(raw)[i]),
{
    a_normal_form_is_words(raw);
    lemma_joined_words(words(raw));
    lemma_split_has_no_word(flattened(raw));
}

proof fn lemma_folding_settles(c: char)
    ensures
        folded(folded(c)) == folded(c),
        folded(c) != c ==> folded(c) < '\u{80}' && text::lower(folded(c)) == folded(c),
        c < '\u{80}' ==> folded(c) == c,
{
    reveal_strlit("áàâãäåāăą");
    reveal_strlit("éèêëēĕėęě");
    reveal_strlit("íìîïīĭį");
    reveal_strlit("óòôõöøōŏő");
    reveal_strlit("úùûüūŭůűų");
    reveal_strlit("çćčĉċ");
    reveal_strlit("ñńňņ");
    reveal_strlit("ýÿ");
    reveal_strlit("šśş");
    reveal_strlit("žźż");
    assert forall|x: char| x < '\u{80}' implies folded(x) == x by {
        assert(!"áàâãäåāăą"@.contains(x));
        assert(!"éèêëēĕėęě"@.contains(x));
        assert(!"íìîïīĭį"@.contains(x));
        assert(!"óòôõöøōŏő"@.contains(x));
        assert(!"úùûüūŭůűų"@.contains(x));
        assert(!"çćčĉċ"@.contains(x));
        assert(!"ñńňņ"@.contains(x));
        assert(!"ýÿ"@.contains(x));
        assert(!"šśş"@.contains(x));
        assert(!"žźż"@.contains(x));
    }
    if folded(c) != c {
        assert(folded(folded(c)) == folded(c));
    }
}

/// Whether every character is its own lower case.
pub open spec fn is_lower(s: Seq<char>) -> bool {
    forall|i: int| 0 <= i < s.len() ==> text::lower_case(#[trigger] s[i]) == seq![s[i]]
}

/// Whether a character is left alone by flattening.
pub open spec fn is_flat(c: char) -> bool {
    text::lower_case(c).map_values(|x: char| folded(x)) == seq![c]
}

proof fn lemma_flattening_the_flat(s: Seq<char>)
    requires
        forall|i: int| 0 <= i < s.len() ==> is_flat(#[trigger] s[i]),
    ensures
        flattened(s) == s,
    decreases s.len(),
{
    if s.len() > 0 {
        let before = s.drop_last();
        assert forall|i: int| 0 <= i < before.len() implies is_flat(#[trigger] before[i]) by {
            assert(before[i] == s[i]);
        }
        lemma_flattening_the_flat(before);
        assert(is_flat(s[s.len() - 1]));
        assert(before + seq![s.last()] =~= s);
    } else {
        assert(s =~= Seq::empty());
    }
}

/// Flattening leaves no diacritic, and of ASCII text no capital.
proof fn lemma_flattened_chars(raw: Seq<char>)
    ensures
        forall|i: int| 0 <= i < flattened(raw).len() ==> is_folded(#[trigger] flattened(raw)[i]),
        is_ascii(raw) ==> is_lower(flattened(raw)),
    decreases raw.len(),
{
    if raw.len() > 0 {
        let before = flattened(raw.drop_last());
        lemma_flattened_chars(raw.drop_last());
        let low = text::lower_case(raw.last());
        let more = low.map_values(|c: char| folded(c));
        assert forall|i: int| 0 <= i < flattened(raw).len() implies is_folded(
            #[trigger] flattened(raw)[i],
        ) by {
            if i < before.len() {
                assert(flattened(raw)[i] == before[i]);
            } else {
                assert(flattened(raw)[i] == more[i - before.len()]);
                lemma_folding_settles(low[i - before.len()]);
            }
        }
        if is_ascii(raw) {
            let last = raw[raw.len() - 1];
            assert(last < '\u{80}');
            lemma_folding_settles(text::lower(last));
            assert(more =~= seq![text::lower(last)]);
            assert forall|i: int| 0 <= i < raw.drop_last().len() implies (
            #[trigger] raw.drop_last()[i]) < '\u{80}' by {
                assert(raw[i] < '\u{80}');
            }
            assert forall|i: int| 0 <= i < flattened(raw).len() implies text::lower_case(
                #[trigger] flattened(raw)[i],
            ) == seq![flattened(raw)[i]] by {
                if i < before.len() {
                    assert(flattened(raw)[i] == before[i]);
                } else {
                    assert(flattened(raw)[i] == text::lower(last));
                }
            }
        }
    }
}

pub open spec fn is_ascii(s: Seq<char>) -> bool {
    forall|i: int| 0 <= i < s.len() ==> (#[trigger] s[i]) < '\u{80}'
}

/// Whether a character carries no diacritic that folding drops.
pub open spec fn is_folded(c: char) -> bool {
    folded(c) == c
}

/// Every character of a fragment is one of the text's.
proof fn lemma_fragments_hold_the_text(s: Seq<char>, seps: Set<char>, i: int, j: int)
    requires
        0 <= i < text::split(s, seps).len(),
        0 <= j < text::split(s, seps)[i].len(),
    ensures
        s.contains(text::split(s, seps)[i][j]),
    decreases s.len(),
{
    text::lemma_split_free(s, seps);
    if s.len() > 0 {
        let before = s.drop_last();
        text::lemma_split_free(before, seps);
        let g = text::split(before, seps);
        let f = text::split(s, seps);
        if i < g.len() && j < g[i].len() {
            assert(f[i][j] == g[i][j]);
            lemma_fragments_hold_the_text(before, seps, i, j);
            let k = choose|k: int| 0 <= k < before.len() && before[k] == g[i][j];
            assert(s[k] == f[i][j]);
        } else {
            assert(f[i][j] == s[s.len() - 1]);
        }
    }
}

proof fn lemma_nonempty_picks(fragments: Seq<Seq<char>>, i: int)
    requires
        0 <= i < nonempty(fragments).len(),
    ensures
        fragments.contains(nonempty(fragments)[i]),
    decreases fragments.len(),
{
    if fragments.len() > 0 {
        let before = fragments.drop_last();
        let kept = nonempty(before);
        if i < kept.len() {
            lemma_nonempty_picks(before, i);
            let k = choose|k: int| 0 <= k < before.len() && before[k] == kept[i];
            assert(fragments[k] == nonempty(fragments)[i]);
        } else {
            assert(fragments[fragments.len() - 1] == nonempty(fragments)[i]);
        }
    }
}

proof fn lemma_nonempty_keeps(fragments: Seq<Seq<char>>, i: int)
    requires
        0 <= i < fragments.len(),
        fragments[i].len() > 0,
    ensures
        nonempty(fragments).contains(fragments[i]),
    decreases fragments.len(),
{
    let before = fragments.drop_last();
    let kept = nonempty(fragments);
    if i < before.len() {
        lemma_nonempty_keeps(before, i);
        let k = choose|k: int| 0 <= k < nonempty(before).len() && nonempty(before)[k] == before[i];
        assert(kept[k] == fragments[i]);
    } else {
        assert(kept[kept.len() - 1] == fragments[i]);
    }
}

/// What follows the words of a text that is normal already.
proof fn lemma_breaking_joined_words(w: Seq<Seq<char>>)
    requires
        forall|i: int|
            0 <= i < w.len() ==> (#[trigger] w[i]).len() > 0 && text::free_of(w[i], word_breaks()),
    ensures
        nonempty(text::split(text::join(w, seq![' ']), word_breaks())) == w,
{
    assert(word_breaks().contains(' '));
    text::lemma_split_join(w, ' ', word_breaks());
    if w.len() == 0 {
        let none = seq![Seq::<char>::empty()];
        assert(none.drop_last() =~= Seq::<Seq<char>>::empty());
        assert(nonempty(none.drop_last()) =~= Seq::<Seq<char>>::empty());
        assert(nonempty(none) == nonempty(none.drop_last()));
        assert(w =~= Seq::empty());
    } else {
        lemma_nothing_to_drop(w);
    }
}

proof fn lemma_joined_from(w: Seq<Seq<char>>, source: Seq<char>)
    requires
        forall|i: int, j: int|
            0 <= i < w.len() && 0 <= j < w[i].len() ==> source.contains(#[trigger] w[i][j]),
    ensures
        forall|i: int|
            0 <= i < text::join(w, seq![' ']).len() ==> text::join(w, seq![' '])[i] == ' '
                || source.contains(#[trigger] text::join(w, seq![' '])[i]),
    decreases w.len(),
{
    let s = text::join(w, seq![' ']);
    if w.len() == 1 {
        assert forall|i: int| 0 <= i < s.len() implies s[i] == ' ' || source.contains(
            #[trigger] s[i],
        ) by {
            assert(s[i] == w[0][i]);
        }
    } else if w.len() > 1 {
        let before = w.drop_last();
        let last = w.len() - 1;
        assert forall|i: int, j: int| 0 <= i < before.len() && 0 <= j < before[i].len() implies
            source.contains(#[trigger] before[i][j]) by {
            assert(before[i][j] == w[i][j]);
        }
        lemma_joined_from(before, source);
        let head = text::join(before, seq![' ']);
        assert(s =~= head + seq![' '] + w[last]);
        assert forall|i: int| 0 <= i < s.len() implies s[i] == ' ' || source.contains(
            #[trigger] s[i],
        ) by {
            if i < head.len() {
                assert(s[i] == head[i]);
            } else if i > head.len() {
                assert(s[i] == w[last][i - head.len() - 1]);
            }
        }
    }
}

/// Every character of a normal form but the spaces stands in the flattened
/// text.
proof fn lemma_normal_comes_from_the_text(raw: Seq<char>)
    ensures
        forall|i: int|
            0 <= i < normal(raw).len() ==> normal(raw)[i] == ' ' || flattened(raw).contains(
                #[trigger] normal(raw)[i],
            ),
{
    let flat = flattened(raw);
    let f = text::split(flat, word_breaks());
    let w = words(raw);
    assert forall|i: int, j: int| 0 <= i < w.len() && 0 <= j < w[i].len() implies flat.contains(
        #[trigger] w[i][j],
    ) by {
        lemma_nonempty_picks(f, i);
        let k = choose|k: int| 0 <= k < f.len() && f[k] == w[i];
        lemma_fragments_hold_the_text(flat, word_breaks(), k, j);
    }
    lemma_joined_from(w, flat);
}

/// A normal form is its own normal form, where its characters are in lower
/// case.
pub proof fn a_normal_form_is_its_own_normal_form(raw: Seq<char>)
    requires
        is_lower(normal(raw)),
    ensures
        normal(normal(raw)) == normal(raw),
{
    let n = normal(raw);
    a_normal_form_is_words(raw);
    lemma_flattened_chars(raw);
    lemma_normal_comes_from_the_text(raw);
    assert forall|i: int| 0 <= i < n.len() implies is_flat(#[trigger] n[i]) by {
        let c = n[i];
        lemma_folding_settles(c);
        assert(text::lower_case(c) == seq![c]);
        if c != ' ' {
            assert(flattened(raw).contains(c));
            let k = choose|k: int| 0 <= k < flattened(raw).len() && flattened(raw)[k] == c;
            assert(is_folded(flattened(raw)[k]));
        }
        assert(folded(c) == c);
        assert(text::lower_case(c).map_values(|x: char| folded(x)) =~= seq![c]);
    }
    lemma_flattening_the_flat(n);
    lemma_breaking_joined_words(words(raw));
}

/// A character of an ASCII text is flattened to its lower case.
proof fn lemma_flattened_ascii(raw: Seq<char>)
    requires
        is_ascii(raw),
    ensures
        flattened(raw) == text::lowered(raw),
    decreases raw.len(),
{
    if raw.len() > 0 {
        let before = raw.drop_last();
        assert forall|i: int| 0 <= i < before.len() implies (#[trigger] before[i]) < '\u{80}' by {
            assert(raw[i] < '\u{80}');
        }
        lemma_flattened_ascii(before);
        let last = raw[raw.len() - 1];
        assert(last < '\u{80}');
        lemma_folding_settles(text::lower(last));
        assert(text::lower_case(last).map_values(|c: char| folded(c)) =~= seq![text::lower(last)]);
        assert(text::lowered(raw) =~= text::lowered(before) + seq![text::lower(last)]);
    } else {
        assert(flattened(raw) =~= text::lowered(raw));
    }
}

/// The normal form of a text in ASCII is in lower case.
pub proof fn a_normal_form_of_ascii_is_lower(raw: Seq<char>)
    requires
        is_ascii(raw),
    ensures
        is_lower(normal(raw)),
{
    lemma_flattened_chars(raw);
    lemma_normal_comes_from_the_text(raw);
    let n = normal(raw);
    let flat = flattened(raw);
    assert forall|i: int| 0 <= i < n.len() implies text::lower_case(#[trigger] n[i]) == seq![
        n[i],
    ] by {
        if n[i] != ' ' {
            assert(flat.contains(n[i]));
            let k = choose|k: int| 0 <= k < flat.len() && flat[k] == n[i];
            assert(text::lower_case(flat[k]) == seq![flat[k]]);
        }
    }
}

/// The normal form of a text in ASCII is its own normal form, and is empty
/// exactly when the text has no letter or digit.
pub proof fn a_normal_form_of_ascii_is_its_own_normal_form(raw: Seq<char>)
    requires
        is_ascii(raw),
    ensures
        normal(normal(raw)) == normal(raw),
        normal(raw).len() == 0 <==> forall|i: int|
            0 <= i < raw.len() ==> !text::is_word_char(#[trigger] raw[i]),
{
    a_normal_form_of_ascii_is_lower(raw);
    a_normal_form_is_its_own_normal_form(raw);
    a_normal_form_is_single_spaced(raw);
    lemma_flattened_ascii(raw);
    let flat = flattened(raw);
    assert forall|i: int| 0 <= i < raw.len() implies text::is_word_char(#[trigger] raw[i])
        == text::is_word_char(flat[i]) by {
        assert(raw[i] < '\u{80}');
    }
    if normal(raw).len() != 0 {
        let i = choose|i: int| 0 <= i < flat.len() && text::is_word_char(#[trigger] flat[i]);
        assert(text::is_word_char(raw[i]));
    }
}

/// Normalising a query and a field first changes no rank, where their normal
/// forms are in lower case.
pub proof fn normalising_first_changes_nothing(query: Seq<char>, field: Seq<char>)
    requires
        is_lower(normal(query)),
        is_lower(normal(field)),
    ensures
        rank(normal(normal(query)), normal(normal(field))) == rank(normal(query), normal(field)),
{
    a_normal_form_is_its_own_normal_form(query);
    a_normal_form_is_its_own_normal_form(field);
}

/// Scoring normal forms gives the score of the texts they are of, where the
/// normal forms are in lower case.
pub proof fn scoring_normal_forms_changes_nothing(
    query: Seq<char>,
    fields: Seq<&str>,
    forms: Seq<&str>,
    a: Option<u32>,
    b: Option<u32>,
)
    requires
        is_lower(normal(query)),
        forms.len() == fields.len(),
        forall|i: int|
            0 <= i < fields.len() ==> is_lower(normal(fields[i]@)) && (#[trigger] forms[i])@
                == normal(fields[i]@),
        is_score(a, query, fields),
        is_score(b, normal(query), forms),
    ensures
        a == b,
{
    a_normal_form_is_its_own_normal_form(query);
    assert forall|i: int| 0 <= i < fields.len() implies #[trigger] field_rank(query, fields, i)
        == field_rank(normal(query), forms, i) by {
        assert(forms[i]@ == normal(fields[i]@));
        normalising_first_changes_nothing(query, fields[i]@);
    }
    lemma_scores_agree(query, fields, normal(query), forms, a, b);
}

/// Queries that rank alike against every field score alike.
proof fn lemma_scores_agree(
    q: Seq<char>,
    fields: Seq<&str>,
    p: Seq<char>,
    forms: Seq<&str>,
    a: Option<u32>,
    b: Option<u32>,
)
    requires
        forms.len() == fields.len(),
        normal(q).len() == 0 <==> normal(p).len() == 0,
        forall|i: int|
            0 <= i < fields.len() ==> #[trigger] field_rank(q, fields, i) == field_rank(
                p,
                forms,
                i,
            ),
        is_score(a, q, fields),
        is_score(b, p, forms),
    ensures
        a == b,
{
    if let Some(m) = a {
        let i = choose|i: int|
            0 <= i < fields.len() && #[trigger] field_rank(q, fields, i) == Some(m as nat);
        assert(field_rank(p, forms, i) == Some(m as nat));
    }
    if let Some(n) = b {
        let i = choose|i: int|
            0 <= i < forms.len() && #[trigger] field_rank(p, forms, i) == Some(n as nat);
        assert(field_rank(q, fields, i) == Some(n as nat));
    }
}

/// One more field never lowers a score, and a field without a word never
/// changes one.
pub proof fn a_further_field_never_lowers_the_score(
    query: Seq<char>,
    fields: Seq<&str>,
    field: &str,
    few: Option<u32>,
    more: Option<u32>,
)
    requires
        is_score(few, query, fields),
        is_score(more, query, fields.push(field)),
    ensures
        few matches Some(m) ==> (more matches Some(n) && m <= n),
        normal(field@).len() == 0 ==> few == more,
{
    let all = fields.push(field);
    assert forall|i: int| 0 <= i < fields.len() implies #[trigger] field_rank(query, all, i)
        == field_rank(query, fields, i) by {}
    assert(field_rank(query, all, fields.len() as int) == rank(normal(query), normal(field@)));
    if let Some(m) = few {
        let i = choose|i: int|
            0 <= i < fields.len() && #[trigger] field_rank(query, fields, i) == Some(m as nat);
        assert(field_rank(query, all, i) == Some(m as nat));
    }
    if let Some(n) = more {
        let i = choose|i: int|
            0 <= i < all.len() && #[trigger] field_rank(query, all, i) == Some(n as nat);
        if i < fields.len() {
            assert(field_rank(query, fields, i) == Some(n as nat));
        }
    }
}

// ---------------------------------------------------------------------
// Word order
// ---------------------------------------------------------------------

/// A text without spaces that stands in another stands in one of its words.
proof fn lemma_held_by_a_fragment(s: Seq<char>, w: Seq<char>, at: int)
    requires
        text::occurs_at(s, w, at),
        w.len() > 0,
        text::free_of(w, set![' ']),
    ensures
        exists|j: int|
            0 <= j < text::split(s, set![' ']).len() && text::has_text(
                #[trigger] text::split(s, set![' '])[j],
                w,
            ),
    decreases s.len(),
{
    let seps = set![' '];
    let f = text::split(s, seps);
    if at + w.len() == s.len() {
        let a = s.take(at);
        assert(a + w =~= s) by {
            assert(s.subrange(at, at + w.len()) == w);
        }
        text::lemma_split_append_free(a, w, seps);
        let g = text::split(a, seps);
        let l = f[f.len() - 1];
        assert(l == g.last() + w);
        assert(l.subrange(g.last().len() as int, l.len() as int) =~= w);
        assert(text::occurs_at(l, w, g.last().len() as int));
        assert(text::has_text(f[f.len() - 1], w));
    } else {
        let before = s.drop_last();
        assert(before.subrange(at, at + w.len()) =~= s.subrange(at, at + w.len()));
        lemma_held_by_a_fragment(before, w, at);
        text::lemma_split_free(before, seps);
        let g = text::split(before, seps);
        let j = choose|j: int| 0 <= j < g.len() && text::has_text(#[trigger] g[j], w);
        let k = choose|k: int| text::occurs_at(g[j], w, k);
        assert(f[j].subrange(k, k + w.len()) =~= g[j].subrange(k, k + w.len()));
        assert(text::occurs_at(f[j], w, k));
        assert(text::has_text(f[j], w));
    }
}

/// Every fragment of a text stands in it.
pub proof fn lemma_fragment_stands(s: Seq<char>, seps: Set<char>, i: int)
    requires
        0 <= i < text::split(s, seps).len(),
    ensures
        text::has_text(s, text::split(s, seps)[i]),
        i == text::split(s, seps).len() - 1 ==> text::has_suffix(s, text::split(s, seps)[i]),
    decreases s.len(),
{
    text::lemma_split_free(s, seps);
    let f = text::split(s, seps);
    if s.len() == 0 {
        assert(s.subrange(0, 0) =~= f[i]);
        assert(text::occurs_at(s, f[i], 0));
    } else {
        let before = s.drop_last();
        text::lemma_split_free(before, seps);
        let g = text::split(before, seps);
        if seps.contains(s.last()) {
            if i < g.len() {
                lemma_fragment_stands(before, seps, i);
                let at = choose|at: int| text::occurs_at(before, g[i], at);
                assert(s.subrange(at, at + g[i].len()) =~= before.subrange(at, at + g[i].len()));
                assert(text::occurs_at(s, f[i], at));
            } else {
                assert(s.subrange(s.len() as int, s.len() as int) =~= f[i]);
                assert(text::occurs_at(s, f[i], s.len() as int));
            }
        } else {
            lemma_fragment_stands(before, seps, i);
            if i < g.len() - 1 {
                let at = choose|at: int| text::occurs_at(before, g[i], at);
                assert(s.subrange(at, at + g[i].len()) =~= before.subrange(at, at + g[i].len()));
                assert(text::occurs_at(s, f[i], at));
            } else {
                let at = before.len() - g[i].len();
                assert(before.subrange(at, before.len() as int) == g[i]);
                assert(s.subrange(at, s.len() as int) =~= g[i].push(s.last()));
                assert(text::occurs_at(s, f[i], at));
            }
        }
    }
}

/// A query that stands in a title has each of its words inside one of the
/// title's.
proof fn lemma_standing_in_is_all_inside(q: Seq<char>, hay: Seq<char>)
    requires
        text::has_text(hay, q),
    ensures
        all_inside(tokens(q), tokens(hay)),
{
    let seps = set![' '];
    let f = text::split(q, seps);
    let h = text::split(hay, seps);
    let t = tokens(q);
    text::lemma_split_free(q, seps);
    lemma_nonempty(f, seps);
    let place = choose|at: int| text::occurs_at(hay, q, at);
    assert forall|i: int| 0 <= i < t.len() implies inside_some(#[trigger] t[i], tokens(hay)) by {
        lemma_nonempty_picks(f, i);
        let k = choose|k: int| 0 <= k < f.len() && f[k] == t[i];
        lemma_fragment_stands(q, seps, k);
        let at = choose|at: int| text::occurs_at(q, t[i], at);
        assert(hay.subrange(place + at, place + at + t[i].len()) =~= hay.subrange(
            place,
            place + q.len(),
        ).subrange(at, at + t[i].len()));
        assert(text::occurs_at(hay, t[i], place + at));
        lemma_held_by_a_fragment(hay, t[i], place + at);
        let j = choose|j: int| 0 <= j < h.len() && text::has_text(#[trigger] h[j], t[i]);
        let x = choose|x: int| text::occurs_at(h[j], t[i], x);
        assert(h[j].len() > 0);
        lemma_nonempty_keeps(h, j);
        let y = choose|y: int| 0 <= y < tokens(hay).len() && tokens(hay)[y] == h[j];
        assert(text::has_text(tokens(hay)[y], t[i]));
    }
}

proof fn lemma_total_without(query: Seq<Seq<char>>, hay: Seq<Seq<char>>, i: int)
    requires
        0 <= i < query.len(),
    ensures
        total_edits(query, hay) == match (total_edits(query.remove(i), hay), edits(query[i], hay)) {
            (Some(t), Some(e)) => Some((t + e) as nat),
            _ => None,
        },
    decreases query.len(),
{
    let last = query.len() - 1;
    if i == last {
        assert(query.remove(i) =~= query.drop_last());
    } else {
        lemma_total_without(query.drop_last(), hay, i);
        assert(query.remove(i).drop_last() =~= query.drop_last().remove(i));
        assert(query.remove(i).last() == query.last());
    }
}

/// The edits of a query do not depend on the order of its words.
proof fn lemma_total_of_the_same_words(
    a: Seq<Seq<char>>,
    b: Seq<Seq<char>>,
    hay: Seq<Seq<char>>,
)
    requires
        a.to_multiset() == b.to_multiset(),
    ensures
        total_edits(a, hay) == total_edits(b, hay),
    decreases a.len(),
{
    broadcast use vstd::seq_lib::group_to_multiset_ensures;

    assert(a.len() == a.to_multiset().len() && b.len() == b.to_multiset().len());
    if a.len() > 0 {
        let x = a.last();
        assert(a.to_multiset().count(x) > 0) by {
            assert(a.contains(x)) by {
                assert(a[a.len() - 1] == x);
            }
        }
        let i = choose|i: int| 0 <= i < b.len() && b[i] == x;
        assert(a.drop_last() =~= a.remove(a.len() - 1));
        assert(a.drop_last().to_multiset() =~= a.to_multiset().remove(x));
        assert(b.remove(i).to_multiset() =~= b.to_multiset().remove(x));
        lemma_total_of_the_same_words(a.drop_last(), b.remove(i), hay);
        lemma_total_without(b, hay, i);
    }
}

proof fn lemma_same_words_inside(a: Seq<Seq<char>>, b: Seq<Seq<char>>, hay: Seq<Seq<char>>)
    requires
        a.to_multiset() == b.to_multiset(),
        all_inside(a, hay),
    ensures
        all_inside(b, hay),
{
    broadcast use vstd::seq_lib::group_to_multiset_ensures;

    assert forall|i: int| 0 <= i < b.len() implies inside_some(#[trigger] b[i], hay) by {
        assert(b.contains(b[i]));
        assert(a.to_multiset().count(b[i]) > 0);
        let k = choose|k: int| 0 <= k < a.len() && a[k] == b[i];
        assert(inside_some(a[k], hay));
    }
}

/// A rank up to the tier where the order of words stops to matter.
pub open spec fn capped(r: Option<nat>) -> Option<nat> {
    match r {
        Some(n) => Some(min2(n, 700)),
        None => None,
    }
}

/// Word order is noise: two queries of the same words rank the same up to
/// the tier of words in any order, so whether a query matches at all does not
/// depend on the order of its words.
pub proof fn word_order_is_noise(q: Seq<char>, p: Seq<char>, hay: Seq<char>)
    requires
        tokens(q).len() > 0,
        tokens(q).to_multiset() == tokens(p).to_multiset(),
    ensures
        capped(rank(q, hay)) == capped(rank(p, hay)),
{
    broadcast use vstd::seq_lib::group_to_multiset_ensures;

    let h = tokens(hay);
    assert(tokens(q).len() == tokens(q).to_multiset().len());
    assert(tokens(p).len() == tokens(p).to_multiset().len());
    tiers_are_ordered(q, hay);
    tiers_are_ordered(p, hay);
    if text::has_text(hay, q) {
        lemma_standing_in_is_all_inside(q, hay);
    }
    if text::has_text(hay, p) {
        lemma_standing_in_is_all_inside(p, hay);
    }
    if all_inside(tokens(q), h) {
        lemma_same_words_inside(tokens(q), tokens(p), h);
    }
    if all_inside(tokens(p), h) {
        lemma_same_words_inside(tokens(p), tokens(q), h);
    }
    lemma_total_of_the_same_words(tokens(q), tokens(p), h);
}

/// The score of a query, up to that tier, is the score of its words in any
/// order.
pub proof fn a_score_does_not_depend_on_word_order(
    q: Seq<char>,
    p: Seq<char>,
    fields: Seq<&str>,
    a: Option<u32>,
    b: Option<u32>,
)
    requires
        words(q).to_multiset() == words(p).to_multiset(),
        is_score(a, q, fields),
        is_score(b, p, fields),
    ensures
        match (a, b) {
            (Some(m), Some(n)) => min2(m as nat, 700) == min2(n as nat, 700),
            (None, None) => true,
            _ => false,
        },
{
    broadcast use vstd::seq_lib::group_to_multiset_ensures;

    a_normal_form_is_words(q);
    a_normal_form_is_words(p);
    lemma_joined_words(words(q));
    lemma_joined_words(words(p));
    assert(words(q).len() == words(q).to_multiset().len());
    assert(words(p).len() == words(p).to_multiset().len());
    if words(q).len() > 0 {
        assert forall|i: int| 0 <= i < fields.len() implies capped(#[trigger] field_rank(q, fields, i))
            == capped(field_rank(p, fields, i)) by {
            word_order_is_noise(normal(q), normal(p), normal(fields[i]@));
        }
        if let Some(m) = a {
            let i = choose|i: int|
                0 <= i < fields.len() && #[trigger] field_rank(q, fields, i) == Some(m as nat);
            assert(capped(field_rank(p, fields, i)) is Some);
        }
        if let Some(n) = b {
            let i = choose|i: int|
                0 <= i < fields.len() && #[trigger] field_rank(p, fields, i) == Some(n as nat);
            assert(capped(field_rank(q, fields, i)) is Some);
        }
    }
}

proof fn lemma_join_holds(w: Seq<Seq<char>>, i: int, j: int)
    requires
        0 <= i < w.len(),
        0 <= j < w[i].len(),
    ensures
        text::join(w, seq![' ']).contains(w[i][j]),
    decreases w.len(),
{
    let s = text::join(w, seq![' ']);
    if w.len() == 1 {
        assert(s[j] == w[i][j]);
    } else {
        let before = w.drop_last();
        let head = text::join(before, seq![' ']);
        if i < before.len() {
            lemma_join_holds(before, i, j);
            let k = choose|k: int| 0 <= k < head.len() && head[k] == before[i][j];
            assert(s[k] == head[k]);
        } else {
            assert(s[head.len() + 1 + j] == w[i][j]);
        }
    }
}

/// Words of a normal form in lower case, written out in any order, are the
/// words of what was written.
proof fn lemma_rewritten_words(q: Seq<char>, w: Seq<Seq<char>>)
    requires
        is_lower(normal(q)),
        forall|i: int| 0 <= i < w.len() ==> words(q).contains(#[trigger] w[i]),
    ensures
        words(text::join(w, seq![' '])) == w,
{
    let n = normal(q);
    let s = text::join(w, seq![' ']);
    a_normal_form_is_words(q);
    lemma_flattened_chars(q);
    lemma_normal_comes_from_the_text(q);
    assert forall|i: int| 0 <= i < w.len() implies (#[trigger] w[i]).len() > 0 && text::free_of(
        w[i],
        word_breaks(),
    ) by {
        assert(words(q).contains(w[i]));
        let k = choose|k: int| 0 <= k < words(q).len() && words(q)[k] == w[i];
        assert(words(q)[k].len() > 0);
    }
    assert forall|i: int, j: int| 0 <= i < w.len() && 0 <= j < w[i].len() implies n.contains(
        #[trigger] w[i][j],
    ) by {
        assert(words(q).contains(w[i]));
        let k = choose|k: int| 0 <= k < words(q).len() && words(q)[k] == w[i];
        lemma_join_holds(words(q), k, j);
    }
    lemma_joined_from(w, n);
    assert forall|i: int| 0 <= i < s.len() implies is_flat(#[trigger] s[i]) by {
        let c = s[i];
        lemma_folding_settles(c);
        if c != ' ' {
            assert(n.contains(c));
            let k = choose|k: int| 0 <= k < n.len() && n[k] == c;
            assert(text::lower_case(n[k]) == seq![n[k]]);
            assert(flattened(q).contains(n[k]));
            let m = choose|m: int| 0 <= m < flattened(q).len() && flattened(q)[m] == c;
            assert(is_folded(flattened(q)[m]));
        } else {
            assert(text::lower_case(c) =~= seq![c]);
        }
        assert(folded(c) == c);
        assert(text::lower_case(c).map_values(|x: char| folded(x)) =~= seq![c]);
    }
    lemma_flattening_the_flat(s);
    lemma_breaking_joined_words(w);
}

/// A query written out of the words of another, in any order, scores as that
/// one does up to the tier of words in any order, where the normal form of
/// that one is in lower case. So whether a query matches at all does not
/// depend on the order of its words.
pub proof fn a_rewritten_query_scores_the_same(
    q: Seq<char>,
    w: Seq<Seq<char>>,
    fields: Seq<&str>,
    a: Option<u32>,
    b: Option<u32>,
)
    requires
        is_lower(normal(q)),
        w.to_multiset() == words(q).to_multiset(),
        is_score(a, q, fields),
        is_score(b, text::join(w, seq![' ']), fields),
    ensures
        match (a, b) {
            (Some(m), Some(n)) => min2(m as nat, 700) == min2(n as nat, 700),
            (None, None) => true,
            _ => false,
        },
{
    broadcast use vstd::seq_lib::group_to_multiset_ensures;

    assert forall|i: int| 0 <= i < w.len() implies words(q).contains(#[trigger] w[i]) by {
        assert(w.contains(w[i]));
        assert(w.to_multiset().count(w[i]) > 0);
    }
    lemma_rewritten_words(q, w);
    a_score_does_not_depend_on_word_order(q, text::join(w, seq![' ']), fields, a, b);
}

} // verus!
