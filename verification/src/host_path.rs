//! Paths on the machine running the service, as text.
//!
//! Components are what lies between separators: repeated separators and `.`
//! components disappear, except a `.` that starts a relative path, and a
//! leading separator is a component of its own, written here as an empty
//! one. The separator is `/`, and on a machine that writes its paths with
//! `\` that one too; there a drive letter is compared without its case, and a
//! share as it is spelled.

use vstd::prelude::*;

use crate::text;
use crate::text::{
    chars_of, copied, extend, less, letter, one_of, same, slice, split_on, to_upper,
};

verus! {

// ---------------------------------------------------------------------
// Model
// ---------------------------------------------------------------------

/// The characters that separate components on this machine.
pub open spec fn host_seps(separator: char) -> Set<char> {
    set!['/', separator]
}

/// The fragments that are components: not empty, and not a `.` unless it
/// comes first.
pub open spec fn kept_parts(fragments: Seq<Seq<char>>) -> Seq<Seq<char>>
    decreases fragments.len(),
{
    if fragments.len() == 0 {
        Seq::empty()
    } else {
        let before = kept_parts(fragments.drop_last());
        let last = fragments.last();
        if last.len() == 0 || (last == seq!['.'] && fragments.len() > 1) {
            before
        } else {
            before.push(last)
        }
    }
}

/// The components of a path; an absolute one starts with an empty
/// component.
pub open spec fn parts(path: Seq<char>, separator: char) -> Seq<Seq<char>> {
    let kept = kept_parts(text::split(path, host_seps(separator)));
    if path.len() > 0 && host_seps(separator).contains(path[0]) {
        seq![Seq::<char>::empty()] + kept
    } else {
        kept
    }
}

/// `C:`, as a component.
pub open spec fn is_drive(part: Seq<char>) -> bool {
    part.len() == 2 && text::is_letter(part[0]) && part[1] == ':'
}

/// What the components of a path are compared by: themselves, but a drive
/// letter in upper case on a machine that has drives.
pub open spec fn places(path: Seq<char>, separator: char) -> Seq<Seq<char>> {
    let p = parts(path, separator);
    if separator == '\\' && p.len() > 0 && is_drive(p[0]) {
        p.update(0, seq![text::upper(p[0][0]), ':'])
    } else {
        p
    }
}

/// Whether the components of `base` are the first components of `path`.
pub open spec fn under(path: Seq<char>, base: Seq<char>, separator: char) -> bool {
    let p = places(path, separator);
    let b = places(base, separator);
    b.len() <= p.len() && p.take(b.len() as int) == b
}

/// A component that names an entry of a directory.
pub open spec fn is_name(part: Seq<char>) -> bool {
    part.len() > 0 && part != seq!['.'] && part != seq!['.', '.']
}

/// The last component, when it names an entry.
pub open spec fn file_name(path: Seq<char>, separator: char) -> Option<Seq<char>> {
    let p = parts(path, separator);
    if p.len() > 0 && is_name(p.last()) {
        Some(p.last())
    } else {
        None
    }
}

/// Whether a path lies in a folder: its last component is not the root.
pub open spec fn has_parent(path: Seq<char>, separator: char) -> bool {
    parts(path, separator).len() > 0 && parts(path, separator).last().len() > 0
}

/// Whether the first `n` characters spell the folder a path lies in.
pub open spec fn spells_parent(path: Seq<char>, separator: char, n: int) -> bool {
    &&& 0 <= n <= path.len()
    &&& parts(path.take(n), separator) == parts(path, separator).drop_last()
}

/// Whether `folder` is the folder a path lies in, as the path spells it: the
/// shortest start of it with all its components but the last. A path that
/// lies in none stands for itself.
pub open spec fn is_parent(folder: Seq<char>, path: Seq<char>, separator: char) -> bool {
    if has_parent(path, separator) {
        exists|n: int|
            {
                &&& #[trigger] spells_parent(path, separator, n)
                &&& folder == path.take(n)
                &&& forall|m: int| #[trigger] spells_parent(path, separator, m) ==> n <= m
            }
    } else {
        folder == path
    }
}

/// Where the last `c` stands in `s`, if it holds one.
pub open spec fn last_index(s: Seq<char>, c: char) -> Option<int>
    decreases s.len(),
{
    if s.len() == 0 {
        None
    } else if s.last() == c {
        Some(s.len() - 1)
    } else {
        last_index(s.drop_last(), c)
    }
}

/// What follows the last dot of a name, unless that dot starts it.
pub open spec fn extension_of(name: Seq<char>) -> Option<Seq<char>> {
    match last_index(name, '.') {
        Some(i) => if i > 0 {
            Some(name.skip(i + 1))
        } else {
            None
        },
        None => None,
    }
}

/// The extension of a path's last component.
pub open spec fn path_extension(path: Seq<char>, separator: char) -> Option<Seq<char>> {
    match file_name(path, separator) {
        Some(name) => extension_of(name),
        None => None,
    }
}

/// `base` with a relative path appended.
pub open spec fn join_path(base: Seq<char>, rest: Seq<char>, separator: char) -> Seq<char> {
    if base.len() == 0 || host_seps(separator).contains(base.last()) {
        base + rest
    } else {
        base.push(separator) + rest
    }
}

/// Order of components: the root, then `.`, then `..`, then names as text.
pub open spec fn part_rank(part: Seq<char>) -> int {
    if part.len() == 0 {
        0
    } else if part == seq!['.'] {
        1
    } else if part == seq!['.', '.'] {
        2
    } else {
        3
    }
}

pub open spec fn part_less(a: Seq<char>, b: Seq<char>) -> bool {
    part_rank(a) < part_rank(b) || (part_rank(a) == 3 && part_rank(b) == 3 && text::text_less(a, b))
}

/// Component order of two paths, the shorter first on a tie.
pub open spec fn parts_less(a: Seq<Seq<char>>, b: Seq<Seq<char>>) -> bool
    decreases a.len(),
{
    if b.len() == 0 {
        false
    } else if a.len() == 0 {
        true
    } else if a[0] == b[0] {
        parts_less(a.drop_first(), b.drop_first())
    } else {
        part_less(a[0], b[0])
    }
}

pub open spec fn path_less(a: Seq<char>, b: Seq<char>, separator: char) -> bool {
    parts_less(places(a, separator), places(b, separator))
}

// ---------------------------------------------------------------------
// Executable
// ---------------------------------------------------------------------

fn seps_of(separator: char) -> (r: Vec<char>)
    ensures
        r@.to_set() == host_seps(separator),
{
    let mut seps: Vec<char> = Vec::new();
    seps.push('/');
    seps.push(separator);
    assert(seps@.to_set() =~= host_seps(separator)) by {
        assert(seps@[0] == '/' && seps@[1] == separator);
    }
    seps
}

/// The components of a path.
pub fn components(path: &[char], separator: char) -> (r: Vec<Vec<char>>)
    ensures
        text::chars_views(r@) == parts(path@, separator),
{
    let seps = seps_of(separator);
    let fragments = split_on(path, &seps);
    let ghost all = text::chars_views(fragments@);
    let mut out: Vec<Vec<char>> = Vec::new();
    let mut i: usize = 0;
    while i < fragments.len()
        invariant
            i <= fragments.len(),
            all == text::chars_views(fragments@),
            text::chars_views(out@) == kept_parts(all.take(i as int)),
        decreases fragments.len() - i,
    {
        let ghost before = text::chars_views(out@);
        assert(all.take(i + 1).drop_last() == all.take(i as int));
        let f = &fragments[i];
        let n: usize = f.len();
        assert(f@ == all[i as int]);
        let dot = n == 1 && f[0] == '.';
        assert(dot == (f@ == seq!['.'])) by {
            if dot {
                assert(f@ =~= seq!['.']);
            }
        }
        if n != 0 && !(dot && i > 0) {
            out.push(copied(f));
            assert(text::chars_views(out@) =~= before.push(f@));
        }
        i += 1;
    }
    assert(all.take(fragments.len() as int) == all);
    if path.len() > 0 && one_of(path[0], &seps) {
        assert(host_seps(separator).contains(path@[0]));
        let ghost kept = text::chars_views(out@);
        let mut whole: Vec<Vec<char>> = Vec::new();
        whole.push(Vec::new());
        let mut j: usize = 0;
        while j < out.len()
            invariant
                j <= out.len(),
                kept == text::chars_views(out@),
                text::chars_views(whole@) == seq![Seq::<char>::empty()] + kept.take(j as int),
            decreases out.len() - j,
        {
            let ghost before = text::chars_views(whole@);
            assert(kept.take(j + 1) =~= kept.take(j as int).push(kept[j as int]));
            whole.push(copied(&out[j]));
            assert(text::chars_views(whole@) =~= before.push(kept[j as int]));
            j += 1;
        }
        assert(kept.take(out.len() as int) =~= kept);
        return whole;
    }
    assert(path@.len() > 0 ==> !host_seps(separator).contains(path@[0]));
    out
}

/// What the components of a path are compared by.
pub fn places_of(path: &[char], separator: char) -> (r: Vec<Vec<char>>)
    ensures
        text::chars_views(r@) == places(path@, separator),
{
    let mut p = components(path, separator);
    let ghost all = text::chars_views(p@);
    assert(all.len() == p.len());
    if p.len() > 0 {
        assert(all[0] == p@[0]@);
        if separator == '\\' && p[0].len() == 2 && letter(p[0][0]) && p[0][1] == ':' {
            let mut drive: Vec<char> = Vec::new();
            drive.push(to_upper(p[0][0]));
            drive.push(':');
            assert(drive@ =~= seq![text::upper(all[0][0]), ':']);
            p.set(0, drive);
            assert(text::chars_views(p@) =~= all.update(0, drive@));
        }
    }
    p
}

fn leads(path: &[Vec<char>], base: &[Vec<char>]) -> (r: bool)
    ensures
        r == (base.len() <= path.len() && text::chars_views(path@).take(base.len() as int)
            == text::chars_views(base@)),
{
    if base.len() > path.len() {
        return false;
    }
    let ghost p = text::chars_views(path@);
    let ghost b = text::chars_views(base@);
    let mut i: usize = 0;
    while i < base.len()
        invariant
            i <= base.len() <= path.len(),
            p == text::chars_views(path@),
            b == text::chars_views(base@),
            forall|j: int| 0 <= j < i ==> p[j] == b[j],
        decreases base.len() - i,
    {
        if !same(&path[i], &base[i]) {
            assert(p.take(base.len() as int)[i as int] != b[i as int]);
            return false;
        }
        assert(p[i as int] == b[i as int]);
        i += 1;
    }
    assert(p.take(base.len() as int) =~= b);
    true
}

/// Whether two lists of components are the same.
pub fn same_parts(a: &[Vec<char>], b: &[Vec<char>]) -> (r: bool)
    ensures
        r == (text::chars_views(a@) == text::chars_views(b@)),
{
    assert(text::chars_views(a@).len() == a.len());
    assert(text::chars_views(b@).len() == b.len());
    if a.len() != b.len() {
        return false;
    }
    assert(text::chars_views(a@).take(b.len() as int) =~= text::chars_views(a@));
    leads(a, b)
}

/// Whether `path` sits under `base`, component by component, on a machine
/// with this separator.
pub fn is_under_on(path: &str, base: &str, separator: char) -> (r: bool)
    ensures
        r == under(path@, base@, separator),
{
    let p = places_of(&chars_of(path), separator);
    let b = places_of(&chars_of(base), separator);
    leads(&p, &b)
}

/// The components of `path` below `base`, when it sits there.
pub fn below(path: &str, base: &str, separator: char) -> (r: Option<Vec<Vec<char>>>)
    ensures
        match r {
            Some(rest) => under(path@, base@, separator) && text::chars_views(rest@) == parts(
                path@,
                separator,
            ).skip(parts(base@, separator).len() as int),
            None => !under(path@, base@, separator),
        },
{
    if !is_under_on(path, base, separator) {
        return None;
    }
    let p = components(&chars_of(path), separator);
    let b = components(&chars_of(base), separator);
    assert(parts(path@, separator).len() == p.len());
    assert(parts(base@, separator).len() == b.len());
    let ghost all = text::chars_views(p@);
    let mut rest: Vec<Vec<char>> = Vec::new();
    let mut i: usize = b.len();
    while i < p.len()
        invariant
            b.len() <= i <= p.len(),
            all == text::chars_views(p@),
            text::chars_views(rest@) == all.subrange(b.len() as int, i as int),
        decreases p.len() - i,
    {
        let ghost before = text::chars_views(rest@);
        assert(all.subrange(b.len() as int, i + 1) =~= before.push(all[i as int]));
        rest.push(copied(&p[i]));
        assert(text::chars_views(rest@) =~= before.push(all[i as int]));
        i += 1;
    }
    assert(all.subrange(b.len() as int, p.len() as int) =~= all.skip(b.len() as int));
    Some(rest)
}

/// Whether a component names an entry of a directory.
pub fn names_entry(part: &[char]) -> (r: bool)
    ensures
        r == is_name(part@),
{
    let n: usize = part.len();
    let dot = n == 1 && part[0] == '.';
    let dots = n == 2 && part[0] == '.' && part[1] == '.';
    assert(dot ==> part@ =~= seq!['.']);
    assert(dots ==> part@ =~= seq!['.', '.']);
    n > 0 && !dot && !dots
}

/// The last component of a path, when it names an entry.
pub fn file_name_of(path: &str, separator: char) -> (r: Option<Vec<char>>)
    ensures
        match r {
            Some(name) => file_name(path@, separator) == Some(name@),
            None => file_name(path@, separator) is None,
        },
{
    let p = components(&chars_of(path), separator);
    let ghost all = text::chars_views(p@);
    let n: usize = p.len();
    if n == 0 {
        return None;
    }
    assert(all.last() == p@[n - 1]@);
    if names_entry(&p[n - 1]) {
        Some(copied(&p[n - 1]))
    } else {
        None
    }
}

/// The folder a path lies in, as the path spells it.
pub fn parent_text(path: &[char], separator: char) -> (r: Vec<char>)
    ensures
        is_parent(r@, path@, separator),
{
    let mut above = components(path, separator);
    let ghost all = text::chars_views(above@);
    let k: usize = above.len();
    assert(all.len() == k);
    if k == 0 {
        return copied(path);
    }
    assert(all.last() == above@[k - 1]@);
    if above[k - 1].len() == 0 {
        return copied(path);
    }
    above.pop();
    assert(text::chars_views(above@) =~= all.drop_last());
    let mut n: usize = 0;
    while n < path.len()
        invariant
            n <= path.len(),
            has_parent(path@, separator),
            all == parts(path@, separator),
            text::chars_views(above@) == all.drop_last(),
            forall|m: int| 0 <= m < n ==> !#[trigger] spells_parent(path@, separator, m),
        decreases path.len() - n,
    {
        let head = slice(path, 0, n);
        assert(head@ =~= path@.take(n as int));
        if same_parts(&components(&head, separator), &above) {
            assert(spells_parent(path@, separator, n as int));
            return head;
        }
        n += 1;
    }
    proof {
        lemma_parent_is_spelled(path@, separator);
        let m = choose|m: int| #[trigger] spells_parent(path@, separator, m);
        assert(m == path.len());
        assert(path@.take(m) =~= path@);
        assert(all.len() == all.drop_last().len());
    }
    copied(path)
}

proof fn lemma_split_last(s: Seq<char>, seps: Set<char>)
    ensures
        text::split(s, seps).len() >= 1,
        s.len() == 0 ==> text::split(s, seps) == seq![Seq::<char>::empty()],
        s.len() > 0 && seps.contains(s.last()) ==> text::split(s, seps) == text::split(
            s.drop_last(),
            seps,
        ).push(Seq::empty()),
        s.len() > 0 && !seps.contains(s.last()) ==> text::split(s, seps) == text::split(
            s.drop_last(),
            seps,
        ).drop_last().push(text::split(s.drop_last(), seps).last().push(s.last())),
    decreases s.len(),
{
    if s.len() > 0 {
        lemma_split_last(s.drop_last(), seps);
        let before = text::split(s.drop_last(), seps);
        if !seps.contains(s.last()) {
            assert(before.update(before.len() - 1, before.last().push(s.last()))
                =~= before.drop_last().push(before.last().push(s.last())));
        }
    }
}

/// The folder a path lies in is a start of its text.
proof fn lemma_parent_is_spelled(path: Seq<char>, separator: char)
    requires
        has_parent(path, separator),
    ensures
        exists|n: int| #[trigger] spells_parent(path, separator, n),
    decreases path.len(),
{
    let seps = host_seps(separator);
    let all = parts(path, separator);
    if path.len() == 0 {
        lemma_split_last(path, seps);
        let none = seq![Seq::<char>::empty()];
        assert(none.drop_last() =~= Seq::<Seq<char>>::empty());
        assert(kept_parts(none.drop_last()) =~= Seq::<Seq<char>>::empty());
        assert(kept_parts(none) == kept_parts(none.drop_last()));
        assert(false);
    }
    let shorter = path.drop_last();
    assert(path.take(shorter.len() as int) =~= shorter);
    lemma_split_last(path, seps);
    lemma_split_last(shorter, seps);
    let f = text::split(path, seps);
    let g = text::split(shorter, seps);
    let head = kept_parts(g.drop_last());
    let near = parts(shorter, separator);
    if shorter.len() == 0 {
        assert(g =~= seq![Seq::<char>::empty()]);
        assert(g.drop_last() =~= Seq::empty());
        if seps.contains(path.last()) {
            assert(f.drop_last() =~= g);
            assert(kept_parts(f) =~= Seq::empty());
            assert(all =~= seq![Seq::<char>::empty()]);
            assert(false);
        }
        assert(f =~= seq![seq![path.last()]]);
        assert(f.drop_last() =~= Seq::empty());
        assert(kept_parts(f) =~= f);
        assert(near =~= Seq::empty());
        assert(all.drop_last() =~= Seq::empty());
        assert(spells_parent(path, separator, 0));
    } else {
        assert(path[0] == shorter[0]);
        if seps.contains(path.last()) {
            assert(f.drop_last() =~= g);
            assert(all == near);
        } else {
            assert(f.drop_last() =~= g.drop_last());
            let l = f.last();
            assert(l.drop_last() =~= g.last());
            if l == seq!['.'] && f.len() > 1 {
                assert(g.last().len() == 0);
                assert(all == near);
            } else {
                assert(kept_parts(f) == head.push(l));
                if g.last().len() == 0 || (g.last() == seq!['.'] && g.len() > 1) {
                    assert(kept_parts(g) == head);
                    assert(all.drop_last() =~= near);
                    assert(spells_parent(path, separator, shorter.len() as int));
                } else {
                    assert(kept_parts(g) == head.push(g.last()));
                    assert(all.drop_last() =~= near.drop_last());
                    assert(near.last() == g.last());
                }
            }
        }
        if !spells_parent(path, separator, shorter.len() as int) {
            assert(near.drop_last() =~= all.drop_last());
            lemma_parent_is_spelled(shorter, separator);
            let n = choose|n: int| #[trigger] spells_parent(shorter, separator, n);
            assert(path.take(n) =~= shorter.take(n));
            assert(spells_parent(path, separator, n));
        }
    }
}

/// Where the last `c` stands.
pub fn last_index_of(s: &[char], c: char) -> (r: Option<usize>)
    ensures
        match r {
            Some(i) => last_index(s@, c) == Some(i as int) && i < s.len() && s@[i as int] == c,
            None => last_index(s@, c) is None,
        },
{
    let mut i: usize = s.len();
    assert(s@.take(i as int) == s@);
    while i > 0
        invariant
            i <= s.len(),
            last_index(s@, c) == last_index(s@.take(i as int), c),
        decreases i,
    {
        assert(s@.take(i as int).drop_last() == s@.take(i - 1));
        assert(s@.take(i as int).last() == s@[i - 1]);
        if s[i - 1] == c {
            return Some(i - 1);
        }
        i -= 1;
    }
    None
}

/// The extension of a name.
pub fn extension(name: &[char]) -> (r: Option<Vec<char>>)
    ensures
        match r {
            Some(e) => extension_of(name@) == Some(e@),
            None => extension_of(name@) is None,
        },
{
    match last_index_of(name, '.') {
        Some(i) => if i > 0 {
            let e = slice(name, i + 1, name.len());
            assert(e@ =~= name@.skip(i + 1));
            Some(e)
        } else {
            None
        },
        None => None,
    }
}

/// The extension of a path's last component.
pub fn extension_at(path: &str, separator: char) -> (r: Option<Vec<char>>)
    ensures
        match r {
            Some(e) => path_extension(path@, separator) == Some(e@),
            None => path_extension(path@, separator) is None,
        },
{
    match file_name_of(path, separator) {
        Some(name) => extension(&name),
        None => None,
    }
}

/// `base` with a relative path appended.
pub fn join_onto(base: &[char], rest: &[char], separator: char) -> (r: Vec<char>)
    ensures
        r@ == join_path(base@, rest@, separator),
{
    let mut out = copied(base);
    let n: usize = base.len();
    if n > 0 && base[n - 1] != '/' && base[n - 1] != separator {
        out.push(separator);
    }
    extend(&mut out, rest);
    out
}

fn rank(part: &[char]) -> (r: u8)
    ensures
        r == part_rank(part@),
{
    let n: usize = part.len();
    let dot = n == 1 && part[0] == '.';
    let dots = n == 2 && part[0] == '.' && part[1] == '.';
    assert(dot ==> part@ =~= seq!['.']);
    assert(dots ==> part@ =~= seq!['.', '.']);
    if n == 0 {
        0
    } else if dot {
        1
    } else if dots {
        2
    } else {
        3
    }
}

/// Component order of two lists of components.
pub fn parts_before(x: &[Vec<char>], y: &[Vec<char>]) -> (r: bool)
    ensures
        r == parts_less(text::chars_views(x@), text::chars_views(y@)),
{
    let ghost p = text::chars_views(x@);
    let ghost q = text::chars_views(y@);
    let mut i: usize = 0;
    assert(p.skip(0) =~= p);
    assert(q.skip(0) =~= q);
    while i < x.len() && i < y.len()
        invariant
            i <= x.len(),
            i <= y.len(),
            p == text::chars_views(x@),
            q == text::chars_views(y@),
            parts_less(p, q) == parts_less(p.skip(i as int), q.skip(i as int)),
        decreases x.len() - i,
    {
        assert(p.skip(i as int)[0] == x@[i as int]@);
        assert(q.skip(i as int)[0] == y@[i as int]@);
        if !same(&x[i], &y[i]) {
            let ra: u8 = rank(&x[i]);
            let rb: u8 = rank(&y[i]);
            return ra < rb || (ra == 3 && rb == 3 && less(&x[i], &y[i]));
        }
        assert(p.skip(i as int).drop_first() =~= p.skip(i + 1));
        assert(q.skip(i as int).drop_first() =~= q.skip(i + 1));
        i += 1;
    }
    i < y.len()
}

pub proof fn lemma_part_less(a: Seq<char>, b: Seq<char>, c: Seq<char>)
    ensures
        !part_less(a, a),
        part_less(a, b) || a == b || part_less(b, a),
        part_less(a, b) && part_less(b, c) ==> part_less(a, c),
{
    text::lemma_text_less_irreflexive(a);
    text::lemma_text_less_total(a, b);
    if part_less(a, b) && part_less(b, c) && text::text_less(a, b) && text::text_less(b, c) {
        text::lemma_text_less_transitive(a, b, c);
    }
    if a.len() == 0 && b.len() == 0 {
        assert(a =~= b);
    }
}

/// Component order is a total order.
pub proof fn lemma_parts_less(a: Seq<Seq<char>>, b: Seq<Seq<char>>, c: Seq<Seq<char>>)
    ensures
        !parts_less(a, a),
        parts_less(a, b) || a == b || parts_less(b, a),
        parts_less(a, b) && parts_less(b, c) ==> parts_less(a, c),
    decreases a.len() + b.len() + c.len(),
{
    let ta = if a.len() > 0 { a.drop_first() } else { a };
    let tb = if b.len() > 0 { b.drop_first() } else { b };
    let tc = if c.len() > 0 { c.drop_first() } else { c };
    if a.len() > 0 {
        lemma_part_less(a[0], if b.len() > 0 { b[0] } else { a[0] }, if c.len() > 0 { c[0] } else { a[0] });
    }
    if a.len() > 0 || b.len() > 0 || c.len() > 0 {
        lemma_parts_less(ta, tb, tc);
    }
    if a.len() == 0 && b.len() == 0 {
        assert(a =~= b);
    }
    if a.len() > 0 && b.len() > 0 && a[0] == b[0] && ta == tb {
        assert(a =~= seq![a[0]] + ta);
        assert(b =~= seq![b[0]] + tb);
    }
}

/// Whether a component is one on every machine: it names an entry, and no
/// separator or drive is in it.
pub open spec fn is_plain(name: Seq<char>) -> bool {
    &&& is_name(name)
    &&& text::free_of(name, set!['/', '\\', ':'])
}

proof fn lemma_kept_push(fragments: Seq<Seq<char>>, name: Seq<char>)
    requires
        is_name(name),
    ensures
        kept_parts(fragments.push(name)) == kept_parts(fragments).push(name),
        kept_parts(fragments.push(Seq::empty())) == kept_parts(fragments),
{
    assert(fragments.push(name).drop_last() =~= fragments);
    assert(fragments.push(Seq::empty()).drop_last() =~= fragments);
}

proof fn lemma_kept_are_fragments(fragments: Seq<Seq<char>>, seps: Set<char>)
    requires
        forall|i: int| 0 <= i < fragments.len() ==> text::free_of(#[trigger] fragments[i], seps),
    ensures
        forall|i: int|
            0 <= i < kept_parts(fragments).len() ==> text::free_of(
                #[trigger] kept_parts(fragments)[i],
                seps,
            ),
    decreases fragments.len(),
{
    if fragments.len() > 0 {
        lemma_kept_are_fragments(fragments.drop_last(), seps);
        let before = kept_parts(fragments.drop_last());
        assert(text::free_of(fragments[fragments.len() - 1], seps));
        assert forall|i: int| 0 <= i < kept_parts(fragments).len() implies text::free_of(
            #[trigger] kept_parts(fragments)[i],
            seps,
        ) by {
            if i < before.len() {
                assert(text::free_of(before[i], seps));
            }
        }
    }
}

/// No component holds a separator.
pub proof fn lemma_parts_are_free(path: Seq<char>, separator: char)
    ensures
        forall|i: int|
            0 <= i < parts(path, separator).len() ==> text::free_of(
                #[trigger] parts(path, separator)[i],
                host_seps(separator),
            ),
{
    let seps = host_seps(separator);
    text::lemma_split_free(path, seps);
    let kept = kept_parts(text::split(path, seps));
    lemma_kept_are_fragments(text::split(path, seps), seps);
    let p = parts(path, separator);
    assert forall|i: int| 0 <= i < p.len() implies text::free_of(#[trigger] p[i], seps) by {
        if p.len() > kept.len() && i > 0 {
            assert(p[i] == kept[i - 1]);
        } else if p.len() == kept.len() {
            assert(p[i] == kept[i]);
        }
    }
}

/// Appending a component makes a path longer by one component at most.
pub proof fn lemma_joined_length(base: Seq<char>, name: Seq<char>, separator: char)
    requires
        text::free_of(name, host_seps(separator)),
    ensures
        parts(join_path(base, name, separator), separator).len() <= parts(base, separator).len()
            + 1,
{
    let seps = host_seps(separator);
    let whole = join_path(base, name, separator);
    let stem = if base.len() == 0 || seps.contains(base.last()) {
        base
    } else {
        base.push(separator)
    };
    assert(whole =~= stem + name);
    lemma_split_last(base, seps);
    lemma_split_last(stem, seps);
    text::lemma_split_append_free(stem, name, seps);
    let f = text::split(stem, seps);
    let g = text::split(whole, seps);
    assert(f.last().len() == 0);
    assert(g =~= f.drop_last().push(f.last() + name));
    assert(g.drop_last() =~= f.drop_last());
    if stem != base {
        assert(stem.drop_last() =~= base);
        assert(f.drop_last() =~= text::split(base, seps));
    }
    assert(kept_parts(f.drop_last()) == kept_parts(text::split(base, seps)));
    if base.len() == 0 {
        assert(whole =~= name);
    } else {
        assert(whole[0] == base[0]);
    }
}

/// Appending a name without a separator adds it as the last component.
pub proof fn lemma_joined_name(base: Seq<char>, name: Seq<char>, separator: char)
    requires
        is_name(name),
        text::free_of(name, host_seps(separator)),
    ensures
        parts(join_path(base, name, separator), separator) == parts(base, separator).push(name),
        file_name(join_path(base, name, separator), separator) == Some(name),
{
    let seps = host_seps(separator);
    let whole = join_path(base, name, separator);
    let stem = if base.len() == 0 || seps.contains(base.last()) {
        base
    } else {
        base.push(separator)
    };
    assert(whole =~= stem + name);
    lemma_split_last(base, seps);
    lemma_split_last(stem, seps);
    text::lemma_split_append_free(stem, name, seps);
    let f = text::split(stem, seps);
    assert(f.last().len() == 0);
    assert(f =~= f.drop_last().push(Seq::empty()));
    assert(f.last() + name =~= name);
    assert(f.update(f.len() - 1, name) =~= f.drop_last().push(name));
    lemma_kept_push(f.drop_last(), name);
    assert(kept_parts(f) == kept_parts(f.drop_last()));
    if stem != base {
        assert(stem.drop_last() =~= base);
        assert(f.drop_last() =~= text::split(base, seps));
        assert(kept_parts(text::split(base, seps)) == kept_parts(f.drop_last()));
    }
    assert(kept_parts(text::split(base, seps)) == kept_parts(f));
    if base.len() == 0 {
        assert(!seps.contains(name[0]));
        assert(whole =~= name);
        assert(f =~= seq![Seq::<char>::empty()]);
        assert(f.drop_last() =~= Seq::empty());
        assert(parts(base, separator) =~= Seq::empty());
    } else {
        assert(whole[0] == base[0]);
    }
    assert(parts(whole, separator) =~= parts(base, separator).push(name));
}

/// Appending a plain name to a path adds it as the last component, and the
/// path stays under every folder it was under.
pub proof fn a_joined_name_is_the_last_component(
    base: Seq<char>,
    name: Seq<char>,
    separator: char,
)
    requires
        separator == '/' || separator == '\\',
        is_plain(name),
    ensures
        parts(join_path(base, name, separator), separator) == parts(base, separator).push(name),
        places(join_path(base, name, separator), separator) == places(base, separator).push(name),
        file_name(join_path(base, name, separator), separator) == Some(name),
        forall|root: Seq<char>| #[trigger]
            under(base, root, separator) ==> under(
                join_path(base, name, separator),
                root,
                separator,
            ),
{
    let seps = host_seps(separator);
    let whole = join_path(base, name, separator);
    assert forall|i: int| 0 <= i < name.len() implies !seps.contains(#[trigger] name[i]) by {
        assert(!set!['/', '\\', ':'].contains(name[i]));
    }
    lemma_joined_name(base, name, separator);
    assert(!is_drive(name)) by {
        if name.len() == 2 {
            assert(!set!['/', '\\', ':'].contains(name[1]));
        }
    }
    assert(places(whole, separator) =~= places(base, separator).push(name));
    assert forall|root: Seq<char>| #[trigger] under(base, root, separator) implies under(
        whole,
        root,
        separator,
    ) by {
        let b = places(root, separator);
        let p = places(base, separator);
        assert(p.push(name).take(b.len() as int) =~= p.take(b.len() as int));
    }
}

/// A path sits under itself.
pub proof fn a_path_is_under_itself(path: Seq<char>, separator: char)
    ensures
        under(path, path, separator),
{
    let p = places(path, separator);
    assert(p.take(p.len() as int) =~= p);
}

} // verus!
