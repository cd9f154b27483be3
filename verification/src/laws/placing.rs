//! How paths of this machine are taken apart.

use vstd::prelude::*;

use crate::db::root_folders;
use crate::host_path;
use crate::laws::pathing;
use crate::text;

verus! {

/// Whether a text can be a name in a Unix path.
pub open spec fn is_unix_name(name: Seq<char>) -> bool {
    &&& name.len() > 0
    &&& name != seq!['.']
    &&& name != seq!['.', '.']
    &&& forall|i: int| 0 <= i < name.len() ==> #[trigger] name[i] != '/'
}

proof fn lemma_unix_name(name: Seq<char>)
    requires
        is_unix_name(name),
    ensures
        host_path::is_name(name),
        text::free_of(name, host_path::host_seps('/')),
{
}

/// A Unix path has the names it spells out, behind the empty name of its top.
pub proof fn a_path_has_its_names(names: Seq<Seq<char>>)
    requires
        names.len() > 0,
        forall|i: int| 0 <= i < names.len() ==> is_unix_name(#[trigger] names[i]),
    ensures
        host_path::parts(pathing::spelled_out(names, '/'), '/') == seq![Seq::<char>::empty()]
            + names,
        host_path::file_name(pathing::spelled_out(names, '/'), '/') == Some(names.last()),
    decreases names.len(),
{
    let whole = pathing::spelled_out(names, '/');
    let name = names[names.len() - 1];
    lemma_unix_name(name);
    let before = names.drop_last();
    let base = pathing::spelled_out(before, '/');
    if before.len() == 0 {
        let top = seq!['/'];
        assert(base =~= Seq::empty());
        assert(whole =~= host_path::join_path(top, name, '/'));
        host_path::lemma_joined_name(top, name, '/');
        lemma_top();
        assert(names =~= seq![name]);
        assert(seq![Seq::<char>::empty()].push(name) =~= seq![Seq::<char>::empty()] + names);
    } else {
        assert forall|i: int| 0 <= i < before.len() implies is_unix_name(#[trigger] before[i]) by {
            assert(before[i] == names[i]);
        }
        a_path_has_its_names(before);
        let last = before[before.len() - 1];
        assert(is_unix_name(last));
        assert(base.last() == last[last.len() - 1]);
        assert(whole =~= host_path::join_path(base, name, '/'));
        host_path::lemma_joined_name(base, name, '/');
        assert((seq![Seq::<char>::empty()] + before).push(name) =~= seq![Seq::<char>::empty()]
            + names);
    }
}

proof fn lemma_top()
    ensures
        host_path::parts(seq!['/'], '/') == seq![Seq::<char>::empty()],
{
    let none = Seq::<char>::empty();
    let seps = host_path::host_seps('/');
    reveal_with_fuel(text::split, 2);
    reveal_with_fuel(host_path::kept_parts, 3);
    assert(seq!['/'].drop_last() =~= none);
    let f = text::split(seq!['/'], seps);
    assert(f =~= seq![none, none]);
    assert(f.drop_last() =~= seq![none]);
    assert(f.drop_last().drop_last() =~= Seq::<Seq<char>>::empty());
    assert(host_path::kept_parts(f) =~= Seq::empty());
    assert(host_path::parts(seq!['/'], '/') =~= seq![none]);
}

/// A path lies under a folder exactly where the folder's names stand at its
/// start: `/data` holds `/data/x`, and not `/database/x`.
pub proof fn a_path_lies_under_what_it_starts_with(
    path: Seq<Seq<char>>,
    base: Seq<Seq<char>>,
)
    requires
        path.len() > 0,
        base.len() > 0,
        forall|i: int| 0 <= i < path.len() ==> is_unix_name(#[trigger] path[i]),
        forall|i: int| 0 <= i < base.len() ==> is_unix_name(#[trigger] base[i]),
    ensures
        host_path::under(
            pathing::spelled_out(path, '/'),
            pathing::spelled_out(base, '/'),
            '/',
        ) <==> base.len() <= path.len() && path.take(base.len() as int) == base,
{
    a_path_has_its_names(path);
    a_path_has_its_names(base);
    let top = seq![Seq::<char>::empty()];
    let n = base.len() as int;
    if base.len() <= path.len() {
        assert((top + path).take(n + 1) =~= top + path.take(n));
        if top + path.take(n) == top + base {
            assert((top + path.take(n)).skip(1) =~= path.take(n));
            assert((top + base).skip(1) =~= base);
        }
    }
}

/// What a name ends in behind its last dot is its extension, unless the dot
/// starts the name.
pub proof fn an_extension_stands_behind_the_last_dot(stem: Seq<char>, extension: Seq<char>)
    requires
        !extension.contains('.'),
    ensures
        stem.len() > 0 ==> host_path::extension_of(stem + seq!['.'] + extension) == Some(extension),
        stem.len() == 0 ==> host_path::extension_of(stem + seq!['.'] + extension) is None,
        host_path::extension_of(extension) is None,
{
    crate::import::lemma_last_dot(stem, extension);
    assert((stem + seq!['.'] + extension).skip(stem.len() as int + 1) =~= extension);
    lemma_no_dot(extension);
}

proof fn lemma_no_dot(s: Seq<char>)
    requires
        !s.contains('.'),
    ensures
        host_path::last_index(s, '.') is None,
    decreases s.len(),
{
    if s.len() > 0 {
        assert(s.contains(s[s.len() - 1]));
        assert forall|i: int| 0 <= i < s.drop_last().len() implies s.drop_last()[i] != '.' by {
            assert(s.contains(s[i]));
        }
        lemma_no_dot(s.drop_last());
    }
}

/// The folder of a file is its path without the name.
pub proof fn a_file_lies_in_the_path_before_its_name(
    folder: Seq<char>,
    names: Seq<Seq<char>>,
    name: Seq<char>,
)
    requires
        names.len() > 0,
        forall|i: int| 0 <= i < names.len() ==> is_unix_name(#[trigger] names[i]),
        is_unix_name(name),
        host_path::is_parent(folder, pathing::spelled_out(names.push(name), '/'), '/'),
    ensures
        host_path::parts(folder, '/') == seq![Seq::<char>::empty()] + names,
{
    let all = names.push(name);
    assert forall|i: int| 0 <= i < all.len() implies is_unix_name(#[trigger] all[i]) by {
        if i < names.len() {
            assert(all[i] == names[i]);
        }
    }
    a_path_has_its_names(all);
    let path = pathing::spelled_out(all, '/');
    let p = host_path::parts(path, '/');
    let top = seq![Seq::<char>::empty()];
    assert(p == top + all);
    assert(p.last() == name);
    assert(p.drop_last() =~= top + names);
    let n = choose|n: int|
        {
            &&& #[trigger] host_path::spells_parent(path, '/', n)
            &&& folder == path.take(n)
            &&& forall|m: int| #[trigger] host_path::spells_parent(path, '/', m) ==> n <= m
        };
    assert(host_path::spells_parent(path, '/', n));
}

/// On a Windows machine a drive is the same in either letter case.
pub proof fn a_drive_has_no_case(letter: char, rest: Seq<Seq<char>>)
    requires
        97 <= letter as int <= 122,
    ensures
        ({
            let small = seq![letter, ':'];
            let large = seq![(letter as int - 32) as char, ':'];
            host_path::is_drive(small) && host_path::is_drive(large) && text::upper(small[0])
                == text::upper(large[0])
        }),
{
}

/// Paths are ordered by the first name they differ in, and a folder comes
/// before what it holds.
pub proof fn the_first_name_orders(
    start: Seq<Seq<char>>,
    a: Seq<char>,
    b: Seq<char>,
    rest: Seq<Seq<char>>,
    other: Seq<Seq<char>>,
)
    requires
        is_unix_name(a),
        is_unix_name(b),
    ensures
        a != b ==> (host_path::parts_less(start.push(a) + rest, start.push(b) + other)
            <==> text::text_less(a, b)),
        host_path::parts_less(start, start.push(a) + rest),
        !host_path::parts_less(start.push(a) + rest, start),
    decreases start.len(),
{
    let x = start.push(a) + rest;
    let y = start.push(b) + other;
    if start.len() == 0 {
        assert(x[0] == a && y[0] == b);
    } else {
        let s = start.drop_first();
        assert(x[0] == start[0] && y[0] == start[0]);
        assert(x.drop_first() =~= s.push(a) + rest);
        assert(y.drop_first() =~= s.push(b) + other);
        the_first_name_orders(s, a, b, rest, other);
    }
}

/// A slash behind a path changes none of its names.
pub proof fn a_slash_behind_changes_no_name(path: Seq<char>, separator: char)
    requires
        path.len() > 0,
    ensures
        host_path::parts(path.push('/'), separator) == host_path::parts(path, separator),
{
    let seps = host_path::host_seps(separator);
    let longer = path.push('/');
    assert(longer.drop_last() =~= path);
    let f = text::split(path, seps);
    assert(text::split(longer, seps) == f.push(Seq::<char>::empty()));
    assert(f.push(Seq::<char>::empty()).drop_last() =~= f);
    assert(longer[0] == path[0]);
}

/// Two Unix paths are one place exactly where they have the same names.
pub proof fn one_place_has_one_list_of_names(a: Seq<Seq<char>>, b: Seq<Seq<char>>)
    requires
        a.len() > 0,
        b.len() > 0,
        forall|i: int| 0 <= i < a.len() ==> is_unix_name(#[trigger] a[i]),
        forall|i: int| 0 <= i < b.len() ==> is_unix_name(#[trigger] b[i]),
    ensures
        root_folders::same_place(
            pathing::spelled_out(a, '/'),
            pathing::spelled_out(b, '/'),
            '/',
        ) <==> a == b,
        root_folders::same_place(
            pathing::spelled_out(a, '/'),
            pathing::spelled_out(a, '/').push('/'),
            '/',
        ),
{
    a_path_has_its_names(a);
    a_path_has_its_names(b);
    let top = seq![Seq::<char>::empty()];
    assert((top + a).skip(1) =~= a);
    assert((top + b).skip(1) =~= b);
    let whole = pathing::spelled_out(a, '/');
    assert(whole.len() > 0);
    a_slash_behind_changes_no_name(whole, '/');
}

/// A single dot between slashes names nothing.
pub proof fn a_dot_names_nothing(fragments: Seq<Seq<char>>, name: Seq<char>)
    requires
        fragments.len() > 0,
    ensures
        host_path::kept_parts(fragments.push(seq!['.'])) == host_path::kept_parts(fragments),
        host_path::kept_parts(fragments.push(Seq::empty())) == host_path::kept_parts(fragments),
        name.len() > 0 && name != seq!['.'] ==> host_path::kept_parts(fragments.push(name))
            == host_path::kept_parts(fragments).push(name),
{
    assert(fragments.push(seq!['.']).drop_last() =~= fragments);
    assert(fragments.push(Seq::<char>::empty()).drop_last() =~= fragments);
    assert(fragments.push(name).drop_last() =~= fragments);
}

} // verus!
