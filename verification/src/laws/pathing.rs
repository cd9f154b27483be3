//! How a path of another machine is read and translated.

use vstd::prelude::*;

use crate::fuzzy;
use crate::remote_path;
use crate::remote_path::{ParsedView, PathFlavor, PathMapping, RootView, Translation};
use crate::text;

verus! {

/// A letter of the English alphabet.
pub open spec fn is_latin(c: char) -> bool {
    65 <= c as int <= 90 || 97 <= c as int <= 122
}

/// A path is known by how it starts: two slashes and a name for a share, one
/// slash for Unix, a letter and a colon for Windows. One that starts in none
/// of these ways is a Windows path exactly where it holds a backslash.
pub proof fn a_path_is_known_by_its_start(s: Seq<char>)
    ensures
        s.len() >= 3 && s[0] == '\\' && s[1] == '\\' && s[2] != '\\' && s[2] != '/'
            ==> remote_path::flavor_view(s) == PathFlavor::Unc,
        s.len() >= 3 && s[0] == '/' && s[1] == '/' && s[2] != '\\' && s[2] != '/'
            ==> remote_path::flavor_view(s) == PathFlavor::Unc,
        s.len() >= 1 && s[0] == '/' && (s.len() == 1 || s[1] != '/') ==> remote_path::flavor_view(s)
            == PathFlavor::Posix,
        s.len() >= 2 && is_latin(s[0]) && s[1] == ':' ==> remote_path::flavor_view(s)
            == PathFlavor::Windows,
        s.len() >= 1 && s[0] != '/' && s[0] != '\\' && !(s.len() >= 2 && is_latin(s[0]) && s[1]
            == ':') ==> remote_path::flavor_view(s) == if s.contains('\\') {
            PathFlavor::Windows
        } else {
            PathFlavor::Posix
        },
        s.len() == 0 ==> remote_path::flavor_view(s) == PathFlavor::Posix,
{
}

/// Whether a text can be one name in a path: not empty, neither of the dots,
/// and without a slash of either kind.
pub open spec fn is_entry(name: Seq<char>) -> bool {
    &&& name.len() > 0
    &&& name != seq!['.']
    &&& name != seq!['.', '.']
    &&& forall|i: int| 0 <= i < name.len() ==> #[trigger] name[i] != '/' && name[i] != '\\'
}

/// Names behind one another, each behind a separator.
pub open spec fn spelled_out(names: Seq<Seq<char>>, separator: char) -> Seq<char>
    decreases names.len(),
{
    if names.len() == 0 {
        Seq::empty()
    } else {
        spelled_out(names.drop_last(), separator).push(separator) + names.last()
    }
}

proof fn lemma_spelled_out(names: Seq<Seq<char>>, separator: char)
    requires
        names.len() > 0,
    ensures
        spelled_out(names, separator) == seq![separator] + text::join(names, seq![separator]),
    decreases names.len(),
{
    let whole = spelled_out(names, separator);
    if names.len() == 1 {
        assert(names.drop_last() =~= Seq::empty());
        assert(spelled_out(names.drop_last(), separator) =~= Seq::empty());
        assert(whole =~= seq![separator] + names[0]);
    } else {
        lemma_spelled_out(names.drop_last(), separator);
        assert(whole =~= seq![separator] + text::join(names, seq![separator]));
    }
}

proof fn lemma_entries(names: Seq<Seq<char>>)
    requires
        forall|i: int| 0 <= i < names.len() ==> is_entry(#[trigger] names[i]),
    ensures
        forall|i: int|
            0 <= i < names.len() ==> remote_path::names_something(#[trigger] names[i])
                && text::free_of(names[i], set!['/']) && text::free_of(
                names[i],
                remote_path::slashes(),
            ),
{
    assert forall|i: int| 0 <= i < names.len() implies remote_path::names_something(
        #[trigger] names[i],
    ) && text::free_of(names[i], set!['/']) && text::free_of(
        names[i],
        remote_path::slashes(),
    ) by {
        assert(is_entry(names[i]));
    }
}

/// A Unix path reads as the names it spells out, a slash behind it or not.
pub proof fn a_unix_path_reads_as_its_names(names: Seq<Seq<char>>)
    requires
        names.len() > 0,
        forall|i: int| 0 <= i < names.len() ==> is_entry(#[trigger] names[i]),
        !text::is_white(names.last().last()),
    ensures
        ({
            let read = ParsedView {
                flavor: PathFlavor::Posix,
                root: RootView::Posix,
                segments: names,
            };
            &&& remote_path::parsed(spelled_out(names, '/')) == read
            &&& remote_path::parsed(spelled_out(names, '/').push('/')) == read
        }),
{
    lemma_entries(names);
    lemma_spelled_out(names, '/');
    let whole = spelled_out(names, '/');
    assert(whole.last() == names.last().last());
    remote_path::lemma_posix_parses(names, whole);
    assert(whole.push('/') =~= whole + seq!['/']);
    remote_path::lemma_posix_parses(names, whole.push('/'));
}

/// A Windows path reads as its drive and the names it spells out.
pub proof fn a_windows_path_reads_as_its_names(drive: char, names: Seq<Seq<char>>)
    requires
        is_latin(drive),
        names.len() > 0,
        forall|i: int| 0 <= i < names.len() ==> is_entry(#[trigger] names[i]),
        !text::is_white(names.last().last()),
    ensures
        remote_path::parsed(seq![drive, ':'] + spelled_out(names, '\\')) == (ParsedView {
            flavor: PathFlavor::Windows,
            root: RootView::Drive(drive),
            segments: names,
        }),
{
    lemma_entries(names);
    lemma_spelled_out(names, '\\');
    let whole = seq![drive, ':'] + spelled_out(names, '\\');
    assert(spelled_out(names, '\\').last() == names.last().last());
    assert(whole.last() == names.last().last());
    assert(whole =~= seq![drive, ':', '\\'] + text::join(names, seq!['\\']));
    remote_path::lemma_drive_parses(drive, names, whole);
}

/// A step up takes the last name away, a single dot nothing; a step up from
/// the top leaves the path without an anchor.
pub proof fn a_step_up_takes_a_name_away(fragments: Seq<Seq<char>>, name: Seq<char>)
    ensures
        name.len() > 0 && name != seq!['.'] && name != seq!['.', '.'] ==> {
            &&& remote_path::resolve(fragments.push(name)).1 == remote_path::resolve(
                fragments,
            ).1.push(name)
            &&& remote_path::resolve(fragments.push(name).push(seq!['.', '.']))
                == remote_path::resolve(fragments)
        },
        remote_path::resolve(fragments.push(seq!['.'])) == remote_path::resolve(fragments),
        remote_path::resolve(fragments.push(Seq::empty())) == remote_path::resolve(fragments),
        remote_path::resolve(fragments).1.len() == 0 ==> remote_path::resolve(
            fragments.push(seq!['.', '.']),
        ).0,
{
    let up = seq!['.', '.'];
    let one = seq!['.'];
    assert(up.len() == 2 && one.len() == 1);
    assert(up != one);
    let named = fragments.push(name);
    assert(named.drop_last() =~= fragments);
    assert(named.push(up).drop_last() =~= named);
    assert(fragments.push(one).drop_last() =~= fragments);
    assert(fragments.push(up).drop_last() =~= fragments);
    assert(fragments.push(Seq::<char>::empty()).drop_last() =~= fragments);
    if name.len() > 0 && name != one && name != up {
        let (escaped, kept) = remote_path::resolve(fragments);
        assert(remote_path::resolve(named) == (escaped, kept.push(name)));
        assert(kept.push(name).drop_last() =~= kept);
    }
}

/// A path that steps out of its own top is anchored nowhere.
pub proof fn what_leaves_the_top_is_anchored_nowhere(raw: Seq<char>)
    requires
        ({
            let s = text::trim(raw);
            remote_path::resolve(
                text::split(
                    remote_path::root_view(s).1,
                    remote_path::separators_of(remote_path::flavor_view(s)),
                ),
            ).0
        }),
    ensures
        remote_path::parsed(raw).root is Relative,
{
}

// ---------------------------------------------------------------------
// Rules
// ---------------------------------------------------------------------

/// A Unix rule covers a Unix path exactly where the path starts with the
/// rule's names, letter for letter.
pub proof fn a_unix_rule_covers_what_starts_with_it(prefix: ParsedView, path: ParsedView)
    requires
        prefix.flavor == PathFlavor::Posix,
        prefix.root is Posix,
        path.root is Posix,
    ensures
        remote_path::covers_view(prefix, path) <==> prefix.segments.len() <= path.segments.len()
            && path.segments.take(prefix.segments.len() as int) == prefix.segments,
{
    let n = prefix.segments.len() as int;
    if remote_path::covers_view(prefix, path) {
        assert forall|i: int| 0 <= i < n implies path.segments.take(n)[i] == prefix.segments[i] by {
            assert(remote_path::segment_matches(
                prefix.segments[i],
                path.segments[i],
                prefix.flavor,
            ));
        }
        assert(path.segments.take(n) =~= prefix.segments);
    }
    if prefix.segments.len() <= path.segments.len() && path.segments.take(n) == prefix.segments {
        assert forall|i: int| 0 <= i < n implies remote_path::segment_matches(
            #[trigger] prefix.segments[i],
            path.segments[i],
            prefix.flavor,
        ) by {
            assert(path.segments.take(n)[i] == path.segments[i]);
        }
    }
}

/// Whether two texts differ in the case of English letters at most.
pub open spec fn differ_in_case(a: Seq<char>, b: Seq<char>) -> bool {
    a.len() == b.len() && forall|i: int|
        0 <= i < a.len() ==> #[trigger] a[i] == b[i] || (65 <= a[i] as int <= 90 && b[i] as int
            == a[i] as int + 32) || (97 <= a[i] as int <= 122 && b[i] as int == a[i] as int - 32)
}

proof fn lemma_case(a: Seq<char>, b: Seq<char>)
    ensures
        text::eq_fold(a, b) <==> differ_in_case(a, b),
{
    if text::eq_fold(a, b) {
        assert forall|i: int| 0 <= i < a.len() implies #[trigger] a[i] == b[i] || (65 <= a[i] as int
            <= 90 && b[i] as int == a[i] as int + 32) || (97 <= a[i] as int <= 122 && b[i] as int
            == a[i] as int - 32) by {
            assert(text::lower(a[i]) == text::lower(b[i]));
        }
    }
    if differ_in_case(a, b) {
        assert forall|i: int| 0 <= i < a.len() implies text::lower(#[trigger] a[i]) == text::lower(
            b[i],
        ) by {
            assert(a[i] == b[i] || (65 <= a[i] as int <= 90 && b[i] as int == a[i] as int + 32) || (
            97 <= a[i] as int <= 122 && b[i] as int == a[i] as int - 32));
        }
    }
}

/// A Windows rule covers a path on its drive exactly where the path starts
/// with the rule's names, in any letter case; the drive's case does not
/// matter either.
pub proof fn a_windows_rule_minds_no_case(
    prefix: ParsedView,
    path: ParsedView,
    a: char,
    b: char,
)
    requires
        prefix.flavor == PathFlavor::Windows,
        prefix.root == RootView::Drive(a),
        path.root == RootView::Drive(b),
    ensures
        remote_path::covers_view(prefix, path) <==> differ_in_case(seq![a], seq![b])
            && prefix.segments.len() <= path.segments.len() && forall|i: int|
            0 <= i < prefix.segments.len() ==> differ_in_case(
                #[trigger] prefix.segments[i],
                path.segments[i],
            ),
{
    lemma_case(seq![a], seq![b]);
    assert(text::eq_fold(seq![a], seq![b]) <==> text::lower(a) == text::lower(b)) by {
        assert(seq![a][0] == a && seq![b][0] == b);
        if text::eq_fold(seq![a], seq![b]) {
            assert(text::lower(seq![a][0]) == text::lower(seq![b][0]));
        }
    }
    assert forall|i: int| 0 <= i < prefix.segments.len() && i < path.segments.len() implies (
    remote_path::segment_matches(#[trigger] prefix.segments[i], path.segments[i], prefix.flavor)
        <==> differ_in_case(prefix.segments[i], path.segments[i])) by {
        lemma_case(prefix.segments[i], path.segments[i]);
    }
}

/// A share's rule covers a path on the same server and share, in any letter
/// case.
pub proof fn a_share_is_its_server_and_name(
    prefix: ParsedView,
    path: ParsedView,
    server: (Seq<char>, Seq<char>),
    share: (Seq<char>, Seq<char>),
)
    requires
        prefix.root == RootView::Share(server.0, share.0),
        path.root == RootView::Share(server.1, share.1),
        prefix.segments.len() == 0,
    ensures
        remote_path::covers_view(prefix, path) <==> differ_in_case(server.0, server.1)
            && differ_in_case(share.0, share.1),
{
    lemma_case(server.0, server.1);
    lemma_case(share.0, share.1);
}

/// No rule covers a path of another kind, nor one that is anchored nowhere.
pub proof fn kinds_do_not_mix(prefix: ParsedView, path: ParsedView)
    requires
        remote_path::covers_view(prefix, path),
    ensures
        prefix.root is Posix <==> path.root is Posix,
        prefix.root is Drive <==> path.root is Drive,
        prefix.root is Share <==> path.root is Share,
        !(prefix.root is Relative) && !(path.root is Relative),
{
}

/// The rule that applies covers the path, no rule that covers it has more
/// names, and none with as many comes before it by its text.
pub proof fn the_longest_rule_applies(
    rows: Seq<PathMapping>,
    path: ParsedView,
    applied: int,
    other: int,
)
    requires
        remote_path::is_best(rows, path, applied),
        0 <= other < rows.len(),
        remote_path::covers_view(remote_path::parsed(rows[other].remote_prefix@), path),
    ensures
        remote_path::covers_view(remote_path::parsed(rows[applied].remote_prefix@), path),
        remote_path::parsed(rows[applied].remote_prefix@).segments.len() >= remote_path::parsed(
            rows[other].remote_prefix@,
        ).segments.len(),
        remote_path::parsed(rows[applied].remote_prefix@).segments.len() == remote_path::parsed(
            rows[other].remote_prefix@,
        ).segments.len() ==> !text::text_less(
            rows[other].remote_prefix@,
            rows[applied].remote_prefix@,
        ),
{
    assert(remote_path::row_covers(rows, path, other));
}

/// A covered path is always translated, and one nothing covers never.
pub proof fn a_covered_path_is_translated(
    rows: Seq<PathMapping>,
    reported: Seq<char>,
    separator: char,
    t: Translation,
    k: int,
)
    requires
        remote_path::translates(rows, reported, separator, t),
        0 <= k < rows.len(),
    ensures
        remote_path::covers_view(
            remote_path::parsed(rows[k].remote_prefix@),
            remote_path::parsed(reported),
        ) ==> t.applied is Some,
        t.applied matches Some(rule) ==> exists|j: int|
            0 <= j < rows.len() && (#[trigger] rows[j]).id == rule.id && rows[j].local_prefix@
                == rule.local_prefix@ && remote_path::covers_view(
                remote_path::parsed(rows[j].remote_prefix@),
                remote_path::parsed(reported),
            ),
        t.flavor == remote_path::flavor_view(text::trim(reported)),
{
    let path = remote_path::parsed(reported);
    assert(remote_path::row_covers(rows, path, k) == remote_path::covers_view(
        remote_path::parsed(rows[k].remote_prefix@),
        path,
    ));
    if let Some(rule) = t.applied {
        let j = choose|j: int|
            {
                &&& #[trigger] remote_path::is_best(rows, path, j)
                &&& rule.id == rows[j].id
                &&& rule.remote_prefix@ == rows[j].remote_prefix@
                &&& rule.local_prefix@ == rows[j].local_prefix@
                &&& t.local@ == remote_path::applied_local(rows[j], path, separator)
            };
        assert(remote_path::row_covers(rows, path, j));
        assert(rows[j].id == rule.id);
    }
}

/// A translated path is the rule's local folder and the names the rule did
/// not cover, each behind a separator.
pub proof fn what_is_left_goes_under_the_local_folder(
    row: PathMapping,
    path: ParsedView,
    separator: char,
)
    requires
        row.local_prefix@.len() > 0,
        row.local_prefix@.last() != '/' && row.local_prefix@.last() != '\\',
        remote_path::parsed(row.remote_prefix@).segments.len() <= path.segments.len(),
        forall|i: int| 0 <= i < path.segments.len() ==> is_entry(#[trigger] path.segments[i]),
    ensures
        remote_path::applied_local(row, path, separator) == row.local_prefix@ + spelled_out(
            path.segments.skip(remote_path::parsed(row.remote_prefix@).segments.len() as int),
            separator,
        ),
{
    let rest = path.segments.skip(
        remote_path::parsed(row.remote_prefix@).segments.len() as int,
    );
    assert forall|i: int| 0 <= i < rest.len() implies is_entry(#[trigger] rest[i]) by {
        assert(rest[i] == path.segments[i + remote_path::parsed(
            row.remote_prefix@,
        ).segments.len()]);
    }
    lemma_components(row.local_prefix@, rest, separator);
}

proof fn lemma_components(base: Seq<char>, names: Seq<Seq<char>>, separator: char)
    requires
        base.len() > 0,
        base.last() != '/' && base.last() != '\\',
        forall|i: int| 0 <= i < names.len() ==> is_entry(#[trigger] names[i]),
    ensures
        remote_path::with_components(base, names, separator) == base + spelled_out(
            names,
            separator,
        ),
        (base + spelled_out(names, separator)).last() != '/',
        (base + spelled_out(names, separator)).last() != '\\',
    decreases names.len(),
{
    let whole = base + spelled_out(names, separator);
    if names.len() == 0 {
        assert(whole =~= base);
    } else {
        let before = names.drop_last();
        assert forall|i: int| 0 <= i < before.len() implies is_entry(#[trigger] before[i]) by {
            assert(before[i] == names[i]);
        }
        lemma_components(base, before, separator);
        let name = names[names.len() - 1];
        assert(is_entry(name));
        assert(name[name.len() - 1] != '/' && name[name.len() - 1] != '\\');
        assert(whole.last() == name.last());
        assert(whole =~= (base + spelled_out(before, separator)).push(separator) + name);
    }
}

/// On a Unix machine Unix paths are at home and no others, on a Windows
/// machine the others. A path can be followed where a rule translated it or
/// where it is at home, and it has to be anchored.
pub proof fn a_foreign_path_needs_a_rule(
    foreign: bool,
    usable: bool,
    t: Translation,
    separator: char,
)
    requires
        separator == '/' || separator == '\\',
        remote_path::is_foreign_to(foreign, t, separator),
        remote_path::is_usable_here(usable, t, separator),
    ensures
        t.applied is Some ==> !foreign && (usable <==> t.rooted),
        t.applied is None && separator == '/' ==> (foreign <==> t.flavor != PathFlavor::Posix) && (
        usable <==> t.rooted && t.flavor == PathFlavor::Posix),
        t.applied is None && separator == '\\' ==> (foreign <==> t.flavor == PathFlavor::Posix) && (
        usable <==> t.rooted && t.flavor != PathFlavor::Posix),
{
}

/// A stored Unix rule is the path its names spell out, a slash written behind
/// it or not.
pub proof fn a_stored_rule_ends_in_no_slash(names: Seq<Seq<char>>)
    requires
        names.len() > 0,
        forall|i: int| 0 <= i < names.len() ==> is_entry(#[trigger] names[i]),
        !text::is_white(names.last().last()),
    ensures
        remote_path::canonical(spelled_out(names, '/')) == Some(spelled_out(names, '/')),
        remote_path::canonical(spelled_out(names, '/').push('/')) == Some(spelled_out(names, '/')),
{
    a_unix_path_reads_as_its_names(names);
    lemma_spelled_out(names, '/');
    let whole = spelled_out(names, '/');
    assert(whole.last() == names.last().last());
    let p = remote_path::parsed(whole);
    assert(seq!['/'] + Seq::<char>::empty() =~= seq!['/']);
    assert(remote_path::prefix_text(p) =~= whole);
}

/// What is anchored nowhere is no rule, nor is the top of a Unix tree.
pub proof fn the_top_is_no_rule(raw: Seq<char>)
    ensures
        remote_path::canonical(raw) is None <==> remote_path::parsed(raw).root is Relative || (
        remote_path::parsed(raw).root is Posix && remote_path::parsed(raw).segments.len() == 0),
{
}

// ---------------------------------------------------------------------
// Shares, drives and dots
// ---------------------------------------------------------------------

/// The start of a path on a share.
pub open spec fn share_head(server: Seq<char>, share: Seq<char>) -> Seq<char> {
    seq!['\\', '\\'] + server + seq!['\\'] + share
}

proof fn lemma_share_entry(name: Seq<char>)
    requires
        is_entry(name),
    ensures
        text::free_of(name, remote_path::slashes()),
{
}

/// A path on a share reads as its server, its share and the names it spells
/// out. A rule for it is stored as it is written.
pub proof fn a_share_path_reads_as_its_names(
    server: Seq<char>,
    share: Seq<char>,
    names: Seq<Seq<char>>,
)
    requires
        is_entry(server),
        is_entry(share),
        forall|i: int| 0 <= i < names.len() ==> is_entry(#[trigger] names[i]),
        names.len() == 0 ==> !text::is_white(share.last()),
        names.len() > 0 ==> !text::is_white(names.last().last()),
    ensures
        ({
            let whole = share_head(server, share) + spelled_out(names, '\\');
            &&& remote_path::parsed(whole) == (ParsedView {
                flavor: PathFlavor::Unc,
                root: RootView::Share(server, share),
                segments: names,
            })
            &&& remote_path::canonical(whole) == Some(whole)
        }),
{
    lemma_entries(names);
    lemma_share_entry(server);
    lemma_share_entry(share);
    let head = share_head(server, share);
    let whole = head + spelled_out(names, '\\');
    let sep = seq!['\\'];
    if names.len() == 0 {
        assert(spelled_out(names, '\\') =~= Seq::empty());
        assert(whole =~= head);
        assert(whole.last() == share.last());
    } else {
        lemma_spelled_out(names, '\\');
        assert(spelled_out(names, '\\').last() == names.last().last());
        assert(whole.last() == names.last().last());
        assert(whole =~= head + sep + text::join(names, sep));
    }
    remote_path::lemma_share_parses(server, share, names, whole);
    let p = remote_path::parsed(whole);
    assert(remote_path::prefix_text(p) =~= whole) by {
        if names.len() == 0 {
            assert(text::join(names, sep) =~= Seq::empty());
            assert(remote_path::prefix_text(p) =~= head);
        } else {
            assert(remote_path::prefix_text(p) =~= head + sep + text::join(names, sep));
        }
    }
}

/// A server without a share anchors nothing.
pub proof fn a_server_alone_anchors_nothing(server: Seq<char>)
    requires
        is_entry(server),
        !text::is_white(server.last()),
    ensures
        remote_path::parsed(seq!['\\', '\\'] + server).root is Relative,
        remote_path::canonical(seq!['\\', '\\'] + server) is None,
{
    let s = seq!['\\', '\\'] + server;
    assert(s.last() == server.last());
    text::lemma_trim_tight(s);
    assert(s[2] == server[0]);
    assert(s.skip(2) =~= server);
    lemma_whole_run(server);
    assert(remote_path::after_sep(server, remote_path::slashes()) =~= Seq::empty());
    assert(remote_path::before_sep(Seq::<char>::empty(), remote_path::slashes()) =~= Seq::empty());
}

proof fn lemma_whole_run(name: Seq<char>)
    requires
        forall|i: int| 0 <= i < name.len() ==> #[trigger] name[i] != '/' && name[i] != '\\',
    ensures
        remote_path::run_length(name, remote_path::slashes()) == name.len(),
    decreases name.len(),
{
    if name.len() > 0 {
        assert(name[0] != '/' && name[0] != '\\');
        let rest = name.drop_first();
        assert forall|i: int| 0 <= i < rest.len() implies #[trigger] rest[i] != '/' && rest[i]
            != '\\' by {
            assert(rest[i] == name[i + 1]);
        }
        lemma_whole_run(rest);
    }
}

/// A rule for a folder on a drive is stored as it is written.
pub proof fn a_drive_rule_is_stored_as_written(drive: char, names: Seq<Seq<char>>)
    requires
        is_latin(drive),
        names.len() > 0,
        forall|i: int| 0 <= i < names.len() ==> is_entry(#[trigger] names[i]),
        !text::is_white(names.last().last()),
    ensures
        remote_path::canonical(seq![drive, ':'] + spelled_out(names, '\\')) == Some(
            seq![drive, ':'] + spelled_out(names, '\\'),
        ),
{
    a_windows_path_reads_as_its_names(drive, names);
    lemma_spelled_out(names, '\\');
    let whole = seq![drive, ':'] + spelled_out(names, '\\');
    assert(spelled_out(names, '\\').last() == names.last().last());
    assert(whole.last() == names.last().last());
    let p = remote_path::parsed(whole);
    assert(remote_path::prefix_text(p) =~= whole);
}

/// A path whose steps were resolved is written out again from its anchor and
/// the names that are left.
pub proof fn a_resolved_path_is_written_out_again(p: ParsedView)
    requires
        p.segments.len() > 0,
    ensures
        p.root is Posix ==> remote_path::rebuilt(p) == spelled_out(p.segments, '/'),
        p.root matches RootView::Drive(c) ==> remote_path::rebuilt(p) == seq![c, ':']
            + spelled_out(p.segments, '\\'),
        p.root matches RootView::Share(server, share) ==> remote_path::rebuilt(p) == share_head(
            server,
            share,
        ) + spelled_out(p.segments, '\\'),
{
    lemma_spelled_out(p.segments, '/');
    lemma_spelled_out(p.segments, '\\');
    match p.root {
        RootView::Posix => {
            assert(remote_path::rebuilt(p) =~= spelled_out(p.segments, '/'));
        },
        RootView::Drive(c) => {
            assert(remote_path::rebuilt(p) =~= seq![c, ':'] + spelled_out(p.segments, '\\'));
        },
        RootView::Share(server, share) => {
            assert(remote_path::rebuilt(p) =~= share_head(server, share) + spelled_out(
                p.segments,
                '\\',
            ));
        },
        RootView::Relative => {},
    }
}

/// A Unix path has dots to resolve where one or two of them stand alone
/// between slashes, and none where it has no dot.
pub proof fn dots_between_slashes_are_resolved(s: Seq<char>, at: int, n: int)
    requires
        s.len() > 0,
        !text::is_white(s[0]) && !text::is_white(s.last()),
        s[0] == '/' && (s.len() == 1 || s[1] != '/'),
        n == 1 || n == 2,
        1 <= at && at + n <= s.len(),
        s[at - 1] == '/',
        at + n < s.len() ==> s[at + n] == '/',
        s[at] == '.' && s[at + n - 1] == '.',
    ensures
        remote_path::has_dots(s),
{
    text::lemma_trim_tight(s);
    let seps = remote_path::separators_of(PathFlavor::Posix);
    let here = s.subrange(at, at + n);
    assert forall|i: int| 0 <= i < here.len() implies !seps.contains(#[trigger] here[i]) by {
        assert(here[i] == s[at + i]);
    }
    let k = text::lemma_split_holds(s, seps, at, at + n);
    if n == 1 {
        assert(here =~= seq!['.']);
    } else {
        assert(here =~= seq!['.', '.']);
    }
    assert(remote_path::fragments_of(s)[k] == here);
}

/// Without a dot there is nothing to resolve.
pub proof fn no_dot_is_nothing_to_resolve(raw: Seq<char>)
    requires
        !text::trim(raw).contains('.'),
    ensures
        !remote_path::has_dots(raw),
{
    let s = text::trim(raw);
    let seps = remote_path::separators_of(remote_path::flavor_view(s));
    let f = remote_path::fragments_of(raw);
    assert forall|i: int| 0 <= i < f.len() implies #[trigger] f[i] != seq!['.'] && f[i] != seq![
        '.',
        '.',
    ] by {
        if f[i] == seq!['.'] || f[i] == seq!['.', '.'] {
            fuzzy::lemma_fragment_stands(s, seps, i);
            let at = choose|at: int| text::occurs_at(s, f[i], at);
            assert(s.subrange(at, at + f[i].len())[0] == s[at]);
            assert(f[i][0] == '.');
            assert(s.contains(s[at]));
        }
    }
}

/// What no rule covers comes through as it was reported, but for the white
/// space around it and the steps in an anchored one.
pub proof fn what_no_rule_covers_is_resolved_or_left(
    rows: Seq<PathMapping>,
    reported: Seq<char>,
    separator: char,
    t: Translation,
)
    requires
        remote_path::translates(rows, reported, separator, t),
        t.applied is None,
    ensures
        t.rooted <==> !(remote_path::parsed(reported).root is Relative),
        !t.rooted || !remote_path::has_dots(reported) ==> t.local@ == text::trim(reported),
        t.rooted && remote_path::has_dots(reported) ==> t.local@ == remote_path::rebuilt(
            remote_path::parsed(reported),
        ),
{
}

} // verus!
