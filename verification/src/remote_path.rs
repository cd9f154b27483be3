//! Translating a download client's paths into this machine's namespace.
//!
//! The client and the orchestrator do not have to see the same filesystem in
//! the same place. This module reconciles the two, and every rule in it is
//! decidable from two strings.
//!
//! - A backslash is a legal filename character on POSIX: the separator set is
//!   a function of the detected flavour.
//! - The longest prefix wins, whatever the order of the rows.
//! - A UNC root is a root, and a UNC rule never covers a POSIX path.
//! - `.` and `..` are resolved lexically, so a `..` never reaches the join.
//!
//! Translation fails open: a path no rule covers comes back unchanged, but
//! for a `.` or a `..` that had to be resolved.

use vstd::prelude::*;

use crate::host_path;
use crate::text;
use crate::text::{
    chars_of, extend, joined, less, letter, one_of, same, same_fold, slice, split_on, string_of,
    to_lower, trimmed_str, white,
};

verus! {

/// Which set of rules a path string was written under, inferred from the
/// string and never from the operating system.
#[derive(Debug, Clone, Copy, PartialEq, Eq, Structural)]
pub enum PathFlavor {
    /// `/data/torrents`. Separator is `/` only.
    Posix,
    /// `C:\Downloads`. Both separators, case-insensitive.
    Windows,
    /// `\\NAS\midia`. Both separators, case-insensitive.
    Unc,
}

/// What a path is anchored to.
pub enum Root {
    /// Leading `/`.
    Posix,
    /// `C:`.
    Drive(char),
    /// `\\server\share`.
    Share {
        /// Host part.
        server: Vec<char>,
        /// Share name.
        share: Vec<char>,
    },
    /// Anchored to nothing: a relative path, or one that walked out of its
    /// own root. Never equal to anything, including itself.
    Relative,
}

/// A path string broken into the pieces matching needs.
pub struct Parsed {
    pub flavor: PathFlavor,
    pub root: Root,
    /// Non-empty components, in order, with `.`/`..` already resolved.
    pub segments: Vec<Vec<char>>,
}

/// One configured rewrite.
#[derive(Debug, Clone)]
pub struct PathMapping {
    /// Row id.
    pub id: u128,
    /// Client the rule belongs to.
    pub client_id: u128,
    /// What the client's path starts with.
    pub remote_prefix: String,
    /// What replaces it on this machine.
    pub local_prefix: String,
    /// Row creation, in Unix seconds.
    pub created_at: i64,
}

/// The rule that fired, for the log and for the operator's message.
#[derive(Debug, Clone)]
pub struct AppliedRule {
    /// Id of the row that matched.
    pub id: u128,
    /// Its remote side.
    pub remote_prefix: String,
    /// Its local side.
    pub local_prefix: String,
}

/// The result of translating a client-reported path.
#[derive(Debug, Clone)]
pub struct Translation {
    /// The path to hand to the filesystem.
    pub local: String,
    /// Which mapping produced it; `None` when none covers the path.
    pub applied: Option<AppliedRule>,
    /// Namespace the client's string was written in.
    pub flavor: PathFlavor,
    /// `false` for a relative path, which must never be handed to the
    /// filesystem.
    pub rooted: bool,
}

// ---------------------------------------------------------------------
// Model
// ---------------------------------------------------------------------

/// The anchor of a path, as text.
#[verifier::ext_equal]
pub enum RootView {
    Posix,
    Drive(char),
    Share(Seq<char>, Seq<char>),
    Relative,
}

/// A path string taken apart.
#[verifier::ext_equal]
pub struct ParsedView {
    pub flavor: PathFlavor,
    pub root: RootView,
    pub segments: Seq<Seq<char>>,
}

impl View for Root {
    type V = RootView;

    open spec fn view(&self) -> RootView {
        match self {
            Root::Posix => RootView::Posix,
            Root::Drive(c) => RootView::Drive(*c),
            Root::Share { server, share } => RootView::Share(server@, share@),
            Root::Relative => RootView::Relative,
        }
    }
}

impl View for Parsed {
    type V = ParsedView;

    open spec fn view(&self) -> ParsedView {
        ParsedView {
            flavor: self.flavor,
            root: self.root@,
            segments: text::chars_views(self.segments@),
        }
    }
}

pub open spec fn is_slash(c: char) -> bool {
    c == '/' || c == '\\'
}

pub open spec fn slashes() -> Set<char> {
    set!['/', '\\']
}

/// The separators of a flavour.
pub open spec fn separators_of(flavor: PathFlavor) -> Set<char> {
    match flavor {
        PathFlavor::Posix => set!['/'],
        PathFlavor::Windows | PathFlavor::Unc => slashes(),
    }
}

/// Exactly two identical slashes followed by something that is not one.
pub open spec fn unc_root(s: Seq<char>) -> bool {
    s.len() > 2 && is_slash(s[0]) && s[0] == s[1] && !is_slash(s[2])
}

/// `C:` at the start.
pub open spec fn drive_letter(s: Seq<char>) -> bool {
    s.len() >= 2 && text::is_letter(s[0]) && s[1] == ':'
}

/// The flavour of a trimmed path: UNC first, then a leading slash, then a
/// drive letter or any backslash, and POSIX otherwise.
pub open spec fn flavor_view(s: Seq<char>) -> PathFlavor {
    if unc_root(s) {
        PathFlavor::Unc
    } else if s.len() > 0 && s[0] == '/' {
        PathFlavor::Posix
    } else if drive_letter(s) || s.contains('\\') {
        PathFlavor::Windows
    } else {
        PathFlavor::Posix
    }
}

/// How many characters precede the first separator.
pub open spec fn run_length(s: Seq<char>, seps: Set<char>) -> nat
    decreases s.len(),
{
    if s.len() == 0 || seps.contains(s[0]) {
        0
    } else {
        1 + run_length(s.drop_first(), seps)
    }
}

/// The text before the first separator.
pub open spec fn before_sep(s: Seq<char>, seps: Set<char>) -> Seq<char> {
    s.take(run_length(s, seps) as int)
}

/// The text after the first separator; nothing when there is none.
pub open spec fn after_sep(s: Seq<char>, seps: Set<char>) -> Seq<char> {
    if run_length(s, seps) >= s.len() {
        Seq::empty()
    } else {
        s.skip(run_length(s, seps) as int + 1)
    }
}

/// A UNC path after its two leading slashes: server, share, and the rest.
/// A host without a share anchors nothing.
pub open spec fn share_view(s: Seq<char>) -> (RootView, Seq<char>) {
    let body = s.skip(2);
    let server = before_sep(body, slashes());
    let tail = after_sep(body, slashes());
    let share = before_sep(tail, slashes());
    if server.len() == 0 || share.len() == 0 {
        (RootView::Relative, s)
    } else {
        (RootView::Share(server, share), after_sep(tail, slashes()))
    }
}

/// The anchor of a trimmed path and what follows it.
pub open spec fn root_view(s: Seq<char>) -> (RootView, Seq<char>) {
    match flavor_view(s) {
        PathFlavor::Posix => if s.len() > 0 && s[0] == '/' {
            (RootView::Posix, s.skip(1))
        } else {
            (RootView::Relative, s)
        },
        PathFlavor::Windows => if drive_letter(s) && (s.len() == 2 || is_slash(s[2])) {
            (RootView::Drive(s[0]), s.skip(2))
        } else {
            (RootView::Relative, s)
        },
        PathFlavor::Unc => share_view(s),
    }
}

pub open spec fn dot() -> Seq<char> {
    seq!['.']
}

pub open spec fn dot_dot() -> Seq<char> {
    seq!['.', '.']
}

/// A fragment that names something, rather than nothing, here or above.
pub open spec fn names_something(fragment: Seq<char>) -> bool {
    fragment.len() > 0 && fragment != dot() && fragment != dot_dot()
}

/// The components left once `.` and `..` are resolved, and whether a `..`
/// found nothing to step out of.
pub open spec fn resolve(fragments: Seq<Seq<char>>) -> (bool, Seq<Seq<char>>)
    decreases fragments.len(),
{
    if fragments.len() == 0 {
        (false, Seq::empty())
    } else {
        let (escaped, kept) = resolve(fragments.drop_last());
        let fragment = fragments.last();
        if fragment == dot_dot() {
            if kept.len() == 0 {
                (true, kept)
            } else {
                (escaped, kept.drop_last())
            }
        } else if names_something(fragment) {
            (escaped, kept.push(fragment))
        } else {
            (escaped, kept)
        }
    }
}

/// What a path string means.
pub open spec fn parsed(raw: Seq<char>) -> ParsedView {
    let s = text::trim(raw);
    let flavor = flavor_view(s);
    let (root, rest) = root_view(s);
    let (escaped, kept) = resolve(text::split(rest, separators_of(flavor)));
    ParsedView {
        flavor,
        root: if escaped {
            RootView::Relative
        } else {
            root
        },
        segments: kept,
    }
}

/// A path split where its flavour splits, its anchor with it.
pub open spec fn fragments_of(raw: Seq<char>) -> Seq<Seq<char>> {
    let s = text::trim(raw);
    text::split(s, separators_of(flavor_view(s)))
}

/// Whether a path holds a `.` or a `..`.
pub open spec fn has_dots(raw: Seq<char>) -> bool {
    exists|i: int|
        0 <= i < fragments_of(raw).len() && (#[trigger] fragments_of(raw)[i] == dot()
            || fragments_of(raw)[i] == dot_dot())
}

/// Whether two anchors are the same place.
pub open spec fn root_matches(a: RootView, b: RootView) -> bool {
    match (a, b) {
        (RootView::Posix, RootView::Posix) => true,
        (RootView::Drive(x), RootView::Drive(y)) => text::lower(x) == text::lower(y),
        (RootView::Share(s1, h1), RootView::Share(s2, h2)) => text::eq_fold(s1, s2) && text::eq_fold(h1, h2),
        _ => false,
    }
}

/// Whether two components are the same name: exactly on POSIX, up to ASCII
/// case elsewhere.
pub open spec fn segment_matches(a: Seq<char>, b: Seq<char>, flavor: PathFlavor) -> bool {
    match flavor {
        PathFlavor::Posix => a == b,
        PathFlavor::Windows | PathFlavor::Unc => text::eq_fold(a, b),
    }
}

/// Whether `prefix` covers `path`: the same anchor, and its components are
/// the first components of `path`.
pub open spec fn covers_view(prefix: ParsedView, path: ParsedView) -> bool {
    &&& root_matches(prefix.root, path.root)
    &&& prefix.segments.len() <= path.segments.len()
    &&& forall|i: int|
        0 <= i < prefix.segments.len() ==> segment_matches(
            #[trigger] prefix.segments[i],
            path.segments[i],
            prefix.flavor,
        )
}

/// Whether row `k` covers the path.
pub open spec fn row_covers(rows: Seq<PathMapping>, path: ParsedView, k: int) -> bool {
    0 <= k < rows.len() && covers_view(parsed(rows[k].remote_prefix@), path)
}

pub open spec fn depth(row: PathMapping) -> nat {
    parsed(row.remote_prefix@).segments.len()
}

/// Whether row `a` is preferred to row `b`: it pins more components, or as
/// many and its prefix comes first as text.
pub open spec fn preferred(a: PathMapping, b: PathMapping) -> bool {
    depth(a) > depth(b) || (depth(a) == depth(b) && text::text_less(a.remote_prefix@, b.remote_prefix@))
}

/// Row `k` covers the path, no covering row is preferred to it, and no
/// earlier one is as good.
pub open spec fn is_best(rows: Seq<PathMapping>, path: ParsedView, k: int) -> bool {
    &&& row_covers(rows, path, k)
    &&& forall|j: int| #[trigger]
        row_covers(rows, path, j) ==> !preferred(rows[j], rows[k]) && (j < k ==> preferred(
            rows[k],
            rows[j],
        ))
}

/// `base` with one more component.
pub open spec fn with_component(base: Seq<char>, segment: Seq<char>, separator: char) -> Seq<char> {
    if base.len() == 0 || is_slash(base.last()) {
        base + segment
    } else {
        base.push(separator) + segment
    }
}

/// `base` with the components appended in order.
pub open spec fn with_components(
    base: Seq<char>,
    segments: Seq<Seq<char>>,
    separator: char,
) -> Seq<char>
    decreases segments.len(),
{
    if segments.len() == 0 {
        base
    } else {
        with_component(
            with_components(base, segments.drop_last(), separator),
            segments.last(),
            separator,
        )
    }
}

/// The spelling of an anchor, ending in its separator.
pub open spec fn root_text(root: RootView) -> Seq<char> {
    match root {
        RootView::Posix => seq!['/'],
        RootView::Drive(c) => seq![c, ':', '\\'],
        RootView::Share(server, share) => seq!['\\', '\\'] + server + seq!['\\'] + share
            + seq!['\\'],
        RootView::Relative => Seq::empty(),
    }
}

pub open spec fn root_separator(root: RootView) -> Seq<char> {
    match root {
        RootView::Posix | RootView::Relative => seq!['/'],
        _ => seq!['\\'],
    }
}

/// The parsed path written out again in its own flavour.
pub open spec fn rebuilt(p: ParsedView) -> Seq<char> {
    root_text(p.root) + text::join(p.segments, root_separator(p.root))
}

/// The anchor as a stored prefix spells it: a share goes without its
/// trailing separator.
pub open spec fn prefix_root_text(root: RootView) -> Seq<char> {
    match root {
        RootView::Share(server, share) => seq!['\\', '\\'] + server + seq!['\\'] + share,
        _ => root_text(root),
    }
}

/// An anchored prefix written out in its own flavour, without a trailing
/// separator.
pub open spec fn prefix_text(p: ParsedView) -> Seq<char> {
    let sep = root_separator(p.root);
    prefix_root_text(p.root) + (if p.root is Share && p.segments.len() > 0 {
        sep
    } else {
        Seq::empty()
    }) + text::join(p.segments, sep)
}

/// The text with a separator behind it where it ends in white space, which
/// reading it again would trim.
pub open spec fn closed(s: Seq<char>, separator: Seq<char>) -> Seq<char> {
    if text::is_white(s.last()) {
        s + separator
    } else {
        s
    }
}

/// The stored form of an operator-typed prefix; `None` for one that anchors
/// nothing and for the bare POSIX root.
pub open spec fn canonical(raw: Seq<char>) -> Option<Seq<char>> {
    let p = parsed(raw);
    if p.root is Relative || (p.root is Posix && p.segments.len() == 0) {
        None
    } else {
        Some(closed(prefix_text(p), root_separator(p.root)))
    }
}

/// The translated text when row `k` applies.
pub open spec fn applied_local(
    row: PathMapping,
    path: ParsedView,
    separator: char,
) -> Seq<char> {
    with_components(row.local_prefix@, path.segments.skip(depth(row) as int), separator)
}

/// What a translation has to be, on a machine whose separator this is.
pub open spec fn translates(
    rows: Seq<PathMapping>,
    reported: Seq<char>,
    separator: char,
    t: Translation,
) -> bool {
    let path = parsed(reported);
    &&& t.flavor == path.flavor
    &&& t.rooted == !(path.root is Relative)
    &&& match t.applied {
        Some(rule) => exists|k: int|
            {
                &&& #[trigger] is_best(rows, path, k)
                &&& rule.id == rows[k].id
                &&& rule.remote_prefix@ == rows[k].remote_prefix@
                &&& rule.local_prefix@ == rows[k].local_prefix@
                &&& t.local@ == applied_local(rows[k], path, separator)
            },
        None => {
            &&& forall|k: int| !#[trigger] row_covers(rows, path, k)
            &&& t.local@ == if t.rooted && has_dots(reported) {
                rebuilt(path)
            } else {
                text::trim(reported)
            }
        },
    }
}

/// Whether a machine with this separator can open paths of the flavour.
pub open spec fn native(flavor: PathFlavor, separator: char) -> bool {
    if separator == '\\' {
        flavor != PathFlavor::Posix
    } else {
        flavor == PathFlavor::Posix
    }
}

// ---------------------------------------------------------------------
// The machine
// ---------------------------------------------------------------------

/// `std::path::MAIN_SEPARATOR`, the primary separator of path components on
/// the platform this was built for: a backslash on Windows, a slash
/// elsewhere. Which of the two it is depends on the machine and is not
/// stated.
#[verifier::external_body]
pub(crate) fn host_separator() -> (r: char)
    ensures
        is_slash(r),
{
    std::path::MAIN_SEPARATOR
}

/// What a kind of path is called.
pub open spec fn flavor_label(flavor: PathFlavor) -> Seq<char> {
    match flavor {
        PathFlavor::Posix => "Unix"@,
        PathFlavor::Windows => "Windows"@,
        PathFlavor::Unc => "rede (UNC)"@,
    }
}

impl PathFlavor {
    /// Separators that split a component under this flavour.
    pub fn separators(self) -> (r: Vec<char>)
        ensures
            r@.to_set() == separators_of(self),
    {
        let mut out: Vec<char> = Vec::new();
        out.push('/');
        assert(out@.to_set() =~= set!['/']) by {
            assert(out@[0] == '/');
        }
        match self {
            PathFlavor::Posix => {},
            PathFlavor::Windows | PathFlavor::Unc => {
                out.push('\\');
                assert(out@.to_set() =~= slashes()) by {
                    assert(out@[0] == '/');
                    assert(out@[1] == '\\');
                }
            },
        }
        out
    }

    /// Whether a machine whose separator is `separator` can open a path
    /// written this way.
    pub fn is_native_on(self, separator: char) -> (r: bool)
        ensures
            r == native(self, separator),
    {
        if separator == '\\' {
            self != PathFlavor::Posix
        } else {
            self == PathFlavor::Posix
        }
    }

    /// Whether this machine can open a path written this way.
    pub fn is_native(self) -> (r: bool)
        ensures
            exists|separator: char| is_slash(separator) && r == #[trigger] native(self, separator),
    {
        let separator = host_separator();
        self.is_native_on(separator)
    }

    /// Label for the operator-facing message.
    pub fn label(self) -> (r: &'static str)
        ensures
            r@ == flavor_label(self),
    {
        match self {
            PathFlavor::Posix => "Unix",
            PathFlavor::Windows => "Windows",
            PathFlavor::Unc => "rede (UNC)",
        }
    }
}

// ---------------------------------------------------------------------
// Taking a path apart
// ---------------------------------------------------------------------

fn slash(c: char) -> (r: bool)
    ensures
        r == is_slash(c),
{
    c == '/' || c == '\\'
}

/// Two identical slashes followed by something that is not one.
fn is_unc_root(raw: &[char]) -> (r: bool)
    ensures
        r == unc_root(raw@),
{
    raw.len() > 2 && slash(raw[0]) && raw[0] == raw[1] && !slash(raw[2])
}

/// `C:` / `d:` at the start of the string.
fn has_drive_letter(raw: &[char]) -> (r: bool)
    ensures
        r == drive_letter(raw@),
{
    raw.len() >= 2 && letter(raw[0]) && raw[1] == ':'
}

/// The flavour of a trimmed path.
fn detect(raw: &[char]) -> (r: PathFlavor)
    ensures
        r == flavor_view(raw@),
{
    if is_unc_root(raw) {
        return PathFlavor::Unc;
    }
    if raw.len() > 0 && raw[0] == '/' {
        return PathFlavor::Posix;
    }
    if has_drive_letter(raw) || one_of('\\', raw) {
        return PathFlavor::Windows;
    }
    PathFlavor::Posix
}

/// Where the first slash at or after `from` stands, or the length.
fn next_slash(s: &[char], from: usize) -> (r: usize)
    requires
        from <= s.len(),
    ensures
        from <= r <= s.len(),
        r - from == run_length(s@.skip(from as int), slashes()),
{
    let mut i: usize = from;
    while i < s.len() && !slash(s[i])
        invariant
            from <= i <= s.len(),
            run_length(s@.skip(from as int), slashes()) == (i - from) + run_length(
                s@.skip(i as int),
                slashes(),
            ),
        decreases s.len() - i,
    {
        assert(s@.skip(i as int).drop_first() == s@.skip(i + 1));
        assert(s@.skip(i as int)[0] == s@[i as int]);
        i += 1;
    }
    if i < s.len() {
        assert(s@.skip(i as int)[0] == s@[i as int]);
    }
    i
}

proof fn lemma_before_sep(s: Seq<char>, seps: Set<char>)
    ensures
        run_length(s, seps) <= s.len(),
        forall|i: int| 0 <= i < run_length(s, seps) ==> !seps.contains(#[trigger] s[i]),
        run_length(s, seps) < s.len() ==> seps.contains(s[run_length(s, seps) as int]),
    decreases s.len(),
{
    if s.len() == 0 || seps.contains(s[0]) {
    } else {
        lemma_before_sep(s.drop_first(), seps);
        assert forall|i: int| 0 <= i < run_length(s, seps) implies !seps.contains(
            #[trigger] s[i],
        ) by {
            if i > 0 {
                assert(s[i] == s.drop_first()[i - 1]);
            }
        }
    }
}

/// The anchor of a trimmed path and what follows it.
fn split_root(raw: &[char], flavor: PathFlavor) -> (r: (Root, Vec<char>))
    requires
        flavor == flavor_view(raw@),
    ensures
        (r.0@, r.1@) == root_view(raw@),
{
    let n: usize = raw.len();
    match flavor {
        PathFlavor::Posix => if n > 0 && raw[0] == '/' {
            (Root::Posix, slice(raw, 1, n))
        } else {
            (Root::Relative, slice(raw, 0, n))
        },
        PathFlavor::Windows => {
            // A drive letter only anchors when a separator follows it:
            // `D:foo` is relative to whatever directory that drive sits in.
            if has_drive_letter(raw) && (n == 2 || slash(raw[2])) {
                (Root::Drive(raw[0]), slice(raw, 2, n))
            } else {
                (Root::Relative, slice(raw, 0, n))
            }
        },
        PathFlavor::Unc => {
            let ghost body = raw@.skip(2);
            let first: usize = next_slash(raw, 2);
            let server = slice(raw, 2, first);
            assert(server@ == before_sep(body, slashes()));
            if first >= n {
                assert(before_sep(after_sep(body, slashes()), slashes()).len() == 0);
                return (Root::Relative, slice(raw, 0, n));
            }
            let ghost tail = raw@.skip(first + 1);
            assert(tail == after_sep(body, slashes()));
            let second: usize = next_slash(raw, first + 1);
            let share = slice(raw, first + 1, second);
            assert(share@ == before_sep(tail, slashes()));
            if server.len() == 0 || share.len() == 0 {
                return (Root::Relative, slice(raw, 0, n));
            }
            let rest = if second >= n {
                Vec::new()
            } else {
                slice(raw, second + 1, n)
            };
            assert(rest@ == after_sep(tail, slashes()));
            (Root::Share { server, share }, rest)
        },
    }
}

/// Take a path string apart.
pub fn parse(raw: &str) -> (r: Parsed)
    ensures
        r@ == parsed(raw@),
{
    let s = trimmed_str(raw);
    let flavor = detect(&s);
    let (root, rest) = split_root(&s, flavor);
    let separators = flavor.separators();
    let fragments = split_on(&rest, &separators);
    let ghost all = text::chars_views(fragments@);
    let mut escaped: bool = false;
    let mut segments: Vec<Vec<char>> = Vec::new();
    let mut i: usize = 0;
    while i < fragments.len()
        invariant
            i <= fragments.len(),
            all == text::chars_views(fragments@),
            (escaped, text::chars_views(segments@)) == resolve(all.take(i as int)),
        decreases fragments.len() - i,
    {
        let ghost kept = text::chars_views(segments@);
        assert(all.take(i + 1).drop_last() == all.take(i as int));
        let fragment = &fragments[i];
        let n: usize = fragment.len();
        assert(fragment@ == all[i as int]);
        if n == 2 && fragment[0] == '.' && fragment[1] == '.' {
            assert(fragment@ == dot_dot());
            if segments.len() == 0 {
                escaped = true;
            } else {
                segments.pop();
                assert(text::chars_views(segments@) == kept.drop_last());
            }
        } else {
            assert(fragment@ != dot_dot()) by {
                assert(dot_dot().len() == 2 && dot_dot()[0] == '.' && dot_dot()[1] == '.');
            }
            if n == 0 || (n == 1 && fragment[0] == '.') {
                assert(n == 1 ==> fragment@ =~= dot());
            } else {
                assert(fragment@ != dot()) by {
                    assert(dot().len() == 1 && dot()[0] == '.');
                }
                let copy = slice(fragment, 0, n);
                assert(copy@ == all[i as int]);
                segments.push(copy);
                assert(text::chars_views(segments@) == kept.push(all[i as int]));
            }
        }
        i += 1;
    }
    assert(all.take(fragments.len() as int) == all);
    let root = if escaped {
        Root::Relative
    } else {
        root
    };
    Parsed { flavor, root, segments }
}

/// Whether a path holds a `.` or a `..`.
fn holds_dots(raw: &str) -> (r: bool)
    ensures
        r == has_dots(raw@),
{
    let s = trimmed_str(raw);
    let flavor = detect(&s);
    let separators = flavor.separators();
    let fragments = split_on(&s, &separators);
    let ghost all = fragments_of(raw@);
    assert(all == text::chars_views(fragments@));
    let mut i: usize = 0;
    while i < fragments.len()
        invariant
            i <= fragments.len(),
            all == fragments_of(raw@),
            all == text::chars_views(fragments@),
            forall|j: int| 0 <= j < i ==> #[trigger] all[j] != dot() && all[j] != dot_dot(),
        decreases fragments.len() - i,
    {
        let fragment = &fragments[i];
        let n: usize = fragment.len();
        assert(fragment@ == all[i as int]);
        assert(dot().len() == 1 && dot()[0] == '.');
        assert(dot_dot().len() == 2 && dot_dot()[0] == '.' && dot_dot()[1] == '.');
        if n == 1 && fragment[0] == '.' {
            assert(fragment@ =~= dot());
            return true;
        }
        if n == 2 && fragment[0] == '.' && fragment[1] == '.' {
            assert(fragment@ =~= dot_dot());
            return true;
        }
        i += 1;
    }
    false
}

/// Anchor equality; an unanchored path is equal to nothing.
fn root_eq(a: &Root, b: &Root) -> (r: bool)
    ensures
        r == root_matches(a@, b@),
{
    match (a, b) {
        (Root::Posix, Root::Posix) => true,
        (Root::Drive(x), Root::Drive(y)) => to_lower(*x) == to_lower(*y),
        (Root::Share { server: s1, share: h1 }, Root::Share { server: s2, share: h2 }) => {
            same_fold(s1, s2) && same_fold(h1, h2)
        },
        _ => false,
    }
}

/// Component equality, by the namespace's own case rule.
fn segment_eq(a: &[char], b: &[char], flavor: PathFlavor) -> (r: bool)
    ensures
        r == segment_matches(a@, b@, flavor),
{
    match flavor {
        PathFlavor::Posix => same(a, b),
        PathFlavor::Windows | PathFlavor::Unc => same_fold(a, b),
    }
}

/// How many components of `path` the `prefix` consumes, or `None` when it
/// does not cover `path`.
pub fn covers(prefix: &Parsed, path: &Parsed) -> (r: Option<usize>)
    ensures
        r == if covers_view(prefix@, path@) {
            Some(prefix.segments.len())
        } else {
            None::<usize>
        },
{
    if !root_eq(&prefix.root, &path.root) {
        return None;
    }
    if prefix.segments.len() > path.segments.len() {
        return None;
    }
    let mut i: usize = 0;
    while i < prefix.segments.len()
        invariant
            i <= prefix.segments.len() <= path.segments.len(),
            forall|j: int|
                0 <= j < i ==> segment_matches(
                    #[trigger] prefix@.segments[j],
                    path@.segments[j],
                    prefix.flavor,
                ),
        decreases prefix.segments.len() - i,
    {
        assert(prefix@.segments[i as int] == prefix.segments@[i as int]@);
        assert(path@.segments[i as int] == path.segments@[i as int]@);
        if !segment_eq(&prefix.segments[i], &path.segments[i], prefix.flavor) {
            return None;
        }
        i += 1;
    }
    Some(prefix.segments.len())
}

// ---------------------------------------------------------------------
// Translating
// ---------------------------------------------------------------------

proof fn lemma_preferred_over_the_rest(a: PathMapping, b: PathMapping, c: PathMapping)
    requires
        preferred(a, b),
        !preferred(c, b),
    ensures
        preferred(a, c),
        !preferred(c, a),
{
    let (ta, tb, tc) = (a.remote_prefix@, b.remote_prefix@, c.remote_prefix@);
    text::lemma_text_less_total(tb, tc);
    if text::text_less(ta, tb) && text::text_less(tb, tc) {
        text::lemma_text_less_transitive(ta, tb, tc);
    }
    if text::text_less(ta, tc) && text::text_less(tc, ta) {
        text::lemma_text_less_transitive(ta, tc, ta);
    }
    text::lemma_text_less_irreflexive(ta);
}

/// Append an already-split component. The tail carries no separator, so
/// gluing it onto the local prefix adopts this machine's.
fn append_component(base: Vec<char>, segment: &[char], separator: char) -> (r: Vec<char>)
    ensures
        r@ == with_component(base@, segment@, separator),
{
    let mut out = base;
    let n: usize = out.len();
    if n > 0 && !slash(out[n - 1]) {
        out.push(separator);
    }
    extend(&mut out, segment);
    out
}

/// Reassemble a parsed path in its own flavour's spelling.
fn rebuild(p: &Parsed) -> (r: Vec<char>)
    ensures
        r@ == rebuilt(p@),
{
    let mut out: Vec<char> = Vec::new();
    let mut separator: Vec<char> = Vec::new();
    match &p.root {
        Root::Posix => {
            out.push('/');
            separator.push('/');
        },
        Root::Drive(letter) => {
            out.push(*letter);
            out.push(':');
            out.push('\\');
            separator.push('\\');
        },
        Root::Share { server, share } => {
            out.push('\\');
            out.push('\\');
            extend(&mut out, server);
            out.push('\\');
            extend(&mut out, share);
            out.push('\\');
            separator.push('\\');
        },
        Root::Relative => {
            separator.push('/');
        },
    }
    assert(out@ =~= root_text(p.root@));
    assert(separator@ =~= root_separator(p.root@));
    let tail = joined(&p.segments, &separator);
    extend(&mut out, &tail);
    out
}

/// The best covering row, with the components it consumes.
fn best_row(mappings: &[PathMapping], path: &Parsed) -> (r: Option<(usize, usize)>)
    ensures
        match r {
            Some((k, n)) => is_best(mappings@, path@, k as int) && n == depth(mappings@[k as int]),
            None => forall|k: int| !#[trigger] row_covers(mappings@, path@, k),
        },
{
    let mut best: Option<(usize, usize)> = None;
    let mut i: usize = 0;
    while i < mappings.len()
        invariant
            i <= mappings.len(),
            match best {
                Some((k, n)) => {
                    &&& k < i
                    &&& n == depth(mappings@[k as int])
                    &&& is_best(mappings@.take(i as int), path@, k as int)
                },
                None => forall|k: int| !#[trigger] row_covers(mappings@.take(i as int), path@, k),
            },
        decreases mappings.len() - i,
    {
        let ghost seen = mappings@.take(i as int);
        let ghost next = mappings@.take(i + 1);
        assert forall|j: int| #[trigger] row_covers(next, path@, j) && j < i implies row_covers(
            seen,
            path@,
            j,
        ) by {}
        let candidate = &mappings[i];
        let prefix = parse(candidate.remote_prefix.as_str());
        let covered = covers(&prefix, path);
        if let Some(n) = covered {
            assert(row_covers(next, path@, i as int));
            let wins = match best {
                None => true,
                Some((k, m)) => {
                    let a = chars_of(candidate.remote_prefix.as_str());
                    let b = chars_of(mappings[k].remote_prefix.as_str());
                    let w = n > m || (n == m && less(&a, &b));
                    assert(w == preferred(mappings@[i as int], mappings@[k as int]));
                    w
                },
            };
            if wins {
                proof {
                    text::lemma_text_less_irreflexive(mappings@[i as int].remote_prefix@);
                    if let Some((k, m)) = best {
                        assert forall|j: int| #[trigger] row_covers(next, path@, j) && j < i implies
                            preferred(next[i as int], next[j]) && !preferred(next[j], next[i as int]) by {
                            assert(row_covers(seen, path@, j));
                            lemma_preferred_over_the_rest(
                                mappings@[i as int],
                                mappings@[k as int],
                                mappings@[j],
                            );
                        }
                    }
                }
                best = Some((i, n));
                assert(is_best(next, path@, i as int));
            } else {
                proof {
                    let k = (best->0).0 as int;
                    assert(row_covers(next, path@, k)) by {
                        assert(row_covers(seen, path@, k));
                    }
                    assert(is_best(next, path@, k));
                }
            }
        } else {
            proof {
                if let Some((k, m)) = best {
                    assert(row_covers(seen, path@, k as int));
                    assert(row_covers(next, path@, k as int));
                    assert(is_best(next, path@, k as int));
                }
            }
        }
        i += 1;
    }
    assert(mappings@.take(mappings.len() as int) == mappings@);
    best
}

/// Rewrite a client-reported path into the namespace of a machine whose
/// separator is `separator`. A path no mapping covers comes back unchanged
/// but for its `.` and `..`, and an unanchored one exactly as reported.
pub fn translate_on(mappings: &[PathMapping], reported: &str, separator: char) -> (r: Translation)
    ensures
        translates(mappings@, reported@, separator, r),
{
    let path = parse(reported);
    let rooted = match path.root {
        Root::Relative => false,
        _ => true,
    };
    match best_row(mappings, &path) {
        Some((k, n)) => {
            let row = &mappings[k];
            let ghost tail = path@.segments.skip(n as int);
            let mut local = chars_of(row.local_prefix.as_str());
            let mut i: usize = n;
            while i < path.segments.len()
                invariant
                    n <= i <= path.segments.len(),
                    tail == path@.segments.skip(n as int),
                    local@ == with_components(row.local_prefix@, tail.take(i - n), separator),
                decreases path.segments.len() - i,
            {
                assert(tail.take(i - n + 1).drop_last() == tail.take(i - n));
                assert(tail[i - n] == path.segments@[i as int]@);
                local = append_component(local, &path.segments[i], separator);
                i += 1;
            }
            assert(tail.take(path.segments.len() - n) == tail);
            let out = Translation {
                local: string_of(&local),
                applied: Some(
                    AppliedRule {
                        id: row.id,
                        remote_prefix: row.remote_prefix.clone(),
                        local_prefix: row.local_prefix.clone(),
                    },
                ),
                flavor: path.flavor,
                rooted,
            };
            assert(is_best(mappings@, path@, k as int));
            out
        },
        None => {
            let local = if rooted && holds_dots(reported) {
                rebuild(&path)
            } else {
                trimmed_str(reported)
            };
            Translation {
                local: string_of(&local),
                applied: None,
                flavor: path.flavor,
                rooted,
            }
        },
    }
}

/// Rewrite a client-reported path into this machine's namespace.
pub fn translate(mappings: &[PathMapping], reported: &str) -> (r: Translation)
    ensures
        exists|separator: char|
            is_slash(separator) && #[trigger] translates(mappings@, reported@, separator, r),
{
    let separator = host_separator();
    translate_on(mappings, reported, separator)
}

/// Whether `r` says that a path nothing translated is not of this machine's kind.
pub open spec fn is_foreign_to(r: bool, t: Translation, separator: char) -> bool {
    r == (t.applied is None && !native(t.flavor, separator))
}

impl Translation {
    /// `true` when nothing rewrote the path and a machine with this
    /// separator cannot open the namespace it is written in.
    pub fn is_foreign_on(&self, separator: char) -> (r: bool)
        ensures
            is_foreign_to(r, *self, separator),
    {
        self.applied.is_none() && !self.flavor.is_native_on(separator)
    }

    /// `true` when nothing rewrote the path and this machine cannot open
    /// the namespace it is written in. Always `false` once a mapping
    /// applied.
    pub fn is_foreign(&self) -> (r: bool)
        ensures
            self.applied is Some ==> !r,
            exists|separator: char|
                #[trigger] is_slash(separator) && r == (self.applied is None && !native(
                    self.flavor,
                    separator,
                )),
    {
        let separator = host_separator();
        self.is_foreign_on(separator)
    }
}

/// Whether `r` says that this machine can follow a path.
pub open spec fn is_usable_here(r: bool, translation: Translation, separator: char) -> bool {
    r == (translation.rooted && (translation.applied is Some || native(
        translation.flavor,
        separator,
    )))
}

/// Whether a path can be handed to the filesystem of a machine with this
/// separator: anchored, and in a namespace that machine understands.
pub fn is_usable_on(translation: &Translation, separator: char) -> (r: bool)
    ensures
        is_usable_here(r, *translation, separator),
{
    translation.rooted && !translation.is_foreign_on(separator)
}

/// Whether a path can be handed to this machine's filesystem.
pub fn is_usable(translation: &Translation) -> (r: bool)
    ensures
        !translation.rooted ==> !r,
        translation.rooted && translation.applied is Some ==> r,
        exists|separator: char|
            #[trigger] is_slash(separator) && r == (translation.rooted && (translation.applied
                is Some || native(translation.flavor, separator))),
{
    let separator = host_separator();
    is_usable_on(translation, separator)
}

/// The translated path alone.
pub fn local_path(mappings: &[PathMapping], reported: &str) -> (r: String)
    ensures
        exists|separator: char, t: Translation|
            is_slash(separator) && #[trigger] translates(mappings@, reported@, separator, t) && r
                == t.local,
{
    translate(mappings, reported).local
}

/// Rewrite an operator-typed prefix into the form the table stores and the
/// matching compares: trimmed, separators collapsed and written in the
/// prefix's own style, `.` and `..` resolved, no trailing separator, and the
/// case as typed. A last name that ends in white space keeps the separator
/// behind it, or the matching would read another name. `None` for a prefix
/// that anchors nothing and for the bare POSIX root.
pub fn canonical_prefix(raw: &str) -> (r: Option<String>)
    ensures
        match r {
            Some(s) => canonical(raw@) == Some(s@),
            None => canonical(raw@) is None,
        },
{
    let p = parse(raw);
    let mut out: Vec<char> = Vec::new();
    let mut separator: Vec<char> = Vec::new();
    match &p.root {
        Root::Relative => {
            return None;
        },
        Root::Posix => {
            if p.segments.len() == 0 {
                return None;
            }
            out.push('/');
            separator.push('/');
        },
        Root::Drive(letter) => {
            out.push(*letter);
            out.push(':');
            out.push('\\');
            separator.push('\\');
        },
        Root::Share { server, share } => {
            out.push('\\');
            out.push('\\');
            extend(&mut out, server);
            out.push('\\');
            extend(&mut out, share);
            separator.push('\\');
        },
    }
    assert(out@ =~= prefix_root_text(p.root@));
    assert(separator@ =~= root_separator(p.root@));
    if p.segments.len() > 0 {
        if let Root::Share { server: _, share: _ } = &p.root {
            out.push('\\');
        }
        let tail = joined(&p.segments, &separator);
        extend(&mut out, &tail);
    }
    assert(p@.segments.len() == p.segments.len());
    assert(out@ =~= prefix_root_text(p.root@) + (if p.root@ is Share && p@.segments.len() > 0 {
        separator@
    } else {
        Seq::empty()
    }) + text::join(p@.segments, separator@));
    assert(out@ == prefix_text(p@));
    let n: usize = out.len();
    if white(out[n - 1]) {
        extend(&mut out, &separator);
    }
    Some(string_of(&out))
}

/// How many components a prefix pins, the number "longest wins" compares.
pub fn specificity(prefix: &str) -> (r: usize)
    ensures
        r == parsed(prefix@).segments.len(),
{
    let p = parse(prefix);
    assert(p@.segments.len() == p.segments.len());
    p.segments.len()
}

/// The flavour of a string, for the operator's message.
pub fn flavor_of(raw: &str) -> (r: PathFlavor)
    ensures
        r == flavor_view(text::trim(raw@)),
{
    let s = trimmed_str(raw);
    detect(&s)
}

/// Whether `path` sits under `root`, component by component, on this
/// machine: used to warn about a local side that no root folder can reach.
pub fn is_under(path: &str, root: &str) -> (r: bool)
    ensures
        exists|separator: char|
            is_slash(separator) && r == #[trigger] host_path::under(path@, root@, separator),
{
    let separator = host_separator();
    host_path::is_under_on(path, root, separator)
}

// ---------------------------------------------------------------------
// Laws
// ---------------------------------------------------------------------

proof fn lemma_resolve_names(fragments: Seq<Seq<char>>, seps: Set<char>)
    requires
        forall|i: int| 0 <= i < fragments.len() ==> text::free_of(#[trigger] fragments[i], seps),
    ensures
        forall|i: int|
            0 <= i < resolve(fragments).1.len() ==> names_something(
                #[trigger] resolve(fragments).1[i],
            ) && text::free_of(resolve(fragments).1[i], seps),
    decreases fragments.len(),
{
    if fragments.len() > 0 {
        let before = fragments.drop_last();
        assert forall|i: int| 0 <= i < before.len() implies text::free_of(
            #[trigger] before[i],
            seps,
        ) by {
            assert(before[i] == fragments[i]);
        }
        lemma_resolve_names(before, seps);
        let kept = resolve(before).1;
        assert(text::free_of(fragments[fragments.len() - 1], seps));
        assert forall|i: int| 0 <= i < resolve(fragments).1.len() implies names_something(
            #[trigger] resolve(fragments).1[i],
        ) && text::free_of(resolve(fragments).1[i], seps) by {
            if i < kept.len() {
                assert(resolve(fragments).1[i] == kept[i]);
                assert(names_something(kept[i]));
            }
        }
    }
}

/// Every component of a parsed path names something: it is not empty, not
/// `.` and not `..`, and it holds none of its flavour's separators. So a
/// `..` never reaches the filesystem through a component.
pub proof fn components_name_something(raw: Seq<char>)
    ensures
        forall|i: int|
            0 <= i < parsed(raw).segments.len() ==> names_something(
                #[trigger] parsed(raw).segments[i],
            ) && text::free_of(parsed(raw).segments[i], separators_of(parsed(raw).flavor)),
{
    let s = text::trim(raw);
    let seps = separators_of(flavor_view(s));
    let rest = root_view(s).1;
    text::lemma_split_free(rest, seps);
    lemma_resolve_names(text::split(rest, seps), seps);
}

/// An anchor belongs to one flavour: POSIX roots to POSIX paths, drives to
/// Windows paths, shares to UNC paths.
pub proof fn anchors_follow_the_flavor(raw: Seq<char>)
    ensures
        match parsed(raw).root {
            RootView::Posix => parsed(raw).flavor == PathFlavor::Posix,
            RootView::Drive(c) => parsed(raw).flavor == PathFlavor::Windows && is_drive(c),
            RootView::Share(server, share) => {
                &&& parsed(raw).flavor == PathFlavor::Unc
                &&& server.len() > 0
                &&& share.len() > 0
                &&& text::free_of(server, slashes())
                &&& text::free_of(share, slashes())
            },
            RootView::Relative => true,
        },
{
    let s = text::trim(raw);
    let body = s.skip(2);
    lemma_before_sep(body, slashes());
    let tail = after_sep(body, slashes());
    lemma_before_sep(tail, slashes());
    let server = before_sep(body, slashes());
    let share = before_sep(tail, slashes());
    assert forall|i: int| 0 <= i < server.len() implies !slashes().contains(
        #[trigger] server[i],
    ) by {
        assert(server[i] == body[i]);
    }
    assert forall|i: int| 0 <= i < share.len() implies !slashes().contains(
        #[trigger] share[i],
    ) by {
        assert(share[i] == tail[i]);
    }
}

pub open spec fn is_drive(c: char) -> bool {
    text::is_letter(c)
}

/// A rule covers only paths of its own namespace, and neither side of a
/// match is unanchored. In particular a UNC rule never covers a POSIX path.
pub proof fn a_rule_covers_only_its_own_namespace(prefix: Seq<char>, path: Seq<char>)
    requires
        covers_view(parsed(prefix), parsed(path)),
    ensures
        parsed(prefix).flavor == parsed(path).flavor,
        !(parsed(prefix).root is Relative),
        !(parsed(path).root is Relative),
{
    anchors_follow_the_flavor(prefix);
    anchors_follow_the_flavor(path);
}

/// Which rule applies does not depend on the order of the rows: over two
/// listings of the same rows, no two of which share a prefix, the best row
/// is the same row.
pub proof fn row_order_does_not_matter(
    a: Seq<PathMapping>,
    b: Seq<PathMapping>,
    path: ParsedView,
    i: int,
    j: int,
)
    requires
        a.to_multiset() == b.to_multiset(),
        forall|x: int, y: int|
            0 <= x < y < a.len() ==> #[trigger] a[x].remote_prefix@ != #[trigger] a[y].remote_prefix@,
        is_best(a, path, i),
        is_best(b, path, j),
    ensures
        a[i] == b[j],
{
    broadcast use vstd::seq_lib::group_to_multiset_ensures;

    assert(a.to_multiset().count(b[j]) > 0) by {
        assert(b.contains(b[j]));
    }
    assert(b.to_multiset().count(a[i]) > 0) by {
        assert(a.contains(a[i]));
    }
    let i2 = choose|x: int| 0 <= x < a.len() && a[x] == b[j];
    let j2 = choose|x: int| 0 <= x < b.len() && b[x] == a[i];
    assert(row_covers(a, path, i2));
    assert(row_covers(b, path, j2));
    text::lemma_text_less_total(a[i].remote_prefix@, b[j].remote_prefix@);
    if i2 < i {
        assert(a[i2].remote_prefix@ != a[i].remote_prefix@);
    } else if i < i2 {
        assert(a[i].remote_prefix@ != a[i2].remote_prefix@);
    }
}

/// There is a best row exactly when some row covers the path.
pub proof fn a_covered_path_has_a_best_row(rows: Seq<PathMapping>, path: ParsedView, k: int)
    requires
        row_covers(rows, path, k),
    ensures
        exists|b: int| is_best(rows, path, b),
    decreases rows.len(),
{
    let before = rows.drop_last();
    let n = rows.len() - 1;
    if exists|j: int| row_covers(before, path, j) {
        let j = choose|j: int| row_covers(before, path, j);
        a_covered_path_has_a_best_row(before, path, j);
        let b = choose|b: int| is_best(before, path, b);
        assert(row_covers(before, path, b));
        assert(row_covers(rows, path, b));
        assert forall|x: int| #[trigger] row_covers(rows, path, x) && x < n implies row_covers(
            before,
            path,
            x,
        ) by {}
        if row_covers(rows, path, n) && preferred(rows[n], rows[b]) {
            text::lemma_text_less_irreflexive(rows[n].remote_prefix@);
            assert forall|x: int| #[trigger] row_covers(rows, path, x) implies !preferred(
                rows[x],
                rows[n],
            ) && (x < n ==> preferred(rows[n], rows[x])) by {
                if x < n {
                    assert(row_covers(before, path, x));
                    lemma_preferred_over_the_rest(rows[n], rows[b], rows[x]);
                }
            }
            assert(is_best(rows, path, n));
        } else {
            assert(is_best(rows, path, b));
        }
    } else {
        assert(k == n) by {
            if k < n {
                assert(row_covers(before, path, k));
            }
        }
        assert forall|x: int| #[trigger] row_covers(rows, path, x) implies x == n by {
            if x < n {
                assert(row_covers(before, path, x));
            }
        }
        text::lemma_text_less_irreflexive(rows[n].remote_prefix@);
        assert(is_best(rows, path, n));
    }
}

proof fn lemma_resolve_named(fragments: Seq<Seq<char>>)
    requires
        forall|i: int| 0 <= i < fragments.len() ==> names_something(#[trigger] fragments[i]),
    ensures
        resolve(fragments) == (false, fragments),
        resolve(seq![Seq::<char>::empty()] + fragments) == (false, fragments),
    decreases fragments.len(),
{
    let e = Seq::<char>::empty();
    assert(dot().len() == 1);
    assert(dot_dot().len() == 2);
    if fragments.len() == 0 {
        assert((seq![e] + fragments).drop_last() =~= Seq::<Seq<char>>::empty());
        assert(fragments =~= Seq::empty());
        assert(resolve(Seq::<Seq<char>>::empty()) == (false, Seq::<Seq<char>>::empty()));
        assert((seq![e] + fragments).last() == e);
    } else {
        let before = fragments.drop_last();
        assert forall|i: int| 0 <= i < before.len() implies names_something(#[trigger] before[i]) by {
            assert(before[i] == fragments[i]);
        }
        lemma_resolve_named(before);
        assert(names_something(fragments[fragments.len() - 1]));
        assert(before.push(fragments.last()) =~= fragments);
        assert((seq![e] + fragments).drop_last() =~= seq![e] + before);
        assert((seq![e] + fragments).last() == fragments.last());
    }
}

/// A trailing separator adds no component.
proof fn lemma_closing_resolves(s: Seq<char>, sep: char, seps: Set<char>)
    requires
        seps.contains(sep),
    ensures
        resolve(text::split(s + seq![sep], seps)) == resolve(text::split(s, seps)),
{
    let whole = s + seq![sep];
    assert(whole.drop_last() =~= s);
    assert(whole.last() == sep);
    let f = text::split(s, seps);
    assert(text::split(whole, seps) =~= f.push(Seq::empty()));
    assert(f.push(Seq::empty()).drop_last() =~= f);
    assert(dot_dot().len() == 2);
}

/// What follows an anchor, written out from components, resolves to those
/// components, with a separator behind it or without.
proof fn lemma_tail_resolves(segments: Seq<Seq<char>>, sep: char, seps: Set<char>)
    requires
        seps.contains(sep),
        forall|i: int|
            0 <= i < segments.len() ==> names_something(#[trigger] segments[i]) && text::free_of(
                segments[i],
                seps,
            ),
    ensures
        resolve(text::split(text::join(segments, seq![sep]), seps)) == (false, segments),
        resolve(text::split(seq![sep] + text::join(segments, seq![sep]), seps)) == (
            false,
            segments,
        ),
        resolve(text::split(text::join(segments, seq![sep]) + seq![sep], seps)) == (
            false,
            segments,
        ),
        resolve(text::split(seq![sep] + text::join(segments, seq![sep]) + seq![sep], seps)) == (
            false,
            segments,
        ),
{
    let e = Seq::<char>::empty();
    let tail = text::join(segments, seq![sep]);
    lemma_closing_resolves(tail, sep, seps);
    lemma_closing_resolves(seq![sep] + tail, sep, seps);
    text::lemma_split_join(segments, sep, seps);
    text::lemma_split_leading(sep, tail, seps);
    lemma_resolve_named(segments);
    if segments.len() == 0 {
        assert(segments =~= Seq::empty());
        lemma_resolve_named(Seq::empty());
        assert(seq![e] + Seq::<Seq<char>>::empty() =~= seq![e]);
        assert((seq![e] + seq![e]).drop_last() =~= seq![e]);
        assert((seq![e] + seq![e]).last() == e);
    }
}

proof fn lemma_run_length(a: Seq<char>, rest: Seq<char>)
    requires
        text::free_of(a, slashes()),
    ensures
        run_length(a, slashes()) == a.len(),
        run_length(a + seq!['\\'] + rest, slashes()) == a.len(),
    decreases a.len(),
{
    let whole = a + seq!['\\'] + rest;
    if a.len() > 0 {
        assert(!slashes().contains(a[0]));
        let short = a.drop_first();
        assert forall|i: int| 0 <= i < short.len() implies !slashes().contains(
            #[trigger] short[i],
        ) by {
            assert(short[i] == a[i + 1]);
        }
        lemma_run_length(short, rest);
        assert(whole.drop_first() =~= short + seq!['\\'] + rest);
        assert(whole[0] == a[0]);
    } else {
        assert(whole[0] == '\\');
    }
}

pub proof fn lemma_posix_parses(segments: Seq<Seq<char>>, text: Seq<char>)
    requires
        !text::is_white(text.last()),
        forall|i: int|
            0 <= i < segments.len() ==> names_something(#[trigger] segments[i]) && text::free_of(
                segments[i],
                set!['/'],
            ),
        ({
            let open = seq!['/'] + text::join(segments, seq!['/']);
            text == open || segments.len() > 0 && text == open + seq!['/']
        }),
    ensures
        parsed(text) == (ParsedView { flavor: PathFlavor::Posix, root: RootView::Posix, segments }),
{
    let tail = text::join(segments, seq!['/']);
    assert(text[0] == '/');
    text::lemma_trim_tight(text);
    lemma_tail_resolves(segments, '/', set!['/']);
    if text == seq!['/'] + tail {
        assert(text.skip(1) =~= tail);
    } else {
        assert(text.skip(1) =~= tail + seq!['/']);
    }
    if segments.len() > 0 {
        lemma_join_head(segments, seq!['/']);
        assert(text[1] == tail[0]);
        assert(!set!['/'].contains(segments[0][0]));
    }
    assert(!unc_root(text));
}

pub proof fn lemma_drive_parses(c: char, segments: Seq<Seq<char>>, text: Seq<char>)
    requires
        is_drive(c),
        !text::is_white(text.last()),
        forall|i: int|
            0 <= i < segments.len() ==> names_something(#[trigger] segments[i]) && text::free_of(
                segments[i],
                slashes(),
            ),
        ({
            let open = seq![c, ':', '\\'] + text::join(segments, seq!['\\']);
            text == open || text == open + seq!['\\']
        }),
    ensures
        parsed(text) == (ParsedView {
            flavor: PathFlavor::Windows,
            root: RootView::Drive(c),
            segments,
        }),
{
    let tail = text::join(segments, seq!['\\']);
    assert(text[0] == c && text[1] == ':' && text[2] == '\\');
    text::lemma_trim_tight(text);
    lemma_tail_resolves(segments, '\\', slashes());
    if text == seq![c, ':', '\\'] + tail {
        assert(text.skip(2) =~= seq!['\\'] + tail);
    } else {
        assert(text.skip(2) =~= seq!['\\'] + tail + seq!['\\']);
    }
}

/// A share without components may be written without the separator after
/// it.
pub proof fn lemma_share_parses(
    server: Seq<char>,
    share: Seq<char>,
    segments: Seq<Seq<char>>,
    text: Seq<char>,
)
    requires
        server.len() > 0,
        share.len() > 0,
        text::free_of(server, slashes()),
        text::free_of(share, slashes()),
        !text::is_white(text.last()),
        forall|i: int|
            0 <= i < segments.len() ==> names_something(#[trigger] segments[i]) && text::free_of(
                segments[i],
                slashes(),
            ),
        ({
            let head = seq!['\\', '\\'] + server + seq!['\\'] + share;
            let open = head + seq!['\\'] + text::join(segments, seq!['\\']);
            ||| text == open
            ||| text == open + seq!['\\']
            ||| segments.len() == 0 && text == head
        }),
    ensures
        parsed(text) == (ParsedView {
            flavor: PathFlavor::Unc,
            root: RootView::Share(server, share),
            segments,
        }),
{
    let tail = text::join(segments, seq!['\\']);
    let head = seq!['\\', '\\'] + server + seq!['\\'] + share;
    assert(text[0] == '\\' && text[1] == '\\' && text[2] == server[0]);
    assert(!slashes().contains(server[0]));
    text::lemma_trim_tight(text);
    lemma_tail_resolves(segments, '\\', slashes());
    if segments.len() == 0 && text == head {
        lemma_run_length(server, share);
        lemma_run_length(share, Seq::empty());
        assert(text.skip(2) =~= server + seq!['\\'] + share);
        assert(before_sep(text.skip(2), slashes()) =~= server);
        assert(after_sep(text.skip(2), slashes()) =~= share);
        assert(before_sep(share, slashes()) =~= share);
        assert(tail =~= Seq::empty());
    } else {
        let behind = if text == head + seq!['\\'] + tail {
            tail
        } else {
            tail + seq!['\\']
        };
        let rest = share + seq!['\\'] + behind;
        lemma_run_length(server, rest);
        lemma_run_length(share, behind);
        assert(text.skip(2) =~= server + seq!['\\'] + rest);
        assert(before_sep(text.skip(2), slashes()) =~= server);
        assert(after_sep(text.skip(2), slashes()) =~= rest);
        assert(before_sep(rest, slashes()) =~= share);
        assert(after_sep(rest, slashes()) =~= behind);
    }
}

proof fn lemma_join_head(parts: Seq<Seq<char>>, sep: Seq<char>)
    requires
        parts.len() > 0,
        parts[0].len() > 0,
    ensures
        text::join(parts, sep).len() > 0,
        text::join(parts, sep)[0] == parts[0][0],
    decreases parts.len(),
{
    if parts.len() > 1 {
        lemma_join_head(parts.drop_last(), sep);
    }
}

/// What a canonical prefix means: the path it was made from.
pub proof fn a_canonical_prefix_keeps_its_meaning(raw: Seq<char>, stored: Seq<char>)
    requires
        canonical(raw) == Some(stored),
    ensures
        parsed(stored) == parsed(raw),
{
    let p = parsed(raw);
    components_name_something(raw);
    anchors_follow_the_flavor(raw);
    let tail = text::join(p.segments, root_separator(p.root));
    let open = prefix_text(p);
    assert(!text::is_white('/') && !text::is_white('\\'));
    match p.root {
        RootView::Posix => {
            assert(open =~= seq!['/'] + tail);
            lemma_posix_parses(p.segments, stored);
        },
        RootView::Drive(c) => {
            assert(open =~= seq![c, ':', '\\'] + tail);
            lemma_drive_parses(c, p.segments, stored);
        },
        RootView::Share(server, share) => {
            let head = seq!['\\', '\\'] + server + seq!['\\'] + share;
            if p.segments.len() > 0 {
                assert(open =~= head + seq!['\\'] + tail);
            } else {
                assert(open =~= head);
                assert(head + seq!['\\'] =~= head + seq!['\\'] + tail);
            }
            lemma_share_parses(server, share, p.segments, stored);
        },
        RootView::Relative => {},
    }
}

/// A canonical prefix covers the path it was made from, so the table never
/// stores a rule that silently never fires: alone in the table it is the
/// rule that applies, and it leaves nothing of the path to append.
pub proof fn a_canonical_prefix_round_trips_through_matching(
    raw: Seq<char>,
    row: PathMapping,
    separator: char,
)
    requires
        canonical(raw) == Some(row.remote_prefix@),
    ensures
        covers_view(parsed(row.remote_prefix@), parsed(raw)),
        is_best(seq![row], parsed(raw), 0),
        applied_local(row, parsed(raw), separator) == row.local_prefix@,
        flavor_view(text::trim(row.remote_prefix@)) == flavor_view(text::trim(raw)),
        depth(row) == parsed(raw).segments.len(),
{
    let rows = seq![row];
    a_canonical_prefix_keeps_its_meaning(raw, row.remote_prefix@);
    anchors_follow_the_flavor(raw);
    assert(row_covers(rows, parsed(raw), 0));
    text::lemma_text_less_irreflexive(row.remote_prefix@);
    assert(parsed(raw).segments.skip(depth(row) as int) =~= Seq::empty());
}

/// Canonicalising a canonical prefix changes nothing.
pub proof fn canonicalising_twice_is_canonicalising_once(raw: Seq<char>, stored: Seq<char>)
    requires
        canonical(raw) == Some(stored),
    ensures
        canonical(stored) == Some(stored),
{
    a_canonical_prefix_keeps_its_meaning(raw, stored);
}

/// A path no rule covers comes through untouched: as reported, but for the
/// white space around it and a `.` or `..` that had to be resolved.
pub proof fn an_uncovered_path_comes_through_untouched(
    rows: Seq<PathMapping>,
    reported: Seq<char>,
    separator: char,
    t: Translation,
)
    requires
        translates(rows, reported, separator, t),
        forall|k: int| !#[trigger] row_covers(rows, parsed(reported), k),
    ensures
        t.applied is None,
        !has_dots(reported) ==> t.local@ == text::trim(reported),
{
    if t.applied is Some {
        let k = choose|k: int| #[trigger] is_best(rows, parsed(reported), k);
        assert(row_covers(rows, parsed(reported), k));
    }
}

/// Resolving the dots of a path does not change what it means. A path whose
/// resolved text ends in white space is left out: reading that text again
/// would trim it.
pub proof fn resolving_dots_keeps_the_meaning(raw: Seq<char>)
    requires
        !(parsed(raw).root is Relative),
        !text::is_white(rebuilt(parsed(raw)).last()),
    ensures
        parsed(rebuilt(parsed(raw))) == parsed(raw),
        rebuilt(parsed(rebuilt(parsed(raw)))) == rebuilt(parsed(raw)),
{
    let p = parsed(raw);
    components_name_something(raw);
    anchors_follow_the_flavor(raw);
    match p.root {
        RootView::Posix => {
            lemma_posix_parses(p.segments, rebuilt(p));
        },
        RootView::Drive(c) => {
            lemma_drive_parses(c, p.segments, rebuilt(p));
        },
        RootView::Share(server, share) => {
            lemma_share_parses(server, share, p.segments, rebuilt(p));
        },
        RootView::Relative => {},
    }
}

/// Whether a `..` stands as a component of its own at `i`.
pub open spec fn steps_up_at(s: Seq<char>, seps: Set<char>, i: int) -> bool {
    &&& 0 <= i
    &&& i + 2 <= s.len()
    &&& s[i] == '.'
    &&& s[i + 1] == '.'
    &&& i == 0 || seps.contains(s[i - 1])
    &&& i + 2 == s.len() || seps.contains(s[i + 2])
}

/// Whether a text has a `..` component.
pub open spec fn steps_up(s: Seq<char>, seps: Set<char>) -> bool {
    exists|i: int| #[trigger] steps_up_at(s, seps, i)
}

/// The characters a machine with this separator splits paths at.
pub open spec fn machine_separators(separator: char) -> Set<char> {
    if separator == '\\' {
        slashes()
    } else {
        set!['/']
    }
}

/// The text appended below a base never has a `..` component when none of
/// the appended names is one.
proof fn lemma_appended_never_steps_up(
    base: Seq<char>,
    segments: Seq<Seq<char>>,
    separator: char,
    seps: Set<char>,
)
    requires
        is_slash(separator),
        !seps.contains('.'),
        forall|i: int|
            0 <= i < segments.len() ==> names_something(#[trigger] segments[i]) && text::free_of(
                segments[i],
                seps,
            ),
    ensures
        base.len() <= with_components(base, segments, separator).len(),
        with_components(base, segments, separator).take(base.len() as int) == base,
        !steps_up(with_components(base, segments, separator).skip(base.len() as int), seps),
        base.len() > 0 && !is_slash(base.last()) && segments.len() > 0 ==> {
            &&& base.len() < with_components(base, segments, separator).len()
            &&& with_components(base, segments, separator)[base.len() as int] == separator
        },
    decreases segments.len(),
{
    let whole = with_components(base, segments, separator);
    let below = whole.skip(base.len() as int);
    if segments.len() == 0 {
        assert(below.len() == 0);
        assert(whole.take(base.len() as int) =~= base);
    } else {
        let before = segments.drop_last();
        let name = segments.last();
        assert forall|i: int| 0 <= i < before.len() implies names_something(#[trigger] before[i])
            && text::free_of(before[i], seps) by {
            assert(before[i] == segments[i]);
        }
        lemma_appended_never_steps_up(base, before, separator, seps);
        let shorter = with_components(base, before, separator);
        let under = shorter.skip(base.len() as int);
        assert(shorter =~= base + under);
        assert(names_something(segments[segments.len() - 1]));
        let glue = if shorter.len() == 0 || is_slash(shorter.last()) {
            Seq::<char>::empty()
        } else {
            seq![separator]
        };
        assert(whole =~= shorter + glue + name);
        assert(whole.take(base.len() as int) =~= base);
        assert(below =~= under + glue + name);
        if base.len() > 0 && !is_slash(base.last()) {
            if before.len() == 0 {
                assert(whole[base.len() as int] == glue[0]);
            } else {
                assert(whole[base.len() as int] == shorter[base.len() as int]);
            }
        }
        if steps_up(below, seps) {
            let i = choose|i: int| #[trigger] steps_up_at(below, seps, i);
            let n = under.len();
            if under.len() > 0 {
                assert(under.last() == shorter.last());
            }
            if i + 2 <= n {
                assert(below[i] == under[i] && below[i + 1] == under[i + 1]);
                if i > 0 {
                    assert(below[i - 1] == under[i - 1]);
                }
                if i + 2 < n {
                    assert(below[i + 2] == under[i + 2]);
                }
                assert(steps_up_at(under, seps, i));
            } else if i < n {
                assert(below[i] == under.last());
                assert(below[i + 1] == separator);
            } else if i < n + glue.len() {
                assert(below[i] == separator);
            } else {
                let k = i - n - glue.len();
                assert(below[i] == name[k] && below[i + 1] == name[k + 1]);
                if k > 0 {
                    assert(below[i - 1] == name[k - 1]);
                    assert(!seps.contains(name[k - 1]));
                }
                if k + 2 < name.len() {
                    assert(below[i + 2] == name[k + 2]);
                    assert(!seps.contains(name[k + 2]));
                }
                assert(name =~= dot_dot());
            }
        }
    }
}

/// A `..` component of a text is one of its fragments.
proof fn lemma_fragments_step_up(s: Seq<char>, seps: Set<char>)
    requires
        !seps.contains('.'),
        steps_up(s, seps),
    ensures
        exists|k: int|
            0 <= k < text::split(s, seps).len() && #[trigger] text::split(s, seps)[k] == dot_dot(),
{
    let i = choose|i: int| #[trigger] steps_up_at(s, seps, i);
    let w = s.subrange(i, i + 2);
    assert(w =~= dot_dot());
    let k = text::lemma_split_holds(s, seps, i, i + 2);
    assert(text::split(s, seps)[k] == dot_dot());
}

/// Names written out one separator apart hold no `..` component.
proof fn lemma_names_never_step_up(segments: Seq<Seq<char>>, sep: char, seps: Set<char>)
    requires
        seps.contains(sep),
        !seps.contains('.'),
        forall|i: int|
            0 <= i < segments.len() ==> names_something(#[trigger] segments[i]) && text::free_of(
                segments[i],
                seps,
            ),
    ensures
        !steps_up(text::join(segments, seq![sep]), seps),
{
    let tail = text::join(segments, seq![sep]);
    text::lemma_split_join(segments, sep, seps);
    if steps_up(tail, seps) {
        lemma_fragments_step_up(tail, seps);
        let k = choose|k: int|
            0 <= k < text::split(tail, seps).len() && #[trigger] text::split(tail, seps)[k]
                == dot_dot();
        assert(dot_dot().len() == 2);
        if segments.len() > 0 {
            assert(names_something(segments[k]));
        }
    }
}

/// A head that ends in a separator and holds no `..` adds none to what
/// follows it.
proof fn lemma_headed_never_steps_up(head: Seq<char>, tail: Seq<char>, seps: Set<char>)
    requires
        head.len() > 0,
        seps.contains(head.last()),
        !seps.contains('.'),
        !steps_up(head, seps),
        !steps_up(tail, seps),
    ensures
        !steps_up(head + tail, seps),
{
    let whole = head + tail;
    if steps_up(whole, seps) {
        let i = choose|i: int| #[trigger] steps_up_at(whole, seps, i);
        let n = head.len();
        if i + 2 <= n {
            assert(whole[i] == head[i] && whole[i + 1] == head[i + 1]);
            if i > 0 {
                assert(whole[i - 1] == head[i - 1]);
            }
            if i + 2 < n {
                assert(whole[i + 2] == head[i + 2]);
            }
            assert(steps_up_at(head, seps, i));
        } else if i < n {
            assert(whole[i] == head.last());
        } else {
            let j = i - n;
            assert(whole[i] == tail[j] && whole[i + 1] == tail[j + 1]);
            if j > 0 {
                assert(whole[i - 1] == tail[j - 1]);
            }
            if j + 2 < tail.len() {
                assert(whole[i + 2] == tail[j + 2]);
            }
            assert(steps_up_at(tail, seps, j));
        }
    }
}

/// Fewer separators make no more `..` components.
proof fn lemma_fewer_separators(s: Seq<char>, some: Set<char>, all: Set<char>)
    requires
        some.subset_of(all),
        !steps_up(s, all),
    ensures
        !steps_up(s, some),
{
    if steps_up(s, some) {
        let i = choose|i: int| #[trigger] steps_up_at(s, some, i);
        assert(steps_up_at(s, all, i));
    }
}

/// Whether the anchor of a share is spelled with a `..`.
pub open spec fn share_steps_up(root: RootView) -> bool {
    match root {
        RootView::Share(server, share) => server == dot_dot() || share == dot_dot(),
        _ => false,
    }
}

proof fn lemma_name_and_separator(name: Seq<char>)
    requires
        name.len() > 0,
        name != dot_dot(),
        text::free_of(name, slashes()),
    ensures
        !steps_up(name + seq!['\\'], slashes()),
{
    let whole = name + seq!['\\'];
    if steps_up(whole, slashes()) {
        let i = choose|i: int| #[trigger] steps_up_at(whole, slashes(), i);
        assert(whole[i] == name[i]);
        if i > 0 {
            assert(whole[i - 1] == name[i - 1]);
            assert(!slashes().contains(name[i - 1]));
        }
        assert(whole[1] == name[1]);
        if name.len() > 2 {
            assert(whole[2] == name[2]);
            assert(!slashes().contains(name[2]));
        }
        assert(name =~= dot_dot());
    }
}

/// What is written out of a path's anchor and components has no `..`
/// component on a machine with this separator.
proof fn lemma_rebuilt_never_steps_up(raw: Seq<char>, separator: char)
    requires
        is_slash(separator),
        !(parsed(raw).root is Relative),
        separator == '/' || parsed(raw).flavor != PathFlavor::Posix || !text::trim(raw).contains(
            '\\',
        ),
        separator == '/' || !share_steps_up(parsed(raw).root),
    ensures
        !steps_up(rebuilt(parsed(raw)), machine_separators(separator)),
{
    let p = parsed(raw);
    let m = machine_separators(separator);
    let text = rebuilt(p);
    let tail = text::join(p.segments, root_separator(p.root));
    components_name_something(raw);
    anchors_follow_the_flavor(raw);
    match p.root {
        RootView::Posix => {
            assert forall|i: int| 0 <= i < p.segments.len() implies names_something(
                #[trigger] p.segments[i],
            ) && text::free_of(p.segments[i], m) by {
                let name = p.segments[i];
                assert(text::free_of(name, separators_of(p.flavor)));
                if separator == '\\' {
                    lemma_segments_come_from_the_text(raw, i, '\\');
                }
                assert forall|j: int| 0 <= j < name.len() implies !m.contains(
                    #[trigger] name[j],
                ) by {
                    assert(!separators_of(p.flavor).contains(name[j]));
                }
            }
            lemma_names_never_step_up(p.segments, '/', m);
            assert(!steps_up(seq!['/'], m));
            lemma_headed_never_steps_up(seq!['/'], tail, m);
        },
        RootView::Drive(c) => {
            lemma_names_never_step_up(p.segments, '\\', slashes());
            assert(!steps_up(seq![c, ':', '\\'], slashes())) by {
                let head = seq![c, ':', '\\'];
                assert forall|i: int| !#[trigger] steps_up_at(head, slashes(), i) by {
                    if i == 0 {
                        assert(head[0] == c);
                    } else if i == 1 {
                        assert(head[1] == ':');
                    }
                }
            }
            lemma_headed_never_steps_up(seq![c, ':', '\\'], tail, slashes());
            lemma_fewer_separators(text, m, slashes());
        },
        RootView::Share(server, share) => {
            if separator == '/' {
                lemma_share_has_no_slash(server, share, p.segments);
                assert(text[0] == '\\');
                assert forall|i: int| !#[trigger] steps_up_at(text, m, i) by {}
            } else {
                let front = seq!['\\', '\\'];
                let host = server + seq!['\\'];
                let named = share + seq!['\\'];
                lemma_names_never_step_up(p.segments, '\\', slashes());
                lemma_name_and_separator(server);
                lemma_name_and_separator(share);
                lemma_headed_never_steps_up(named, tail, slashes());
                lemma_headed_never_steps_up(host, named + tail, slashes());
                assert(!steps_up(front, slashes()));
                lemma_headed_never_steps_up(front, host + (named + tail), slashes());
                assert(text =~= front + (host + (named + tail)));
            }
        },
        RootView::Relative => {},
    }
}

proof fn lemma_share_has_no_slash(
    server: Seq<char>,
    share: Seq<char>,
    segments: Seq<Seq<char>>,
)
    requires
        text::free_of(server, slashes()),
        text::free_of(share, slashes()),
        forall|i: int|
            0 <= i < segments.len() ==> text::free_of(#[trigger] segments[i], slashes()),
    ensures
        text::free_of(
            seq!['\\', '\\'] + server + seq!['\\'] + share + seq!['\\'] + text::join(
                segments,
                seq!['\\'],
            ),
            set!['/'],
        ),
    decreases segments.len(),
{
    let head = seq!['\\', '\\'] + server + seq!['\\'] + share + seq!['\\'];
    let tail = text::join(segments, seq!['\\']);
    let whole = head + tail;
    if segments.len() > 0 {
        let before = segments.drop_last();
        assert forall|i: int| 0 <= i < before.len() implies text::free_of(
            #[trigger] before[i],
            slashes(),
        ) by {
            assert(before[i] == segments[i]);
        }
        lemma_share_has_no_slash(server, share, before);
        let shorter = head + text::join(before, seq!['\\']);
        assert(text::free_of(segments[segments.len() - 1], slashes()));
        assert forall|i: int| 0 <= i < whole.len() implies !set!['/'].contains(
            #[trigger] whole[i],
        ) by {
            if i < shorter.len() {
                assert(whole[i] == shorter[i]);
            } else {
                let last = segments.last();
                let at = i - (whole.len() - last.len());
                if at >= 0 {
                    assert(whole[i] == last[at]);
                    assert(!slashes().contains(last[at]));
                } else {
                    assert(whole[i] == '\\');
                }
            }
        }
    } else {
        assert forall|i: int| 0 <= i < whole.len() implies !set!['/'].contains(
            #[trigger] whole[i],
        ) by {
            if 2 <= i < 2 + server.len() {
                assert(!slashes().contains(server[i - 2]));
            } else if 3 + server.len() <= i < 3 + server.len() + share.len() {
                assert(!slashes().contains(share[i - 3 - server.len()]));
            }
        }
    }
}

/// No `..` reaches the filesystem through a path that no rule covers: the
/// text has none as a component. Left out, on a machine that splits at a
/// backslash, are a POSIX path with a backslash in a name, which is one
/// component to the client and several to the machine, and a share whose
/// host or name is `..`, which is its anchor.
pub proof fn an_uncovered_path_never_steps_up(
    rows: Seq<PathMapping>,
    reported: Seq<char>,
    separator: char,
    t: Translation,
)
    requires
        is_slash(separator),
        translates(rows, reported, separator, t),
        t.applied is None,
        t.rooted,
        separator == '/' || parsed(reported).flavor != PathFlavor::Posix || !text::trim(
            reported,
        ).contains('\\'),
        separator == '/' || !share_steps_up(parsed(reported).root),
    ensures
        !steps_up(t.local@, machine_separators(separator)),
{
    let m = machine_separators(separator);
    let s = text::trim(reported);
    let f = separators_of(flavor_view(s));
    if has_dots(reported) {
        lemma_rebuilt_never_steps_up(reported, separator);
    } else if steps_up(s, m) {
        let i = choose|i: int| #[trigger] steps_up_at(s, m, i);
        if i > 0 {
            assert(f.contains(s[i - 1])) by {
                assert(s.contains(s[i - 1]));
            }
        }
        if i + 2 < s.len() {
            assert(f.contains(s[i + 2])) by {
                assert(s.contains(s[i + 2]));
            }
        }
        assert(steps_up_at(s, f, i));
        lemma_fragments_step_up(s, f);
        let k = choose|k: int|
            0 <= k < text::split(s, f).len() && #[trigger] text::split(s, f)[k] == dot_dot();
        assert(fragments_of(reported)[k] == dot_dot());
    }
}

/// On a machine that splits at a slash, no rooted path is handed to the
/// filesystem with a `..` component, where no rule's local side has one.
pub proof fn a_rooted_path_never_steps_up(
    rows: Seq<PathMapping>,
    reported: Seq<char>,
    t: Translation,
)
    requires
        translates(rows, reported, '/', t),
        t.rooted,
        forall|k: int|
            0 <= k < rows.len() ==> !steps_up((#[trigger] rows[k]).local_prefix@, set!['/']),
    ensures
        !steps_up(t.local@, set!['/']),
{
    match t.applied {
        Some(rule) => {
            let k = choose|k: int|
                #[trigger] is_best(rows, parsed(reported), k) && rule.local_prefix@
                    == rows[k].local_prefix@;
            assert(row_covers(rows, parsed(reported), k));
            a_translated_path_never_steps_up(rows, reported, '/', t);
        },
        None => {
            an_uncovered_path_never_steps_up(rows, reported, '/', t);
        },
    }
}

/// No `..` reaches the filesystem through a translation: the text below the
/// local prefix has none as a component, nor has the whole where the prefix
/// has none. Left out is a POSIX path with a backslash in a name on a machine
/// that splits there, since the name is one component to the client and
/// several to the machine.
pub proof fn a_translated_path_never_steps_up(
    rows: Seq<PathMapping>,
    reported: Seq<char>,
    separator: char,
    t: Translation,
)
    requires
        is_slash(separator),
        translates(rows, reported, separator, t),
        t.applied is Some,
        separator == '/' || parsed(reported).flavor != PathFlavor::Posix || !text::trim(
            reported,
        ).contains('\\'),
    ensures
        ({
            let prefix = (t.applied->0).local_prefix@;
            let m = machine_separators(separator);
            &&& prefix.len() <= t.local@.len()
            &&& t.local@.take(prefix.len() as int) == prefix
            &&& !steps_up(t.local@.skip(prefix.len() as int), m)
            &&& !steps_up(prefix, m) ==> !steps_up(t.local@, m)
        }),
{
    let path = parsed(reported);
    let k = choose|k: int|
        {
            &&& #[trigger] is_best(rows, path, k)
            &&& (t.applied->0).local_prefix@ == rows[k].local_prefix@
            &&& t.local@ == applied_local(rows[k], path, separator)
        };
    let seps = machine_separators(separator);
    let tail = path.segments.skip(depth(rows[k]) as int);
    components_name_something(reported);
    assert forall|i: int| 0 <= i < tail.len() implies names_something(#[trigger] tail[i])
        && text::free_of(tail[i], seps) by {
        let name = path.segments[i + depth(rows[k])];
        assert(tail[i] == name);
        assert(text::free_of(name, separators_of(path.flavor)));
        if separator == '\\' && path.flavor == PathFlavor::Posix {
            lemma_segments_come_from_the_text(reported, i + depth(rows[k]), '\\');
        }
        assert forall|j: int| 0 <= j < name.len() implies !seps.contains(#[trigger] name[j]) by {
            assert(!separators_of(path.flavor).contains(name[j]));
        }
    }
    let prefix = rows[k].local_prefix@;
    lemma_appended_never_steps_up(prefix, tail, separator, seps);
    let whole = t.local@;
    if !steps_up(prefix, seps) && steps_up(whole, seps) {
        let i = choose|i: int| #[trigger] steps_up_at(whole, seps, i);
        let n = prefix.len();
        let below = whole.skip(n as int);
        assert(forall|j: int| 0 <= j < n ==> prefix[j] == #[trigger] whole[j]);
        if i + 2 <= n {
            assert(steps_up_at(prefix, seps, i));
        } else if i < n {
            assert(prefix.last() == whole[i]);
            assert(whole[n as int] == '.');
        } else {
            assert(steps_up_at(below, seps, i - n));
        }
    }
}

/// A character that a path does not hold is in none of its components.
proof fn lemma_segments_come_from_the_text(raw: Seq<char>, at: int, c: char)
    requires
        !text::trim(raw).contains(c),
        0 <= at < parsed(raw).segments.len(),
        parsed(raw).flavor == PathFlavor::Posix,
    ensures
        !parsed(raw).segments[at].contains(c),
{
    let s = text::trim(raw);
    let rest = root_view(s).1;
    assert(!rest.contains(c)) by {
        if rest.contains(c) {
            let i = choose|i: int| 0 <= i < rest.len() && rest[i] == c;
            let o: int = s.len() - rest.len();
            assert(s[i + o] == c);
        }
    }
    let seps = separators_of(flavor_view(s));
    lemma_split_holds_no_more(rest, seps, c);
    lemma_resolve_picks(text::split(rest, seps), at);
}

proof fn lemma_resolve_picks(fragments: Seq<Seq<char>>, at: int)
    requires
        0 <= at < resolve(fragments).1.len(),
    ensures
        fragments.contains(resolve(fragments).1[at]),
    decreases fragments.len(),
{
    let before = fragments.drop_last();
    let kept = resolve(before).1;
    if at < kept.len() {
        lemma_resolve_picks(before, at);
        let i = choose|i: int| 0 <= i < before.len() && before[i] == kept[at];
        assert(fragments[i] == kept[at]);
        assert(resolve(fragments).1[at] == kept[at]);
    } else {
        assert(resolve(fragments).1[at] == fragments[fragments.len() - 1]);
    }
}

proof fn lemma_split_holds_no_more(s: Seq<char>, seps: Set<char>, c: char)
    requires
        !s.contains(c),
    ensures
        text::split(s, seps).len() >= 1,
        forall|i: int|
            0 <= i < text::split(s, seps).len() ==> !(#[trigger] text::split(
                s,
                seps,
            )[i]).contains(c),
    decreases s.len(),
{
    if s.len() > 0 {
        let before = s.drop_last();
        assert(!before.contains(c)) by {
            if before.contains(c) {
                let i = choose|i: int| 0 <= i < before.len() && before[i] == c;
                assert(s[i] == c);
            }
        }
        lemma_split_holds_no_more(before, seps, c);
        assert(s[s.len() - 1] != c);
        let parts = text::split(before, seps);
        assert forall|i: int| 0 <= i < text::split(s, seps).len() implies !(#[trigger] text::split(
            s,
            seps,
        )[i]).contains(c) by {
            let part = text::split(s, seps)[i];
            if part.contains(c) {
                let j = choose|j: int| 0 <= j < part.len() && part[j] == c;
                if seps.contains(s.last()) {
                    assert(i < parts.len() ==> part == parts[i]);
                } else if i < parts.len() - 1 {
                    assert(part == parts[i]);
                } else {
                    assert(part == parts.last().push(s.last()));
                    assert(!parts[parts.len() - 1].contains(c));
                    assert(j < parts.last().len() ==> parts.last()[j] == c);
                }
            }
        }
    }
}

} // verus!
