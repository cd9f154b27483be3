//! Text as a sequence of characters.
//!
//! Everything the library decides from a string it decides character by
//! character, so the executable form is a `Vec<char>` and the model is the
//! `Seq<char>` that Rust's strings view to.

use vstd::prelude::*;

verus! {

// ---------------------------------------------------------------------
// Model
// ---------------------------------------------------------------------

/// The characters carrying Unicode's `White_Space` property.
pub open spec fn is_white(c: char) -> bool {
    let n = c as int;
    ||| 9 <= n <= 13
    ||| n == 0x20
    ||| n == 0x85
    ||| n == 0xA0
    ||| n == 0x1680
    ||| 0x2000 <= n <= 0x200A
    ||| n == 0x2028
    ||| n == 0x2029
    ||| n == 0x202F
    ||| n == 0x205F
    ||| n == 0x3000
}

/// The control characters: the C0 block, delete, and the C1 block.
pub open spec fn is_control(c: char) -> bool {
    let n = c as int;
    n <= 0x1F || 0x7F <= n <= 0x9F
}

pub open spec fn is_digit(c: char) -> bool {
    '0' <= c <= '9'
}

pub open spec fn is_letter(c: char) -> bool {
    'a' <= c <= 'z' || 'A' <= c <= 'Z'
}

pub open spec fn digit_value(c: char) -> nat {
    (c as int - '0' as int) as nat
}

/// ASCII lower-casing: only `A..Z` moves.
pub open spec fn lower(c: char) -> char {
    if 'A' <= c <= 'Z' {
        (c as int + 32) as char
    } else {
        c
    }
}

/// ASCII upper-casing: only `a..z` moves.
pub open spec fn upper(c: char) -> char {
    if 'a' <= c <= 'z' {
        (c as int - 32) as char
    } else {
        c
    }
}

pub open spec fn lowered(s: Seq<char>) -> Seq<char> {
    s.map_values(|c: char| lower(c))
}

/// Equal up to the case of ASCII letters.
pub open spec fn eq_fold(a: Seq<char>, b: Seq<char>) -> bool {
    a.len() == b.len() && forall|i: int| 0 <= i < a.len() ==> lower(#[trigger] a[i]) == lower(b[i])
}

/// What `char::to_lowercase` maps a character to.
pub uninterp spec fn lowercase_of(c: char) -> Seq<char>;

/// What `char::is_alphanumeric` answers.
pub uninterp spec fn alphanumeric(c: char) -> bool;

/// A character in lower case as Unicode has it.
pub open spec fn lower_case(c: char) -> Seq<char> {
    if c as int <= 0x7F {
        seq![lower(c)]
    } else {
        lowercase_of(c)
    }
}

/// Whether a character is a letter or a digit as Unicode has them.
pub open spec fn is_word_char(c: char) -> bool {
    if c as int <= 0x7F {
        is_letter(c) || is_digit(c)
    } else {
        alphanumeric(c)
    }
}

/// Every character lower-cased as Unicode does, one by one.
pub open spec fn unicode_lowered(s: Seq<char>) -> Seq<char>
    decreases s.len(),
{
    if s.len() == 0 {
        Seq::empty()
    } else {
        unicode_lowered(s.drop_last()) + lower_case(s.last())
    }
}

pub open spec fn trim_start(s: Seq<char>) -> Seq<char>
    decreases s.len(),
{
    if s.len() > 0 && is_white(s[0]) {
        trim_start(s.drop_first())
    } else {
        s
    }
}

pub open spec fn trim_end(s: Seq<char>) -> Seq<char>
    decreases s.len(),
{
    if s.len() > 0 && is_white(s.last()) {
        trim_end(s.drop_last())
    } else {
        s
    }
}

/// `s` without the white space around it.
pub open spec fn trim(s: Seq<char>) -> Seq<char> {
    trim_end(trim_start(s))
}

/// The fragments of `s` between separators, one more than there are
/// separators; adjacent separators leave an empty fragment.
pub open spec fn split(s: Seq<char>, seps: Set<char>) -> Seq<Seq<char>>
    decreases s.len(),
{
    if s.len() == 0 {
        seq![Seq::<char>::empty()]
    } else {
        let before = split(s.drop_last(), seps);
        if seps.contains(s.last()) {
            before.push(Seq::<char>::empty())
        } else {
            before.update(before.len() - 1, before.last().push(s.last()))
        }
    }
}

/// The parts with `sep` written between them.
pub open spec fn join(parts: Seq<Seq<char>>, sep: Seq<char>) -> Seq<char>
    decreases parts.len(),
{
    if parts.len() == 0 {
        Seq::<char>::empty()
    } else if parts.len() == 1 {
        parts[0]
    } else {
        join(parts.drop_last(), sep) + sep + parts.last()
    }
}

/// Where `needle` stands in `hay`.
pub open spec fn occurs_at(hay: Seq<char>, needle: Seq<char>, at: int) -> bool {
    0 <= at && at + needle.len() <= hay.len() && hay.subrange(at, at + needle.len()) == needle
}

pub open spec fn has_text(hay: Seq<char>, needle: Seq<char>) -> bool {
    exists|at: int| occurs_at(hay, needle, at)
}

pub open spec fn has_prefix(s: Seq<char>, p: Seq<char>) -> bool {
    p.len() <= s.len() && s.subrange(0, p.len() as int) == p
}

pub open spec fn has_suffix(s: Seq<char>, p: Seq<char>) -> bool {
    p.len() <= s.len() && s.subrange(s.len() - p.len(), s.len() as int) == p
}

/// Code-point order, shorter first on a tie.
pub open spec fn text_less(a: Seq<char>, b: Seq<char>) -> bool
    decreases a.len(),
{
    if b.len() == 0 {
        false
    } else if a.len() == 0 {
        true
    } else if a[0] == b[0] {
        text_less(a.drop_first(), b.drop_first())
    } else {
        a[0] < b[0]
    }
}

/// Decimal digits of `n`, without leading zeros.
pub open spec fn decimal(n: nat) -> Seq<char>
    decreases n,
{
    if n < 10 {
        seq![('0' as int + n) as char]
    } else {
        decimal(n / 10).push(('0' as int + n % 10) as char)
    }
}

/// The number a run of digits spells.
pub open spec fn number(s: Seq<char>) -> nat
    decreases s.len(),
{
    if s.len() == 0 {
        0
    } else {
        number(s.drop_last()) * 10 + digit_value(s.last())
    }
}

pub open spec fn all_digits(s: Seq<char>) -> bool {
    forall|i: int| 0 <= i < s.len() ==> is_digit(#[trigger] s[i])
}

/// The number a text of digits spells, when there is a digit, nothing else,
/// and the number is at most `max`.
pub open spec fn spelled(s: Seq<char>, max: nat) -> Option<nat> {
    if s.len() > 0 && all_digits(s) && number(s) <= max {
        Some(number(s))
    } else {
        None
    }
}

/// An unsigned number as Rust reads one: digits, perhaps after a `+`.
pub open spec fn unsigned(s: Seq<char>, max: nat) -> Option<nat> {
    if s.len() > 0 && s[0] == '+' {
        spelled(s.skip(1), max)
    } else {
        spelled(s, max)
    }
}

/// `n` with at least two digits.
pub open spec fn padded(n: nat) -> Seq<char> {
    if n < 10 {
        seq!['0'] + decimal(n)
    } else {
        decimal(n)
    }
}

/// A signed number in decimal.
pub open spec fn signed(n: int) -> Seq<char> {
    if n < 0 {
        seq!['-'] + decimal((-n) as nat)
    } else {
        decimal(n as nat)
    }
}

/// The views of a list of strings.
pub open spec fn views(v: Seq<String>) -> Seq<Seq<char>> {
    v.map_values(|s: String| s@)
}

pub open spec fn chars_views(v: Seq<Vec<char>>) -> Seq<Seq<char>> {
    v.map_values(|s: Vec<char>| s@)
}

pub open spec fn opt_view(o: Option<String>) -> Option<Seq<char>> {
    match o {
        Some(s) => Some(s@),
        None => None,
    }
}

/// Whether `s` holds none of the separators.
pub open spec fn free_of(s: Seq<char>, seps: Set<char>) -> bool {
    forall|i: int| 0 <= i < s.len() ==> !seps.contains(#[trigger] s[i])
}

/// No fragment of a split holds a separator.
pub proof fn lemma_split_free(s: Seq<char>, seps: Set<char>)
    ensures
        split(s, seps).len() >= 1,
        forall|i: int| 0 <= i < split(s, seps).len() ==> free_of(#[trigger] split(s, seps)[i], seps),
    decreases s.len(),
{
    if s.len() > 0 {
        lemma_split_free(s.drop_last(), seps);
        let before = split(s.drop_last(), seps);
        assert forall|i: int| 0 <= i < split(s, seps).len() implies free_of(
            #[trigger] split(s, seps)[i],
            seps,
        ) by {
            if i < before.len() {
                assert(free_of(before[i], seps));
            }
        }
    }
}

/// Text without separators extends the last fragment.
pub proof fn lemma_split_append_free(a: Seq<char>, b: Seq<char>, seps: Set<char>)
    requires
        free_of(b, seps),
    ensures
        split(a, seps).len() >= 1,
        split(a + b, seps) == split(a, seps).update(
            split(a, seps).len() - 1,
            split(a, seps).last() + b,
        ),
    decreases b.len(),
{
    lemma_split_free(a, seps);
    let base = split(a, seps);
    if b.len() == 0 {
        assert(a + b =~= a);
        assert(base.last() + b =~= base.last());
        assert(base.update(base.len() - 1, base.last()) =~= base);
    } else {
        let short = b.drop_last();
        assert forall|i: int| 0 <= i < short.len() implies !seps.contains(#[trigger] short[i]) by {
            assert(short[i] == b[i]);
        }
        lemma_split_append_free(a, short, seps);
        assert((a + b).drop_last() =~= a + short);
        assert((a + b).last() == b.last());
        let grown = base.update(base.len() - 1, base.last() + short);
        assert(split(a + short, seps) == grown);
        assert((base.last() + short).push(b.last()) =~= base.last() + b);
        assert(!seps.contains(b[b.len() - 1]));
        assert(split(a + b, seps) =~= grown.update(grown.len() - 1, grown.last().push(b.last())));
    }
}

/// Text without separators that stands between two of them, or at an end,
/// is a fragment.
pub proof fn lemma_split_holds(s: Seq<char>, seps: Set<char>, from: int, to: int) -> (k: int)
    requires
        0 <= from <= to <= s.len(),
        from == 0 || seps.contains(s[from - 1]),
        to == s.len() || seps.contains(s[to]),
        free_of(s.subrange(from, to), seps),
    ensures
        0 <= k < split(s, seps).len(),
        split(s, seps)[k] == s.subrange(from, to),
        to < s.len() ==> k < split(s, seps).len() - 1,
    decreases s.len(),
{
    let w = s.subrange(from, to);
    if to == s.len() {
        let head = s.take(from);
        assert(s =~= head + w);
        lemma_split_append_free(head, w, seps);
        let f = split(head, seps);
        assert(f.last().len() == 0) by {
            if from > 0 {
                assert(head.last() == s[from - 1]);
            }
        }
        assert(f.last() + w =~= w);
        f.len() - 1
    } else {
        let before = s.drop_last();
        assert(before.subrange(from, to) =~= w);
        let k = lemma_split_holds(before, seps, from, to);
        lemma_split_free(before, seps);
        k
    }
}

/// Splitting what was joined gives the parts back.
pub proof fn lemma_split_join(parts: Seq<Seq<char>>, sep: char, seps: Set<char>)
    requires
        seps.contains(sep),
        forall|i: int| 0 <= i < parts.len() ==> free_of(#[trigger] parts[i], seps),
    ensures
        split(join(parts, seq![sep]), seps) == if parts.len() == 0 {
            seq![Seq::<char>::empty()]
        } else {
            parts
        },
    decreases parts.len(),
{
    if parts.len() == 1 {
        lemma_split_append_free(Seq::empty(), parts[0], seps);
        assert(Seq::<char>::empty() + parts[0] =~= parts[0]);
        assert(split(Seq::empty(), seps) =~= seq![Seq::<char>::empty()]);
        assert(split(parts[0], seps) =~= parts);
    } else if parts.len() > 1 {
        let before = parts.drop_last();
        assert forall|i: int| 0 <= i < before.len() implies free_of(#[trigger] before[i], seps) by {
            assert(before[i] == parts[i]);
        }
        lemma_split_join(before, sep, seps);
        let head = join(before, seq![sep]);
        let with_sep = head + seq![sep];
        assert(with_sep.drop_last() =~= head);
        assert(split(with_sep, seps) == before.push(Seq::<char>::empty()));
        assert(free_of(parts[parts.len() - 1], seps));
        lemma_split_append_free(with_sep, parts.last(), seps);
        assert(Seq::<char>::empty() + parts.last() =~= parts.last());
        assert(split(with_sep + parts.last(), seps) =~= parts);
    }
}

/// A leading separator adds one empty fragment in front.
pub proof fn lemma_split_leading(sep: char, s: Seq<char>, seps: Set<char>)
    requires
        seps.contains(sep),
    ensures
        split(seq![sep] + s, seps) == seq![Seq::<char>::empty()] + split(s, seps),
    decreases s.len(),
{
    let e = Seq::<char>::empty();
    if s.len() == 0 {
        assert((seq![sep] + s).drop_last() =~= e);
        assert(split(e, seps) == seq![e]);
        assert(split(s, seps) == seq![e]);
        assert(split(seq![sep] + s, seps) =~= seq![e, e]);
        assert(seq![e] + split(s, seps) =~= seq![e, e]);
    } else {
        lemma_split_leading(sep, s.drop_last(), seps);
        lemma_split_free(s.drop_last(), seps);
        assert((seq![sep] + s).drop_last() =~= seq![sep] + s.drop_last());
        assert((seq![sep] + s).last() == s.last());
        let before = split(s.drop_last(), seps);
        let shifted = seq![e] + before;
        assert(shifted.last() == before.last());
        if seps.contains(s.last()) {
            assert(shifted.push(e) =~= seq![e] + before.push(e));
        } else {
            let last = before.last().push(s.last());
            assert(shifted.update(shifted.len() - 1, last) =~= seq![e] + before.update(
                before.len() - 1,
                last,
            ));
        }
    }
}

/// Text that neither starts nor ends with white space is its own trim.
pub proof fn lemma_trim_tight(s: Seq<char>)
    requires
        s.len() > 0,
        !is_white(s[0]),
        !is_white(s.last()),
    ensures
        trim(s) == s,
{
}

/// A trimmed text neither starts nor ends with white space.
pub proof fn lemma_trim_is_tight(s: Seq<char>)
    ensures
        trim(s).len() > 0 ==> !is_white(trim(s)[0]) && !is_white(trim(s).last()),
{
    lemma_trim_start_tight(s);
    lemma_trim_end_tight(trim_start(s));
}

proof fn lemma_trim_start_tight(s: Seq<char>)
    ensures
        trim_start(s).len() > 0 ==> !is_white(trim_start(s)[0]),
    decreases s.len(),
{
    if s.len() > 0 && is_white(s[0]) {
        lemma_trim_start_tight(s.drop_first());
    }
}

proof fn lemma_trim_end_tight(s: Seq<char>)
    ensures
        trim_end(s).len() > 0 ==> !is_white(trim_end(s).last()) && s.len() > 0 && trim_end(s)[0]
            == s[0],
    decreases s.len(),
{
    if s.len() > 0 && is_white(s.last()) {
        lemma_trim_end_tight(s.drop_last());
    }
}

pub proof fn lemma_text_less_irreflexive(a: Seq<char>)
    ensures
        !text_less(a, a),
    decreases a.len(),
{
    if a.len() > 0 {
        lemma_text_less_irreflexive(a.drop_first());
    }
}

pub proof fn lemma_text_less_total(a: Seq<char>, b: Seq<char>)
    ensures
        text_less(a, b) || a == b || text_less(b, a),
    decreases a.len(),
{
    if a.len() == 0 || b.len() == 0 {
        if a.len() == 0 && b.len() == 0 {
            assert(a =~= b);
        }
    } else if a[0] == b[0] {
        lemma_text_less_total(a.drop_first(), b.drop_first());
        if a.drop_first() == b.drop_first() {
            assert(a =~= seq![a[0]] + a.drop_first());
            assert(b =~= seq![b[0]] + b.drop_first());
        }
    }
}

pub proof fn lemma_text_less_transitive(a: Seq<char>, b: Seq<char>, c: Seq<char>)
    requires
        text_less(a, b),
        text_less(b, c),
    ensures
        text_less(a, c),
    decreases a.len(),
{
    if a.len() > 0 && a[0] == b[0] && b[0] == c[0] {
        lemma_text_less_transitive(a.drop_first(), b.drop_first(), c.drop_first());
    }
}

// ---------------------------------------------------------------------
// Characters and strings
// ---------------------------------------------------------------------

/// `String::push` appends one character.
pub assume_specification[ String::push ](s: &mut String, c: char)
    ensures
        final(s)@ == old(s)@.push(c),
;

/// The characters of a string.
pub fn chars_of(s: &str) -> (r: Vec<char>)
    ensures
        r@ == s@,
{
    let mut out: Vec<char> = Vec::new();
    for c in it: s.chars()
        invariant
            out@ == it.seq().take(it.index() as int),
            it.seq() == s@,
    {
        out.push(c);
    }
    out
}

/// The string the characters spell.
pub fn string_of(chars: &[char]) -> (r: String)
    ensures
        r@ == chars@,
{
    let mut out = String::new();
    let mut i: usize = 0;
    while i < chars.len()
        invariant
            i <= chars.len(),
            out@ == chars@.take(i as int),
        decreases chars.len() - i,
    {
        out.push(chars[i]);
        i += 1;
    }
    assert(chars@.take(chars.len() as int) == chars@);
    out
}

pub fn white(c: char) -> (r: bool)
    ensures
        r == is_white(c),
{
    let n: u32 = c as u32;
    (9 <= n && n <= 13) || n == 0x20 || n == 0x85 || n == 0xA0 || n == 0x1680 || (0x2000 <= n && n
        <= 0x200A) || n == 0x2028 || n == 0x2029 || n == 0x202F || n == 0x205F || n == 0x3000
}

pub fn control(c: char) -> (r: bool)
    ensures
        r == is_control(c),
{
    let n: u32 = c as u32;
    n <= 0x1F || (0x7F <= n && n <= 0x9F)
}

pub fn digit(c: char) -> (r: bool)
    ensures
        r == is_digit(c),
{
    '0' <= c && c <= '9'
}

pub fn letter(c: char) -> (r: bool)
    ensures
        r == is_letter(c),
{
    ('a' <= c && c <= 'z') || ('A' <= c && c <= 'Z')
}

/// The letter or digit with this code point; any other code point gives
/// the replacement character.
fn ascii_char(n: u8) -> (r: char)
    requires
        n < 128,
    ensures
        r as int == n,
{
    n as char
}

pub fn to_lower(c: char) -> (r: char)
    ensures
        r == lower(c),
{
    if 'A' <= c && c <= 'Z' {
        let n: u32 = c as u32;
        ascii_char((n + 32) as u8)
    } else {
        c
    }
}

pub fn to_upper(c: char) -> (r: char)
    ensures
        r == upper(c),
{
    if 'a' <= c && c <= 'z' {
        let n: u32 = c as u32;
        ascii_char((n - 32) as u8)
    } else {
        c
    }
}

/// `char::to_lowercase`: the lower-case mapping of the Unicode Character
/// Database, which can be more than one character. On ASCII it lower-cases
/// the letters and leaves the rest.
#[verifier::external_body]
pub(crate) fn lowercase(c: char) -> (r: Vec<char>)
    ensures
        r@ == lowercase_of(c),
        c < '\u{80}' ==> r@ == seq![lower(c)],
{
    c.to_lowercase().collect()
}

/// `char::is_alphanumeric`: the `Alphabetic` property or one of the numeric
/// categories. On ASCII those are the letters and the digits.
#[verifier::external_body]
pub(crate) fn is_alphanumeric(c: char) -> (r: bool)
    ensures
        r == alphanumeric(c),
        c < '\u{80}' ==> r == (is_letter(c) || is_digit(c)),
{
    c.is_alphanumeric()
}

/// Every character lower-cased as Unicode does.
pub fn unicode_lower(s: &[char]) -> (r: Vec<char>)
    ensures
        r@ == unicode_lowered(s@),
{
    let mut out: Vec<char> = Vec::new();
    let mut i: usize = 0;
    while i < s.len()
        invariant
            i <= s.len(),
            out@ == unicode_lowered(s@.take(i as int)),
        decreases s.len() - i,
    {
        assert(s@.take(i + 1).drop_last() == s@.take(i as int));
        let low = lowercase(s[i]);
        extend(&mut out, &low);
        i += 1;
    }
    assert(s@.take(s.len() as int) == s@);
    out
}

/// Whether two runs of characters are the same.
pub fn same(a: &[char], b: &[char]) -> (r: bool)
    ensures
        r == (a@ == b@),
{
    if a.len() != b.len() {
        return false;
    }
    let mut i: usize = 0;
    while i < a.len()
        invariant
            i <= a.len(),
            a.len() == b.len(),
            forall|j: int| 0 <= j < i ==> a@[j] == b@[j],
        decreases a.len() - i,
    {
        if a[i] != b[i] {
            return false;
        }
        i += 1;
    }
    assert(a@ =~= b@);
    true
}

/// Whether the characters spell the string.
pub fn spells(a: &[char], s: &str) -> (r: bool)
    ensures
        r == (a@ == s@),
{
    let b = chars_of(s);
    same(a, &b)
}

/// Whether two strings hold the same text.
pub fn same_text(a: &str, b: &str) -> (r: bool)
    ensures
        r == (a@ == b@),
{
    let x = chars_of(a);
    spells(&x, b)
}

/// Equality up to the case of ASCII letters.
pub fn same_fold(a: &[char], b: &[char]) -> (r: bool)
    ensures
        r == eq_fold(a@, b@),
{
    if a.len() != b.len() {
        return false;
    }
    let mut i: usize = 0;
    while i < a.len()
        invariant
            i <= a.len(),
            a.len() == b.len(),
            forall|j: int| 0 <= j < i ==> lower(#[trigger] a@[j]) == lower(b@[j]),
        decreases a.len() - i,
    {
        if to_lower(a[i]) != to_lower(b[i]) {
            return false;
        }
        i += 1;
    }
    true
}

/// The characters from `from` up to `to`.
pub fn slice(s: &[char], from: usize, to: usize) -> (r: Vec<char>)
    requires
        from <= to <= s.len(),
    ensures
        r@ == s@.subrange(from as int, to as int),
{
    let mut out: Vec<char> = Vec::new();
    let mut i: usize = from;
    while i < to
        invariant
            from <= i <= to <= s.len(),
            out@ == s@.subrange(from as int, i as int),
        decreases to - i,
    {
        out.push(s[i]);
        i += 1;
    }
    out
}

/// The same characters, owned.
pub fn copied(s: &[char]) -> (r: Vec<char>)
    ensures
        r@ == s@,
{
    let out = slice(s, 0, s.len());
    assert(out@ =~= s@);
    out
}

/// Append characters.
pub fn extend(out: &mut Vec<char>, more: &[char])
    ensures
        final(out)@ == old(out)@ + more@,
{
    let ghost start = out@;
    let mut i: usize = 0;
    while i < more.len()
        invariant
            i <= more.len(),
            out@ == start + more@.take(i as int),
        decreases more.len() - i,
    {
        out.push(more[i]);
        i += 1;
    }
    assert(more@.take(more.len() as int) == more@);
}

/// Append the characters of a string.
pub fn extend_str(out: &mut Vec<char>, more: &str)
    ensures
        final(out)@ == old(out)@ + more@,
{
    let chars = chars_of(more);
    extend(out, &chars);
}

/// The text with white space taken off both ends.
pub fn trimmed(s: &[char]) -> (r: Vec<char>)
    ensures
        r@ == trim(s@),
{
    let mut from: usize = 0;
    assert(s@.subrange(0, s.len() as int) == s@);
    while from < s.len() && white(s[from])
        invariant
            from <= s.len(),
            trim_start(s@) == trim_start(s@.subrange(from as int, s.len() as int)),
        decreases s.len() - from,
    {
        assert(s@.subrange(from as int, s.len() as int).drop_first() == s@.subrange(
            from + 1,
            s.len() as int,
        ));
        from += 1;
    }
    let ghost rest = s@.subrange(from as int, s.len() as int);
    assert(trim_start(s@) == rest);
    let mut to: usize = s.len();
    while to > from && white(s[to - 1])
        invariant
            from <= to <= s.len(),
            rest == s@.subrange(from as int, s.len() as int),
            trim_end(rest) == trim_end(s@.subrange(from as int, to as int)),
        decreases to,
    {
        assert(s@.subrange(from as int, to as int).drop_last() == s@.subrange(
            from as int,
            to - 1,
        ));
        to -= 1;
    }
    slice(s, from, to)
}

/// The text with white space taken off its start.
pub fn trimmed_start(s: &[char]) -> (r: Vec<char>)
    ensures
        r@ == trim_start(s@),
{
    let mut from: usize = 0;
    assert(s@.skip(0) == s@);
    while from < s.len() && white(s[from])
        invariant
            from <= s.len(),
            trim_start(s@) == trim_start(s@.skip(from as int)),
        decreases s.len() - from,
    {
        assert(s@.skip(from as int).drop_first() == s@.skip(from + 1));
        from += 1;
    }
    let out = slice(s, from, s.len());
    assert(out@ =~= s@.skip(from as int));
    out
}

/// The text with white space taken off its end.
pub fn trimmed_end(s: &[char]) -> (r: Vec<char>)
    ensures
        r@ == trim_end(s@),
{
    let mut to: usize = s.len();
    assert(s@.take(to as int) == s@);
    while to > 0 && white(s[to - 1])
        invariant
            to <= s.len(),
            trim_end(s@) == trim_end(s@.take(to as int)),
        decreases to,
    {
        assert(s@.take(to as int).drop_last() == s@.take(to - 1));
        to -= 1;
    }
    let out = slice(s, 0, to);
    assert(out@ =~= s@.take(to as int));
    out
}

/// The text of a string with white space taken off both ends.
pub fn trimmed_str(s: &str) -> (r: Vec<char>)
    ensures
        r@ == trim(s@),
{
    let chars = chars_of(s);
    trimmed(&chars)
}

/// Whether `c` is one of the characters.
pub fn one_of(c: char, set: &[char]) -> (r: bool)
    ensures
        r == set@.contains(c),
{
    let mut i: usize = 0;
    while i < set.len()
        invariant
            i <= set.len(),
            forall|j: int| 0 <= j < i ==> set@[j] != c,
        decreases set.len() - i,
    {
        if set[i] == c {
            assert(set@[i as int] == c);
            return true;
        }
        i += 1;
    }
    false
}

/// The fragments between separators.
pub fn split_on(s: &[char], seps: &[char]) -> (r: Vec<Vec<char>>)
    ensures
        chars_views(r@) == split(s@, seps@.to_set()),
{
    let ghost set = seps@.to_set();
    let mut out: Vec<Vec<char>> = Vec::new();
    let mut current: Vec<char> = Vec::new();
    let mut i: usize = 0;
    while i < s.len()
        invariant
            i <= s.len(),
            set == seps@.to_set(),
            chars_views(out@).push(current@) == split(s@.take(i as int), set),
        decreases s.len() - i,
    {
        let ghost before = chars_views(out@);
        let ghost cur = current@;
        assert(s@.take(i + 1).drop_last() == s@.take(i as int));
        assert(before.push(cur).last() == cur);
        if one_of(s[i], seps) {
            out.push(current);
            current = Vec::new();
            assert(chars_views(out@) == before.push(cur));
        } else {
            current.push(s[i]);
            assert(before.push(cur).update(before.len() as int, current@) == before.push(current@));
        }
        i += 1;
    }
    assert(s@.take(s.len() as int) == s@);
    let ghost before = chars_views(out@);
    let ghost cur = current@;
    out.push(current);
    assert(chars_views(out@) == before.push(cur));
    out
}

/// The parts with `sep` written between them.
pub fn joined(parts: &[Vec<char>], sep: &[char]) -> (r: Vec<char>)
    ensures
        r@ == join(chars_views(parts@), sep@),
{
    let ghost all = chars_views(parts@);
    if parts.len() == 0 {
        return Vec::new();
    }
    let mut out: Vec<char> = Vec::new();
    extend(&mut out, &parts[0]);
    assert(all.take(1) == seq![all[0]]);
    assert(out@ == all[0]);
    let mut i: usize = 1;
    while i < parts.len()
        invariant
            1 <= i <= parts.len(),
            all == chars_views(parts@),
            out@ == join(all.take(i as int), sep@),
        decreases parts.len() - i,
    {
        assert(all.take(i + 1).drop_last() == all.take(i as int));
        extend(&mut out, sep);
        extend(&mut out, &parts[i]);
        i += 1;
    }
    assert(all.take(parts.len() as int) == all);
    out
}

/// Whether `needle` stands at `at`.
pub fn stands_at(hay: &[char], needle: &[char], at: usize) -> (r: bool)
    ensures
        r == occurs_at(hay@, needle@, at as int),
{
    if at > hay.len() || hay.len() - at < needle.len() {
        return false;
    }
    let mut i: usize = 0;
    while i < needle.len()
        invariant
            i <= needle.len(),
            at + needle.len() <= hay.len(),
            forall|j: int| 0 <= j < i ==> hay@[at + j] == needle@[j],
        decreases needle.len() - i,
    {
        if hay[at + i] != needle[i] {
            assert(hay@.subrange(at as int, at + needle.len())[i as int] != needle@[i as int]);
            return false;
        }
        i += 1;
    }
    assert(hay@.subrange(at as int, at + needle.len()) =~= needle@);
    true
}

/// Whether `hay` holds `needle` anywhere.
pub fn holds(hay: &[char], needle: &[char]) -> (r: bool)
    ensures
        r == has_text(hay@, needle@),
{
    let mut at: usize = 0;
    while at < hay.len()
        invariant
            at <= hay.len(),
            forall|j: int| 0 <= j < at ==> !occurs_at(hay@, needle@, j),
        decreases hay.len() - at,
    {
        if stands_at(hay, needle, at) {
            return true;
        }
        at += 1;
    }
    stands_at(hay, needle, at)
}

pub fn starts(s: &[char], p: &[char]) -> (r: bool)
    ensures
        r == has_prefix(s@, p@),
{
    stands_at(s, p, 0)
}

pub fn ends(s: &[char], p: &[char]) -> (r: bool)
    ensures
        r == has_suffix(s@, p@),
{
    if p.len() > s.len() {
        return false;
    }
    stands_at(s, p, s.len() - p.len())
}

/// Whether `a` comes before `b` in code-point order.
pub fn less(a: &[char], b: &[char]) -> (r: bool)
    ensures
        r == text_less(a@, b@),
{
    let mut i: usize = 0;
    assert(a@.subrange(0, a.len() as int) == a@);
    assert(b@.subrange(0, b.len() as int) == b@);
    while i < a.len() && i < b.len() && a[i] == b[i]
        invariant
            i <= a.len(),
            i <= b.len(),
            text_less(a@, b@) == text_less(
                a@.subrange(i as int, a.len() as int),
                b@.subrange(i as int, b.len() as int),
            ),
        decreases a.len() - i,
    {
        assert(a@.subrange(i as int, a.len() as int).drop_first() == a@.subrange(
            i + 1,
            a.len() as int,
        ));
        assert(b@.subrange(i as int, b.len() as int).drop_first() == b@.subrange(
            i + 1,
            b.len() as int,
        ));
        i += 1;
    }
    if i >= b.len() {
        false
    } else if i >= a.len() {
        true
    } else {
        a[i] < b[i]
    }
}

/// Decimal digits of `n`.
pub fn decimal_of(n: u64) -> (r: Vec<char>)
    ensures
        r@ == decimal(n as nat),
    decreases n,
{
    let last: char = ascii_char((n % 10) as u8 + 48);
    if n < 10 {
        let mut out: Vec<char> = Vec::new();
        out.push(last);
        out
    } else {
        let mut out = decimal_of(n / 10);
        out.push(last);
        out
    }
}

/// `n` with at least two digits.
pub fn padded_of(n: u64) -> (r: Vec<char>)
    ensures
        r@ == padded(n as nat),
{
    let digits = decimal_of(n);
    if n < 10 {
        let mut out: Vec<char> = Vec::new();
        out.push('0');
        extend(&mut out, &digits);
        assert(out@ =~= seq!['0'] + digits@);
        out
    } else {
        digits
    }
}

/// A signed number in decimal.
pub fn signed_of(n: i32) -> (r: Vec<char>)
    ensures
        r@ == signed(n as int),
{
    if n < 0 {
        let mut out: Vec<char> = Vec::new();
        out.push('-');
        let magnitude: i64 = 0 - n as i64;
        let digits = decimal_of(magnitude as u64);
        extend(&mut out, &digits);
        assert(out@ =~= seq!['-'] + digits@);
        out
    } else {
        decimal_of(n as u64)
    }
}

proof fn lemma_number_grows(s: Seq<char>, i: int)
    requires
        0 <= i <= s.len(),
    ensures
        number(s) >= number(s.take(i)),
    decreases s.len() - i,
{
    if i == s.len() {
        assert(s.take(i) =~= s);
    } else {
        lemma_number_grows(s, i + 1);
        assert(s.take(i + 1).drop_last() =~= s.take(i));
    }
}

/// The number a text of digits spells, when it is at most `max`.
pub fn parse_digits(s: &[char], max: u64) -> (r: Option<u64>)
    ensures
        match r {
            Some(n) => spelled(s@, max as nat) == Some(n as nat),
            None => spelled(s@, max as nat) is None,
        },
{
    if s.len() == 0 {
        return None;
    }
    let mut value: u64 = 0;
    let mut i: usize = 0;
    while i < s.len()
        invariant
            i <= s.len(),
            value <= max,
            value == number(s@.take(i as int)),
            forall|j: int| 0 <= j < i ==> is_digit(#[trigger] s@[j]),
        decreases s.len() - i,
    {
        let c: char = s[i];
        if !digit(c) {
            assert(!is_digit(s@[i as int]));
            return None;
        }
        let d: u64 = (c as u32 - 48) as u64;
        proof {
            lemma_number_grows(s@, i + 1);
            assert(s@.take(i + 1).drop_last() =~= s@.take(i as int));
        }
        if d > max || value > max / 10 || value * 10 > max - d {
            assert(value as int * 10 + d > max) by {
                if value > max / 10 {
                    assert(value as int * 10 > max) by (nonlinear_arith)
                        requires
                            value > max / 10,
                    ;
                }
            }
            return None;
        }
        value = value * 10 + d;
        i += 1;
    }
    assert(s@.take(s.len() as int) =~= s@);
    Some(value)
}

/// An unsigned number as Rust reads one.
pub fn parse_unsigned(s: &[char], max: u64) -> (r: Option<u64>)
    ensures
        match r {
            Some(n) => unsigned(s@, max as nat) == Some(n as nat),
            None => unsigned(s@, max as nat) is None,
        },
{
    if s.len() > 0 && s[0] == '+' {
        let rest = slice(s, 1, s.len());
        assert(rest@ =~= s@.skip(1));
        parse_digits(&rest, max)
    } else {
        parse_digits(s, max)
    }
}

/// Every character ASCII-lower-cased.
pub fn lower_all(s: &[char]) -> (r: Vec<char>)
    ensures
        r@ == lowered(s@),
{
    let mut out: Vec<char> = Vec::new();
    let mut i: usize = 0;
    while i < s.len()
        invariant
            i <= s.len(),
            out@ == lowered(s@.take(i as int)),
        decreases s.len() - i,
    {
        assert(s@.take(i + 1) == s@.take(i as int).push(s@[i as int]));
        out.push(to_lower(s[i]));
        i += 1;
    }
    assert(s@.take(s.len() as int) == s@);
    out
}

} // verus!
