//! The words the other laws are written in.

use vstd::prelude::*;

use crate::text;

verus! {

/// Whether a text spells a word in small letters and digits, in any letter
/// case.
pub open spec fn reads_as(s: Seq<char>, word: Seq<char>) -> bool {
    s.len() == word.len() && forall|i: int|
        0 <= i < s.len() ==> #[trigger] s[i] == word[i] || ('a' <= word[i] <= 'z' && s[i] as int
            == word[i] as int - 32)
}

/// Whether a word has no capital.
pub open spec fn is_small(word: Seq<char>) -> bool {
    forall|i: int| 0 <= i < word.len() ==> !('A' <= #[trigger] word[i] <= 'Z')
}

/// A text in lower case is a word exactly where it spells the word.
pub proof fn lemma_reads(s: Seq<char>, word: Seq<char>)
    requires
        is_small(word),
    ensures
        text::lowered(s) == word <==> reads_as(s, word),
        text::eq_fold(s, word) <==> reads_as(s, word),
{
    let low = text::lowered(s);
    if low == word {
        assert forall|i: int| 0 <= i < s.len() implies #[trigger] s[i] == word[i] || ('a' <= word[i]
            <= 'z' && s[i] as int == word[i] as int - 32) by {
            assert(low[i] == text::lower(s[i]));
        }
    }
    if reads_as(s, word) {
        assert forall|i: int| 0 <= i < s.len() implies low[i] == word[i] by {
            assert(s[i] == word[i] || s[i] as int == word[i] as int - 32);
            assert(!('A' <= word[i] <= 'Z'));
        }
        assert(low =~= word);
    }
    if text::eq_fold(s, word) {
        assert forall|i: int| 0 <= i < s.len() implies low[i] == word[i] by {
            assert(text::lower(s[i]) == text::lower(word[i]));
            assert(!('A' <= word[i] <= 'Z'));
        }
        assert(low =~= word);
    }
    if low == word {
        assert forall|i: int| 0 <= i < s.len() implies text::lower(#[trigger] s[i]) == text::lower(
            word[i],
        ) by {
            assert(low[i] == text::lower(s[i]));
            assert(!('A' <= word[i] <= 'Z'));
        }
    }
}

// ---------------------------------------------------------------------
// Letters and figures
// ---------------------------------------------------------------------

/// The twenty-six capitals have small letters thirty-two places on, and
/// nothing else changes case.
pub proof fn letters_change_case(c: char)
    ensures
        65 <= c as int <= 90 ==> text::lower(c) as int == c as int + 32,
        !(65 <= c as int <= 90) ==> text::lower(c) == c,
        97 <= c as int <= 122 ==> text::upper(c) as int == c as int - 32,
        !(97 <= c as int <= 122) ==> text::upper(c) == c,
        text::is_letter(c) <==> 65 <= c as int <= 90 || 97 <= c as int <= 122,
        text::is_digit(c) <==> 48 <= c as int <= 57,
        text::is_control(c) <==> c as int <= 31 || 127 <= c as int <= 159,
{
}

/// Of ASCII, letters and figures alone make words, and only capitals have
/// another lower case.
pub proof fn ascii_words_are_letters_and_figures(c: char)
    requires
        c as int <= 127,
    ensures
        text::is_word_char(c) <==> 48 <= c as int <= 57 || 65 <= c as int <= 90 || 97 <= c as int
            <= 122,
        65 <= c as int <= 90 ==> text::lower_case(c) == seq![(c as int + 32) as char],
        !(65 <= c as int <= 90) ==> text::lower_case(c) == seq![c],
{
}

/// Each figure behind a number is worth ten times less than the one before.
pub proof fn a_figure_adds_a_place(s: Seq<char>, figure: char)
    requires
        48 <= figure as int <= 57,
    ensures
        text::number(s.push(figure)) == 10 * text::number(s) + (figure as int - 48),
        text::number(Seq::empty()) == 0,
{
    assert(s.push(figure).drop_last() =~= s);
}

/// A number is written in figures, without a zero in front, and reads back as
/// itself.
pub proof fn a_number_reads_back(n: nat)
    ensures
        text::number(text::decimal(n)) == n,
        forall|i: int|
            0 <= i < text::decimal(n).len() ==> 48 <= #[trigger] text::decimal(n)[i] as int <= 57,
        text::decimal(n).len() > 0,
        n > 0 ==> text::decimal(n)[0] != '0',
        n == 0 ==> text::decimal(n) == seq!['0'],
    decreases n,
{
    let d = text::decimal(n);
    if n < 10 {
        reveal_with_fuel(text::number, 2);
        assert(d.drop_last() =~= Seq::empty());
    } else {
        a_number_reads_back(n / 10);
        assert(d.drop_last() =~= text::decimal(n / 10));
        assert forall|i: int| 0 <= i < d.len() implies 48 <= #[trigger] d[i] as int <= 57 by {
            if i < d.len() - 1 {
                assert(d[i] == text::decimal(n / 10)[i]);
            }
        }
        assert(d[0] == text::decimal(n / 10)[0]);
    }
}

/// A padded number has two places at least.
pub proof fn two_places_are_filled(n: nat)
    ensures
        n < 100 ==> text::padded(n) == seq![(48 + n / 10) as char, (48 + n % 10) as char],
        n >= 100 ==> text::padded(n) == text::decimal(n),
{
    if n < 10 {
        assert(text::padded(n) =~= seq![(48 + n / 10) as char, (48 + n % 10) as char]);
    } else if n < 100 {
        reveal_with_fuel(text::decimal, 3);
        assert(text::decimal(n / 10) =~= seq![(48 + n / 10) as char]);
        assert(text::padded(n) =~= seq![(48 + n / 10) as char, (48 + n % 10) as char]);
    }
}

/// Only a negative number has a sign.
pub proof fn a_sign_stands_in_front(n: int)
    ensures
        n >= 0 ==> text::signed(n) == text::decimal(n as nat),
        n < 0 ==> text::signed(n) == seq!['-'] + text::decimal((-n) as nat),
{
}

/// A text is read as a number where it is nothing but figures, one at least,
/// and not too large; a plus may stand in front where a sign is allowed.
pub proof fn a_number_is_nothing_but_figures(s: Seq<char>, max: nat)
    ensures
        text::spelled(s, max) is Some <==> s.len() > 0 && (forall|i: int|
            0 <= i < s.len() ==> 48 <= #[trigger] s[i] as int <= 57) && text::number(s) <= max,
        text::spelled(s, max) is Some ==> text::spelled(s, max) == Some(text::number(s)),
        text::unsigned(seq!['+'] + s, max) == text::spelled(s, max),
        s.len() > 0 && s[0] != '+' ==> text::unsigned(s, max) == text::spelled(s, max),
{
    assert((seq!['+'] + s).skip(1) =~= s);
    if text::spelled(s, max) is Some {
        assert forall|i: int| 0 <= i < s.len() implies 48 <= #[trigger] s[i] as int <= 57 by {
            assert(text::is_digit(s[i]));
        }
    }
}

// ---------------------------------------------------------------------
// White space
// ---------------------------------------------------------------------

/// Whether a character is white space, by its code point.
pub open spec fn is_space(c: char) -> bool {
    seq![
        0x09int,
        0x0A,
        0x0B,
        0x0C,
        0x0D,
        0x20,
        0x85,
        0xA0,
        0x1680,
        0x2000,
        0x2001,
        0x2002,
        0x2003,
        0x2004,
        0x2005,
        0x2006,
        0x2007,
        0x2008,
        0x2009,
        0x200A,
        0x2028,
        0x2029,
        0x202F,
        0x205F,
        0x3000,
    ].contains(c as int)
}

/// Whether a text is nothing but white space.
pub open spec fn is_spaces(s: Seq<char>) -> bool {
    forall|i: int| 0 <= i < s.len() ==> is_space(#[trigger] s[i])
}

proof fn lemma_space(c: char)
    ensures
        is_space(c) <==> text::is_white(c),
{
    let all = seq![
        0x09int,
        0x0A,
        0x0B,
        0x0C,
        0x0D,
        0x20,
        0x85,
        0xA0,
        0x1680,
        0x2000,
        0x2001,
        0x2002,
        0x2003,
        0x2004,
        0x2005,
        0x2006,
        0x2007,
        0x2008,
        0x2009,
        0x200A,
        0x2028,
        0x2029,
        0x202F,
        0x205F,
        0x3000,
    ];
    assert(all.len() == 25);
    assert(all[0] == 9 && all[1] == 10 && all[2] == 11 && all[3] == 12 && all[4] == 13 && all[5]
        == 0x20 && all[6] == 0x85 && all[7] == 0xA0 && all[8] == 0x1680);
    assert(all[9] == 0x2000 && all[10] == 0x2001 && all[11] == 0x2002 && all[12] == 0x2003
        && all[13] == 0x2004 && all[14] == 0x2005 && all[15] == 0x2006 && all[16] == 0x2007);
    assert(all[17] == 0x2008 && all[18] == 0x2009 && all[19] == 0x200A && all[20] == 0x2028
        && all[21] == 0x2029 && all[22] == 0x202F && all[23] == 0x205F && all[24] == 0x3000);
}

proof fn lemma_spaces_before(a: Seq<char>, s: Seq<char>)
    requires
        is_spaces(a),
        s.len() == 0 || !is_space(s[0]),
    ensures
        text::trim_start(a + s) == s,
    decreases a.len(),
{
    if a.len() == 0 {
        assert(a + s =~= s);
        if s.len() > 0 {
            lemma_space(s[0]);
        }
    } else {
        lemma_space(a[0]);
        assert(is_space(a[0]));
        assert((a + s)[0] == a[0]);
        assert((a + s).drop_first() =~= a.drop_first() + s);
        assert(forall|i: int| 0 <= i < a.drop_first().len() ==> #[trigger] a.drop_first()[i] == a[i
            + 1]);
        lemma_spaces_before(a.drop_first(), s);
    }
}

proof fn lemma_spaces_behind(s: Seq<char>, b: Seq<char>)
    requires
        is_spaces(b),
        s.len() == 0 || !is_space(s.last()),
    ensures
        text::trim_end(s + b) == s,
    decreases b.len(),
{
    if b.len() == 0 {
        assert(s + b =~= s);
        if s.len() > 0 {
            lemma_space(s.last());
        }
    } else {
        lemma_space(b[b.len() - 1]);
        assert(is_space(b[b.len() - 1]));
        assert((s + b).last() == b.last());
        assert((s + b).drop_last() =~= s + b.drop_last());
        assert(forall|i: int| 0 <= i < b.drop_last().len() ==> #[trigger] b.drop_last()[i] == b[i]);
        lemma_spaces_behind(s, b.drop_last());
    }
}

/// Trimming takes the white space around a text away, and nothing else.
pub proof fn trimming_takes_the_space_around(before: Seq<char>, s: Seq<char>, behind: Seq<char>)
    requires
        is_spaces(before),
        is_spaces(behind),
        s.len() > 0 ==> !is_space(s[0]) && !is_space(s.last()),
    ensures
        text::trim(before + s + behind) == s,
        s.len() > 0 ==> text::trim_start(before + s + behind) == s + behind,
        s.len() > 0 ==> text::trim_end(before + s + behind) == before + s,
{
    assert(before + s + behind =~= before + (s + behind));
    if s.len() > 0 {
        assert((s + behind)[0] == s[0]);
        lemma_spaces_before(before, s + behind);
        lemma_spaces_behind(s, behind);
        assert((before + s).last() == s.last());
        lemma_spaces_behind(before + s, behind);
    } else {
        let all = before + behind;
        assert(before + s + behind =~= all);
        assert forall|i: int| 0 <= i < all.len() implies is_space(#[trigger] all[i]) by {
            if i < before.len() {
                assert(all[i] == before[i]);
            } else {
                assert(all[i] == behind[i - before.len()]);
            }
        }
        lemma_spaces_before(all, Seq::empty());
        assert(all + Seq::<char>::empty() =~= all);
        assert(s =~= Seq::empty());
    }
}

// ---------------------------------------------------------------------
// Order and place
// ---------------------------------------------------------------------

/// Texts are ordered by the first character they differ in, and a text comes
/// before every longer one that starts with it.
pub proof fn the_first_difference_orders(
    start: Seq<char>,
    a: char,
    b: char,
    rest: Seq<char>,
    other: Seq<char>,
)
    ensures
        a != b ==> (text::text_less(start.push(a) + rest, start.push(b) + other) <==> (a as int) < (
        b as int)),
        text::text_less(start, start.push(a) + rest),
        !text::text_less(start.push(a) + rest, start),
    decreases start.len(),
{
    let x = start.push(a) + rest;
    let y = start.push(b) + other;
    if start.len() == 0 {
        assert(x[0] == a && y[0] == b);
    } else {
        let s = start.drop_first();
        assert(x[0] == start[0] && y[0] == start[0]);
        assert(x.drop_first() =~= s.push(a) + rest);
        assert(y.drop_first() =~= s.push(b) + other);
        the_first_difference_orders(s, a, b, rest, other);
    }
}

/// A text starts with what stands at its start, ends with what stands at its
/// end, and holds what stands anywhere in it.
pub proof fn a_text_holds_its_parts(a: Seq<char>, part: Seq<char>, b: Seq<char>)
    ensures
        text::has_prefix(part + b, part),
        text::has_suffix(a + part, part),
        text::has_text(a + part + b, part),
        part.len() > 0 && b.len() > 0 && part[0] != b[0] ==> !text::has_prefix(b, part),
        part.len() > 0 && a.len() > 0 && part.last() != a.last() ==> !text::has_suffix(a, part),
        part.len() > b.len() ==> !text::has_prefix(b, part) && !text::has_text(b, part),
        part.len() > a.len() ==> !text::has_suffix(a, part),
{
    assert((part + b).subrange(0, part.len() as int) =~= part);
    let e = a + part;
    assert(e.subrange(e.len() - part.len(), e.len() as int) =~= part);
    assert((a + part + b).subrange(a.len() as int, (a.len() + part.len()) as int) =~= part);
    assert(text::occurs_at(a + part + b, part, a.len() as int));
    if part.len() > 0 && b.len() > 0 && part[0] != b[0] && text::has_prefix(b, part) {
        assert(b.subrange(0, part.len() as int)[0] == b[0]);
    }
    if part.len() > 0 && a.len() > 0 && part.last() != a.last() && text::has_suffix(a, part) {
        let tail = a.subrange(a.len() - part.len(), a.len() as int);
        assert(tail[part.len() - 1] == a.last());
    }
}

} // verus!
