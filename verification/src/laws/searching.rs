//! Searching the catalogue by name.

use vstd::prelude::*;

use crate::fuzzy;
use crate::text;

verus! {

/// The plain letter an accented one is typed as, by code point.
pub open spec fn plain_letter(c: char) -> Option<char> {
    let n = c as int;
    if 0xE0 <= n <= 0xE5 || n == 0x101 || n == 0x103 || n == 0x105 {
        Some('a')
    } else if 0xE8 <= n <= 0xEB || n == 0x113 || n == 0x115 || n == 0x117 || n == 0x119 || n == 0x11B {
        Some('e')
    } else if 0xEC <= n <= 0xEF || n == 0x12B || n == 0x12D || n == 0x12F {
        Some('i')
    } else if 0xF2 <= n <= 0xF6 || n == 0xF8 || n == 0x14D || n == 0x14F || n == 0x151 {
        Some('o')
    } else if 0xF9 <= n <= 0xFC || n == 0x16B || n == 0x16D || n == 0x16F || n == 0x171 || n == 0x173 {
        Some('u')
    } else if n == 0xE7 || n == 0x107 || n == 0x109 || n == 0x10B || n == 0x10D {
        Some('c')
    } else if n == 0xF1 || n == 0x144 || n == 0x146 || n == 0x148 {
        Some('n')
    } else if n == 0xFD || n == 0xFF {
        Some('y')
    } else if n == 0x15B || n == 0x15F || n == 0x161 {
        Some('s')
    } else if n == 0x17A || n == 0x17C || n == 0x17E {
        Some('z')
    } else if n == 0x142 {
        Some('l')
    } else if n == 0x11F {
        Some('g')
    } else if n == 0xF0 {
        Some('d')
    } else if n == 0xFE {
        Some('p')
    } else {
        None
    }
}

proof fn lemma_folded(c: char)
    ensures
        fuzzy::folded(c) == match plain_letter(c) {
            Some(b) => b,
            None => c,
        },
        plain_letter(c) matches Some(b) ==> 'a' <= b <= 'z',
{
    reveal_strlit("áàâãäåāăą");
    assert("áàâãäåāăą"@[0] == 'á');
    assert("áàâãäåāăą"@[1] == 'à');
    assert("áàâãäåāăą"@[2] == 'â');
    assert("áàâãäåāăą"@[3] == 'ã');
    assert("áàâãäåāăą"@[4] == 'ä');
    assert("áàâãäåāăą"@[5] == 'å');
    assert("áàâãäåāăą"@[6] == 'ā');
    assert("áàâãäåāăą"@[7] == 'ă');
    assert("áàâãäåāăą"@[8] == 'ą');
    reveal_strlit("éèêëēĕėęě");
    assert("éèêëēĕėęě"@[0] == 'é');
    assert("éèêëēĕėęě"@[1] == 'è');
    assert("éèêëēĕėęě"@[2] == 'ê');
    assert("éèêëēĕėęě"@[3] == 'ë');
    assert("éèêëēĕėęě"@[4] == 'ē');
    assert("éèêëēĕėęě"@[5] == 'ĕ');
    assert("éèêëēĕėęě"@[6] == 'ė');
    assert("éèêëēĕėęě"@[7] == 'ę');
    assert("éèêëēĕėęě"@[8] == 'ě');
    reveal_strlit("íìîïīĭį");
    assert("íìîïīĭį"@[0] == 'í');
    assert("íìîïīĭį"@[1] == 'ì');
    assert("íìîïīĭį"@[2] == 'î');
    assert("íìîïīĭį"@[3] == 'ï');
    assert("íìîïīĭį"@[4] == 'ī');
    assert("íìîïīĭį"@[5] == 'ĭ');
    assert("íìîïīĭį"@[6] == 'į');
    reveal_strlit("óòôõöøōŏő");
    assert("óòôõöøōŏő"@[0] == 'ó');
    assert("óòôõöøōŏő"@[1] == 'ò');
    assert("óòôõöøōŏő"@[2] == 'ô');
    assert("óòôõöøōŏő"@[3] == 'õ');
    assert("óòôõöøōŏő"@[4] == 'ö');
    assert("óòôõöøōŏő"@[5] == 'ø');
    assert("óòôõöøōŏő"@[6] == 'ō');
    assert("óòôõöøōŏő"@[7] == 'ŏ');
    assert("óòôõöøōŏő"@[8] == 'ő');
    reveal_strlit("úùûüūŭůűų");
    assert("úùûüūŭůűų"@[0] == 'ú');
    assert("úùûüūŭůűų"@[1] == 'ù');
    assert("úùûüūŭůűų"@[2] == 'û');
    assert("úùûüūŭůűų"@[3] == 'ü');
    assert("úùûüūŭůűų"@[4] == 'ū');
    assert("úùûüūŭůűų"@[5] == 'ŭ');
    assert("úùûüūŭůűų"@[6] == 'ů');
    assert("úùûüūŭůűų"@[7] == 'ű');
    assert("úùûüūŭůűų"@[8] == 'ų');
    reveal_strlit("çćčĉċ");
    assert("çćčĉċ"@[0] == 'ç');
    assert("çćčĉċ"@[1] == 'ć');
    assert("çćčĉċ"@[2] == 'č');
    assert("çćčĉċ"@[3] == 'ĉ');
    assert("çćčĉċ"@[4] == 'ċ');
    reveal_strlit("ñńňņ");
    assert("ñńňņ"@[0] == 'ñ');
    assert("ñńňņ"@[1] == 'ń');
    assert("ñńňņ"@[2] == 'ň');
    assert("ñńňņ"@[3] == 'ņ');
    reveal_strlit("ýÿ");
    assert("ýÿ"@[0] == 'ý');
    assert("ýÿ"@[1] == 'ÿ');
    reveal_strlit("šśş");
    assert("šśş"@[0] == 'š');
    assert("šśş"@[1] == 'ś');
    assert("šśş"@[2] == 'ş');
    reveal_strlit("žźż");
    assert("žźż"@[0] == 'ž');
    assert("žźż"@[1] == 'ź');
    assert("žźż"@[2] == 'ż');
}

proof fn lemma_flattened_concat(a: Seq<char>, b: Seq<char>)
    ensures
        fuzzy::flattened(a + b) == fuzzy::flattened(a) + fuzzy::flattened(b),
    decreases b.len(),
{
    if b.len() == 0 {
        assert(a + b =~= a);
        assert(fuzzy::flattened(a) + fuzzy::flattened(b) =~= fuzzy::flattened(a));
    } else {
        lemma_flattened_concat(a, b.drop_last());
        assert((a + b).drop_last() =~= a + b.drop_last());
        assert((a + b).last() == b.last());
        assert(fuzzy::flattened(a + b) =~= fuzzy::flattened(a) + fuzzy::flattened(b));
    }
}

proof fn lemma_flattened_one(x: char)
    ensures
        fuzzy::flattened(seq![x]) == text::lower_case(x).map_values(|c: char| fuzzy::folded(c)),
{
    let one = seq![x];
    assert(one.drop_last() =~= Seq::<char>::empty());
    assert(one.last() == x);
    assert(fuzzy::flattened(one.drop_last()) =~= Seq::<char>::empty());
    assert(fuzzy::flattened(one) =~= text::lower_case(x).map_values(|c: char| fuzzy::folded(c)));
}

/// An accented letter, small or capital, reads as its plain letter does: a
/// text and the text with the plain letter in its place have one normal form.
pub proof fn an_accent_is_optional(before: Seq<char>, x: char, after: Seq<char>, c: char, plain: char)
    requires
        text::lower_case(x) == seq![c],
        plain_letter(c) == Some(plain),
    ensures
        fuzzy::normal(before + seq![x] + after) == fuzzy::normal(before + seq![plain] + after),
{
    lemma_folded(c);
    lemma_folded(plain);
    lemma_flattened_one(x);
    lemma_flattened_one(plain);
    assert(text::lower_case(x).map_values(|c: char| fuzzy::folded(c)) =~= seq![plain]);
    assert(text::lower_case(plain).map_values(|c: char| fuzzy::folded(c)) =~= seq![plain]);
    lemma_flattened_concat(before, seq![x]);
    lemma_flattened_concat(before + seq![x], after);
    lemma_flattened_concat(before, seq![plain]);
    lemma_flattened_concat(before + seq![plain], after);
}

/// Only accents are dropped: a letter or digit that carries none stays
/// itself, in lower case.
pub proof fn any_other_letter_stays_itself(x: char, c: char)
    requires
        text::lower_case(x) == seq![c],
        plain_letter(c) is None,
        text::is_word_char(c),
    ensures
        fuzzy::normal(seq![x]) == seq![c],
{
    lemma_folded(c);
    lemma_flattened_one(x);
    let flat = fuzzy::flattened(seq![x]);
    assert(flat =~= seq![c]);
    let breaks = fuzzy::word_breaks();
    assert(text::free_of(flat, breaks));
    text::lemma_split_append_free(Seq::empty(), flat, breaks);
    assert(Seq::<char>::empty() + flat =~= flat);
    assert(text::split(Seq::<char>::empty(), breaks) == seq![Seq::<char>::empty()]);
    let f = text::split(flat, breaks);
    assert(f =~= seq![flat]);
    assert(f.drop_last() =~= Seq::<Seq<char>>::empty());
    assert(fuzzy::nonempty(f.drop_last()) =~= Seq::<Seq<char>>::empty());
    assert(fuzzy::nonempty(f) =~= seq![flat]);
}

/// Capitals of ASCII are typed as small letters, and what is neither a
/// letter nor a digit separates words as a space does.
pub proof fn case_and_punctuation_are_noise(before: Seq<char>, x: char, after: Seq<char>)
    ensures
        'A' <= x <= 'Z' ==> fuzzy::normal(before + seq![x] + after) == fuzzy::normal(
            before + seq![(x as int + 32) as char] + after,
        ),
        x as int <= 0x7F && !('A' <= x <= 'Z') && !('a' <= x <= 'z') && !('0' <= x <= '9')
            ==> fuzzy::words(before + seq![x] + after) == fuzzy::words(
            before + seq![' '] + after,
        ),
{
    lemma_flattened_one(x);
    lemma_folded(x);
    lemma_flattened_concat(before, seq![x]);
    lemma_flattened_concat(before + seq![x], after);
    if 'A' <= x <= 'Z' {
        let small = (x as int + 32) as char;
        lemma_flattened_one(small);
        lemma_flattened_concat(before, seq![small]);
        lemma_flattened_concat(before + seq![small], after);
        assert(text::lower_case(x) =~= text::lower_case(small));
    }
    if x as int <= 0x7F && !text::is_letter(x) && !text::is_digit(x) {
        lemma_flattened_one(' ');
        lemma_folded(' ');
        lemma_flattened_concat(before, seq![' ']);
        lemma_flattened_concat(before + seq![' '], after);
        assert(text::lower_case(x).map_values(|c: char| fuzzy::folded(c)) =~= seq![x]);
        assert(text::lower_case(' ').map_values(|c: char| fuzzy::folded(c)) =~= seq![' ']);
        let a = fuzzy::flattened(before);
        let b = fuzzy::flattened(after);
        lemma_one_break_is_as_good(a, x, b);
    }
}

proof fn lemma_one_break_is_as_good(a: Seq<char>, x: char, b: Seq<char>)
    requires
        fuzzy::word_breaks().contains(x),
    ensures
        text::split(a + seq![x] + b, fuzzy::word_breaks()) == text::split(
            a + seq![' '] + b,
            fuzzy::word_breaks(),
        ),
    decreases b.len(),
{
    let s = a + seq![x] + b;
    let t = a + seq![' '] + b;
    if b.len() == 0 {
        assert(s.drop_last() =~= a && t.drop_last() =~= a);
        assert(s.last() == x && t.last() == ' ');
        assert(fuzzy::word_breaks().contains(' '));
    } else {
        lemma_one_break_is_as_good(a, x, b.drop_last());
        assert(s.drop_last() =~= a + seq![x] + b.drop_last());
        assert(t.drop_last() =~= a + seq![' '] + b.drop_last());
        assert(s.last() == t.last());
    }
}

/// A title is found by its own name, whatever the accents, the case and the
/// punctuation: two texts with one normal form score a thousand against each
/// other.
pub proof fn one_name_scores_a_thousand(r: Option<u32>, query: Seq<char>, field: &str)
    requires
        fuzzy::is_score(r, query, seq![field]),
        fuzzy::normal(query) == fuzzy::normal(field@),
        fuzzy::normal(query).len() > 0,
    ensures
        r == Some(1000u32),
{
    let fields = seq![field];
    assert(fields[0] == field);
    assert(fuzzy::field_rank(query, fields, 0) == Some(1000nat));
}

/// A query that starts a title scores nine hundred, one that stands further
/// in eight hundred, both on the normal forms.
pub proof fn standing_in_the_title_is_ranked_by_place(
    r: Option<u32>,
    query: Seq<char>,
    field: &str,
    at: int,
)
    requires
        fuzzy::is_score(r, query, seq![field]),
        fuzzy::normal(query).len() > 0,
        0 <= at,
        at + fuzzy::normal(query).len() <= fuzzy::normal(field@).len(),
        fuzzy::normal(query) != fuzzy::normal(field@),
        fuzzy::normal(field@).subrange(at, at + fuzzy::normal(query).len()) == fuzzy::normal(
            query,
        ),
    ensures
        at == 0 ==> r == Some(900u32),
        at > 0 && !fuzzy::normal(query).is_prefix_of(fuzzy::normal(field@)) ==> r == Some(800u32),
{
    let fields = seq![field];
    let q = fuzzy::normal(query);
    let h = fuzzy::normal(field@);
    assert(fields[0] == field);
    assert(text::occurs_at(h, q, at));
    let rank = fuzzy::field_rank(query, fields, 0);
    assert(rank == fuzzy::rank(q, h));
    if at == 0 {
        assert(rank == Some(900nat));
    } else if !q.is_prefix_of(h) {
        assert(!text::has_prefix(h, q));
        assert(rank == Some(800nat));
    }
}

/// One letter too many, one missing and one mistaken are each one edit.
pub proof fn one_slip_is_one_edit(a: Seq<char>, c: char, d: char, b: Seq<char>)
    ensures
        fuzzy::lev(a + seq![c] + b, a + b) == 1,
        fuzzy::lev(a + b, a + seq![c] + b) == 1,
        c != d ==> fuzzy::lev(a + seq![c] + b, a + seq![d] + b) == 1,
{
    let long = a + seq![c] + b;
    let other = a + seq![d] + b;
    let short = a + b;
    lemma_common_ending(a.push(c), a, b);
    lemma_common_ending(a.push(c), a.push(d), b);
    assert(a.push(c) + b =~= long);
    assert(a.push(d) + b =~= other);
    fuzzy::no_distance_is_equality(a, a);
    assert(a.push(c).drop_last() =~= a);
    assert(a.push(d).drop_last() =~= a);
    if a.len() == 0 {
        assert(fuzzy::lev(a.push(c), a) <= 1);
    }
    fuzzy::no_distance_is_equality(long, short);
    fuzzy::no_distance_is_equality(long, other);
    fuzzy::distance_is_symmetric(long, short);
    if c != d {
        assert(long[a.len() as int] != other[a.len() as int]);
    }
}

proof fn lemma_common_ending(x: Seq<char>, y: Seq<char>, b: Seq<char>)
    ensures
        fuzzy::lev(x + b, y + b) <= fuzzy::lev(x, y),
    decreases b.len(),
{
    if b.len() == 0 {
        assert(x + b =~= x && y + b =~= y);
    } else {
        lemma_common_ending(x, y, b.drop_last());
        assert((x + b).drop_last() =~= x + b.drop_last());
        assert((y + b).drop_last() =~= y + b.drop_last());
        assert((x + b).last() == (y + b).last());
    }
}

/// Each edit changes a length by one at most.
pub proof fn a_distance_covers_the_difference_in_length(a: Seq<char>, b: Seq<char>)
    ensures
        a.len() <= b.len() + fuzzy::lev(a, b),
        b.len() <= a.len() + fuzzy::lev(a, b),
    decreases a.len() + b.len(),
{
    if a.len() > 0 && b.len() > 0 {
        a_distance_covers_the_difference_in_length(a.drop_last(), b.drop_last());
        a_distance_covers_the_difference_in_length(a.drop_last(), b);
        a_distance_covers_the_difference_in_length(a, b.drop_last());
    }
}

/// How much a misspelt word is forgiven hangs on its length: a query of one
/// word finds a title of one word that does not hold it where it is off by
/// one letter and has four or more, or by two and has eight or more, and
/// scores six hundred less the edits; otherwise it does not find it.
pub proof fn a_longer_word_is_forgiven_more(q: Seq<char>, h: Seq<char>)
    requires
        q.len() > 0,
        h.len() > 0,
        !q.contains(' '),
        !h.contains(' '),
        !text::has_text(h, q),
    ensures
        ({
            let d = fuzzy::lev(q, h);
            let found = d <= 2 && (d >= 1 ==> q.len() >= 4) && (d == 2 ==> q.len() >= 8);
            &&& found ==> fuzzy::rank(q, h) == Some((600 - d) as nat)
            &&& !found ==> fuzzy::rank(q, h) is None
        }),
{
    lemma_lone_token(q);
    lemma_lone_token(h);
    let tq = fuzzy::tokens(q);
    let th = fuzzy::tokens(h);
    assert(q != h) by {
        if q == h {
            assert(h.subrange(0, h.len() as int) =~= q);
            assert(text::occurs_at(h, q, 0));
        }
    }
    assert(!text::has_prefix(h, q)) by {
        if text::has_prefix(h, q) {
            assert(text::occurs_at(h, q, 0));
        }
    }
    fuzzy::no_distance_is_equality(q, h);
    assert(!fuzzy::all_inside(tq, th)) by {
        if fuzzy::all_inside(tq, th) {
            assert(fuzzy::inside_some(tq[0], th));
            assert(th[0] == h);
        }
    }
    assert(tq.drop_last() =~= Seq::<Seq<char>>::empty());
    assert(th.drop_last() =~= Seq::<Seq<char>>::empty());
    reveal_with_fuel(fuzzy::total_edits, 2);
    reveal_with_fuel(fuzzy::edits, 2);
    assert(tq.last() == q && th.last() == h);
    assert(fuzzy::edits(q, th.drop_last()) is None);
    assert(fuzzy::total_edits(tq.drop_last(), th) == Some(0nat));
}

proof fn lemma_lone_token(s: Seq<char>)
    requires
        s.len() > 0,
        !s.contains(' '),
    ensures
        fuzzy::tokens(s) == seq![s],
{
    let seps = set![' '];
    assert(text::free_of(s, seps)) by {
        assert forall|i: int| 0 <= i < s.len() implies !seps.contains(#[trigger] s[i]) by {
            assert(s.contains(s[i]));
        }
    }
    text::lemma_split_append_free(Seq::empty(), s, seps);
    assert(Seq::<char>::empty() + s =~= s);
    assert(text::split(Seq::<char>::empty(), seps) == seq![Seq::<char>::empty()]);
    let f = text::split(s, seps);
    assert(f =~= seq![s]);
    assert(f.drop_last() =~= Seq::<Seq<char>>::empty());
    assert(fuzzy::nonempty(f.drop_last()) =~= Seq::<Seq<char>>::empty());
    assert(fuzzy::nonempty(f) =~= seq![s]);
}

/// A query all of whose words are in the title, in any order and not as one
/// text, scores seven hundred.
pub proof fn all_words_in_any_order_score_seven_hundred(q: Seq<char>, hay: Seq<char>)
    requires
        hay.len() > 0,
        !text::has_text(hay, q),
        fuzzy::tokens(q).len() > 0,
        forall|i: int|
            0 <= i < fuzzy::tokens(q).len() ==> exists|j: int, at: int|
                0 <= j < fuzzy::tokens(hay).len() && 0 <= at && at + (
                #[trigger] fuzzy::tokens(q)[i]).len() <= fuzzy::tokens(hay)[j].len()
                    && #[trigger] fuzzy::tokens(hay)[j].subrange(
                    at,
                    at + fuzzy::tokens(q)[i].len(),
                ) == fuzzy::tokens(q)[i],
    ensures
        fuzzy::rank(q, hay) == Some(700nat),
{
    let tq = fuzzy::tokens(q);
    let th = fuzzy::tokens(hay);
    assert forall|i: int| 0 <= i < tq.len() implies fuzzy::inside_some(#[trigger] tq[i], th) by {
        let (j, at) = choose|j: int, at: int|
            0 <= j < th.len() && 0 <= at && at + tq[i].len() <= th[j].len()
                && #[trigger] th[j].subrange(at, at + tq[i].len()) == tq[i];
        assert(text::occurs_at(th[j], tq[i], at));
        assert(text::has_text(th[j], tq[i]));
    }
    assert(q != hay) by {
        if q == hay {
            assert(hay.subrange(0, hay.len() as int) =~= q);
            assert(text::occurs_at(hay, q, 0));
        }
    }
    assert(!text::has_prefix(hay, q)) by {
        if text::has_prefix(hay, q) {
            assert(text::occurs_at(hay, q, 0));
        }
    }
}

/// How many edits a word is forgiven: none up to three letters, one up to
/// seven, two beyond.
pub open spec fn forgiven(letters: nat) -> nat {
    if letters >= 8 {
        2
    } else if letters >= 4 {
        1
    } else {
        0
    }
}

/// A word counts by the nearest word of the title, among those it is forgiven
/// to be off from.
pub proof fn the_nearest_word_counts(word: Seq<char>, hay: Seq<Seq<char>>, h: Seq<char>)
    ensures
        ({
            let before = fuzzy::edits(word, hay);
            let after = fuzzy::edits(word, hay.push(h));
            let d = fuzzy::lev(word, h);
            &&& d > forgiven(word.len()) ==> after == before
            &&& d <= forgiven(word.len()) && before is None ==> after == Some(d)
            &&& d <= forgiven(word.len()) && before is Some && d <= before->0 ==> after == Some(d)
            &&& d <= forgiven(word.len()) && before is Some && d >= before->0 ==> after == before
            &&& fuzzy::edits(word, Seq::empty()) is None
        }),
{
    assert(hay.push(h).drop_last() =~= hay);
}

/// The edits of a query's words add up, and a word that is near none of the
/// title's words spoils the query.
pub proof fn the_edits_of_the_words_add_up(
    query: Seq<Seq<char>>,
    word: Seq<char>,
    hay: Seq<Seq<char>>,
)
    ensures
        fuzzy::total_edits(query.push(word), hay) is Some <==> fuzzy::total_edits(query, hay)
            is Some && fuzzy::edits(word, hay) is Some,
        fuzzy::total_edits(query.push(word), hay) is Some ==> fuzzy::total_edits(
            query.push(word),
            hay,
        )->0 == fuzzy::total_edits(query, hay)->0 + fuzzy::edits(word, hay)->0,
        fuzzy::total_edits(Seq::empty(), hay) == Some(0nat),
{
    assert(query.push(word).drop_last() =~= query);
}

/// A misspelt query scores six hundred less its edits, and never less than
/// nothing.
pub proof fn a_misspelt_query_scores_by_its_edits(q: Seq<char>, hay: Seq<char>, edits: nat)
    requires
        hay.len() > 0,
        !text::has_text(hay, q),
        fuzzy::tokens(q).len() > 0,
        !fuzzy::all_inside(fuzzy::tokens(q), fuzzy::tokens(hay)),
        fuzzy::total_edits(fuzzy::tokens(q), fuzzy::tokens(hay)) == Some(edits),
    ensures
        edits <= 600 ==> fuzzy::rank(q, hay) == Some((600 - edits) as nat),
        edits > 600 ==> fuzzy::rank(q, hay) == Some(0nat),
{
    assert(q != hay) by {
        if q == hay {
            assert(hay.subrange(0, hay.len() as int) =~= q);
            assert(text::occurs_at(hay, q, 0));
        }
    }
    assert(!text::has_prefix(hay, q)) by {
        if text::has_prefix(hay, q) {
            assert(text::occurs_at(hay, q, 0));
        }
    }
}

/// A title with several names scores by the name that scores best.
pub proof fn the_best_name_scores(
    all: Option<u32>,
    one: Option<u32>,
    query: Seq<char>,
    fields: Seq<&str>,
    k: int,
)
    requires
        fuzzy::is_score(all, query, fields),
        0 <= k < fields.len(),
        fuzzy::is_score(one, query, seq![fields[k]]),
    ensures
        one matches Some(m) ==> (all matches Some(n) && m <= n),
        all is Some ==> exists|i: int|
            0 <= i < fields.len() && fuzzy::rank(
                fuzzy::normal(query),
                fuzzy::normal((#[trigger] fields[i])@),
            ) == Some(all->0 as nat),
        all is None ==> one is None,
{
    let alone = seq![fields[k]];
    assert(fuzzy::field_rank(query, alone, 0) == fuzzy::field_rank(query, fields, k));
    if let Some(m) = one {
        let i = choose|i: int|
            0 <= i < alone.len() && #[trigger] fuzzy::field_rank(query, alone, i) == Some(m as nat);
        assert(i == 0);
        assert(fuzzy::field_rank(query, fields, k) == Some(m as nat));
    }
    if let Some(n) = all {
        let i = choose|i: int|
            0 <= i < fields.len() && #[trigger] fuzzy::field_rank(query, fields, i) == Some(
                n as nat,
            );
        assert(fuzzy::rank(fuzzy::normal(query), fuzzy::normal(fields[i]@)) == Some(n as nat));
    }
}

} // verus!
