//! What holds of strings and of maps with string keys.

use crate::string_map;
use crate::text;
use vstd::prelude::*;

verus! {

/// Whether every character of `s` is white space.
pub open spec fn is_blank(s: Seq<char>) -> bool {
    forall|i: int| 0 <= i < s.len() ==> text::is_white_space(#[trigger] s[i])
}

/// Whether no character of `s` is white space.
pub open spec fn is_solid(s: Seq<char>) -> bool {
    forall|i: int| 0 <= i < s.len() ==> !text::is_white_space(#[trigger] s[i])
}

/// The code points of the characters with the Unicode property `White_Space`.
pub open spec fn white_space_points() -> Seq<u32> {
    seq![
        0x9,
        0xa,
        0xb,
        0xc,
        0xd,
        0x20,
        0x85,
        0xa0,
        0x1680,
        0x2000,
        0x2001,
        0x2002,
        0x2003,
        0x2004,
        0x2005,
        0x2006,
        0x2007,
        0x2008,
        0x2009,
        0x200a,
        0x2028,
        0x2029,
        0x202f,
        0x205f,
        0x3000,
    ]
}

/// White space is what is listed.
pub proof fn law_white_space(c: char)
    ensures
        text::is_white_space(c) <==> white_space_points().contains(c as u32),
{
    let s = white_space_points();
    if text::is_white_space(c) {
        let n = c as u32;
        let k: int = if n <= 0xd {
            n - 9
        } else if n == 0x20 {
            5
        } else if n == 0x85 {
            6
        } else if n == 0xa0 {
            7
        } else if n == 0x1680 {
            8
        } else if n <= 0x200a {
            n - 0x2000 + 9
        } else if n == 0x2028 {
            20
        } else if n == 0x2029 {
            21
        } else if n == 0x202f {
            22
        } else if n == 0x205f {
            23
        } else {
            24
        };
        assert(s[k] == n);
    }
}

/// Trimming takes white space away at both ends, all of it, and nothing else.
pub proof fn law_trimmed(s: Seq<char>)
    ensures
        exists|before: Seq<char>, after: Seq<char>|
            s == #[trigger] (before + text::trimmed(s) + after) && is_blank(before) && is_blank(
                after,
            ),
        text::trimmed(s).len() > 0 ==> !text::is_white_space(text::trimmed(s)[0])
            && !text::is_white_space(text::trimmed(s)[text::trimmed(s).len() - 1]),
{
    let before = lemma_leading(s);
    let rest = text::without_leading(s);
    let after = lemma_trailing(rest);
    let r = text::trimmed(s);
    assert(before + r + after =~= before + (r + after));
    if r.len() > 0 {
        assert(rest[0] == r[0]);
    }
}

/// What is taken away at the begin.
proof fn lemma_leading(s: Seq<char>) -> (before: Seq<char>)
    ensures
        s == before + text::without_leading(s),
        is_blank(before),
        text::without_leading(s).len() > 0 ==> !text::is_white_space(text::without_leading(s)[0]),
    decreases s.len(),
{
    if s.len() > 0 && text::is_white_space(s.first()) {
        let more = lemma_leading(s.drop_first());
        let before = seq![s[0]] + more;
        assert(s =~= seq![s[0]] + s.drop_first());
        assert(s =~= before + text::without_leading(s.drop_first()));
        before
    } else {
        assert(s =~= Seq::<char>::empty() + s);
        Seq::empty()
    }
}

/// What is taken away at the end.
proof fn lemma_trailing(s: Seq<char>) -> (after: Seq<char>)
    ensures
        s == text::without_trailing(s) + after,
        is_blank(after),
        text::without_trailing(s).len() > 0 ==> !text::is_white_space(
            text::without_trailing(s)[text::without_trailing(s).len() - 1],
        ),
    decreases s.len(),
{
    if s.len() > 0 && text::is_white_space(s.last()) {
        let more = lemma_trailing(s.drop_last());
        let after = more + seq![s.last()];
        assert(s =~= s.drop_last() + seq![s.last()]);
        assert(s =~= text::without_trailing(s.drop_last()) + after);
        after
    } else {
        assert(s =~= s + Seq::<char>::empty());
        Seq::empty()
    }
}

/// Stripping white space goes through a text piece by piece: each character
/// stays unless it is white space.
pub proof fn law_stripped(a: Seq<char>, c: char, b: Seq<char>)
    ensures
        text::without_white_space(Seq::<char>::empty()) == Seq::<char>::empty(),
        text::without_white_space(seq![c]) == (if text::is_white_space(c) {
            Seq::<char>::empty()
        } else {
            seq![c]
        }),
        text::without_white_space(a + b) == text::without_white_space(a)
            + text::without_white_space(b),
{
    let keep = |x: char| !text::is_white_space(x);
    reveal(Seq::filter);
    assert(seq![c].drop_last() =~= Seq::<char>::empty());
    assert(Seq::<char>::empty().filter(keep) =~= Seq::<char>::empty());
    assert(text::without_white_space(seq![c]) =~= (if text::is_white_space(c) {
        Seq::<char>::empty()
    } else {
        seq![c]
    }));
    lemma_stripped_sum(a, b);
}

/// Stripping a text is stripping its two parts.
proof fn lemma_stripped_sum(a: Seq<char>, b: Seq<char>)
    ensures
        text::without_white_space(a + b) == text::without_white_space(a)
            + text::without_white_space(b),
    decreases b.len(),
{
    reveal(Seq::filter);
    if b.len() == 0 {
        assert(a + b =~= a);
        assert(text::without_white_space(a) + text::without_white_space(b)
            =~= text::without_white_space(a));
    } else {
        lemma_stripped_sum(a, b.drop_last());
        assert((a + b).drop_last() =~= a + b.drop_last());
        assert((a + b).last() == b.last());
        assert(text::without_white_space(a + b) =~= text::without_white_space(a)
            + text::without_white_space(b));
    }
}

/// A text made of words with gaps around them: one gap before each word, and one
/// behind the last.
pub open spec fn spaced(gaps: Seq<Seq<char>>, words: Seq<Seq<char>>) -> Seq<char>
    decreases words.len(),
{
    if words.len() == 0 {
        gaps.last()
    } else {
        spaced(gaps.drop_last(), words.drop_last()) + words.last() + gaps.last()
    }
}

/// Whether `gaps` and `words` alternate in `s`: the gaps are white space and not
/// empty between words; the words are not empty and hold no white space.
pub open spec fn is_split(s: Seq<char>, gaps: Seq<Seq<char>>, words: Seq<Seq<char>>) -> bool {
    &&& gaps.len() == words.len() + 1
    &&& s == spaced(gaps, words)
    &&& forall|i: int| 0 <= i < gaps.len() ==> is_blank(#[trigger] gaps[i])
    &&& forall|i: int| 0 < i < gaps.len() - 1 ==> (#[trigger] gaps[i]).len() > 0
    &&& forall|i: int|
        0 <= i < words.len() ==> (#[trigger] words[i]).len() > 0 && is_solid(words[i])
}

/// The words of a text are what stands between the white space in it.
pub proof fn law_words(s: Seq<char>)
    ensures
        exists|gaps: Seq<Seq<char>>| #[trigger] is_split(s, gaps, text::words(s)),
{
    let gaps = lemma_words(s);
}

/// The gaps between the words of a text.
proof fn lemma_words(s: Seq<char>) -> (gaps: Seq<Seq<char>>)
    ensures
        is_split(s, gaps, text::words(s)),
        s.len() > 0 && !text::is_white_space(s.last()) ==> text::words(s).len() > 0
            && gaps.last().len() == 0,
        s.len() > 0 && text::is_white_space(s.last()) ==> gaps.last().len() > 0,
        s.len() == 0 ==> text::words(s).len() == 0,
    decreases s.len(),
{
    if s.len() == 0 {
        let gaps = seq![Seq::<char>::empty()];
        assert(spaced(gaps, text::words(s)) =~= s);
        gaps
    } else {
        let init = s.drop_last();
        let c = s.last();
        let before = lemma_words(init);
        let old_words = text::words(init);
        let new_words = text::words(s);
        assert(s =~= init + seq![c] && s =~= init.push(c));
        if text::is_white_space(c) {
            let gaps = before.update(before.len() - 1, before.last().push(c));
            assert(gaps.drop_last() =~= before.drop_last());
            assert(spaced(gaps, new_words) =~= spaced(before, old_words).push(c));
            assert forall|i: int| 0 <= i < gaps.len() implies is_blank(#[trigger] gaps[i]) by {
                assert(is_blank(before[i]));
            }
            assert forall|i: int| 0 < i < gaps.len() - 1 implies (#[trigger] gaps[i]).len()
                > 0 by {
                assert(before[i].len() > 0);
            }
            assert(is_split(s, gaps, new_words));
            gaps
        } else if s.len() == 1 || text::is_white_space(s[s.len() - 2]) {
            assert(s.len() > 1 ==> init.last() == s[s.len() - 2]);
            let gaps = before.push(Seq::<char>::empty());
            assert(gaps.drop_last() =~= before);
            assert(new_words.drop_last() =~= old_words);
            assert(spaced(gaps, new_words) =~= spaced(before, old_words) + seq![c]
                + Seq::<char>::empty());
            assert forall|i: int| 0 <= i < gaps.len() implies is_blank(#[trigger] gaps[i]) by {
                if i < before.len() {
                    assert(is_blank(before[i]));
                }
            }
            assert forall|i: int| 0 < i < gaps.len() - 1 implies (#[trigger] gaps[i]).len()
                > 0 by {
                if i < before.len() - 1 {
                    assert(before[i].len() > 0);
                } else {
                    assert(gaps[i] == before.last());
                }
            }
            assert forall|i: int| 0 <= i < new_words.len() implies (#[trigger] new_words[i]).len()
                > 0 && is_solid(new_words[i]) by {
                if i < old_words.len() {
                    assert(new_words[i] == old_words[i]);
                }
            }
            assert(is_split(s, gaps, new_words));
            gaps
        } else {
            assert(init.last() == s[s.len() - 2]);
            assert(new_words.drop_last() =~= old_words.drop_last());
            assert(before.last() =~= Seq::<char>::empty());
            assert(spaced(before, new_words) =~= spaced(before, old_words).push(c));
            assert forall|i: int| 0 <= i < new_words.len() implies (#[trigger] new_words[i]).len()
                > 0 && is_solid(new_words[i]) by {
                assert(is_solid(old_words[i]));
                if i < old_words.len() - 1 {
                    assert(new_words[i] == old_words[i]);
                } else {
                    assert(new_words[i] == old_words[i].push(c));
                }
            }
            assert(is_split(s, before, new_words));
            before
        }
    }
}

/// Whether two characters are the same letter: the same character, or a capital
/// and the small letter of it among the ASCII letters.
pub open spec fn is_same_letter(x: char, y: char) -> bool {
    ||| x == y
    ||| 'A' <= x <= 'Z' && y as int == x as int + 32
    ||| 'A' <= y <= 'Z' && x as int == y as int + 32
}

/// Two texts are the same up to case where they have the same letters one by one.
pub proof fn law_same_ignoring_case(a: Seq<char>, b: Seq<char>)
    ensures
        text::same_ignoring_case(a, b) <==> (a.len() == b.len() && forall|i: int|
            0 <= i < a.len() ==> #[trigger] is_same_letter(a[i], b[i])),
{
    if a.len() == b.len() {
        assert forall|i: int| 0 <= i < a.len() implies (#[trigger] is_same_letter(a[i], b[i])
            <==> text::ascii_lower(a[i]) == text::ascii_lower(b[i])) by {}
        if text::same_ignoring_case(a, b) {
            assert forall|i: int| 0 <= i < a.len() implies #[trigger] is_same_letter(
                a[i],
                b[i],
            ) by {
                assert(text::ascii_lower(a[i]) == text::ascii_lower(b[i]));
            }
        }
        if forall|i: int| 0 <= i < a.len() ==> #[trigger] is_same_letter(a[i], b[i]) {
            assert forall|i: int| 0 <= i < a.len() implies #[trigger] text::ascii_lower(a[i])
                == text::ascii_lower(b[i]) by {
                assert(is_same_letter(a[i], b[i]));
            }
        }
    }
}

/// The view of an optional string is what it holds, if it holds anything.
pub proof fn law_optional_text(s: String, r: &str)
    ensures
        text::text_of(Some(s)) == Some(s@),
        text::text_of(None) is None,
        text::str_text(Some(r)) == Some(r@),
        text::str_text(None) is None,
{
}

/// One string comes before another where they first differ by a smaller code
/// point, or where it is a proper beginning of the other.
pub proof fn law_precedes_first_difference(a: Seq<char>, b: Seq<char>)
    ensures
        string_map::precedes(a, b) <==> exists|k: int|
            #![trigger a.take(k)]
            0 <= k < b.len() && k <= a.len() && a.take(k) == b.take(k) && (k == a.len() || a[k]
                < b[k]),
    decreases a.len(),
{
    let rest = a.len() > 0 && b.len() > 0 && a[0] == b[0];
    if rest {
        law_precedes_first_difference(a.drop_first(), b.drop_first());
    }
    if string_map::precedes(a, b) {
        if rest {
            let x = a.drop_first();
            let y = b.drop_first();
            let k = choose|k: int|
                #![trigger x.take(k)]
                0 <= k < y.len() && k <= x.len() && x.take(k) == y.take(k) && (k == x.len() || x[k]
                    < y[k]);
            assert(a.take(k + 1) =~= seq![a[0]] + x.take(k));
            assert(b.take(k + 1) =~= seq![b[0]] + y.take(k));
            assert(k + 1 < a.len() ==> a[k + 1] == x[k]);
            assert(b[k + 1] == y[k]);
        } else {
            assert(a.take(0) =~= b.take(0));
        }
    }
    if exists|k: int|
        #![trigger a.take(k)]
        0 <= k < b.len() && k <= a.len() && a.take(k) == b.take(k) && (k == a.len() || a[k]
            < b[k]) {
        let k = choose|k: int|
            #![trigger a.take(k)]
            0 <= k < b.len() && k <= a.len() && a.take(k) == b.take(k) && (k == a.len() || a[k]
                < b[k]);
        if k > 0 {
            assert(a.take(k)[0] == a[0] && b.take(k)[0] == b[0]);
            let x = a.drop_first();
            let y = b.drop_first();
            assert(x.take(k - 1) =~= a.take(k).drop_first());
            assert(y.take(k - 1) =~= b.take(k).drop_first());
            assert(k < a.len() ==> x[k - 1] == a[k]);
            assert(y[k - 1] == b[k]);
            assert(string_map::precedes(x, y));
        }
    }
}

/// The map that entries in the order of their keys make has exactly their keys,
/// each with its value.
pub proof fn law_entries_make_the_map<W>(s: Seq<(Seq<char>, W)>, key: Seq<char>)
    requires
        string_map::increasing(s),
    ensures
        string_map::map_of(s).contains_key(key) <==> exists|i: int|
            0 <= i < s.len() && (#[trigger] s[i]).0 == key,
        forall|i: int|
            0 <= i < s.len() && (#[trigger] s[i]).0 == key ==> string_map::map_of(s)[key] == s[i].1,
{
    assert forall|i: int| 0 <= i < s.len() && (#[trigger] s[i]).0 == key implies string_map::map_of(
        s,
    )[key] == s[i].1 by {
        string_map::lemma_map_of(s, i);
    }
}

/// Entries are in order where each key comes before all that follow it.
pub proof fn law_entries_are_in_order<W>(s: Seq<(Seq<char>, W)>)
    ensures
        string_map::increasing(s) <==> forall|i: int, j: int|
            #![trigger s[i], s[j]]
            0 <= i < j < s.len() ==> string_map::precedes(s[i].0, s[j].0),
{
}

} // verus!
