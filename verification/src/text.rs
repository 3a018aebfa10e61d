//! Texts and rows of words: joining them, splitting them, and writing numbers in decimal.

use vstd::prelude::*;
use vstd::string::*;

verus! {

/// The parts laid end to end, with `sep` between each two neighbours.
pub open spec fn join<T>(parts: Seq<Seq<T>>, sep: Seq<T>) -> Seq<T>
    decreases parts.len(),
{
    if parts.len() == 0 {
        Seq::empty()
    } else if parts.len() == 1 {
        parts[0]
    } else {
        join(parts.drop_last(), sep) + sep + parts.last()
    }
}

/// The parts of `s` that lie between the occurrences of `sep`. There is always at least
/// one part, and a separator at either end leaves an empty part there.
pub open spec fn split<T>(s: Seq<T>, sep: T) -> Seq<Seq<T>>
    decreases s.len(),
{
    if s.len() == 0 {
        seq![Seq::empty()]
    } else {
        let before = split(s.drop_last(), sep);
        if s.last() == sep {
            before.push(Seq::empty())
        } else {
            before.update(before.len() - 1, before.last().push(s.last()))
        }
    }
}

/// Splitting and joining.
///
/// Splitting is undone by joining with the separator, there is at least one part, and
/// no part holds the separator.
pub proof fn lemma_split_is_inverse_of_join<T>(s: Seq<T>, sep: T)
    ensures
        split(s, sep).len() >= 1,
        join(split(s, sep), seq![sep]) == s,
        forall|k: int|
            0 <= k < split(s, sep).len() ==> !(#[trigger] split(s, sep)[k]).contains(sep),
    decreases s.len(),
{
    let parts = split(s, sep);
    if s.len() == 0 {
        assert(join(parts, seq![sep]) =~= s);
    } else {
        let init = s.drop_last();
        let before = split(init, sep);
        lemma_split_is_inverse_of_join(init, sep);
        if s.last() == sep {
            assert(parts.drop_last() =~= before);
            assert(join(parts, seq![sep]) =~= s);
        } else {
            let grown = before.last().push(s.last());
            assert(parts == before.update(before.len() - 1, grown));
            assert(parts.last() == grown);
            assert(init.push(s.last()) =~= s);
            if before.len() == 1 {
                assert(join(before, seq![sep]) == before[0]);
                assert(join(parts, seq![sep]) =~= s);
            } else {
                assert(parts.drop_last() =~= before.drop_last());
                assert(join(before, seq![sep]) == join(before.drop_last(), seq![sep]) + seq![sep]
                    + before.last());
                assert(join(parts, seq![sep]) == join(parts.drop_last(), seq![sep]) + seq![sep]
                    + grown);
                assert(join(parts, seq![sep]) =~= s);
            }
            assert forall|k: int| 0 <= k < parts.len() implies !(#[trigger] parts[k]).contains(
                sep,
            ) by {
                if k == parts.len() - 1 {
                    if grown.contains(sep) {
                        let at = choose|at: int| 0 <= at < grown.len() && grown[at] == sep;
                        assert(at < before.last().len());
                        assert(before.last()[at] == sep);
                        assert(before[before.len() - 1].contains(sep));
                    }
                } else {
                    assert(parts[k] == before[k]);
                }
            }
        }
    }
}

/// There is one way to split.
///
/// Parts that hold no separator and that give `s` when they are joined with the
/// separator are the parts that splitting `s` gives.
pub proof fn lemma_split_is_unique<T>(s: Seq<T>, sep: T, parts: Seq<Seq<T>>)
    requires
        parts.len() >= 1,
        forall|k: int| 0 <= k < parts.len() ==> !(#[trigger] parts[k]).contains(sep),
        join(parts, seq![sep]) == s,
    ensures
        parts == split(s, sep),
    decreases s.len(),
{
    let last = parts.last();
    let joined = if parts.len() == 1 {
        Seq::<T>::empty()
    } else {
        join(parts.drop_last(), seq![sep]) + seq![sep]
    };
    assert(s =~= joined + last);
    if last.len() == 0 {
        if parts.len() == 1 {
            assert(s =~= Seq::<T>::empty());
            assert(parts =~~= seq![Seq::<T>::empty()]);
        } else {
            let init = parts.drop_last();
            assert(s.last() == sep);
            assert(s.drop_last() =~= join(init, seq![sep]));
            assert forall|k: int| 0 <= k < init.len() implies !(#[trigger] init[k]).contains(
                sep,
            ) by {
                assert(init[k] == parts[k]);
            }
            lemma_split_is_unique(s.drop_last(), sep, init);
            assert(parts =~~= init.push(Seq::<T>::empty()));
        }
    } else {
        let shorter = parts.update(parts.len() - 1, last.drop_last());
        assert(s.last() == last.last());
        assert(last.contains(last.last())) by {
            assert(last[last.len() - 1] == last.last());
        }
        assert(s.last() != sep);
        assert(shorter.drop_last() =~~= parts.drop_last());
        assert(join(shorter, seq![sep]) =~= s.drop_last()) by {
            assert(joined + last.drop_last() =~= s.drop_last());
        }
        assert forall|k: int| 0 <= k < shorter.len() implies !(#[trigger] shorter[k]).contains(
            sep,
        ) by {
            if k == parts.len() - 1 {
                if shorter[k].contains(sep) {
                    let at = choose|at: int| 0 <= at < shorter[k].len() && shorter[k][at] == sep;
                    assert(last[at] == sep);
                }
            } else {
                assert(shorter[k] == parts[k]);
            }
        }
        lemma_split_is_unique(s.drop_last(), sep, shorter);
        assert(last.drop_last().push(last.last()) =~= last);
        assert(parts =~~= shorter.update(shorter.len() - 1, shorter.last().push(s.last())));
    }
}

/// The character that stands for a single decimal digit.
pub open spec fn digit(d: int) -> char {
    if d == 0 {
        '0'
    } else if d == 1 {
        '1'
    } else if d == 2 {
        '2'
    } else if d == 3 {
        '3'
    } else if d == 4 {
        '4'
    } else if d == 5 {
        '5'
    } else if d == 6 {
        '6'
    } else if d == 7 {
        '7'
    } else if d == 8 {
        '8'
    } else {
        '9'
    }
}

/// The digits of a natural number, most significant first, without leading zeros.
pub open spec fn digits(n: nat) -> Seq<char>
    decreases n,
{
    if n < 10 {
        seq![digit(n as int)]
    } else {
        digits(n / 10).push(digit((n % 10) as int))
    }
}

/// The decimal numeral of an integer: a minus sign before the digits of a negative one.
pub open spec fn decimal(n: int) -> Seq<char> {
    if n < 0 {
        seq!['-'] + digits((-n) as nat)
    } else {
        digits(n as nat)
    }
}

/// Joins the words into one line, `sep` between each two.
pub fn join_words(words: &Vec<String>, sep: &str) -> (line: String)
    ensures
        line@ == join(words.deep_view(), sep@),
{
    let mut line = String::new();
    let mut i: usize = 0;
    while i < words.len()
        invariant
            i <= words.len(),
            line@ == join(words.deep_view().take(i as int), sep@),
        decreases words.len() - i,
    {
        if i > 0 {
            line.append(sep);
        }
        line.append(words[i].as_str());
        proof {
            let upto = words.deep_view().take(i + 1);
            assert(upto.drop_last() =~= words.deep_view().take(i as int));
        }
        i += 1;
    }
    proof {
        assert(words.deep_view().take(words.len() as int) =~= words.deep_view());
    }
    line
}

/// Whether `text` is exactly `literal`.
pub fn same_text(text: &String, literal: &str) -> (same: bool)
    ensures
        same == (text@ == literal@),
{
    let other = String::from_str(literal);
    *text == other
}

/// Whether `text` is the single character `c`.
pub fn is_single(text: &String, c: char) -> (single: bool)
    ensures
        single == (text@ == seq![c]),
{
    let s = text.as_str();
    let single = s.unicode_len() == 1 && s.get_char(0) == c;
    proof {
        if single {
            assert(text@ =~= seq![c]);
        }
    }
    single
}

/// A copy of the words.
pub fn copy_words(words: &Vec<String>) -> (copy: Vec<String>)
    ensures
        copy.deep_view() == words.deep_view(),
{
    let mut copy: Vec<String> = Vec::new();
    let mut i: usize = 0;
    while i < words.len()
        invariant
            i <= words.len(),
            copy.len() == i,
            forall|k: int| 0 <= k < i ==> (#[trigger] copy[k])@ == words[k]@,
        decreases words.len() - i,
    {
        copy.push(words[i].clone());
        i += 1;
    }
    copy
}

/// Splits `text` at every `sep`.
pub fn split_text(text: &str, sep: char) -> (parts: Vec<String>)
    ensures
        parts.deep_view() == split(text@, sep),
{
    let n = text.unicode_len();
    let mut parts: Vec<String> = Vec::new();
    let mut start: usize = 0;
    let mut i: usize = 0;
    assert(text@.take(0) =~= Seq::<char>::empty());
    for c in it: text.chars()
        invariant
            it.seq() == text@,
            i == it.index(),
            start <= i <= n,
            n == text@.len(),
            split(text@.take(i as int), sep) == parts.deep_view().push(
                text@.subrange(start as int, i as int),
            ),
    {
        assert(text@.take(i + 1).drop_last() =~= text@.take(i as int));
        if c == sep {
            parts.push(String::from_str(text.substring_char(start, i)));
            start = i + 1;
            assert(text@.subrange(start as int, i + 1) =~= Seq::<char>::empty());
        } else {
            assert(text@.subrange(start as int, i + 1) =~= text@.subrange(
                start as int,
                i as int,
            ).push(c));
        }
        i += 1;
    }
    parts.push(String::from_str(text.substring_char(start, n)));
    assert(text@.take(n as int) =~= text@);
    parts
}

fn digit_text(d: u32) -> (text: &'static str)
    requires
        d < 10,
    ensures
        text@ == seq![digit(d as int)],
{
    proof {
        reveal_strlit("0");
        reveal_strlit("1");
        reveal_strlit("2");
        reveal_strlit("3");
        reveal_strlit("4");
        reveal_strlit("5");
        reveal_strlit("6");
        reveal_strlit("7");
        reveal_strlit("8");
        reveal_strlit("9");
    }
    let text = if d == 0 {
        "0"
    } else if d == 1 {
        "1"
    } else if d == 2 {
        "2"
    } else if d == 3 {
        "3"
    } else if d == 4 {
        "4"
    } else if d == 5 {
        "5"
    } else if d == 6 {
        "6"
    } else if d == 7 {
        "7"
    } else if d == 8 {
        "8"
    } else {
        "9"
    };
    text
}

fn push_digits(out: &mut String, n: u32)
    ensures
        final(out)@ == old(out)@ + digits(n as nat),
    decreases n,
{
    if n >= 10 {
        push_digits(out, n / 10);
    }
    out.append(digit_text(n % 10));
}

/// Appends the decimal numeral of `n` to `out`.
pub fn push_number(out: &mut String, n: i32)
    ensures
        final(out)@ == old(out)@ + decimal(n as int),
{
    if n < 0 {
        out.append("-");
        proof {
            reveal_strlit("-");
        }
        let wide: i64 = n as i64;
        let magnitude: u32 = (0 - wide) as u32;
        push_digits(out, magnitude);
    } else {
        push_digits(out, n as u32);
    }
}

/// The decimal numeral of `n`.
pub fn format_number(n: i32) -> (text: String)
    ensures
        text@ == decimal(n as int),
{
    let mut text = String::new();
    push_number(&mut text, n);
    text
}

} // verus!
