//! Text analysis: the index tokenizer and the whitespace word splitter.
//!
//! Index terms are maximal runs of letters, digits and non-ASCII characters,
//! with ASCII letters folded to lower case; every other ASCII character
//! separates terms.  Excerpt words are maximal runs of non-whitespace
//! characters, kept verbatim.

use vstd::prelude::*;

verus! {

/// The view of a vector of character vectors as a sequence of sequences.
pub open spec fn views(ts: Seq<Vec<char>>) -> Seq<Seq<char>> {
    ts.map_values(|t: Vec<char>| t@)
}

/// A character that is part of an index term: an ASCII letter or digit, or
/// any character outside the ASCII range.
pub open spec fn is_tok_char(c: char) -> bool {
    (97 <= c as u32 && c as u32 <= 122) || (65 <= c as u32 && c as u32 <= 90) || (48 <= c as u32
        && c as u32 <= 57) || (c as u32 > 127)
}

/// ASCII upper-case letters fold to lower case; all else is unchanged.
pub open spec fn fold_char(c: char) -> char {
    if 65 <= c as u32 && c as u32 <= 90 {
        (c as u32 + 32) as char
    } else {
        c
    }
}

/// An ASCII whitespace character, as the word splitter sees it.
pub open spec fn is_space(c: char) -> bool {
    c as u32 == 32 || c as u32 == 9 || c as u32 == 10 || c as u32 == 13 || c as u32 == 11
        || c as u32 == 12
}

pub fn is_tok_char_x(c: char) -> (r: bool)
    ensures
        r == is_tok_char(c),
{
    let u = c as u32;
    (97 <= u && u <= 122) || (65 <= u && u <= 90) || (48 <= u && u <= 57) || u > 127
}

pub fn fold_char_x(c: char) -> (r: char)
    ensures
        r == fold_char(c),
{
    let u = c as u32;
    if 65 <= u && u <= 90 {
        ((u as u8) + 32) as char
    } else {
        c
    }
}

pub fn is_space_x(c: char) -> (r: bool)
    ensures
        r == is_space(c),
{
    let u = c as u32;
    u == 32 || u == 9 || u == 10 || u == 13 || u == 11 || u == 12
}

/// The sequence of index terms of a text: maximal runs of term characters,
/// folded to lower case.
pub open spec fn tokens(s: Seq<char>) -> Seq<Seq<char>>
    decreases s.len(),
{
    if s.len() == 0 {
        Seq::empty()
    } else {
        let pre = tokens(s.drop_last());
        let c = s.last();
        if is_tok_char(c) {
            if s.len() >= 2 && is_tok_char(s[s.len() - 2]) {
                pre.update(pre.len() - 1, pre.last().push(fold_char(c)))
            } else {
                pre.push(seq![fold_char(c)])
            }
        } else {
            pre
        }
    }
}

/// The sequence of whitespace-separated words of a text, kept verbatim.
pub open spec fn words(s: Seq<char>) -> Seq<Seq<char>>
    decreases s.len(),
{
    if s.len() == 0 {
        Seq::empty()
    } else {
        let pre = words(s.drop_last());
        let c = s.last();
        if !is_space(c) {
            if s.len() >= 2 && !is_space(s[s.len() - 2]) {
                pre.update(pre.len() - 1, pre.last().push(c))
            } else {
                pre.push(seq![c])
            }
        } else {
            pre
        }
    }
}

/// A text that ends in a term character has at least one term.
pub proof fn lemma_tokens_last_tok(s: Seq<char>)
    requires
        s.len() > 0,
        is_tok_char(s.last()),
    ensures
        tokens(s).len() > 0,
    decreases s.len(),
{
    if s.len() >= 2 && is_tok_char(s[s.len() - 2]) {
        lemma_tokens_last_tok(s.drop_last());
    }
}

/// A text that ends in a non-whitespace character has at least one word.
pub proof fn lemma_words_last_nonspace(s: Seq<char>)
    requires
        s.len() > 0,
        !is_space(s.last()),
    ensures
        words(s).len() > 0,
    decreases s.len(),
{
    if s.len() >= 2 && !is_space(s[s.len() - 2]) {
        lemma_words_last_nonspace(s.drop_last());
    }
}

/// Splits a text into its index terms.
pub fn tokenize(s: &Vec<char>) -> (r: Vec<Vec<char>>)
    ensures
        views(r@) == tokens(s@),
{
    let mut out: Vec<Vec<char>> = Vec::new();
    let mut i: usize = 0;
    while i < s.len()
        invariant
            i <= s.len(),
            views(out@) == tokens(s@.take(i as int)),
        decreases s.len() - i,
    {
        let ghost pref = s@.take(i as int);
        let ghost next = s@.take(i + 1 as int);
        proof {
            assert(next.drop_last() =~= pref);
            assert(next.last() == s@[i as int]);
        }
        let c = s[i];
        if is_tok_char_x(c) {
            let f = fold_char_x(c);
            if i > 0 && is_tok_char_x(s[i - 1]) {
                proof {
                    assert(pref.last() == s@[i - 1]);
                    lemma_tokens_last_tok(pref);
                }
                let mut last = out.pop().unwrap();
                last.push(f);
                out.push(last);
                proof {
                    let toks = tokens(pref);
                    assert(views(out@) =~= toks.update(
                        toks.len() - 1,
                        toks.last().push(fold_char(s@[i as int])),
                    ));
                }
            } else {
                let mut one: Vec<char> = Vec::new();
                one.push(f);
                out.push(one);
                proof {
                    assert(views(out@) =~= tokens(pref).push(seq![fold_char(s@[i as int])]));
                }
            }
        }
        i = i + 1;
    }
    proof {
        assert(s@.take(s@.len() as int) =~= s@);
    }
    out
}

/// Splits a text into its whitespace-separated words.
pub fn split_words(s: &Vec<char>) -> (r: Vec<Vec<char>>)
    ensures
        views(r@) == words(s@),
{
    let mut out: Vec<Vec<char>> = Vec::new();
    let mut i: usize = 0;
    while i < s.len()
        invariant
            i <= s.len(),
            views(out@) == words(s@.take(i as int)),
        decreases s.len() - i,
    {
        let ghost pref = s@.take(i as int);
        let ghost next = s@.take(i + 1 as int);
        proof {
            assert(next.drop_last() =~= pref);
            assert(next.last() == s@[i as int]);
        }
        let c = s[i];
        if !is_space_x(c) {
            if i > 0 && !is_space_x(s[i - 1]) {
                proof {
                    assert(pref.last() == s@[i - 1]);
                    lemma_words_last_nonspace(pref);
                }
                let mut last = out.pop().unwrap();
                last.push(c);
                out.push(last);
                proof {
                    let ws = words(pref);
                    assert(views(out@) =~= ws.update(ws.len() - 1, ws.last().push(s@[i as int])));
                }
            } else {
                let mut one: Vec<char> = Vec::new();
                one.push(c);
                out.push(one);
                proof {
                    assert(views(out@) =~= words(pref).push(seq![s@[i as int]]));
                }
            }
        }
        i = i + 1;
    }
    proof {
        assert(s@.take(s@.len() as int) =~= s@);
    }
    out
}

/// How often a term occurs in a sequence of terms.
pub open spec fn count_occ(ts: Seq<Seq<char>>, t: Seq<char>) -> nat
    decreases ts.len(),
{
    if ts.len() == 0 {
        0
    } else {
        count_occ(ts.drop_last(), t) + (if ts.last() == t {
            1nat
        } else {
            0nat
        })
    }
}

/// A term occurs at most as often as there are terms.
pub proof fn lemma_count_occ_le_len(ts: Seq<Seq<char>>, t: Seq<char>)
    ensures
        count_occ(ts, t) <= ts.len(),
    decreases ts.len(),
{
    if ts.len() > 0 {
        lemma_count_occ_le_len(ts.drop_last(), t);
    }
}

/// A term occurs in a sequence of terms if and only if its count is positive.
pub proof fn lemma_count_occ_pos(ts: Seq<Seq<char>>, t: Seq<char>)
    ensures
        count_occ(ts, t) > 0 <==> exists|k: int| 0 <= k < ts.len() && ts[k] == t,
    decreases ts.len(),
{
    if ts.len() > 0 {
        lemma_count_occ_pos(ts.drop_last(), t);
        if ts.last() == t {
            assert(ts[ts.len() - 1] == t);
        } else if count_occ(ts, t) > 0 {
            let k = choose|k: int| 0 <= k < ts.drop_last().len() && ts.drop_last()[k] == t;
            assert(ts[k] == t);
        } else {
            assert forall|k: int| 0 <= k < ts.len() implies ts[k] != t by {
                if 0 <= k < ts.len() - 1 {
                    assert(ts.drop_last()[k] == ts[k]);
                }
            }
        }
    }
}

/// Occurrence counts add up over concatenation.
pub proof fn lemma_count_occ_concat(a: Seq<Seq<char>>, b: Seq<Seq<char>>, t: Seq<char>)
    ensures
        count_occ(a + b, t) == count_occ(a, t) + count_occ(b, t),
    decreases b.len(),
{
    if b.len() == 0 {
        assert(a + b =~= a);
    } else {
        lemma_count_occ_concat(a, b.drop_last(), t);
        assert((a + b).drop_last() =~= a + b.drop_last());
        assert((a + b).last() == b.last());
    }
}

/// Counts how often a term occurs in a list of terms.
pub fn count_token(ts: &Vec<Vec<char>>, t: &Vec<char>) -> (r: u64)
    ensures
        r as nat == count_occ(views(ts@), t@),
{
    let mut count: u64 = 0;
    let mut i: usize = 0;
    while i < ts.len()
        invariant
            i <= ts.len(),
            count as nat == count_occ(views(ts@).take(i as int), t@),
            count as nat <= i as nat,
        decreases ts.len() - i,
    {
        let ghost pref = views(ts@).take(i as int);
        let ghost next = views(ts@).take(i + 1 as int);
        proof {
            assert(next.drop_last() =~= pref);
            assert(next.last() == ts@[i as int]@);
            lemma_count_occ_le_len(pref, t@);
        }
        if crate::chars::eq_chars(&ts[i], t) {
            count = count + 1;
        }
        i = i + 1;
    }
    proof {
        assert(views(ts@).take(ts@.len() as int) =~= views(ts@));
    }
    count
}

} // verus!
