//! Tag storage.  A document's tag list is stored as one comma-joined
//! string; the result projector splits it back.  An empty stored string
//! stands for the empty tag list, never for a list holding one empty tag.

use vstd::prelude::*;
use vstd::string::StringExecFns;
use crate::chars::{chars_to_string, push_char, str_to_chars};

verus! {

/// The comma-join of a list of tag texts.
pub open spec fn join_tags(l: Seq<Seq<char>>) -> Seq<char>
    decreases l.len(),
{
    if l.len() == 0 {
        Seq::empty()
    } else if l.len() == 1 {
        l[0]
    } else {
        join_tags(l.drop_last()) + seq![','] + l.last()
    }
}

/// The comma-split of a text: every comma separates, so the result always
/// holds one piece more than the text holds commas.
pub open spec fn split_commas(s: Seq<char>) -> Seq<Seq<char>>
    decreases s.len(),
{
    if s.len() == 0 {
        seq![Seq::<char>::empty()]
    } else {
        let pre = split_commas(s.drop_last());
        let c = s.last();
        if c == ',' {
            pre.push(Seq::empty())
        } else {
            pre.update(pre.len() - 1, pre.last().push(c))
        }
    }
}

/// The tag list a stored string stands for: the comma-split, except that
/// the empty string stands for no tags at all.
pub open spec fn tag_list_of(s: Seq<char>) -> Seq<Seq<char>> {
    if s.len() == 0 {
        Seq::empty()
    } else {
        split_commas(s)
    }
}

/// A comma-split is never empty.
pub proof fn lemma_split_commas_len(s: Seq<char>)
    ensures
        split_commas(s).len() >= 1,
    decreases s.len(),
{
    if s.len() > 0 {
        lemma_split_commas_len(s.drop_last());
    }
}

/// Joins a list of tags with commas.
pub fn join_tags_x(l: &Vec<String>) -> (r: String)
    ensures
        r@ == join_tags(l.deep_view()),
{
    let mut out = String::new();
    let mut i: usize = 0;
    while i < l.len()
        invariant
            i <= l.len(),
            l.deep_view().len() == l@.len(),
            out@ == join_tags(l.deep_view().take(i as int)),
        decreases l.len() - i,
    {
        let ghost dv = l.deep_view();
        proof {
            assert(dv.take(i + 1 as int).drop_last() =~= dv.take(i as int));
            assert(dv.take(i + 1 as int).last() == dv[i as int]);
            assert(dv[i as int] == l@[i as int].deep_view());
        }
        if i > 0 {
            push_char(&mut out, ',');
        }
        out.append(l[i].as_str());
        proof {
            if i == 0 {
                assert(out@ =~= join_tags(dv.take(1int)));
            } else {
                assert(out@ =~= join_tags(dv.take(i as int)) + seq![','] + dv[i as int]);
            }
        }
        i = i + 1;
    }
    proof {
        assert(l.deep_view().take(l@.len() as int) =~= l.deep_view());
    }
    out
}

/// Splits a stored tag string back into the tag list.
pub fn split_tags_x(s: &String) -> (r: Vec<String>)
    ensures
        r.deep_view() == tag_list_of(s@),
{
    let cs = str_to_chars(s.as_str());
    if cs.len() == 0 {
        let out: Vec<String> = Vec::new();
        proof {
            assert(out.deep_view() =~= tag_list_of(s@));
        }
        return out;
    }
    let mut pieces: Vec<String> = Vec::new();
    let mut cur: Vec<char> = Vec::new();
    let mut i: usize = 0;
    while i < cs.len()
        invariant
            i <= cs.len(),
            cs@ == s@,
            split_commas(s@.take(i as int)) == pieces.deep_view().push(cur@),
        decreases cs.len() - i,
    {
        proof {
            assert(s@.take(i + 1 as int).drop_last() =~= s@.take(i as int));
            assert(s@.take(i + 1 as int).last() == s@[i as int]);
        }
        let c = cs[i];
        if c == ',' {
            let done = chars_to_string(&cur);
            pieces.push(done);
            cur = Vec::new();
            proof {
                assert(split_commas(s@.take(i + 1 as int)) =~= pieces.deep_view().push(cur@));
            }
        } else {
            cur.push(c);
            proof {
                let pre = split_commas(s@.take(i as int));
                assert(pre.last() == cur@.drop_last());
                assert(cur@.drop_last().push(s@[i as int]) =~= cur@);
                assert(pre.update(pre.len() - 1, pre.last().push(s@[i as int]))
                    =~= pieces.deep_view().push(cur@));
            }
        }
        i = i + 1;
    }
    let done = chars_to_string(&cur);
    pieces.push(done);
    proof {
        assert(s@.take(s@.len() as int) =~= s@);
        assert(pieces.deep_view() =~= tag_list_of(s@));
    }
    pieces
}

/// A text without commas splits into itself alone.
pub proof fn lemma_split_commas_single(t: Seq<char>)
    requires
        forall|m: int| 0 <= m < t.len() ==> t[m] != ',',
    ensures
        split_commas(t) == seq![t],
    decreases t.len(),
{
    if t.len() == 0 {
        assert(split_commas(t) =~~= seq![t]);
    } else {
        assert(forall|m: int| 0 <= m < t.drop_last().len() ==> #[trigger] t.drop_last()[m]
            == t[m]);
        lemma_split_commas_single(t.drop_last());
        assert(t.last() == t[t.len() - 1]);
        assert(split_commas(t) =~= seq![t.drop_last().push(t.last())]);
        assert(t.drop_last().push(t.last()) =~= t);
    }
}

/// Splitting distributes over a comma: the split of `x + "," + y` is the
/// split of `x` followed by the split of `y`.
pub proof fn lemma_split_commas_concat(x: Seq<char>, y: Seq<char>)
    ensures
        split_commas(x + seq![','] + y) == split_commas(x) + split_commas(y),
    decreases y.len(),
{
    lemma_split_commas_len(x);
    lemma_split_commas_len(y);
    if y.len() == 0 {
        assert((x + seq![','] + y).drop_last() =~= x);
        assert((x + seq![','] + y).last() == ',');
        assert(split_commas(x + seq![','] + y) =~= split_commas(x) + split_commas(y));
    } else {
        lemma_split_commas_concat(x, y.drop_last());
        lemma_split_commas_len(y.drop_last());
        let whole = x + seq![','] + y;
        assert(whole.drop_last() =~= x + seq![','] + y.drop_last());
        assert(whole.last() == y.last());
        let pre = split_commas(x) + split_commas(y.drop_last());
        if y.last() == ',' {
            assert(split_commas(whole) =~= split_commas(x) + split_commas(y));
        } else {
            assert(pre.last() == split_commas(y.drop_last()).last());
            assert(pre.update(pre.len() - 1, pre.last().push(y.last())) =~= split_commas(x)
                + split_commas(y.drop_last()).update(
                split_commas(y.drop_last()).len() - 1,
                split_commas(y.drop_last()).last().push(y.last()),
            ));
            assert(split_commas(whole) =~= split_commas(x) + split_commas(y));
        }
    }
}

/// A tag list whose tags are non-empty and comma-free survives the round
/// trip through the stored comma-joined string unchanged; in particular the
/// empty list comes back empty, not as one empty tag.
pub proof fn lemma_tags_round_trip(l: Seq<Seq<char>>)
    requires
        forall|k: int| 0 <= k < l.len() ==> (#[trigger] l[k]).len() > 0,
        forall|k: int, m: int| 0 <= k < l.len() && 0 <= m < l[k].len() ==> #[trigger] l[k][m]
            != ',',
    ensures
        tag_list_of(join_tags(l)) == l,
    decreases l.len(),
{
    if l.len() == 0 {
        assert(tag_list_of(join_tags(l)) =~= l);
    } else if l.len() == 1 {
        assert(l[0].len() > 0);
        lemma_split_commas_single(l[0]);
        assert(tag_list_of(join_tags(l)) =~= l);
    } else {
        lemma_tags_round_trip(l.drop_last());
        assert(forall|k: int| 0 <= k < l.drop_last().len() ==> l.drop_last()[k] == l[k]);
        lemma_split_commas_concat(join_tags(l.drop_last()), l.last());
        lemma_split_commas_single(l.last());
        assert(l.drop_last()[0] == l[0]);
        assert(l[0].len() > 0);
        assert(join_tags(l.drop_last()).len() > 0) by {
            if l.drop_last().len() == 1 {
                assert(join_tags(l.drop_last()) == l[0]);
            }
        }
        assert(join_tags(l).len() > 0);
        assert(tag_list_of(join_tags(l.drop_last())) == split_commas(join_tags(l.drop_last())));
        assert(split_commas(join_tags(l)) =~= l.drop_last() + seq![l.last()]);
        assert(l.drop_last() + seq![l.last()] =~= l);
    }
}

} // verus!
