//! One line at a time: split it, then sort and rejoin its fields, or check
//! that they are in order.
use crate::comparator::Comparator;
use crate::options::Options;
use crate::text::{chars_of, string_of};
use crate::tokenizer::{
    fields_view, join, join_fields, lemma_join_no_white_space, lemma_split_delim_fields,
    lemma_split_delim_nonempty, lemma_split_join_delim, lemma_split_join_ws,
    lemma_split_ws_fields, lemma_split_ws_no_white_space, no_white_space, split, split_delim,
    split_on_delim, split_on_white_space, split_ws, white_space,
};
use std::cmp::Ordering;
use vstd::multiset::Multiset;
use vstd::prelude::*;

verus! {

broadcast use vstd::seq_lib::group_to_multiset_ensures;

/// `out` holds the fields of `input`, each as often, in an order that
/// `cmp` accepts.
pub open spec fn sorted_perm(cmp: Comparator, out: Seq<Seq<char>>, input: Seq<Seq<char>>) -> bool {
    &&& out.to_multiset() == input.to_multiset()
    &&& cmp.sorted(out)
}

/// The fields of `line` under `opts`.
pub open spec fn fields_of(opts: Options, line: Seq<char>) -> Seq<Seq<char>> {
    split(line, opts.delim, opts.white_space)
}

/// `out` is `line` with its fields sorted and joined by the delimiter.
pub open spec fn sorted_line(opts: Options, line: Seq<char>, out: Seq<char>) -> bool {
    exists|f: Seq<Seq<char>>|
        #![trigger join(f, opts.delim)]
        sorted_perm(opts.spec_comparator(), f, fields_of(opts, line)) && out == join(
            f,
            opts.delim,
        )
}

proof fn lemma_fields_view_pop(v: Seq<Vec<char>>)
    requires
        v.len() > 0,
    ensures
        fields_view(v.subrange(0, v.len() - 1)) == fields_view(v).drop_last(),
        fields_view(v) == fields_view(v).drop_last().push(v.last()@),
{
    assert(fields_view(v.subrange(0, v.len() - 1)) =~= fields_view(v).drop_last());
    assert(fields_view(v) =~= fields_view(v).drop_last().push(v.last()@));
}

proof fn lemma_fields_view_insert(v: Seq<Vec<char>>, k: int, f: Vec<char>)
    requires
        0 <= k <= v.len(),
    ensures
        fields_view(v.insert(k, f)) == fields_view(v).insert(k, f@),
{
    assert(fields_view(v.insert(k, f)) =~= fields_view(v).insert(k, f@));
}

proof fn lemma_insert_sorted(cmp: Comparator, s: Seq<Seq<char>>, k: int, x: Seq<char>)
    requires
        0 <= k <= s.len(),
        cmp.sorted(s),
        k > 0 ==> cmp.le(s[k - 1], x),
        k < s.len() ==> cmp.le(x, s[k]),
    ensures
        cmp.sorted(s.insert(k, x)),
{
    let w = s.insert(k, x);
    assert forall|i: int| 0 < i < w.len() implies #[trigger] cmp.le(w[i - 1], w[i]) by {
        if i < k {
            assert(w[i - 1] == s[i - 1] && w[i] == s[i]);
        } else if i == k {
            assert(w[i - 1] == s[i - 1] && w[i] == x);
        } else if i == k + 1 {
            assert(w[i - 1] == x && w[i] == s[k]);
        } else {
            let j = i - 1;
            assert(w[i - 1] == s[j - 1] && w[i] == s[j]);
            assert(cmp.le(s[j - 1], s[j]));
        }
    }
}

/// Puts `fields` in an order that `cmp` accepts.
pub fn sort_fields(fields: Vec<Vec<char>>, cmp: &Comparator) -> (r: Vec<Vec<char>>)
    ensures
        sorted_perm(*cmp, fields_view(r@), fields_view(fields@)),
{
    let ghost orig = fields_view(fields@);
    let mut rest = fields;
    let mut out: Vec<Vec<char>> = Vec::new();
    assert(fields_view(out@) =~= Seq::<Seq<char>>::empty());
    while rest.len() > 0
        invariant
            fields_view(rest@).to_multiset().add(fields_view(out@).to_multiset())
                == orig.to_multiset(),
            cmp.sorted(fields_view(out@)),
        decreases rest.len(),
    {
        proof {
            lemma_fields_view_pop(rest@);
        }
        let x = rest.pop().unwrap();
        let ghost view_out = fields_view(out@);
        let mut k: usize = 0;
        while k < out.len() && !matches!(cmp.compare(&out[k], &x), Ordering::Greater)
            invariant
                k <= out.len(),
                fields_view(out@) == view_out,
                k > 0 ==> cmp.le(view_out[k - 1], x@),
            decreases out.len() - k,
        {
            k = k + 1;
        }
        proof {
            if k < out.len() {
                cmp.lemma_antisymmetric(view_out[k as int], x@);
                assert(cmp.le(x@, view_out[k as int]));
            }
            lemma_fields_view_insert(out@, k as int, x);
        }
        out.insert(k, x);
        proof {
            let w = fields_view(out@);
            assert(w == view_out.insert(k as int, x@));
            lemma_insert_sorted(*cmp, view_out, k as int, x@);
            assert(fields_view(rest@).to_multiset().add(w.to_multiset()) =~= orig.to_multiset());
        }
    }
    assert(fields_view(rest@).to_multiset() =~= Multiset::empty());
    assert(fields_view(out@).to_multiset() =~= orig.to_multiset());
    out
}

/// Whether every field of `xs` is not greater than the one after it.
pub fn is_sorted_by(xs: &Vec<Vec<char>>, cmp: &Comparator) -> (r: bool)
    ensures
        r == cmp.sorted(fields_view(xs@)),
{
    let mut idx: usize = 1;
    while idx < xs.len()
        invariant
            1 <= idx,
            forall|i: int|
                0 < i < idx && i < xs.len() ==> #[trigger] cmp.le(
                    fields_view(xs@)[i - 1],
                    fields_view(xs@)[i],
                ),
        decreases xs.len() - idx,
    {
        if matches!(cmp.compare(&xs[idx - 1], &xs[idx]), Ordering::Greater) {
            assert(!cmp.le(fields_view(xs@)[idx - 1], fields_view(xs@)[idx as int]));
            return false;
        }
        idx = idx + 1;
    }
    true
}

/// The fields of `line` under `opts`.
pub fn tokenize(opts: &Options, line: &Vec<char>) -> (r: Vec<Vec<char>>)
    ensures
        fields_view(r@) == fields_of(*opts, line@),
{
    if opts.white_space {
        split_on_white_space(line)
    } else {
        split_on_delim(line, opts.delim)
    }
}

/// `line` with its fields sorted and joined by the delimiter.
pub fn sort_line(opts: &Options, line: &str) -> (r: String)
    ensures
        sorted_line(*opts, line@, r@),
{
    let chars = chars_of(line);
    let fields = tokenize(opts, &chars);
    let cmp = opts.comparator();
    let sorted = sort_fields(fields, &cmp);
    let joined = join_fields(&sorted, opts.delim);
    string_of(&joined)
}

/// Whether the fields of `line` are in the order that `opts` asks for.
pub fn line_is_sorted(opts: &Options, line: &str) -> (r: bool)
    ensures
        r == opts.spec_comparator().sorted(fields_of(*opts, line@)),
{
    let chars = chars_of(line);
    let fields = tokenize(opts, &chars);
    let cmp = opts.comparator();
    is_sorted_by(&fields, &cmp)
}

/// A line written with its fields sorted, split again under the same
/// options, gives fields in order.
pub proof fn lemma_sorted_line_resplits_sorted(opts: Options, line: Seq<char>, out: Seq<char>)
    requires
        sorted_line(opts, line, out),
    ensures
        opts.spec_comparator().sorted(fields_of(opts, out)),
{
    let cmp = opts.spec_comparator();
    let d = opts.delim;
    let input = fields_of(opts, line);
    let f = choose|f: Seq<Seq<char>>|
        #![trigger join(f, d)]
        sorted_perm(cmp, f, input) && out == join(f, d);
    assert(f.len() == input.len()) by {
        assert(f.to_multiset().len() == input.to_multiset().len());
    }
    assert forall|i: int| 0 <= i < f.len() implies input.contains(#[trigger] f[i]) by {
        assert(f.to_multiset().count(f[i]) > 0);
        assert(input.to_multiset().count(f[i]) > 0);
    }
    if !opts.white_space {
        lemma_split_delim_nonempty(line, d);
        lemma_split_delim_fields(line, d);
        assert forall|i: int| 0 <= i < f.len() implies !(#[trigger] f[i]).contains(d) by {
            assert(input.contains(f[i]));
        }
        lemma_split_join_delim(f, d);
    } else {
        lemma_split_ws_fields(line);
        if white_space(d) {
            assert forall|i: int| 0 <= i < f.len() implies (#[trigger] f[i]).len() > 0
                && no_white_space(f[i]) by {
                assert(input.contains(f[i]));
            }
            lemma_split_join_ws(f, d);
        } else {
            assert forall|i: int| 0 <= i < f.len() implies no_white_space(#[trigger] f[i]) by {
                assert(input.contains(f[i]));
            }
            lemma_join_no_white_space(f, d);
            lemma_split_ws_no_white_space(out);
        }
    }
}

} // verus!
