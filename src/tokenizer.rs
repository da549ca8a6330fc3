//! Splitting a line into fields and joining fields into a line.
use vstd::prelude::*;

verus! {

/// The characters with Unicode's White_Space property.
pub open spec fn white_space(c: char) -> bool {
    ('\t' <= c && c <= '\r') || c == ' ' || c == '\u{85}' || c == '\u{A0}' || c == '\u{1680}'
        || ('\u{2000}' <= c && c <= '\u{200A}') || c == '\u{2028}' || c == '\u{2029}' || c
        == '\u{202F}' || c == '\u{205F}' || c == '\u{3000}'
}

/// Relies on `char::is_whitespace`: true exactly for the characters with
/// Unicode's White_Space property.
#[verifier::external_body]
fn is_white_space(c: char) -> (r: bool)
    ensures
        r == white_space(c),
{
    c.is_whitespace()
}

/// The fields of `s` separated by each occurrence of `d`: one more field
/// than there are delimiters, empty ones included.
pub open spec fn split_delim(s: Seq<char>, d: char) -> Seq<Seq<char>>
    decreases s.len(),
{
    if s.len() == 0 {
        seq![Seq::empty()]
    } else {
        let prev = split_delim(s.drop_last(), d);
        if s.last() == d {
            prev.push(Seq::empty())
        } else {
            prev.update(prev.len() - 1, prev.last().push(s.last()))
        }
    }
}

/// The maximal runs of non-white-space characters of `s`, in order.
pub open spec fn split_ws(s: Seq<char>) -> Seq<Seq<char>>
    decreases s.len(),
{
    if s.len() == 0 {
        Seq::empty()
    } else {
        let prev = split_ws(s.drop_last());
        let c = s.last();
        if white_space(c) {
            prev
        } else if s.len() >= 2 && !white_space(s[s.len() - 2]) {
            prev.update(prev.len() - 1, prev.last().push(c))
        } else {
            prev.push(seq![c])
        }
    }
}

/// The fields of `s`: white-space runs separate them when `ws` is set,
/// else each occurrence of `d` does.
pub open spec fn split(s: Seq<char>, d: char, ws: bool) -> Seq<Seq<char>> {
    if ws {
        split_ws(s)
    } else {
        split_delim(s, d)
    }
}

/// The fields in order with `d` between each two of them.
pub open spec fn join(fields: Seq<Seq<char>>, d: char) -> Seq<char>
    decreases fields.len(),
{
    if fields.len() == 0 {
        Seq::empty()
    } else if fields.len() == 1 {
        fields[0]
    } else {
        join(fields.drop_last(), d).push(d) + fields.last()
    }
}

/// The contents of a vector of fields.
pub open spec fn fields_view(v: Seq<Vec<char>>) -> Seq<Seq<char>> {
    v.map_values(|f: Vec<char>| f@)
}

pub proof fn lemma_split_delim_nonempty(s: Seq<char>, d: char)
    ensures
        split_delim(s, d).len() >= 1,
    decreases s.len(),
{
    if s.len() > 0 {
        lemma_split_delim_nonempty(s.drop_last(), d);
    }
}

proof fn lemma_fields_view_push(v: Seq<Vec<char>>, f: Vec<char>)
    ensures
        fields_view(v.push(f)) == fields_view(v).push(f@),
{
    assert(fields_view(v.push(f)) =~= fields_view(v).push(f@));
}

/// Splits `line` at each occurrence of `d`.
pub fn split_on_delim(line: &Vec<char>, d: char) -> (r: Vec<Vec<char>>)
    ensures
        fields_view(r@) == split_delim(line@, d),
{
    let mut fields: Vec<Vec<char>> = Vec::new();
    let mut cur: Vec<char> = Vec::new();
    let mut i: usize = 0;
    assert(line@.take(0) =~= Seq::<char>::empty());
    assert(fields_view(fields@).push(cur@) =~= seq![Seq::<char>::empty()]);
    while i < line.len()
        invariant
            i <= line.len(),
            fields_view(fields@).push(cur@) == split_delim(line@.take(i as int), d),
        decreases line.len() - i,
    {
        let c = line[i];
        let ghost s = line@.take(i + 1);
        assert(s.drop_last() =~= line@.take(i as int));
        proof {
            lemma_split_delim_nonempty(line@.take(i as int), d);
        }
        if c == d {
            proof {
                lemma_fields_view_push(fields@, cur);
            }
            fields.push(cur);
            cur = Vec::new();
        } else {
            cur.push(c);
            assert(fields_view(fields@).push(cur@) =~= split_delim(s, d));
        }
        i = i + 1;
    }
    assert(line@.take(line.len() as int) =~= line@);
    proof {
        lemma_fields_view_push(fields@, cur);
    }
    fields.push(cur);
    fields
}

/// Splits `line` into its maximal runs of non-white-space characters.
pub fn split_on_white_space(line: &Vec<char>) -> (r: Vec<Vec<char>>)
    ensures
        fields_view(r@) == split_ws(line@),
{
    let mut fields: Vec<Vec<char>> = Vec::new();
    let mut cur: Vec<char> = Vec::new();
    let mut i: usize = 0;
    assert(line@.take(0) =~= Seq::<char>::empty());
    while i < line.len()
        invariant
            i <= line.len(),
            cur@.len() == 0 ==> fields_view(fields@) == split_ws(line@.take(i as int)),
            cur@.len() == 0 ==> (i == 0 || white_space(line@[i - 1])),
            cur@.len() > 0 ==> fields_view(fields@).push(cur@) == split_ws(
                line@.take(i as int),
            ),
            cur@.len() > 0 ==> i > 0 && !white_space(line@[i - 1]),
        decreases line.len() - i,
    {
        let c = line[i];
        let ghost s = line@.take(i + 1);
        assert(s.drop_last() =~= line@.take(i as int));
        if is_white_space(c) {
            if cur.len() > 0 {
                proof {
                    lemma_fields_view_push(fields@, cur);
                }
                fields.push(cur);
                cur = Vec::new();
            }
        } else {
            if cur.len() > 0 {
                cur.push(c);
                assert(fields_view(fields@).push(cur@) =~= split_ws(s));
            } else {
                cur.push(c);
                assert(cur@ =~= seq![c]);
            }
        }
        i = i + 1;
    }
    assert(line@.take(line.len() as int) =~= line@);
    if cur.len() > 0 {
        proof {
            lemma_fields_view_push(fields@, cur);
        }
        fields.push(cur);
    }
    fields
}

/// Joins `fields` with `d` between each two of them.
pub fn join_fields(fields: &Vec<Vec<char>>, d: char) -> (r: Vec<char>)
    ensures
        r@ == join(fields_view(fields@), d),
{
    let mut out: Vec<char> = Vec::new();
    let mut i: usize = 0;
    while i < fields.len()
        invariant
            i <= fields.len(),
            out@ == join(fields_view(fields@).take(i as int), d),
        decreases fields.len() - i,
    {
        let ghost pre = fields_view(fields@).take(i as int);
        let ghost next = fields_view(fields@).take(i + 1);
        assert(next.drop_last() =~= pre);
        if i > 0 {
            out.push(d);
        }
        let f = &fields[i];
        let mut j: usize = 0;
        let ghost base = out@;
        while j < f.len()
            invariant
                j <= f.len(),
                out@ == base + f@.take(j as int),
            decreases f.len() - j,
        {
            out.push(f[j]);
            assert(f@.take(j + 1) =~= f@.take(j as int).push(f[j as int]));
            assert(out@ =~= base + f@.take(j + 1));
            j = j + 1;
        }
        assert(f@.take(f.len() as int) =~= f@);
        assert(out@ =~= join(next, d)) by {
            if i == 0 {
                assert(base =~= Seq::<char>::empty());
            }
        }
        i = i + 1;
    }
    assert(fields_view(fields@).take(fields.len() as int) =~= fields_view(fields@));
    out
}

proof fn lemma_join_extend_last(fields: Seq<Seq<char>>, d: char, c: char)
    requires
        fields.len() >= 1,
    ensures
        join(fields.update(fields.len() - 1, fields.last().push(c)), d) == join(fields, d).push(
            c,
        ),
    decreases fields.len(),
{
    let g = fields.update(fields.len() - 1, fields.last().push(c));
    if fields.len() > 1 {
        assert(g.drop_last() =~= fields.drop_last());
        assert(join(g, d) =~= join(fields, d).push(c));
    }
}

/// Joining the fields of a line split at `d`, with `d`, gives the line back.
pub proof fn lemma_join_split_delim(s: Seq<char>, d: char)
    ensures
        join(split_delim(s, d), d) == s,
    decreases s.len(),
{
    if s.len() > 0 {
        let prev = split_delim(s.drop_last(), d);
        lemma_join_split_delim(s.drop_last(), d);
        lemma_split_delim_nonempty(s.drop_last(), d);
        if s.last() == d {
            let cur = prev.push(Seq::<char>::empty());
            assert(cur.drop_last() =~= prev);
            assert(join(cur, d) =~= s);
        } else {
            lemma_join_extend_last(prev, d, s.last());
            assert(s.drop_last().push(s.last()) =~= s);
        }
    } else {
        assert(s =~= Seq::<char>::empty());
    }
}

/// No character of `f` has the White_Space property.
pub open spec fn no_white_space(f: Seq<char>) -> bool {
    forall|i: int| 0 <= i < f.len() ==> !white_space(#[trigger] f[i])
}

/// No field of a line split at `d` holds `d`.
pub proof fn lemma_split_delim_fields(s: Seq<char>, d: char)
    ensures
        forall|i: int|
            0 <= i < split_delim(s, d).len() ==> !(#[trigger] split_delim(s, d)[i]).contains(d),
    decreases s.len(),
{
    if s.len() > 0 {
        lemma_split_delim_fields(s.drop_last(), d);
        lemma_split_delim_nonempty(s.drop_last(), d);
        let prev = split_delim(s.drop_last(), d);
        let r = split_delim(s, d);
        assert forall|i: int| 0 <= i < r.len() implies !(#[trigger] r[i]).contains(d) by {
            if i < prev.len() - 1 {
                assert(r[i] == prev[i]);
            } else if s.last() != d {
                let f = prev.last().push(s.last());
                assert(r[i] == f);
                assert(!prev[prev.len() - 1].contains(d));
                if f.contains(d) {
                    let k = choose|k: int| 0 <= k < f.len() && f[k] == d;
                    assert(prev.last()[k] == d);
                }
            } else if i == prev.len() - 1 {
                assert(r[i] == prev[i]);
            } else {
                assert(r[i] =~= Seq::<char>::empty());
            }
        }
    } else {
        assert(split_delim(s, d)[0] =~= Seq::<char>::empty());
    }
}

/// Every field of a line split at white space is non-empty and holds no
/// white space.
pub proof fn lemma_split_ws_fields(s: Seq<char>)
    ensures
        forall|i: int|
            0 <= i < split_ws(s).len() ==> (#[trigger] split_ws(s)[i]).len() > 0
                && no_white_space(split_ws(s)[i]),
        s.len() > 0 && !white_space(s.last()) ==> split_ws(s).len() > 0,
    decreases s.len(),
{
    if s.len() > 0 {
        let t = s.drop_last();
        lemma_split_ws_fields(t);
        if s.len() >= 2 && !white_space(s[s.len() - 2]) {
            assert(t.last() == s[s.len() - 2]);
        }
        let prev = split_ws(t);
        let r = split_ws(s);
        assert forall|i: int| 0 <= i < r.len() implies (#[trigger] r[i]).len() > 0
            && no_white_space(r[i]) by {
            if i < prev.len() - 1 || white_space(s.last()) {
                assert(r[i] == prev[i]);
            } else if i == prev.len() - 1 && s.len() >= 2 && !white_space(s[s.len() - 2]) {
                let f = prev.last().push(s.last());
                assert(r[i] == f);
                assert(no_white_space(prev[prev.len() - 1]));
                assert forall|k: int| 0 <= k < f.len() implies !white_space(#[trigger] f[k]) by {
                    if k < f.len() - 1 {
                        assert(f[k] == prev.last()[k]);
                    }
                }
            } else if i < prev.len() {
                assert(r[i] == prev[i]);
            } else {
                assert(r[i] == seq![s.last()]);
            }
        }
    }
}

proof fn lemma_split_delim_append(y: Seq<char>, f: Seq<char>, d: char)
    requires
        !f.contains(d),
    ensures
        split_delim(y + f, d) == split_delim(y, d).update(
            split_delim(y, d).len() - 1,
            split_delim(y, d).last() + f,
        ),
    decreases f.len(),
{
    lemma_split_delim_nonempty(y, d);
    let p = split_delim(y, d);
    if f.len() == 0 {
        assert(y + f =~= y);
        assert(p.update(p.len() - 1, p.last() + f) =~= p);
    } else {
        let g = f.drop_last();
        assert(!g.contains(d)) by {
            if g.contains(d) {
                let k = choose|k: int| 0 <= k < g.len() && g[k] == d;
                assert(f[k] == d);
            }
        }
        assert(f.last() != d) by {
            assert(f[f.len() - 1] == f.last());
        }
        lemma_split_delim_append(y, g, d);
        assert((y + f).drop_last() =~= y + g);
        assert((y + f).last() == f.last());
        let q = p.update(p.len() - 1, p.last() + g);
        assert(q.last() == p.last() + g);
        assert((p.last() + g).push(f.last()) =~= p.last() + f);
        assert(q.update(q.len() - 1, q.last().push(f.last())) =~= p.update(
            p.len() - 1,
            p.last() + f,
        ));
    }
}

/// Splitting at `d` the fields joined by `d` gives them back, when there is
/// at least one and none holds `d`.
pub proof fn lemma_split_join_delim(fields: Seq<Seq<char>>, d: char)
    requires
        fields.len() >= 1,
        forall|i: int| 0 <= i < fields.len() ==> !(#[trigger] fields[i]).contains(d),
    ensures
        split_delim(join(fields, d), d) == fields,
    decreases fields.len(),
{
    let f = fields.last();
    assert(!f.contains(d)) by {
        assert(fields[fields.len() - 1] == f);
    }
    if fields.len() == 1 {
        let e = Seq::<char>::empty();
        lemma_split_delim_append(e, f, d);
        assert(e + f =~= f);
        assert(split_delim(e, d) == seq![e]);
        assert(seq![e].update(0, e + f) =~= fields);
    } else {
        let g = fields.drop_last();
        assert forall|i: int| 0 <= i < g.len() implies !(#[trigger] g[i]).contains(d) by {
            assert(g[i] == fields[i]);
        }
        lemma_split_join_delim(g, d);
        let y = join(g, d).push(d);
        assert(y.drop_last() =~= join(g, d));
        assert(split_delim(y, d) == g.push(Seq::<char>::empty()));
        lemma_split_delim_append(y, f, d);
        assert(g.push(Seq::<char>::empty()).update(g.len() as int, Seq::<char>::empty() + f)
            =~= fields);
    }
}

proof fn lemma_split_ws_append(y: Seq<char>, f: Seq<char>)
    requires
        f.len() > 0,
        no_white_space(f),
        y.len() == 0 || white_space(y.last()),
    ensures
        split_ws(y + f) == split_ws(y).push(f),
    decreases f.len(),
{
    let c = f.last();
    assert(!white_space(c)) by {
        assert(f[f.len() - 1] == c);
    }
    assert((y + f).drop_last() =~= y + f.drop_last());
    assert((y + f).last() == c);
    if f.len() == 1 {
        assert(y + f.drop_last() =~= y);
        if y.len() > 0 {
            assert((y + f)[(y + f).len() - 2] == y.last());
        }
        assert(f =~= seq![c]);
    } else {
        let g = f.drop_last();
        assert(no_white_space(g)) by {
            assert forall|i: int| 0 <= i < g.len() implies !white_space(#[trigger] g[i]) by {
                assert(g[i] == f[i]);
            }
        }
        lemma_split_ws_append(y, g);
        assert((y + f)[(y + f).len() - 2] == f[f.len() - 2]);
        assert(g.push(c) =~= f);
        assert(split_ws(y).push(g).last() == g);
        assert(split_ws(y).push(g).update(split_ws(y).len() as int, g.push(c)) =~= split_ws(
            y,
        ).push(f));
    }
}

/// Splitting at white space the fields joined by a white-space `d` gives
/// them back, when none is empty or holds white space.
pub proof fn lemma_split_join_ws(fields: Seq<Seq<char>>, d: char)
    requires
        white_space(d),
        forall|i: int|
            0 <= i < fields.len() ==> (#[trigger] fields[i]).len() > 0 && no_white_space(
                fields[i],
            ),
    ensures
        split_ws(join(fields, d)) == fields,
    decreases fields.len(),
{
    if fields.len() == 0 {
        assert(fields =~= Seq::<Seq<char>>::empty());
    } else {
        let f = fields.last();
        assert(f.len() > 0 && no_white_space(f)) by {
            assert(fields[fields.len() - 1] == f);
        }
        if fields.len() == 1 {
            let e = Seq::<char>::empty();
            lemma_split_ws_append(e, f);
            assert(e + f =~= f);
            assert(Seq::<Seq<char>>::empty().push(f) =~= fields);
        } else {
            let g = fields.drop_last();
            assert forall|i: int| 0 <= i < g.len() implies (#[trigger] g[i]).len() > 0
                && no_white_space(g[i]) by {
                assert(g[i] == fields[i]);
            }
            lemma_split_join_ws(g, d);
            let y = join(g, d).push(d);
            assert(y.drop_last() =~= join(g, d));
            lemma_split_ws_append(y, f);
            assert(g.push(f) =~= fields);
        }
    }
}

/// A text without white space splits into at most one field.
pub proof fn lemma_split_ws_no_white_space(s: Seq<char>)
    requires
        no_white_space(s),
    ensures
        split_ws(s).len() <= 1,
    decreases s.len(),
{
    if s.len() > 0 {
        let t = s.drop_last();
        assert(no_white_space(t)) by {
            assert forall|i: int| 0 <= i < t.len() implies !white_space(#[trigger] t[i]) by {
                assert(t[i] == s[i]);
            }
        }
        lemma_split_ws_no_white_space(t);
        assert(!white_space(s[s.len() - 1]));
        assert(!white_space(s.last()));
        let prev = split_ws(t);
        if s.len() >= 2 {
            assert(!white_space(s[s.len() - 2]));
            assert(t.last() == s[s.len() - 2]);
            lemma_split_ws_fields(t);
        } else {
            assert(t.len() == 0);
            assert(split_ws(t).len() == 0);
        }
    }
}

/// Joining fields without white space by a character that is not white
/// space gives a text without white space.
pub proof fn lemma_join_no_white_space(fields: Seq<Seq<char>>, d: char)
    requires
        !white_space(d),
        forall|i: int| 0 <= i < fields.len() ==> no_white_space(#[trigger] fields[i]),
    ensures
        no_white_space(join(fields, d)),
    decreases fields.len(),
{
    if fields.len() == 1 {
        assert(no_white_space(fields[0]));
    } else if fields.len() > 1 {
        let g = fields.drop_last();
        assert forall|i: int| 0 <= i < g.len() implies no_white_space(#[trigger] g[i]) by {
            assert(g[i] == fields[i]);
        }
        lemma_join_no_white_space(g, d);
        let f = fields.last();
        assert(no_white_space(fields[fields.len() - 1]));
        let j = join(fields, d);
        let a = join(g, d).push(d);
        assert(j == a + f);
        assert forall|i: int| 0 <= i < j.len() implies !white_space(#[trigger] j[i]) by {
            if i < a.len() - 1 {
                assert(j[i] == join(g, d)[i]);
            } else if i >= a.len() {
                assert(j[i] == f[i - a.len()]);
            }
        }
    }
}

} // verus!
