//! The ordering of fields: code-point order on their characters, optionally
//! after folding both operands to upper case, optionally inverted.
use std::cmp::Ordering;
use vstd::prelude::*;

verus! {

/// Code-point lexicographic order on character sequences: the first
/// position where they differ decides, and a proper prefix comes first.
pub open spec fn lex_cmp(a: Seq<char>, b: Seq<char>) -> Ordering
    decreases a.len(),
{
    if a.len() == 0 && b.len() == 0 {
        Ordering::Equal
    } else if a.len() == 0 {
        Ordering::Less
    } else if b.len() == 0 {
        Ordering::Greater
    } else if a[0] < b[0] {
        Ordering::Less
    } else if a[0] > b[0] {
        Ordering::Greater
    } else {
        lex_cmp(a.skip(1), b.skip(1))
    }
}

/// Exchanging the operands inverts the result.
pub proof fn lemma_lex_cmp_flip(a: Seq<char>, b: Seq<char>)
    ensures
        lex_cmp(a, b) == Ordering::Less <==> lex_cmp(b, a) == Ordering::Greater,
        lex_cmp(a, b) == Ordering::Equal <==> lex_cmp(b, a) == Ordering::Equal,
    decreases a.len(),
{
    if a.len() > 0 && b.len() > 0 && a[0] == b[0] {
        lemma_lex_cmp_flip(a.skip(1), b.skip(1));
    }
}

/// Two sequences compare equal exactly when they are the same sequence.
pub proof fn lemma_lex_cmp_equal(a: Seq<char>, b: Seq<char>)
    ensures
        lex_cmp(a, b) == Ordering::Equal <==> a == b,
    decreases a.len(),
{
    if a.len() > 0 && b.len() > 0 && a[0] == b[0] {
        lemma_lex_cmp_equal(a.skip(1), b.skip(1));
        if a.skip(1) == b.skip(1) {
            assert(a =~= b) by {
                assert forall|k: int| 0 <= k < a.len() implies a[k] == b[k] by {
                    if k > 0 {
                        assert(a[k] == a.skip(1)[k - 1]);
                        assert(b[k] == b.skip(1)[k - 1]);
                    }
                }
            }
        }
    }
    if a.len() == 0 && b.len() == 0 {
        assert(a =~= b);
    }
}

/// "Not greater" is transitive.
pub proof fn lemma_lex_cmp_trans(a: Seq<char>, b: Seq<char>, c: Seq<char>)
    requires
        lex_cmp(a, b) != Ordering::Greater,
        lex_cmp(b, c) != Ordering::Greater,
    ensures
        lex_cmp(a, c) != Ordering::Greater,
    decreases a.len(),
{
    if a.len() > 0 && b.len() > 0 && c.len() > 0 && a[0] == b[0] && b[0] == c[0] {
        lemma_lex_cmp_trans(a.skip(1), b.skip(1), c.skip(1));
    }
}

/// Computes `lex_cmp` on two character vectors.
pub fn lex_compare(a: &Vec<char>, b: &Vec<char>) -> (r: Ordering)
    ensures
        r == lex_cmp(a@, b@),
{
    let mut i: usize = 0;
    assert(a@.skip(0) =~= a@);
    assert(b@.skip(0) =~= b@);
    while i < a.len() && i < b.len()
        invariant
            i <= a.len(),
            i <= b.len(),
            forall|k: int| 0 <= k < i ==> a@[k] == b@[k],
            lex_cmp(a@, b@) == lex_cmp(a@.skip(i as int), b@.skip(i as int)),
        decreases a.len() - i,
    {
        let x = a[i];
        let y = b[i];
        assert(a@.skip(i as int)[0] == a@[i as int]);
        assert(b@.skip(i as int)[0] == b@[i as int]);
        if x < y {
            return Ordering::Less;
        } else if x > y {
            return Ordering::Greater;
        }
        assert(a@.skip(i as int).skip(1) =~= a@.skip(i + 1));
        assert(b@.skip(i as int).skip(1) =~= b@.skip(i + 1));
        assert(a@[i as int] == b@[i as int]);
        i = i + 1;
    }
    if a.len() == b.len() {
        Ordering::Equal
    } else if i == a.len() {
        Ordering::Less
    } else {
        Ordering::Greater
    }
}

/// What `str::to_uppercase` makes of a sequence of characters.
pub uninterp spec fn upper_of(s: Seq<char>) -> Seq<char>;

/// Relies on `str::to_uppercase`: the upper-case form of a text depends on
/// its characters alone.
#[verifier::external_body]
fn to_upper(s: &Vec<char>) -> (r: Vec<char>)
    ensures
        r@ == upper_of(s@),
{
    let text: String = s.iter().collect();
    text.to_uppercase().chars().collect()
}

/// The ordering used for every pair of fields of a run.
#[derive(Clone, Copy, Debug, PartialEq, Eq)]
pub struct Comparator {
    /// Compare the upper-case forms of the fields.
    pub fold_case: bool,
    /// Invert the order.
    pub reverse: bool,
}

impl Comparator {
    /// The text that the base order is applied to.
    pub open spec fn key(self, a: Seq<char>) -> Seq<char> {
        if self.fold_case {
            upper_of(a)
        } else {
            a
        }
    }

    /// The result of comparing `a` with `b`.
    pub open spec fn spec_compare(self, a: Seq<char>, b: Seq<char>) -> Ordering {
        if self.reverse {
            lex_cmp(self.key(b), self.key(a))
        } else {
            lex_cmp(self.key(a), self.key(b))
        }
    }

    /// `a` may stand before `b`.
    pub open spec fn le(self, a: Seq<char>, b: Seq<char>) -> bool {
        self.spec_compare(a, b) != Ordering::Greater
    }

    /// Every field is not greater than the one after it.
    pub open spec fn sorted(self, fields: Seq<Seq<char>>) -> bool {
        forall|i: int| 0 < i < fields.len() ==> #[trigger] self.le(fields[i - 1], fields[i])
    }

    pub fn new(fold_case: bool, reverse: bool) -> (r: Comparator)
        ensures
            r.fold_case == fold_case,
            r.reverse == reverse,
    {
        Comparator { fold_case, reverse }
    }

    /// Compares two fields.
    pub fn compare(&self, a: &Vec<char>, b: &Vec<char>) -> (r: Ordering)
        ensures
            r == self.spec_compare(a@, b@),
    {
        if self.fold_case {
            let ka = to_upper(a);
            let kb = to_upper(b);
            if self.reverse {
                lex_compare(&kb, &ka)
            } else {
                lex_compare(&ka, &kb)
            }
        } else if self.reverse {
            lex_compare(b, a)
        } else {
            lex_compare(a, b)
        }
    }

    /// Exchanging the operands inverts the result, and fields compare
    /// equal whichever comes first.
    pub proof fn lemma_antisymmetric(self, a: Seq<char>, b: Seq<char>)
        ensures
            self.spec_compare(a, b) == Ordering::Less <==> self.spec_compare(b, a)
                == Ordering::Greater,
            self.spec_compare(a, b) == Ordering::Equal <==> self.spec_compare(b, a)
                == Ordering::Equal,
    {
        lemma_lex_cmp_flip(self.key(a), self.key(b));
    }

    /// Any two fields are ordered one way or the other.
    pub proof fn lemma_total(self, a: Seq<char>, b: Seq<char>)
        ensures
            self.le(a, b) || self.le(b, a),
    {
        lemma_lex_cmp_flip(self.key(a), self.key(b));
    }

    /// "Not greater" is transitive.
    pub proof fn lemma_transitive(self, a: Seq<char>, b: Seq<char>, c: Seq<char>)
        requires
            self.le(a, b),
            self.le(b, c),
        ensures
            self.le(a, c),
    {
        if self.reverse {
            lemma_lex_cmp_trans(self.key(c), self.key(b), self.key(a));
        } else {
            lemma_lex_cmp_trans(self.key(a), self.key(b), self.key(c));
        }
    }

    /// Without case folding, fields compare equal only when they are the
    /// same text.
    pub proof fn lemma_equal_exact(self, a: Seq<char>, b: Seq<char>)
        requires
            !self.fold_case,
        ensures
            self.spec_compare(a, b) == Ordering::Equal <==> a == b,
    {
        lemma_lex_cmp_equal(a, b);
        lemma_lex_cmp_equal(b, a);
    }
}

} // verus!
