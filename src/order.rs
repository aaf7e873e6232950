use vstd::prelude::*;

verus! {

/// Lexicographic order on dates, character by character. On zero-padded
/// `YYYY-MM-DD` strings this is calendar order.
pub open spec fn date_le(a: Seq<char>, b: Seq<char>) -> bool
    decreases a.len(),
{
    if a.len() == 0 {
        true
    } else if b.len() == 0 {
        false
    } else if a[0] != b[0] {
        a[0] < b[0]
    } else {
        date_le(a.drop_first(), b.drop_first())
    }
}

pub proof fn lemma_date_le_total(a: Seq<char>, b: Seq<char>)
    ensures
        date_le(a, b) || date_le(b, a),
    decreases a.len(),
{
    if a.len() > 0 && b.len() > 0 && a[0] == b[0] {
        lemma_date_le_total(a.drop_first(), b.drop_first());
    }
}

pub proof fn lemma_date_le_antisymmetric(a: Seq<char>, b: Seq<char>)
    requires
        date_le(a, b),
        date_le(b, a),
    ensures
        a == b,
    decreases a.len(),
{
    if a.len() > 0 && b.len() > 0 {
        lemma_date_le_antisymmetric(a.drop_first(), b.drop_first());
        assert(a =~= seq![a[0]] + a.drop_first());
        assert(b =~= seq![b[0]] + b.drop_first());
    } else {
        assert(a =~= b);
    }
}

pub proof fn lemma_date_le_transitive(a: Seq<char>, b: Seq<char>, c: Seq<char>)
    requires
        date_le(a, b),
        date_le(b, c),
    ensures
        date_le(a, c),
    decreases a.len(),
{
    if a.len() > 0 && b.len() > 0 && c.len() > 0 && a[0] == b[0] && b[0] == c[0] {
        lemma_date_le_transitive(a.drop_first(), b.drop_first(), c.drop_first());
    }
}

/// Compares two dates in the order of `date_le`.
pub fn date_precedes_or_equals(a: &str, b: &str) -> (r: bool)
    ensures
        r == date_le(a@, b@),
{
    let la = a.unicode_len();
    let lb = b.unicode_len();
    let mut i: usize = 0;
    assert(a@.skip(0) =~= a@);
    assert(b@.skip(0) =~= b@);
    while i < la && i < lb
        invariant
            la == a@.len(),
            lb == b@.len(),
            i <= la,
            i <= lb,
            date_le(a@, b@) == date_le(a@.skip(i as int), b@.skip(i as int)),
        decreases la - i,
    {
        let ca = a.get_char(i);
        let cb = b.get_char(i);
        if ca != cb {
            return ca < cb;
        }
        assert(a@.skip(i as int).drop_first() =~= a@.skip(i + 1));
        assert(b@.skip(i as int).drop_first() =~= b@.skip(i + 1));
        i = i + 1;
    }
    i == la
}

} // verus!
