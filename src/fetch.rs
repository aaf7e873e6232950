use vstd::prelude::*;

use crate::order::{
    date_le, date_precedes_or_equals, lemma_date_le_antisymmetric, lemma_date_le_total,
    lemma_date_le_transitive,
};
use crate::record::{records_view, FetchError, RawEntry, SleepRecord};
use crate::render::{json_array_of, lemma_no_records_render_empty_array};

verus! {

/// Every record's date is at most the date of every later record.
pub open spec fn sorted_by_date(s: Seq<(Seq<char>, u32)>) -> bool {
    forall|i: int, j: int| 0 <= i < j < s.len() ==> date_le(#[trigger] s[i].0, #[trigger] s[j].0)
}

/// Some position of `p` holds `j`.
pub open spec fn index_taken(p: Seq<int>, j: int) -> bool {
    exists|k: int| 0 <= k < p.len() && p[k] == j
}

/// `out[k]` is `inp[p[k]]`, `p` is a one-to-one map onto the positions of
/// `inp`, and records with equal dates keep their relative order.
pub open spec fn stable_rearrangement(
    inp: Seq<(Seq<char>, u32)>,
    out: Seq<(Seq<char>, u32)>,
    p: Seq<int>,
) -> bool {
    &&& p.len() == out.len()
    &&& out.len() == inp.len()
    &&& forall|k: int| 0 <= k < p.len() ==> 0 <= #[trigger] p[k] < inp.len() && out[k] == inp[p[k]]
    &&& forall|k: int, l: int| 0 <= k < l < p.len() ==> #[trigger] p[k] != #[trigger] p[l]
    &&& forall|j: int| 0 <= j < inp.len() ==> #[trigger] index_taken(p, j)
    &&& forall|k: int, l: int|
        0 <= k < l < p.len() && (#[trigger] out[k]).0 == (#[trigger] out[l]).0 ==> p[k] < p[l]
}

/// `out` is what a stable sort by date makes of `inp`.
pub open spec fn is_stable_sort(inp: Seq<(Seq<char>, u32)>, out: Seq<(Seq<char>, u32)>) -> bool {
    &&& sorted_by_date(out)
    &&& exists|p: Seq<int>| stable_rearrangement(inp, out, p)
}

/// The records of a response in which every entry is complete.
pub open spec fn entries_view(raw: Seq<RawEntry>) -> Seq<(Seq<char>, u32)> {
    raw.map_values(|e: RawEntry| e.record_view())
}

/// Turns decoded entries into records, in the same order. Fails with
/// `Decode` exactly when some entry lacks its day or its score.
pub fn decode_entries(raw: Vec<RawEntry>) -> (r: Result<Vec<SleepRecord>, FetchError>)
    ensures
        r is Ok <==> forall|i: int| 0 <= i < raw@.len() ==> (#[trigger] raw@[i]).is_complete(),
        r is Err ==> r->Err_0 == FetchError::Decode,
        r is Ok ==> records_view(r->Ok_0@) == entries_view(raw@),
{
    let ghost orig = raw@;
    let mut rest = raw;
    let mut out: Vec<SleepRecord> = Vec::new();
    let n: usize = rest.len();
    let mut i: usize = 0;
    while rest.len() > 0
        invariant
            orig == raw@,
            n == orig.len(),
            i + rest@.len() == orig.len(),
            rest@ == orig.skip(i as int),
            forall|k: int| 0 <= k < i ==> (#[trigger] orig[k]).is_complete(),
            records_view(out@) == entries_view(orig.take(i as int)),
        decreases rest@.len(),
    {
        let e = rest.remove(0);
        assert(e == orig[i as int]);
        match (e.day, e.score) {
            (Some(day), Some(score)) => {
                let ghost before = out@;
                out.push(SleepRecord { date: day, score });
                assert(records_view(out@) =~= records_view(before).push(orig[i as int].record_view()));
                assert(orig.take(i + 1) =~= orig.take(i as int).push(orig[i as int]));
                assert(entries_view(orig.take(i + 1)) =~= entries_view(orig.take(i as int)).push(
                    orig[i as int].record_view(),
                ));
                assert(rest@ =~= orig.skip(i + 1));
                i = i + 1;
            },
            _ => {
                assert(!orig[i as int].is_complete());
                return Err(FetchError::Decode);
            },
        }
    }
    assert(orig.take(i as int) =~= orig);
    Ok(out)
}

/// Decodes the entries of a response and orders the records by date. Fails
/// with `Decode`, and hands back no record, exactly when some entry lacks its
/// day or its score.
pub fn fetch_records(raw: Vec<RawEntry>) -> (r: Result<Vec<SleepRecord>, FetchError>)
    ensures
        r is Ok <==> forall|i: int| 0 <= i < raw@.len() ==> (#[trigger] raw@[i]).is_complete(),
        r is Err ==> r->Err_0 == FetchError::Decode,
        r is Ok ==> is_stable_sort(entries_view(raw@), records_view(r->Ok_0@)),
{
    match decode_entries(raw) {
        Ok(records) => Ok(sort_by_date(records)),
        Err(e) => Err(e),
    }
}

/// A stable sort by date keeps every record and adds none: there are as many
/// records after it as before, each input record is among the output
/// records, each output record is among the input records, and the output is
/// in ascending date order.
pub proof fn lemma_stable_sort_keeps_records(inp: Seq<(Seq<char>, u32)>, out: Seq<(Seq<char>, u32)>)
    requires
        is_stable_sort(inp, out),
    ensures
        out.len() == inp.len(),
        sorted_by_date(out),
        forall|j: int| 0 <= j < inp.len() ==> out.contains(#[trigger] inp[j]),
        forall|k: int| 0 <= k < out.len() ==> inp.contains(#[trigger] out[k]),
{
    let p = choose|p: Seq<int>| stable_rearrangement(inp, out, p);
    assert forall|j: int| 0 <= j < inp.len() implies out.contains(#[trigger] inp[j]) by {
        assert(index_taken(p, j));
        let k = choose|k: int| 0 <= k < p.len() && p[k] == j;
        assert(out[k] == inp[p[k]]);
    }
    assert forall|k: int| 0 <= k < out.len() implies inp.contains(#[trigger] out[k]) by {
        assert(out[k] == inp[p[k]]);
    }
}

/// Taking the last input record out of a stable sort leaves a stable sort of
/// the other records; it stood at `q`, after every record of the same or an
/// earlier date and before every record of a later one.
proof fn lemma_take_out_last_input(
    inp: Seq<(Seq<char>, u32)>,
    out: Seq<(Seq<char>, u32)>,
    p: Seq<int>,
) -> (q: int)
    requires
        inp.len() > 0,
        sorted_by_date(out),
        stable_rearrangement(inp, out, p),
    ensures
        0 <= q < out.len(),
        out[q] == inp.last(),
        sorted_by_date(out.remove(q)),
        stable_rearrangement(inp.drop_last(), out.remove(q), p.remove(q)),
        forall|k: int| 0 <= k < q ==> date_le((#[trigger] out.remove(q)[k]).0, inp.last().0),
        forall|k: int|
            q <= k < out.remove(q).len() ==> !date_le((#[trigger] out.remove(q)[k]).0, inp.last().0),
{
    let n = inp.len();
    assert(index_taken(p, n - 1));
    let q = choose|q: int| 0 <= q < p.len() && p[q] == n - 1;
    let s = out.remove(q);
    let ps = p.remove(q);
    let rest = inp.drop_last();
    assert forall|a: int, b: int| 0 <= a < b < s.len() implies date_le(
        #[trigger] s[a].0,
        #[trigger] s[b].0,
    ) by {
        let a0 = if a < q { a } else { a + 1 };
        let b0 = if b < q { b } else { b + 1 };
        assert(date_le(out[a0].0, out[b0].0));
    }
    assert forall|k: int| 0 <= k < ps.len() implies 0 <= #[trigger] ps[k] < rest.len() && s[k]
        == rest[ps[k]] by {
        let k0 = if k < q { k } else { k + 1 };
        assert(ps[k] == p[k0]);
        if k0 < q {
            assert(p[k0] != p[q]);
        } else {
            assert(p[q] != p[k0]);
        }
    }
    assert forall|k: int, l: int| 0 <= k < l < ps.len() implies #[trigger] ps[k]
        != #[trigger] ps[l] by {
        let k0 = if k < q { k } else { k + 1 };
        let l0 = if l < q { l } else { l + 1 };
        assert(p[k0] != p[l0]);
    }
    assert forall|j: int| 0 <= j < rest.len() implies #[trigger] index_taken(ps, j) by {
        assert(index_taken(p, j));
        let k = choose|k: int| 0 <= k < p.len() && p[k] == j;
        if k < q {
            assert(ps[k] == j);
        } else {
            assert(ps[k - 1] == j);
        }
    }
    assert forall|k: int, l: int|
        0 <= k < l < ps.len() && (#[trigger] s[k]).0 == (#[trigger] s[l]).0 implies ps[k]
        < ps[l] by {
        let k0 = if k < q { k } else { k + 1 };
        let l0 = if l < q { l } else { l + 1 };
        assert(out[k0].0 == out[l0].0);
    }
    assert forall|k: int| 0 <= k < q implies date_le((#[trigger] s[k]).0, inp.last().0) by {
        assert(date_le(out[k].0, out[q].0));
    }
    assert forall|k: int| q <= k < s.len() implies !date_le((#[trigger] s[k]).0, inp.last().0) by {
        assert(s[k] == out[k + 1]);
        assert(date_le(out[q].0, out[k + 1].0));
        if date_le(out[k + 1].0, out[q].0) {
            lemma_date_le_antisymmetric(out[q].0, out[k + 1].0);
            assert(p[q] < p[k + 1]);
        }
    }
    q
}

/// A stable sort by date has a single possible result: any two sequences
/// that are stable sorts of the same records are equal.
pub proof fn lemma_stable_sort_unique(
    inp: Seq<(Seq<char>, u32)>,
    out1: Seq<(Seq<char>, u32)>,
    out2: Seq<(Seq<char>, u32)>,
)
    requires
        is_stable_sort(inp, out1),
        is_stable_sort(inp, out2),
    ensures
        out1 == out2,
    decreases inp.len(),
{
    let p1 = choose|p: Seq<int>| stable_rearrangement(inp, out1, p);
    let p2 = choose|p: Seq<int>| stable_rearrangement(inp, out2, p);
    if inp.len() == 0 {
        assert(out1 =~= out2);
    } else {
        let x = inp.last();
        let q1 = lemma_take_out_last_input(inp, out1, p1);
        let q2 = lemma_take_out_last_input(inp, out2, p2);
        let s1 = out1.remove(q1);
        let s2 = out2.remove(q2);
        assert(stable_rearrangement(inp.drop_last(), s1, p1.remove(q1)));
        assert(stable_rearrangement(inp.drop_last(), s2, p2.remove(q2)));
        lemma_stable_sort_unique(inp.drop_last(), s1, s2);
        if q1 < q2 {
            assert(!date_le(s1[q1].0, x.0));
            assert(date_le(s2[q1].0, x.0));
        }
        if q2 < q1 {
            assert(!date_le(s2[q2].0, x.0));
            assert(date_le(s1[q2].0, x.0));
        }
        assert(out1 =~= s1.insert(q1, x));
        assert(out2 =~= s2.insert(q2, x));
    }
}

/// A response with no entries gives no records, and their structured
/// rendering is the empty array `[]`.
pub proof fn lemma_empty_response_renders_empty_array(out: Seq<(Seq<char>, u32)>)
    requires
        is_stable_sort(Seq::empty(), out),
    ensures
        out.len() == 0,
        json_array_of(out) == "[]"@,
{
    let p = choose|p: Seq<int>| stable_rearrangement(Seq::empty(), out, p);
    assert(out =~= Seq::<(Seq<char>, u32)>::empty());
    lemma_no_records_render_empty_array();
}

/// Position at which a record dated `date` goes into the sorted `out` so that
/// it comes after every record of the same or an earlier date.
fn insertion_point(out: &Vec<SleepRecord>, date: &String) -> (pos: usize)
    requires
        sorted_by_date(records_view(out@)),
    ensures
        pos <= out@.len(),
        forall|j: int| 0 <= j < pos ==> date_le(#[trigger] out@[j].date@, date@),
        forall|j: int| pos <= j < out@.len() ==> !date_le(#[trigger] out@[j].date@, date@),
{
    let mut pos: usize = 0;
    while pos < out.len()
        invariant
            pos <= out@.len(),
            sorted_by_date(records_view(out@)),
            forall|j: int| 0 <= j < pos ==> date_le(#[trigger] out@[j].date@, date@),
        decreases out@.len() - pos,
    {
        if !date_precedes_or_equals(out[pos].date.as_str(), date.as_str()) {
            assert forall|j: int| pos <= j < out@.len() implies !date_le(
                #[trigger] out@[j].date@,
                date@,
            ) by {
                if j > pos {
                    let v = records_view(out@);
                    assert(date_le(v[pos as int].0, v[j].0));
                    if date_le(out@[j].date@, date@) {
                        lemma_date_le_transitive(out@[pos as int].date@, out@[j].date@, date@);
                    }
                }
            }
            return pos;
        }
        pos = pos + 1;
    }
    pos
}

/// Sorts records by date, ascending; records of equal date keep their order.
pub fn sort_by_date(records: Vec<SleepRecord>) -> (out: Vec<SleepRecord>)
    ensures
        is_stable_sort(records_view(records@), records_view(out@)),
{
    let ghost inp = records_view(records@);
    let ghost orig = records@;
    let mut rest = records;
    let mut out: Vec<SleepRecord> = Vec::new();
    let ghost mut p: Seq<int> = Seq::empty();
    let n: usize = rest.len();
    let mut i: usize = 0;
    while rest.len() > 0
        invariant
            n == orig.len(),
            i + rest@.len() == orig.len(),
            rest@ == orig.skip(i as int),
            inp == records_view(orig),
            sorted_by_date(records_view(out@)),
            stable_rearrangement(inp.take(i as int), records_view(out@), p),
        decreases rest@.len(),
    {
        let r = rest.remove(0);
        assert(r == orig[i as int]);
        let pos = insertion_point(&out, &r.date);
        let ghost old_v = records_view(out@);
        let ghost rv = r@;
        out.insert(pos, r);
        let ghost new_v = records_view(out@);
        assert(new_v =~= old_v.insert(pos as int, rv));
        proof {
            let ghost old_p = p;
            p = p.insert(pos as int, i as int);
            assert forall|a: int, b: int| 0 <= a < b < new_v.len() implies date_le(
                #[trigger] new_v[a].0,
                #[trigger] new_v[b].0,
            ) by {
                if b == pos {
                    assert(new_v[a] == old_v[a]);
                } else if a == pos {
                    assert(new_v[b] == old_v[b - 1]);
                    lemma_date_le_total(rv.0, old_v[b - 1].0);
                } else {
                    let a0 = if a < pos { a } else { a - 1 };
                    let b0 = if b < pos { b } else { b - 1 };
                    assert(date_le(old_v[a0].0, old_v[b0].0));
                }
            }
            let ghost pre = inp.take(i + 1);
            assert(pre =~= inp.take(i as int).push(rv));
            assert forall|k: int| 0 <= k < p.len() implies 0 <= #[trigger] p[k] < pre.len()
                && new_v[k] == pre[p[k]] by {
                if k < pos {
                    assert(p[k] == old_p[k]);
                } else if k > pos {
                    assert(p[k] == old_p[k - 1]);
                }
            }
            assert forall|k: int, l: int| 0 <= k < l < p.len() implies #[trigger] p[k]
                != #[trigger] p[l] by {
                if k != pos && l != pos {
                    let k0 = if k < pos { k } else { k - 1 };
                    let l0 = if l < pos { l } else { l - 1 };
                    assert(old_p[k0] != old_p[l0]);
                } else if k == pos {
                    assert(p[l] == old_p[l - 1]);
                } else {
                    assert(p[k] == old_p[k]);
                }
            }
            assert forall|j: int| 0 <= j < pre.len() implies #[trigger] index_taken(p, j) by {
                if j == i {
                    assert(p[pos as int] == j);
                } else {
                    assert(index_taken(old_p, j));
                    let k0 = choose|k0: int| 0 <= k0 < old_p.len() && old_p[k0] == j;
                    if k0 < pos {
                        assert(p[k0] == j);
                    } else {
                        assert(p[k0 + 1] == j);
                    }
                }
            }
            assert forall|k: int, l: int|
                0 <= k < l < p.len() && (#[trigger] new_v[k]).0 == (#[trigger] new_v[l]).0
                implies p[k] < p[l] by {
                if k != pos && l != pos {
                    let k0 = if k < pos { k } else { k - 1 };
                    let l0 = if l < pos { l } else { l - 1 };
                    assert(old_v[k0] == new_v[k]);
                    assert(old_v[l0] == new_v[l]);
                } else if k == pos {
                    assert(new_v[l] == old_v[l - 1]);
                    assert(out@[l].date@ == new_v[l].0);
                    assert(date_le(out@[l].date@, rv.0));
                    assert(false);
                } else {
                    assert(p[k] == old_p[k]);
                }
            }
        }
        assert(rest@ =~= orig.skip(i + 1));
        i = i + 1;
    }
    assert(inp.take(i as int) =~= inp);
    out
}

} // verus!
