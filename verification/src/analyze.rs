//! Schema analysis: counting, per document field, how often each value kind
//! occurs in a sample of documents.
//!
//! The caller flattens its sampled documents into (field name, value kind)
//! observations; the result groups the distinct kinds per field with their
//! exact occurrence counts.

use vstd::prelude::*;

verus! {

/// Kind of a document value, mirroring the value kinds a document store
/// distinguishes.
#[derive(Clone, Copy, PartialEq, Eq, Structural, Debug)]
pub enum BsonValueKind {
    Double,
    Text,
    Array,
    Document,
    Boolean,
    Null,
    RegularExpression,
    JavaScriptCode,
    JavaScriptCodeWithScope,
    Int32,
    Int64,
    Timestamp,
    Binary,
    ObjectId,
    DateTime,
    Symbol,
    Decimal128,
    Undefined,
    MaxKey,
    MinKey,
    DbPointer,
}

/// The observations as mathematical pairs of field name and value kind.
pub open spec fn obs_view(s: Seq<(String, BsonValueKind)>) -> Seq<(Seq<char>, BsonValueKind)> {
    s.map_values(|p: (String, BsonValueKind)| (p.0@, p.1))
}

/// How often the (field, kind) pair occurs among the observations.
pub open spec fn pair_count(
    obs: Seq<(Seq<char>, BsonValueKind)>,
    field: Seq<char>,
    kind: BsonValueKind,
) -> nat
    decreases obs.len(),
{
    if obs.len() == 0 {
        0
    } else {
        pair_count(obs.drop_last(), field, kind) + if obs.last().0 == field && obs.last().1
            == kind {
            1nat
        } else {
            0nat
        }
    }
}

/// The (field, kind) pair has an entry in the grouped result.
pub open spec fn pair_listed(
    result: Seq<(String, Vec<(BsonValueKind, u64)>)>,
    field: Seq<char>,
    kind: BsonValueKind,
) -> bool {
    exists|i: int, a: int|
        #![auto]
        0 <= i < result.len() && 0 <= a < result[i].1@.len() && result[i].0@ == field
            && result[i].1@[a].0 == kind
}

proof fn lemma_pair_count_push(
    obs: Seq<(Seq<char>, BsonValueKind)>,
    x: (Seq<char>, BsonValueKind),
    field: Seq<char>,
    kind: BsonValueKind,
)
    ensures
        pair_count(obs.push(x), field, kind) == pair_count(obs, field, kind) + if x.0 == field
            && x.1 == kind {
            1nat
        } else {
            0nat
        },
{
    assert(obs.push(x).drop_last() =~= obs);
    assert(obs.push(x).last() == x);
}

proof fn lemma_pair_count_le_len(
    obs: Seq<(Seq<char>, BsonValueKind)>,
    field: Seq<char>,
    kind: BsonValueKind,
)
    ensures
        pair_count(obs, field, kind) <= obs.len(),
    decreases obs.len(),
{
    if obs.len() > 0 {
        lemma_pair_count_le_len(obs.drop_last(), field, kind);
    }
}

proof fn lemma_pair_count_occurrence(obs: Seq<(Seq<char>, BsonValueKind)>, p: int)
    requires
        0 <= p < obs.len(),
    ensures
        pair_count(obs, obs[p].0, obs[p].1) >= 1,
    decreases obs.len(),
{
    if p == obs.len() - 1 {
    } else {
        assert(obs.drop_last()[p] == obs[p]);
        lemma_pair_count_occurrence(obs.drop_last(), p);
    }
}

fn count_pair(
    observations: &Vec<(String, BsonValueKind)>,
    field: &String,
    kind: BsonValueKind,
) -> (c: u64)
    ensures
        c == pair_count(obs_view(observations@), field@, kind),
{
    let ghost whole = obs_view(observations@);
    let mut c: u64 = 0;
    let mut j: usize = 0;
    while j < observations.len()
        invariant
            j <= observations@.len(),
            whole == obs_view(observations@),
            whole.len() == observations@.len(),
            forall|q: int|
                0 <= q < whole.len() ==> #[trigger] whole[q] == (
                    observations@[q].0@,
                    observations@[q].1,
                ),
            c == pair_count(whole.subrange(0, j as int), field@, kind),
        decreases observations@.len() - j,
    {
        proof {
            assert(whole.subrange(0, (j + 1) as int) =~= whole.subrange(0, j as int).push(
                whole[j as int],
            ));
            lemma_pair_count_push(whole.subrange(0, j as int), whole[j as int], field@, kind);
            lemma_pair_count_le_len(whole.subrange(0, j as int), field@, kind);
        }
        let entry = &observations[j];
        if entry.0 == *field && entry.1 == kind {
            c = c + 1;
        }
        j = j + 1;
    }
    proof {
        assert(whole.subrange(0, whole.len() as int) =~= whole);
    }
    c
}

fn find_field(entries: &Vec<(String, Vec<(BsonValueKind, u64)>)>, field: &String) -> (r: Option<
    usize,
>)
    ensures
        match r {
            Some(i) => 0 <= i < entries@.len() && entries@[i as int].0@ == field@,
            None => forall|j: int| 0 <= j < entries@.len() ==> (#[trigger] entries@[j]).0@ != field@,
        },
{
    let mut i: usize = 0;
    while i < entries.len()
        invariant
            i <= entries@.len(),
            forall|j: int| 0 <= j < i ==> (#[trigger] entries@[j]).0@ != field@,
        decreases entries@.len() - i,
    {
        if entries[i].0 == *field {
            return Some(i);
        }
        i = i + 1;
    }
    None
}

fn find_kind(kinds: &Vec<(BsonValueKind, u64)>, kind: BsonValueKind) -> (r: Option<usize>)
    ensures
        match r {
            Some(a) => 0 <= a < kinds@.len() && kinds@[a as int].0 == kind,
            None => forall|b: int| 0 <= b < kinds@.len() ==> (#[trigger] kinds@[b]).0 != kind,
        },
{
    let mut a: usize = 0;
    while a < kinds.len()
        invariant
            a <= kinds@.len(),
            forall|b: int| 0 <= b < a ==> (#[trigger] kinds@[b]).0 != kind,
        decreases kinds@.len() - a,
    {
        if kinds[a].0 == kind {
            return Some(a);
        }
        a = a + 1;
    }
    None
}

/// Groups the observations by field name and, within each field, by value
/// kind, with the exact number of occurrences of each (field, kind) pair:
/// every listed pair carries its true positive count, fields and kinds are
/// listed once each, and every observed pair is listed.
pub fn field_type_counts(observations: &Vec<(String, BsonValueKind)>) -> (r: Vec<
    (String, Vec<(BsonValueKind, u64)>),
>)
    ensures
        forall|i: int, j: int| 0 <= i < j < r@.len() ==> (#[trigger] r@[i]).0@ != (
            #[trigger] r@[j]).0@,
        forall|i: int, a: int, b: int|
            #![trigger r@[i].1@[a], r@[i].1@[b]]
            0 <= i < r@.len() && 0 <= a < b < r@[i].1@.len() ==> r@[i].1@[a].0 != r@[i].1@[b].0,
        forall|i: int, a: int|
            #![trigger r@[i].1@[a]]
            0 <= i < r@.len() && 0 <= a < r@[i].1@.len() ==> r@[i].1@[a].1 == pair_count(
                obs_view(observations@),
                r@[i].0@,
                r@[i].1@[a].0,
            ) && r@[i].1@[a].1 >= 1,
        forall|p: int|
            0 <= p < observations@.len() ==> pair_listed(
                r@,
                (#[trigger] observations@[p]).0@,
                observations@[p].1,
            ),
{
    let ghost whole = obs_view(observations@);
    let mut r: Vec<(String, Vec<(BsonValueKind, u64)>)> = Vec::new();
    let mut p: usize = 0;
    while p < observations.len()
        invariant
            p <= observations@.len(),
            whole == obs_view(observations@),
            whole.len() == observations@.len(),
            forall|q: int|
                0 <= q < whole.len() ==> #[trigger] whole[q] == (
                    observations@[q].0@,
                    observations@[q].1,
                ),
            forall|i: int, j: int| 0 <= i < j < r@.len() ==> (#[trigger] r@[i]).0@ != (
                #[trigger] r@[j]).0@,
            forall|i: int, a: int, b: int|
                #![trigger r@[i].1@[a], r@[i].1@[b]]
                0 <= i < r@.len() && 0 <= a < b < r@[i].1@.len() ==> r@[i].1@[a].0
                    != r@[i].1@[b].0,
            forall|i: int, a: int|
                #![trigger r@[i].1@[a]]
                0 <= i < r@.len() && 0 <= a < r@[i].1@.len() ==> r@[i].1@[a].1 == pair_count(
                    whole,
                    r@[i].0@,
                    r@[i].1@[a].0,
                ) && r@[i].1@[a].1 >= 1,
            forall|q: int|
                0 <= q < p ==> pair_listed(r@, (#[trigger] observations@[q]).0@, observations@[q].1),
        decreases observations@.len() - p,
    {
        let ghost pre = r@;
        let field = &observations[p].0;
        let kind = observations[p].1;
        proof {
            lemma_pair_count_occurrence(whole, p as int);
        }
        match find_field(&r, field) {
            Some(i) => {
                match find_kind(&r[i].1, kind) {
                    Some(a) => {
                        proof {
                            assert(r@[i as int].0@ == field@ && r@[i as int].1@[a as int].0
                                == kind);
                            assert(pair_listed(r@, field@, kind));
                        }
                    },
                    None => {
                        let mut entry = r.remove(i);
                        let c = count_pair(observations, field, kind);
                        entry.1.push((kind, c));
                        r.insert(i, entry);
                        proof {
                            assert(r@ =~= pre.update(i as int, r@[i as int]));
                            assert(r@[i as int].0@ == pre[i as int].0@);
                            assert(r@[i as int].1@ =~= pre[i as int].1@.push((kind, c)));
                            assert(r@[i as int].1@[pre[i as int].1@.len() as int] == (kind, c));
                            assert(pair_listed(r@, field@, kind));
                        }
                    },
                }
            },
            None => {
                let c = count_pair(observations, field, kind);
                let mut kinds: Vec<(BsonValueKind, u64)> = Vec::new();
                kinds.push((kind, c));
                r.push((field.clone(), kinds));
                proof {
                    assert(forall|i: int| 0 <= i < pre.len() ==> #[trigger] r@[i] == pre[i]);
                    assert(r@[r@.len() - 1].0@ == field@ && r@[r@.len() - 1].1@[0] == (kind, c));
                    assert(pair_listed(r@, field@, kind));
                }
            },
        }
        proof {
            assert forall|q: int| 0 <= q < p + 1 implies pair_listed(
                r@,
                (#[trigger] observations@[q]).0@,
                observations@[q].1,
            ) by {
                if q < p {
                    let (wi, wa): (int, int) = choose|wi: int, wa: int|
                        #![auto]
                        0 <= wi < pre.len() && 0 <= wa < pre[wi].1@.len() && pre[wi].0@
                            == observations@[q].0@ && pre[wi].1@[wa].0 == observations@[q].1;
                    assert(0 <= wi < r@.len() && 0 <= wa < r@[wi].1@.len() && r@[wi].0@
                        == observations@[q].0@ && r@[wi].1@[wa].0 == observations@[q].1);
                } else {
                    assert(observations@[q].0@ == field@ && observations@[q].1 == kind);
                    assert(pair_listed(r@, observations@[q].0@, observations@[q].1));
                }
            }
        }
        p = p + 1;
    }
    r
}

} // verus!
