use vstd::prelude::*;

use crate::records::{RawJoinedRow, opt_view};
use crate::text::{
    eq_ignore_ascii_case, lemma_lex_lt_irreflexive, lemma_lex_lt_transitive, lex_less, lex_lt,
    same_ignoring_ascii_case,
};

verus! {

/// Rank of a name under a search query: 0 when it equals the query up to
/// ASCII case, 1 otherwise (and always 1 without a query).
pub open spec fn name_rank(name: Seq<char>, query: Option<Seq<char>>) -> int {
    match query {
        Some(q) => if eq_ignore_ascii_case(name, q) {
            0
        } else {
            1
        },
        None => 1,
    }
}

/// Row `a` sorts strictly before row `b`: a lower rank, or the same rank and
/// a lexically smaller name.
pub open spec fn precedes(a: RawJoinedRow, b: RawJoinedRow, query: Option<Seq<char>>) -> bool {
    let ra = name_rank(a.info.name@, query);
    let rb = name_rank(b.info.name@, query);
    ra < rb || (ra == rb && lex_lt(a.info.name@, b.info.name@))
}

/// No row of `s` sorts strictly before an earlier one.
pub open spec fn is_ranked(s: Seq<RawJoinedRow>, query: Option<Seq<char>>) -> bool {
    forall|i: int, j: int| 0 <= i < j < s.len() ==> !precedes(#[trigger] s[j], #[trigger] s[i], query)
}

/// Where `x` goes in `s`: before the first row that it strictly precedes.
pub open spec fn insert_pos(s: Seq<RawJoinedRow>, x: RawJoinedRow, query: Option<Seq<char>>) -> int
    decreases s.len(),
{
    if s.len() == 0 {
        0
    } else if precedes(x, s[0], query) {
        0
    } else {
        1 + insert_pos(s.drop_first(), x, query)
    }
}

/// Rows in ranking order; rows that neither precedes keep their input order.
pub open spec fn ranked(rows: Seq<RawJoinedRow>, query: Option<Seq<char>>) -> Seq<RawJoinedRow>
    decreases rows.len(),
{
    if rows.len() == 0 {
        seq![]
    } else {
        let s = ranked(rows.drop_last(), query);
        s.insert(insert_pos(s, rows.last(), query), rows.last())
    }
}

pub proof fn lemma_insert_pos(s: Seq<RawJoinedRow>, x: RawJoinedRow, query: Option<Seq<char>>)
    ensures
        0 <= insert_pos(s, x, query) <= s.len(),
        forall|k: int| 0 <= k < insert_pos(s, x, query) ==> !precedes(x, #[trigger] s[k], query),
        insert_pos(s, x, query) < s.len() ==> precedes(x, s[insert_pos(s, x, query)], query),
    decreases s.len(),
{
    if s.len() > 0 && !precedes(x, s[0], query) {
        let t = s.drop_first();
        lemma_insert_pos(t, x, query);
        assert forall|k: int| 0 <= k < insert_pos(s, x, query) implies !precedes(x, #[trigger] s[k], query) by {
            if k > 0 {
                assert(s[k] == t[k - 1]);
            }
        }
    }
}

pub proof fn lemma_precedes_irreflexive(a: RawJoinedRow, query: Option<Seq<char>>)
    ensures
        !precedes(a, a, query),
{
    lemma_lex_lt_irreflexive(a.info.name@);
}

pub proof fn lemma_precedes_transitive(
    a: RawJoinedRow,
    b: RawJoinedRow,
    c: RawJoinedRow,
    query: Option<Seq<char>>,
)
    requires
        precedes(a, b, query),
        precedes(b, c, query),
    ensures
        precedes(a, c, query),
{
    if lex_lt(a.info.name@, b.info.name@) && lex_lt(b.info.name@, c.info.name@) {
        lemma_lex_lt_transitive(a.info.name@, b.info.name@, c.info.name@);
    }
}

/// Ranking yields rows in ranking order.
pub proof fn lemma_ranked_is_ranked(rows: Seq<RawJoinedRow>, query: Option<Seq<char>>)
    ensures
        is_ranked(ranked(rows, query), query),
    decreases rows.len(),
{
    if rows.len() > 0 {
        let s = ranked(rows.drop_last(), query);
        let x = rows.last();
        lemma_ranked_is_ranked(rows.drop_last(), query);
        lemma_insert_pos(s, x, query);
        let p = insert_pos(s, x, query);
        let r = s.insert(p, x);
        assert forall|i: int, j: int| 0 <= i < j < r.len() implies !precedes(
            #[trigger] r[j],
            #[trigger] r[i],
            query,
        ) by {
            if j < p {
                assert(r[i] == s[i] && r[j] == s[j]);
            } else if j == p {
                assert(r[i] == s[i]);
            } else if i == p {
                assert(r[j] == s[j - 1]);
                if precedes(s[j - 1], x, query) {
                    lemma_precedes_transitive(s[j - 1], x, s[p], query);
                    if j - 1 == p {
                        lemma_precedes_irreflexive(s[p], query);
                    }
                }
            } else if i < p {
                assert(r[i] == s[i] && r[j] == s[j - 1]);
            } else {
                assert(r[i] == s[i - 1] && r[j] == s[j - 1]);
            }
        }
    }
}

/// Ranking only reorders the rows.
pub proof fn lemma_ranked_permutes(rows: Seq<RawJoinedRow>, query: Option<Seq<char>>)
    ensures
        ranked(rows, query).to_multiset() == rows.to_multiset(),
    decreases rows.len(),
{
    broadcast use vstd::seq_lib::to_multiset_insert, vstd::seq_lib::to_multiset_build;

    if rows.len() > 0 {
        let s = ranked(rows.drop_last(), query);
        lemma_ranked_permutes(rows.drop_last(), query);
        lemma_insert_pos(s, rows.last(), query);
        let p = insert_pos(s, rows.last(), query);
        assert(s.insert(p, rows.last()).to_multiset() == s.to_multiset().insert(rows.last()));
        assert(rows =~= rows.drop_last().push(rows.last()));
        assert(rows.drop_last().push(rows.last()).to_multiset() =~= rows.drop_last().to_multiset().insert(rows.last()));
    } else {
        assert(rows =~= Seq::<RawJoinedRow>::empty());
        assert(ranked(rows, query) =~= Seq::<RawJoinedRow>::empty());
    }
}

fn rank_of(name: &String, query: &Option<String>) -> (r: u8)
    ensures
        r as int == name_rank(name@, opt_view(*query)),
{
    match query {
        Some(q) => if same_ignoring_ascii_case(name.as_str(), q.as_str()) {
            0
        } else {
            1
        },
        None => 1,
    }
}

fn row_precedes(a: &RawJoinedRow, b: &RawJoinedRow, query: &Option<String>) -> (r: bool)
    ensures
        r == precedes(*a, *b, opt_view(*query)),
{
    let ra = rank_of(&a.info.name, query);
    let rb = rank_of(&b.info.name, query);
    ra < rb || (ra == rb && lex_less(a.info.name.as_str(), b.info.name.as_str()))
}

/// Puts rows in ranking order for a name search: names equal to the query
/// up to ASCII case first, then by name; rows that tie keep their order.
pub fn rank_rows(rows: Vec<RawJoinedRow>, query: &Option<String>) -> (r: Vec<RawJoinedRow>)
    ensures
        r@ == ranked(rows@, opt_view(*query)),
        is_ranked(r@, opt_view(*query)),
        r@.to_multiset() == rows@.to_multiset(),
{
    let ghost all = rows@;
    let ghost q = opt_view(*query);
    let mut rows = rows;
    let mut out: Vec<RawJoinedRow> = Vec::new();
    let ghost mut k: int = 0;
    while rows.len() > 0
        invariant
            q == opt_view(*query),
            0 <= k <= all.len(),
            all.len() == k + rows@.len(),
            rows@ =~= all.subrange(k, all.len() as int),
            out@ == ranked(all.subrange(0, k), q),
        decreases rows@.len(),
    {
        let ghost done = all.subrange(0, k + 1);
        assert(done.drop_last() =~= all.subrange(0, k));
        let x = rows.remove(0);
        proof {
            lemma_insert_pos(out@, x, q);
        }
        let mut p: usize = 0;
        while p < out.len() && !row_precedes(&x, &out[p], query)
            invariant
                q == opt_view(*query),
                p <= out@.len(),
                forall|j: int| 0 <= j < p ==> !precedes(x, #[trigger] out@[j], q),
            decreases out@.len() - p,
        {
            p += 1;
        }
        assert(p as int == insert_pos(out@, x, q)) by {
            lemma_insert_pos(out@, x, q);
            let ip = insert_pos(out@, x, q);
            if ip < p {
                assert(!precedes(x, out@[ip], q));
            } else if p < ip {
                assert(!precedes(x, out@[p as int], q));
            }
        }
        out.insert(p, x);
        proof {
            k = k + 1;
        }
    }
    assert(all.subrange(0, k) =~= all);
    proof {
        lemma_ranked_is_ranked(all, q);
        lemma_ranked_permutes(all, q);
    }
    out
}

} // verus!
