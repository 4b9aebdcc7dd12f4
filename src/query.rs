use vstd::prelude::*;
use vstd::string::*;

use crate::records::opt_view;

verus! {

/// Most joined rows that one listing takes; the card query's `LIMIT`.
pub const ROW_CAP: usize = 50;

/// The card query. Each filter is a `(param IS NULL OR ...)` clause, so an
/// absent filter constrains nothing; rows whose name equals the name search
/// up to case come first, then rows by name; at most `ROW_CAP` rows.
pub const CARD_QUERY: &'static str = "SELECT c.id, c.name, c.type, c.\"desc\", c.atk, c.def, c.level, c.typeline, ci.image_id, ci.local_path, cs.set_code, cs.set_name, cs.set_rarity, cs.collected_amount, cs.set_price
FROM cards c
LEFT JOIN card_images ci ON c.id = ci.card_id
LEFT JOIN card_sets cs ON c.id = cs.card_id
WHERE (:name IS NULL OR c.name LIKE :name)
  AND (:card_type IS NULL OR c.type = :card_type)
  AND (:set IS NULL OR cs.set_name = :set)
ORDER BY CASE WHEN LOWER(c.name) = LOWER(:name_exact) THEN 0 ELSE 1 END, c.name
LIMIT 50";

/// The distinct set names, in order.
pub const SET_NAMES_QUERY: &'static str = "SELECT DISTINCT set_name FROM card_sets WHERE set_name IS NOT NULL ORDER BY set_name";

/// What a card listing is filtered by; an absent field constrains nothing.
#[derive(Debug, Clone, PartialEq, Eq)]
pub struct FilterSpec {
    /// Part of the card name.
    pub name: Option<String>,
    /// Exact card type.
    pub card_type: Option<String>,
    /// Exact set name.
    pub set_name: Option<String>,
}

pub struct FilterView {
    pub name: Option<Seq<char>>,
    pub card_type: Option<Seq<char>>,
    pub set_name: Option<Seq<char>>,
}

impl View for FilterSpec {
    type V = FilterView;

    open spec fn view(&self) -> FilterView {
        FilterView {
            name: opt_view(self.name),
            card_type: opt_view(self.card_type),
            set_name: opt_view(self.set_name),
        }
    }
}

/// A named query parameter; `None` binds SQL `NULL`.
#[derive(Debug, Clone, PartialEq, Eq)]
pub struct QueryParam {
    pub name: String,
    pub value: Option<String>,
}

impl View for QueryParam {
    type V = (Seq<char>, Option<Seq<char>>);

    open spec fn view(&self) -> (Seq<char>, Option<Seq<char>>) {
        (self.name@, opt_view(self.value))
    }
}

/// Query text with its parameters, bound by name.
#[derive(Debug, Clone, PartialEq, Eq)]
pub struct BoundQuery {
    pub sql: String,
    pub params: Vec<QueryParam>,
}

pub open spec fn param_views(params: Seq<QueryParam>) -> Seq<(Seq<char>, Option<Seq<char>>)> {
    params.map_values(|p: QueryParam| p@)
}

/// `LIKE` pattern that matches names containing `n`.
pub open spec fn like_pattern(n: Seq<char>) -> Seq<char> {
    seq!['%'] + n + seq!['%']
}

/// The parameters that the card query binds for a filter.
pub open spec fn card_query_params(f: FilterView) -> Seq<(Seq<char>, Option<Seq<char>>)> {
    seq![
        (":name"@, match f.name {
            Some(n) => Some(like_pattern(n)),
            None => None,
        }),
        (":name_exact"@, f.name),
        (":card_type"@, f.card_type),
        (":set"@, f.set_name),
    ]
}

fn copy_text(s: &Option<String>) -> (r: Option<String>)
    ensures
        opt_view(r) == opt_view(*s),
{
    match s {
        Some(v) => Some(v.clone()),
        None => None,
    }
}

fn param(name: &str, value: Option<String>) -> (p: QueryParam)
    ensures
        p@ == (name@, opt_view(value)),
{
    QueryParam { name: name.to_owned(), value }
}

/// Builds the card query for a filter: the fixed query text and one binding
/// per filter dimension, the name as a substring pattern.
pub fn build_card_query(filter: &FilterSpec) -> (q: BoundQuery)
    ensures
        q.sql@ == CARD_QUERY@,
        param_views(q.params@) == card_query_params(filter@),
{
    let pattern = match &filter.name {
        Some(n) => {
            let mut s = "%".to_owned();
            s.append(n.as_str());
            s.append("%");
            proof {
                reveal_strlit("%");
            }
            assert(s@ =~= like_pattern(n@));
            Some(s)
        },
        None => None,
    };
    let mut params: Vec<QueryParam> = Vec::new();
    params.push(param(":name", pattern));
    params.push(param(":name_exact", copy_text(&filter.name)));
    params.push(param(":card_type", copy_text(&filter.card_type)));
    params.push(param(":set", copy_text(&filter.set_name)));
    let q = BoundQuery { sql: CARD_QUERY.to_owned(), params };
    assert(param_views(q.params@) =~= card_query_params(filter@));
    q
}

/// Index of the first failed item, or -1 when every item succeeded.
pub open spec fn first_error<T>(items: Seq<Result<T, String>>) -> int
    decreases items.len(),
{
    if items.len() == 0 {
        -1
    } else {
        let i = first_error(items.drop_last());
        if i >= 0 {
            i
        } else if items.last() is Err {
            items.len() - 1
        } else {
            -1
        }
    }
}

pub proof fn lemma_first_error<T>(items: Seq<Result<T, String>>)
    ensures
        -1 <= first_error(items) < items.len(),
        first_error(items) == -1 <==> forall|j: int| 0 <= j < items.len() ==> (#[trigger] items[j]) is Ok,
        first_error(items) >= 0 ==> {
            &&& items[first_error(items)] is Err
            &&& forall|j: int| 0 <= j < first_error(items) ==> (#[trigger] items[j]) is Ok
        },
    decreases items.len(),
{
    if items.len() > 0 {
        let prev = items.drop_last();
        lemma_first_error(prev);
        assert forall|j: int| 0 <= j < prev.len() implies prev[j] == items[j] by {}
    }
}

/// Collects decoded rows: all of their values when every row decoded, else
/// the error of the first row that failed, with nothing of the others.
pub fn collect_results<T>(results: Vec<Result<T, String>>) -> (r: Result<Vec<T>, String>)
    ensures
        r is Ok <==> first_error(results@) == -1,
        r is Ok ==> r->Ok_0@ == results@.map_values(|x: Result<T, String>| x->Ok_0),
        r is Err ==> r->Err_0 == results@[first_error(results@)]->Err_0,
{
    let ghost all = results@;
    proof {
        lemma_first_error(all);
    }
    let mut items = results;
    let mut out: Vec<T> = Vec::new();
    let ghost mut k: int = 0;
    while items.len() > 0
        invariant
            all == results@,
            0 <= k <= all.len(),
            all.len() == k + items@.len(),
            items@ =~= all.subrange(k, all.len() as int),
            out@ =~= all.subrange(0, k).map_values(|x: Result<T, String>| x->Ok_0),
            forall|j: int| 0 <= j < k ==> (#[trigger] all[j]) is Ok,
        decreases items@.len(),
    {
        let item = items.remove(0);
        assert(item == all[k]);
        match item {
            Ok(v) => {
                out.push(v);
                proof {
                    k = k + 1;
                }
            },
            Err(e) => {
                assert(first_error(all) == k) by {
                    lemma_first_error(all);
                    let fe = first_error(all);
                    if 0 <= fe < k {
                        assert(all[fe] is Ok);
                    } else if fe == -1 || fe > k {
                        assert(all[k] is Err);
                    }
                }
                return Err(e);
            },
        }
    }
    assert(all.subrange(0, k) =~= all);
    proof {
        lemma_first_error(all);
    }
    Ok(out)
}

} // verus!
