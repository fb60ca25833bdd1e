//! The invalidator: TTL-driven expiry of ban records.
//!
//! One tick selects every ban record whose deadline has passed and processes
//! them in order: the record is deleted, its clause trimmed out of its
//! filter, and the filter rewritten upstream — or deleted together with its
//! rule if it emptied. A failing step aborts the tick; whatever is still
//! expired is re-selected on the next one. After a fully successful tick no
//! expired record remains.

use crate::errors::ServerError;
use crate::executor::{UpstreamCall, UpstreamCallView};
use crate::models::{trimmed_expr, Filter, FilterView, Nongrata, NongrataView};
use crate::store::{Store, StoreView};
use crate::text::{collapse, has_sub, lemma_collapse_shape, lemma_trim_len, lemma_trim_noop,
    remove_all, remove_first, trim_spec};
use crate::models::{lead_pattern, or_pattern};
use vstd::prelude::*;
use vstd::seq_lib::group_seq_properties;

verus! {

/// What the expiry of one ban record must do, decided from the store alone.
pub struct InvalidationStep {
    /// The expired record.
    pub nongrata_id: i64,
    /// The filter carrying its clause.
    pub filter_id: String,
    /// That filter's upstream rule, needed if the filter empties.
    pub rule_id: String,
    /// The filter's expression once the record's clause is trimmed out.
    pub expression: String,
    /// Whether the trimmed expression is empty, so rule and filter must go.
    pub empty: bool,
}

/// A ban record whose deadline is at or before `now`.
pub open spec fn expired_pred(now: int) -> spec_fn(NongrataView) -> bool {
    |n: NongrataView| n.expires_at <= now
}

/// Decides what the expiry of `target` must do: rebuild the trim filter from
/// the stored clause under the kind of the filter it points at, trim, and
/// report whether the filter empties.
pub fn plan_invalidation(store: &Store, target: &Nongrata) -> (r: Result<
    InvalidationStep,
    ServerError,
>)
    requires
        store@.wf(),
        target@.id is Some,
    ensures
        match r {
            Ok(step) => exists|i: int|
                {
                    &&& 0 <= i < store@.filters.len()
                    &&& (#[trigger] store@.filters[i]).id == target@.filter_id
                    &&& step.filter_id@ == target@.filter_id
                    &&& step.rule_id@ == store@.filters[i].rule_id
                    &&& Some(step.nongrata_id) == target@.id
                    &&& step.expression@ == trimmed_expr(
                        store@.filters[i].expression,
                        target@.restriction_value,
                    )
                    &&& step.empty == (trim_spec(
                        trimmed_expr(store@.filters[i].expression, target@.restriction_value),
                    ).len() == 0)
                },
            Err(e) => e is DBError && !store@.has_filter_id(target@.filter_id),
        },
{
    let mut filter = store.find_filter_by_id(target.filter_id.as_str())?;
    let mut trim_filter = Filter::from_expression(
        target.filter_id.clone(),
        target.restriction_value.clone(),
    );
    trim_filter.filter_type = filter.filter_type;
    let rule_id = filter.rule_id.clone();
    let trim_result = filter.trim_expression(trim_filter);
    match trim_result {
        Ok(()) => {},
        Err(e) => {
            proof {
                assert(false);
            }
            return Err(e);
        },
    }
    let nongrata_id = match target.id {
        Some(v) => v,
        None => {
            proof {
                assert(false);
            }
            return Err(ServerError::DBError(String::from_str("nongrata without an id")));
        },
    };
    let empty = crate::text::trim_ends(filter.expression.as_str()).as_str().is_empty();
    Ok(
        InvalidationStep {
            nongrata_id,
            filter_id: target.filter_id.clone(),
            rule_id,
            expression: filter.expression,
            empty,
        },
    )
}

/// Whether the expiry of `target` can be carried out against this store: the
/// record is assigned an id, the record is present, and so is the filter it
/// points at.
pub open spec fn invalidation_possible(pre: StoreView, target: NongrataView) -> bool {
    &&& target.id is Some
    &&& pre.has_filter_id(target.filter_id)
    &&& pre.has_nongrata_id(target.id->0)
}

/// The index of the ban record with this id; meaningful when the record
/// exists, and then unique in a well-formed store.
pub open spec fn nongrata_idx(s: StoreView, id: Option<i64>) -> int {
    choose|j: int| 0 <= j < s.nongratas.len() && s.nongratas[j].id == id
}

/// The index of the filter with this id; meaningful when the filter exists,
/// and then unique in a well-formed store.
pub open spec fn filter_idx(s: StoreView, fid: Seq<char>) -> int {
    choose|i: int| 0 <= i < s.filters.len() && s.filters[i].id == fid
}

/// In a well-formed store, looking a record's own id up yields its index:
/// ids are unique keys, so [`nongrata_idx`] is pinned.
pub proof fn lemma_nongrata_idx_is(s: StoreView, j: int)
    requires
        s.wf(),
        0 <= j < s.nongratas.len(),
    ensures
        nongrata_idx(s, s.nongratas[j].id) == j,
{
    let id = s.nongratas[j].id;
    assert(0 <= j < s.nongratas.len() && s.nongratas[j].id == id);
    let k = nongrata_idx(s, id);
    assert(0 <= k < s.nongratas.len() && s.nongratas[k].id == id);
}

/// As [`lemma_nongrata_idx_is`], for filters: [`filter_idx`] of a filter's
/// own id is its index.
pub proof fn lemma_filter_idx_is(s: StoreView, i: int)
    requires
        s.wf(),
        0 <= i < s.filters.len(),
    ensures
        filter_idx(s, s.filters[i].id) == i,
{
    let fid = s.filters[i].id;
    assert(0 <= i < s.filters.len() && s.filters[i].id == fid);
    let k = filter_idx(s, fid);
    assert(0 <= k < s.filters.len() && s.filters[k].id == fid);
}

/// The store after one ban record expires: the record leaves the table, and
/// the filter it points at either loses the record's clause or, when nothing
/// remains of its expression, is deleted. Meaningful when
/// [`invalidation_possible`] holds of a well-formed store.
pub open spec fn step_post(pre: StoreView, target: NongrataView) -> StoreView {
    let j = nongrata_idx(pre, target.id);
    let i = filter_idx(pre, target.filter_id);
    let trimmed = trimmed_expr(pre.filters[i].expression, target.restriction_value);
    StoreView {
        filters: if trim_spec(trimmed).len() == 0 {
            pre.filters.remove(i)
        } else {
            pre.filters.update(i, FilterView { expression: trimmed, ..pre.filters[i] })
        },
        nongratas: pre.nongratas.remove(j),
        next_nongrata_id: pre.next_nongrata_id,
    }
}

/// The one upstream request the expiry of `target` issues: `DeleteRule` for
/// the filter's rule when the filter empties, else `UpdateFilter` with the
/// trimmed expression.
pub open spec fn step_calls(pre: StoreView, target: NongrataView) -> Seq<UpstreamCallView> {
    let i = filter_idx(pre, target.filter_id);
    let trimmed = trimmed_expr(pre.filters[i].expression, target.restriction_value);
    if trim_spec(trimmed).len() == 0 {
        seq![UpstreamCallView::DeleteRule { rule_id: pre.filters[i].rule_id }]
    } else {
        seq![UpstreamCallView::UpdateFilter { filter_id: pre.filters[i].id, expression: trimmed }]
    }
}

/// The store after a whole sweep: the step outcomes of its targets, chained
/// left to right.
pub open spec fn sweep_post(pre: StoreView, targets: Seq<NongrataView>) -> StoreView
    decreases targets.len(),
{
    if targets.len() == 0 {
        pre
    } else {
        step_post(sweep_post(pre, targets.drop_last()), targets.last())
    }
}

/// The upstream requests of a whole sweep, in step order.
pub open spec fn sweep_calls(pre: StoreView, targets: Seq<NongrataView>) -> Seq<UpstreamCallView>
    decreases targets.len(),
{
    if targets.len() == 0 {
        Seq::<UpstreamCallView>::empty()
    } else {
        sweep_calls(pre, targets.drop_last()) + step_calls(
            sweep_post(pre, targets.drop_last()),
            targets.last(),
        )
    }
}

/// Expires one ban record: the record is deleted, then its filter is
/// rewritten without the clause — or deleted when nothing remains — and the
/// upstream request for that change is returned.
#[verifier::rlimit(100)]
pub fn invalidate_step(store: &mut Store, target: &Nongrata) -> (res: (Result<(), ServerError>, Vec<
    UpstreamCall,
>))
    requires
        old(store)@.wf(),
        target@.id is Some,
    ensures
        final(store)@.wf(),
        old(store)@.no_empty_filters() ==> final(store)@.no_empty_filters(),
        old(store)@.expressions_trim_clean() ==> final(store)@.expressions_trim_clean(),
        final(store)@.next_nongrata_id == old(store)@.next_nongrata_id,
        res.0 is Err ==> (res.0 matches Err(ServerError::DBError(_)) && final(store)@ == old(
            store,
        )@ && res.1@.len() == 0),
        res.0 is Ok <==> invalidation_possible(old(store)@, target@),
        res.0 is Ok ==> final(store)@ == step_post(old(store)@, target@) && res.1.deep_view()
            == step_calls(old(store)@, target@),
{
    let mut calls: Vec<UpstreamCall> = Vec::new();
    proof {
        assert(calls.deep_view() =~= Seq::<UpstreamCallView>::empty());
    }
    let step = match plan_invalidation(store, target) {
        Err(e) => {
            return (Err(e), calls);
        },
        Ok(s) => s,
    };
    match store.delete_nongrata(step.nongrata_id) {
        Err(e) => {
            return (Err(e), calls);
        },
        Ok(()) => {},
    }
    let ghost mid = store@;
    if step.empty {
        calls.push(UpstreamCall::DeleteRule { rule_id: step.rule_id.clone() });
        proof {
            assert(calls.deep_view() =~= seq![
                UpstreamCallView::DeleteRule { rule_id: step.rule_id@ },
            ]);
        }
        let deleted = store.delete_filter(step.filter_id.as_str());
        match deleted {
            Err(e) => {
                proof {
                    assert(false);
                }
                return (Err(e), calls);
            },
            Ok(()) => {},
        }
    } else {
        calls.push(
            UpstreamCall::UpdateFilter {
                filter_id: step.filter_id.clone(),
                expression: step.expression.clone(),
            },
        );
        proof {
            assert(calls.deep_view() =~= seq![
                UpstreamCallView::UpdateFilter {
                    filter_id: step.filter_id@,
                    expression: step.expression@,
                },
            ]);
        }
        let ghost ev = step.expression@;
        let updated = store.update_filter_expression(step.filter_id.as_str(), step.expression);
        match updated {
            Err(e) => {
                proof {
                    assert(false);
                }
                return (Err(e), calls);
            },
            Ok(()) => {},
        }
        proof {
            assert(trim_spec(ev).len() > 0);
            crate::text::lemma_trim_len(ev);
        }
    }
    proof {
        let i = choose|i: int|
            {
                &&& 0 <= i < old(store)@.filters.len()
                &&& (#[trigger] old(store)@.filters[i]).id == target@.filter_id
                &&& step.filter_id@ == target@.filter_id
                &&& step.rule_id@ == old(store)@.filters[i].rule_id
                &&& step.expression@ == trimmed_expr(
                    old(store)@.filters[i].expression,
                    target@.restriction_value,
                )
            };
        assert(mid.filters == old(store)@.filters);
        if old(store)@.expressions_trim_clean() && !step.empty {
            let e = old(store)@.filters[i].expression;
            let v = target@.restriction_value;
            let x = trim_spec(v);
            let step1 = if has_sub(e, or_pattern(v)) {
                remove_first(e, or_pattern(v))
            } else {
                remove_first(e, lead_pattern(v))
            };
            assert(step.expression@ == collapse(remove_all(step1, x)));
            lemma_collapse_shape(remove_all(step1, x));
            lemma_trim_len(step.expression@);
            lemma_trim_noop(step.expression@);
        }
        if step.empty {
            let i2 = choose|i2: int|
                {
                    &&& 0 <= i2 < mid.filters.len()
                    &&& (#[trigger] mid.filters[i2]).id == step.filter_id@
                    &&& store@.filters == mid.filters.remove(i2)
                };
            assert(i == i2);
        } else {
            let i2 = choose|i2: int|
                {
                    &&& 0 <= i2 < mid.filters.len()
                    &&& (#[trigger] mid.filters[i2]).id == step.filter_id@
                    &&& store@.filters == mid.filters.update(
                        i2,
                        FilterView { expression: step.expression@, ..mid.filters[i2] },
                    )
                };
            assert(i == i2);
        }
        // The found indices are the chosen ones: ids are unique keys.
        let j = choose|j: int|
            {
                &&& 0 <= j < old(store)@.nongratas.len()
                &&& (#[trigger] old(store)@.nongratas[j]).id == Some(step.nongrata_id)
                &&& mid.nongratas == old(store)@.nongratas.remove(j)
            };
        assert(old(store)@.nongratas[j].id == target@.id);
        let jj = nongrata_idx(old(store)@, target@.id);
        assert(0 <= jj < old(store)@.nongratas.len() && old(store)@.nongratas[jj].id
            == target@.id);
        assert(jj == j);
        let ii = filter_idx(old(store)@, target@.filter_id);
        assert(0 <= ii < old(store)@.filters.len() && old(store)@.filters[ii].id
            == target@.filter_id);
        assert(ii == i);
        assert(store@.nongratas == old(store)@.nongratas.remove(j));
        assert(store@ == step_post(old(store)@, target@));
        assert(calls.deep_view() == step_calls(old(store)@, target@));
    }
    (Ok(()), calls)
}

/// Every element of a filtered sequence of ban records is an element of the
/// sequence it was filtered from.
proof fn lemma_filter_element_origin(
    s: Seq<NongrataView>,
    pred: spec_fn(NongrataView) -> bool,
    i: int,
)
    requires
        0 <= i < s.filter(pred).len(),
    ensures
        exists|j: int| 0 <= j < s.len() && s[j] == s.filter(pred)[i],
    decreases s.len(),
{
    reveal(Seq::filter);
    if s.len() > 0 {
        let sub = s.drop_last().filter(pred);
        if i < sub.len() {
            lemma_filter_element_origin(s.drop_last(), pred, i);
            let j = choose|j: int| 0 <= j < s.drop_last().len() && s.drop_last()[j] == sub[i];
            assert(s[j] == s.filter(pred)[i]);
        } else {
            assert(s[s.len() - 1] == s.filter(pred)[i]);
        }
    }
}

/// One invalidation tick: every ban record expired at `now` is processed in
/// table order, each deleting its record and shrinking or deleting its
/// filter, so that the final store is exactly [`sweep_post`] of the expired
/// records and the returned requests are exactly [`sweep_calls`]. The first
/// impossible step aborts the tick with its store error, leaving exactly the
/// effects of the steps before it; after a fully successful tick no expired
/// record remains. A store that had no empty filter expression still has
/// none afterwards.
#[verifier::rlimit(100)]
pub fn invalidate(store: &mut Store, now: i64) -> (res: (Result<(), ServerError>, Vec<
    UpstreamCall,
>))
    requires
        old(store)@.wf(),
    ensures
        final(store)@.wf(),
        old(store)@.no_empty_filters() ==> final(store)@.no_empty_filters(),
        old(store)@.expressions_trim_clean() ==> final(store)@.expressions_trim_clean(),
        final(store)@.next_nongrata_id == old(store)@.next_nongrata_id,
        old(store)@.nongratas.filter(expired_pred(now as int)).len() == 0 ==> final(store)@ == old(
            store,
        )@ && res.1@.len() == 0 && res.0 is Ok,
        res.0 is Ok ==> final(store)@ == sweep_post(
            old(store)@,
            old(store)@.nongratas.filter(expired_pred(now as int)),
        ) && res.1.deep_view() == sweep_calls(
            old(store)@,
            old(store)@.nongratas.filter(expired_pred(now as int)),
        ),
        res.0 is Ok ==> forall|q: int|
            0 <= q < final(store)@.nongratas.len()
                ==> (#[trigger] final(store)@.nongratas[q]).expires_at > now as int,
        res.0 is Err ==> (res.0 matches Err(ServerError::DBError(_)) && exists|k: int|
            {
                &&& 0 <= k < old(store)@.nongratas.filter(expired_pred(now as int)).len()
                &&& final(store)@ == sweep_post(
                    old(store)@,
                    #[trigger] old(store)@.nongratas.filter(expired_pred(now as int)).subrange(
                        0,
                        k,
                    ),
                )
                &&& res.1.deep_view() == sweep_calls(
                    old(store)@,
                    old(store)@.nongratas.filter(expired_pred(now as int)).subrange(0, k),
                )
                &&& !invalidation_possible(
                    final(store)@,
                    old(store)@.nongratas.filter(expired_pred(now as int))[k],
                )
            }),
{
    broadcast use group_seq_properties;

    let expired = store.select_expired_nongratas(now);
    let ghost pred = expired_pred(now as int);
    let ghost table = old(store)@.nongratas;
    proof {
        assert(expired.deep_view() == table.filter(pred));
        assert forall|k: int| 0 <= k < expired.deep_view().len() implies (#[trigger] expired.deep_view()[k]).id is Some by {
            lemma_filter_element_origin(table, pred, k);
        }
    }
    proof {
        assert forall|q: int|
            0 <= q < store@.nongratas.len() && (#[trigger] store@.nongratas[q]).expires_at
                <= now as int implies exists|k: int|
            0 <= k < expired.deep_view().len() && (#[trigger] expired.deep_view()[k]).id
                == store@.nongratas[q].id by {
            table.lemma_filter_contains(pred, q);
            let k = choose|k: int|
                0 <= k < table.filter(pred).len() && table.filter(pred)[k] == table[q];
            assert(expired.deep_view()[k].id == store@.nongratas[q].id);
        }
    }
    let mut calls: Vec<UpstreamCall> = Vec::new();
    let mut i: usize = 0;
    proof {
        assert(expired.deep_view().subrange(0, 0) =~= Seq::<NongrataView>::empty());
        assert(calls.deep_view() =~= Seq::<UpstreamCallView>::empty());
    }
    while i < expired.len()
        invariant
            old(store)@.wf(),
            store@.wf(),
            0 <= i <= expired@.len(),
            table == old(store)@.nongratas,
            expired.deep_view() == table.filter(expired_pred(now as int)),
            forall|k: int|
                0 <= k < expired.deep_view().len() ==> (#[trigger] expired.deep_view()[k]).id
                    is Some,
            old(store)@.no_empty_filters() ==> store@.no_empty_filters(),
            old(store)@.expressions_trim_clean() ==> store@.expressions_trim_clean(),
            store@.next_nongrata_id == old(store)@.next_nongrata_id,
            i == 0 ==> store@ == old(store)@ && calls@.len() == 0,
            store@ == sweep_post(old(store)@, expired.deep_view().subrange(0, i as int)),
            calls.deep_view() == sweep_calls(
                old(store)@,
                expired.deep_view().subrange(0, i as int),
            ),
            forall|q: int|
                0 <= q < store@.nongratas.len() && (#[trigger] store@.nongratas[q]).expires_at
                    <= now as int ==> exists|k: int|
                    i <= k < expired.deep_view().len() && (#[trigger] expired.deep_view()[k]).id
                        == store@.nongratas[q].id,
        decreases expired@.len() - i,
    {
        let ghost pre_step = store@;
        let ghost pre_calls = calls.deep_view();
        let (step_result, mut issued) = invalidate_step(store, &expired[i]);
        let ghost step_calls_view = issued.deep_view();
        match step_result {
            Err(e) => {
                proof {
                    assert(!invalidation_possible(store@, expired.deep_view()[i as int]));
                }
                return (Err(e), calls);
            },
            Ok(()) => {},
        }
        calls.append(&mut issued);
        proof {
            assert(calls.deep_view() =~= pre_calls + step_calls_view);
            let prefix = expired.deep_view().subrange(0, i + 1);
            assert(prefix.drop_last() =~= expired.deep_view().subrange(0, i as int));
            assert(prefix.last() == expired.deep_view()[i as int]);
            assert(store@ == step_post(pre_step, expired.deep_view()[i as int]));
            assert(step_calls_view == crate::invalidator::step_calls(
                pre_step,
                expired.deep_view()[i as int],
            ));
            assert(store@ == sweep_post(old(store)@, prefix));
            assert(calls.deep_view() == sweep_calls(old(store)@, prefix));
        }
        proof {
            let target = expired.deep_view()[i as int];
            let j = choose|j: int|
                {
                    &&& 0 <= j < pre_step.nongratas.len()
                    &&& (#[trigger] pre_step.nongratas[j]).id == target.id
                    &&& store@.nongratas == pre_step.nongratas.remove(j)
                };
            assert forall|q: int|
                0 <= q < store@.nongratas.len() && (#[trigger] store@.nongratas[q]).expires_at
                    <= now as int implies exists|k: int|
                i + 1 <= k < expired.deep_view().len() && (#[trigger] expired.deep_view()[k]).id
                    == store@.nongratas[q].id by {
                let q0: int = if q < j {
                    q
                } else {
                    q + 1
                };
                assert(store@.nongratas[q] == pre_step.nongratas[q0]);
                let k = choose|k: int|
                    i <= k < expired.deep_view().len() && (#[trigger] expired.deep_view()[k]).id
                        == pre_step.nongratas[q0].id;
                if k == i {
                    assert(pre_step.nongratas[q0].id == target.id);
                    assert(pre_step.nongratas[j].id == target.id);
                    assert(q0 != j);
                    assert(false);
                }
                assert(i + 1 <= k < expired.deep_view().len() && expired.deep_view()[k].id
                    == store@.nongratas[q].id);
            }
        }
        i += 1;
    }
    proof {
        if table.filter(expired_pred(now as int)).len() == 0 {
            assert(i == 0);
        }
        assert(expired.deep_view().subrange(0, i as int) =~= expired.deep_view());
    }
    (Ok(()), calls)
}

} // verus!
