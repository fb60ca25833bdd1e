//! The authoritative local state: the `filters` and `nongratas` tables.
//!
//! The store keeps at most one filter per kind, assigns monotonically growing
//! ids to nongratas, and offers exactly the lookups and updates the executor
//! and the invalidator need. Every operation states precisely how the tables
//! change.

use crate::errors::ServerError;
use crate::models::{Filter, FilterType, FilterView, Nongrata, NongrataView};
use crate::text::{ci_contains, contains_ci, str_eq, trim_spec};
use vstd::prelude::*;

verus! {

/// The mathematical value of a [`Store`]: both tables and the next free
/// nongrata id.
pub struct StoreView {
    pub filters: Seq<FilterView>,
    pub nongratas: Seq<NongrataView>,
    pub next_nongrata_id: int,
}

impl StoreView {
    /// At most one filter per kind.
    pub open spec fn kinds_unique(self) -> bool {
        forall|i: int, j: int|
            0 <= i < j < self.filters.len() ==> self.filters[i].filter_type
                != self.filters[j].filter_type
    }

    /// Filter ids are primary keys.
    pub open spec fn filter_ids_unique(self) -> bool {
        forall|i: int, j: int|
            0 <= i < j < self.filters.len() ==> self.filters[i].id != self.filters[j].id
    }

    /// Every stored nongrata has an id below the next free one.
    pub open spec fn nongrata_ids_assigned(self) -> bool {
        forall|i: int|
            0 <= i < self.nongratas.len() ==> ((#[trigger] self.nongratas[i].id) matches Some(v)
                && v < self.next_nongrata_id)
    }

    /// Nongrata ids are primary keys.
    pub open spec fn nongrata_ids_unique(self) -> bool {
        forall|i: int, j: int|
            0 <= i < j < self.nongratas.len() ==> self.nongratas[i].id != self.nongratas[j].id
    }

    /// The store's well-formedness: both tables keyed, kinds unique.
    pub open spec fn wf(self) -> bool {
        &&& self.kinds_unique()
        &&& self.filter_ids_unique()
        &&& self.nongrata_ids_assigned()
        &&& self.nongrata_ids_unique()
    }

    /// Some filter of this kind exists.
    pub open spec fn has_kind(self, kind: FilterType) -> bool {
        exists|i: int| 0 <= i < self.filters.len() && self.filters[i].filter_type == kind
    }

    /// Some filter with this id exists.
    pub open spec fn has_filter_id(self, id: Seq<char>) -> bool {
        exists|i: int| 0 <= i < self.filters.len() && self.filters[i].id == id
    }

    /// Some nongrata with this id exists.
    pub open spec fn has_nongrata_id(self, id: i64) -> bool {
        exists|i: int| 0 <= i < self.nongratas.len() && self.nongratas[i].id == Some(id)
    }

    /// No persisted filter has an empty expression: a filter that empties is
    /// deleted rather than kept.
    pub open spec fn no_empty_filters(self) -> bool {
        forall|i: int|
            0 <= i < self.filters.len() ==> (#[trigger] self.filters[i]).expression.len() > 0
    }

    /// Every persisted filter expression is bare at both ends: trimming it
    /// changes nothing.
    pub open spec fn expressions_trim_clean(self) -> bool {
        forall|i: int|
            0 <= i < self.filters.len() ==> trim_spec((#[trigger] self.filters[i]).expression)
                == self.filters[i].expression
    }

    /// Every ban record's clause is carried, up to ASCII case, by the
    /// expression of the filter it points at.
    pub open spec fn clauses_covered(self) -> bool {
        forall|j: int|
            0 <= j < self.nongratas.len() ==> exists|i: int|
                {
                    &&& 0 <= i < self.filters.len()
                    &&& (#[trigger] self.filters[i]).id == (
                    #[trigger] self.nongratas[j]).filter_id
                    &&& ci_contains(
                        self.filters[i].expression,
                        self.nongratas[j].restriction_value,
                    )
                }
    }
}

/// Transactional persistence for filters and nongratas, held in memory as the
/// single writer's authoritative copy.
pub struct Store {
    pub filters: Vec<Filter>,
    pub nongratas: Vec<Nongrata>,
    pub next_nongrata_id: i64,
}

impl View for Store {
    type V = StoreView;

    open spec fn view(&self) -> StoreView {
        StoreView {
            filters: self.filters.deep_view(),
            nongratas: self.nongratas.deep_view(),
            next_nongrata_id: self.next_nongrata_id as int,
        }
    }
}

impl Store {
    /// The empty store. It satisfies every invariant the operations keep:
    /// well-formed keys, no empty expression, expressions bare at the ends,
    /// and every record's clause covered by its filter.
    pub fn new() -> (r: Store)
        ensures
            r@.filters.len() == 0,
            r@.nongratas.len() == 0,
            r@.next_nongrata_id == 1,
            r@.wf(),
            r@.no_empty_filters(),
            r@.expressions_trim_clean(),
            r@.clauses_covered(),
    {
        let r = Store { filters: Vec::new(), nongratas: Vec::new(), next_nongrata_id: 1 };
        proof {
            assert(r@.filters =~= Seq::<FilterView>::empty());
            assert(r@.nongratas =~= Seq::<NongrataView>::empty());
        }
        r
    }

    /// The unique filter of the given kind, if one exists.
    pub fn find_filter_by_kind(&self, kind: FilterType) -> (r: Option<Filter>)
        ensures
            match r {
                Some(f) => exists|i: int|
                    0 <= i < self@.filters.len() && self@.filters[i] == f@ && f@.filter_type
                        == kind,
                None => !self@.has_kind(kind),
            },
    {
        let mut i: usize = 0;
        while i < self.filters.len()
            invariant
                0 <= i <= self.filters.len(),
                forall|j: int| 0 <= j < i ==> self@.filters[j].filter_type != kind,
            decreases self.filters.len() - i,
        {
            if self.filters[i].filter_type == kind {
                let f = self.filters[i].duplicate();
                proof {
                    assert(self@.filters[i as int] == f@);
                }
                return Some(f);
            }
            i += 1;
        }
        None
    }

    /// The filter with the given primary key, or a not-found store error.
    pub fn find_filter_by_id(&self, id: &str) -> (r: Result<Filter, ServerError>)
        ensures
            match r {
                Ok(f) => exists|i: int|
                    0 <= i < self@.filters.len() && self@.filters[i] == f@ && f@.id == id@,
                Err(e) => e is DBError && !self@.has_filter_id(id@),
            },
    {
        let mut i: usize = 0;
        while i < self.filters.len()
            invariant
                0 <= i <= self.filters.len(),
                forall|j: int| 0 <= j < i ==> self@.filters[j].id != id@,
            decreases self.filters.len() - i,
        {
            if str_eq(self.filters[i].id.as_str(), id) {
                let f = self.filters[i].duplicate();
                proof {
                    assert(self@.filters[i as int] == f@);
                }
                return Ok(f);
            }
            i += 1;
        }
        Err(ServerError::DBError(String::from_str("filter not found")))
    }

    /// Inserts a filter; fails on a unique-kind or primary-key violation,
    /// leaving the store unchanged.
    pub fn insert_filter(&mut self, f: Filter) -> (r: Result<(), ServerError>)
        requires
            old(self)@.wf(),
        ensures
            final(self)@.wf(),
            final(self)@.nongratas == old(self)@.nongratas,
            final(self)@.next_nongrata_id == old(self)@.next_nongrata_id,
            r is Ok <==> !old(self)@.has_kind(f@.filter_type) && !old(self)@.has_filter_id(f@.id),
            r is Ok ==> final(self)@.filters == old(self)@.filters.push(f@),
            r is Err ==> (r matches Err(ServerError::DBError(_)) && final(self)@ == old(self)@),
    {
        let mut i: usize = 0;
        while i < self.filters.len()
            invariant
                old(self)@.wf(),
                0 <= i <= self.filters.len(),
                self@ == old(self)@,
                forall|j: int|
                    0 <= j < i ==> self@.filters[j].filter_type != f@.filter_type
                        && self@.filters[j].id != f@.id,
            decreases self.filters.len() - i,
        {
            let same_kind = self.filters[i].filter_type == f.filter_type;
            let same_id = str_eq(self.filters[i].id.as_str(), f.id.as_str());
            if same_kind || same_id {
                proof {
                    if same_kind {
                        assert(old(self)@.filters[i as int].filter_type == f@.filter_type);
                    } else {
                        assert(old(self)@.filters[i as int].id == f@.id);
                    }
                }
                return Err(ServerError::DBError(String::from_str("filter already exists")));
            }
            i += 1;
        }
        let ghost fv = f@;
        self.filters.push(f);
        proof {
            assert(self@.filters =~= old(self)@.filters.push(fv));
            assert(self@.nongratas =~= old(self)@.nongratas);
            assert forall|a: int, b: int|
                0 <= a < b < self@.filters.len() implies self@.filters[a].filter_type
                != self@.filters[b].filter_type && self@.filters[a].id != self@.filters[b].id by {
                if b < self@.filters.len() - 1 {
                    assert(old(self)@.filters[a].filter_type != old(self)@.filters[b].filter_type);
                }
            }
        }
        Ok(())
    }

    /// Rewrites one filter's expression, found by primary key.
    pub fn update_filter_expression(&mut self, id: &str, expr: String) -> (r: Result<
        (),
        ServerError,
    >)
        requires
            old(self)@.wf(),
        ensures
            final(self)@.wf(),
            final(self)@.nongratas == old(self)@.nongratas,
            final(self)@.next_nongrata_id == old(self)@.next_nongrata_id,
            r is Ok <==> old(self)@.has_filter_id(id@),
            r is Ok ==> exists|i: int|
                {
                    &&& 0 <= i < old(self)@.filters.len()
                    &&& old(self)@.filters[i].id == id@
                    &&& final(self)@.filters == old(self)@.filters.update(
                        i,
                        FilterView { expression: expr@, ..old(self)@.filters[i] },
                    )
                },
            r is Err ==> (r matches Err(ServerError::DBError(_)) && final(self)@ == old(self)@),
    {
        let mut i: usize = 0;
        while i < self.filters.len()
            invariant
                old(self)@.wf(),
                0 <= i <= self.filters.len(),
                self@ == old(self)@,
                forall|j: int| 0 <= j < i ==> self@.filters[j].id != id@,
            decreases self.filters.len() - i,
        {
            if str_eq(self.filters[i].id.as_str(), id) {
                proof {
                    assert(old(self)@.filters[i as int].id == id@);
                }
                let ghost ev = expr@;
                let ghost fv = FilterView { expression: ev, ..old(self)@.filters[i as int] };
                self.filters[i].expression = expr;
                proof {
                    assert(self.filters@[i as int]@ == fv);
                    assert(self@.filters =~= old(self)@.filters.update(i as int, fv));
                    assert(self@.nongratas =~= old(self)@.nongratas);
                }
                return Ok(());
            }
            i += 1;
        }
        Err(ServerError::DBError(String::from_str("filter not found")))
    }

    /// Rewrites one filter's rule id, found by primary key.
    pub fn update_filter_rule_id(&mut self, id: &str, rule_id: String) -> (r: Result<
        (),
        ServerError,
    >)
        requires
            old(self)@.wf(),
        ensures
            final(self)@.wf(),
            final(self)@.nongratas == old(self)@.nongratas,
            final(self)@.next_nongrata_id == old(self)@.next_nongrata_id,
            r is Ok <==> old(self)@.has_filter_id(id@),
            r is Ok ==> exists|i: int|
                {
                    &&& 0 <= i < old(self)@.filters.len()
                    &&& old(self)@.filters[i].id == id@
                    &&& final(self)@.filters == old(self)@.filters.update(
                        i,
                        FilterView { rule_id: rule_id@, ..old(self)@.filters[i] },
                    )
                },
            r is Err ==> (r matches Err(ServerError::DBError(_)) && final(self)@ == old(self)@),
    {
        let mut i: usize = 0;
        while i < self.filters.len()
            invariant
                old(self)@.wf(),
                0 <= i <= self.filters.len(),
                self@ == old(self)@,
                forall|j: int| 0 <= j < i ==> self@.filters[j].id != id@,
            decreases self.filters.len() - i,
        {
            if str_eq(self.filters[i].id.as_str(), id) {
                proof {
                    assert(old(self)@.filters[i as int].id == id@);
                }
                let ghost rv = rule_id@;
                let ghost fv = FilterView { rule_id: rv, ..old(self)@.filters[i as int] };
                self.filters[i].rule_id = rule_id;
                proof {
                    assert(self.filters@[i as int]@ == fv);
                    assert(self@.filters =~= old(self)@.filters.update(i as int, fv));
                    assert(self@.nongratas =~= old(self)@.nongratas);
                }
                return Ok(());
            }
            i += 1;
        }
        Err(ServerError::DBError(String::from_str("filter not found")))
    }

    /// Deletes one filter by primary key.
    pub fn delete_filter(&mut self, id: &str) -> (r: Result<(), ServerError>)
        requires
            old(self)@.wf(),
        ensures
            final(self)@.wf(),
            final(self)@.nongratas == old(self)@.nongratas,
            final(self)@.next_nongrata_id == old(self)@.next_nongrata_id,
            r is Ok <==> old(self)@.has_filter_id(id@),
            r is Ok ==> exists|i: int|
                {
                    &&& 0 <= i < old(self)@.filters.len()
                    &&& old(self)@.filters[i].id == id@
                    &&& final(self)@.filters == old(self)@.filters.remove(i)
                },
            r is Err ==> (r matches Err(ServerError::DBError(_)) && final(self)@ == old(self)@),
    {
        let mut i: usize = 0;
        while i < self.filters.len()
            invariant
                old(self)@.wf(),
                0 <= i <= self.filters.len(),
                self@ == old(self)@,
                forall|j: int| 0 <= j < i ==> self@.filters[j].id != id@,
            decreases self.filters.len() - i,
        {
            if str_eq(self.filters[i].id.as_str(), id) {
                proof {
                    assert(old(self)@.filters[i as int].id == id@);
                }
                self.filters.remove(i);
                proof {
                    assert(self@.filters =~= old(self)@.filters.remove(i as int));
                    assert(self@.nongratas =~= old(self)@.nongratas);
                }
                return Ok(());
            }
            i += 1;
        }
        Err(ServerError::DBError(String::from_str("filter not found")))
    }

    /// Inserts a ban record and returns the id the store assigned to it.
    pub fn insert_nongrata(&mut self, n: Nongrata) -> (r: i64)
        requires
            old(self)@.wf(),
            old(self).next_nongrata_id < i64::MAX,
        ensures
            final(self)@.wf(),
            final(self)@.filters == old(self)@.filters,
            r == old(self)@.next_nongrata_id,
            final(self)@.next_nongrata_id == old(self)@.next_nongrata_id + 1,
            final(self)@.nongratas == old(self)@.nongratas.push(
                NongrataView { id: Some(r), ..n@ },
            ),
    {
        let id = self.next_nongrata_id;
        let ghost nv = NongrataView { id: Some(id), ..n@ };
        let mut record = n;
        record.id = Some(id);
        self.nongratas.push(record);
        self.next_nongrata_id = id + 1;
        proof {
            assert(self@.nongratas =~= old(self)@.nongratas.push(nv));
            assert(self@.filters =~= old(self)@.filters);
            assert forall|a: int, b: int|
                0 <= a < b < self@.nongratas.len() implies self@.nongratas[a].id
                != self@.nongratas[b].id by {
                if b == self@.nongratas.len() - 1 {
                    assert(self@.nongratas[a].id matches Some(v) && v < id);
                }
            }
        }
        id
    }

    /// The first ban record whose clause contains `value` up to ASCII case,
    /// if any.
    pub fn find_nongrata_by_restriction_value(&self, value: &str) -> (r: Option<Nongrata>)
        ensures
            match r {
                Some(n) => exists|i: int|
                    {
                        &&& 0 <= i < self@.nongratas.len()
                        &&& self@.nongratas[i] == n@
                        &&& ci_contains(self@.nongratas[i].restriction_value, value@)
                        &&& forall|j: int|
                            0 <= j < i ==> !ci_contains(
                                #[trigger] self@.nongratas[j].restriction_value,
                                value@,
                            )
                    },
                None => forall|i: int|
                    0 <= i < self@.nongratas.len() ==> !ci_contains(
                        #[trigger] self@.nongratas[i].restriction_value,
                        value@,
                    ),
            },
    {
        let mut i: usize = 0;
        while i < self.nongratas.len()
            invariant
                0 <= i <= self.nongratas.len(),
                forall|j: int|
                    0 <= j < i ==> !ci_contains(
                        #[trigger] self@.nongratas[j].restriction_value,
                        value@,
                    ),
            decreases self.nongratas.len() - i,
        {
            if contains_ci(self.nongratas[i].restriction_value.as_str(), value) {
                let n = self.nongratas[i].duplicate();
                proof {
                    assert(self@.nongratas[i as int] == n@);
                }
                return Some(n);
            }
            i += 1;
        }
        None
    }

    /// Every ban record whose deadline is at or before `now`, in table order.
    pub fn select_expired_nongratas(&self, now: i64) -> (r: Vec<Nongrata>)
        ensures
            r.deep_view() == self@.nongratas.filter(
                |n: NongrataView| n.expires_at <= now as int,
            ),
    {
        let ghost pred = |n: NongrataView| n.expires_at <= now as int;
        let mut out: Vec<Nongrata> = Vec::new();
        let mut i: usize = 0;
        proof {
            assert(self@.nongratas.subrange(0, 0) =~= Seq::<NongrataView>::empty());
            assert(out.deep_view() =~= Seq::<NongrataView>::empty());
            assert(Seq::<NongrataView>::empty().filter(pred) =~= Seq::<NongrataView>::empty());
        }
        while i < self.nongratas.len()
            invariant
                0 <= i <= self.nongratas.len(),
                out.deep_view() == self@.nongratas.subrange(0, i as int).filter(
                    |n: NongrataView| n.expires_at <= now as int,
                ),
            decreases self.nongratas.len() - i,
        {
            proof {
                let prefix = self@.nongratas.subrange(0, i + 1);
                assert(prefix.drop_last() =~= self@.nongratas.subrange(0, i as int));
                assert(prefix.last() == self@.nongratas[i as int]);
                reveal(Seq::filter);
            }
            if self.nongratas[i].expires_at <= now {
                let picked = self.nongratas[i].duplicate();
                out.push(picked);
            }
            i += 1;
        }
        proof {
            assert(self@.nongratas.subrange(0, self@.nongratas.len() as int) =~= self@.nongratas);
        }
        out
    }

    /// Deletes one ban record by id.
    pub fn delete_nongrata(&mut self, id: i64) -> (r: Result<(), ServerError>)
        requires
            old(self)@.wf(),
        ensures
            final(self)@.wf(),
            final(self)@.filters == old(self)@.filters,
            final(self)@.next_nongrata_id == old(self)@.next_nongrata_id,
            r is Ok <==> old(self)@.has_nongrata_id(id),
            r is Ok ==> exists|i: int|
                {
                    &&& 0 <= i < old(self)@.nongratas.len()
                    &&& old(self)@.nongratas[i].id == Some(id)
                    &&& final(self)@.nongratas == old(self)@.nongratas.remove(i)
                },
            r is Err ==> (r matches Err(ServerError::DBError(_)) && final(self)@ == old(self)@),
    {
        let mut i: usize = 0;
        while i < self.nongratas.len()
            invariant
                old(self)@.wf(),
                0 <= i <= self.nongratas.len(),
                self@ == old(self)@,
                forall|j: int| 0 <= j < i ==> self@.nongratas[j].id != Some(id),
            decreases self.nongratas.len() - i,
        {
            let matches_id = match self.nongratas[i].id {
                Some(v) => v == id,
                None => false,
            };
            if matches_id {
                proof {
                    assert(old(self)@.nongratas[i as int].id == Some(id));
                }
                self.nongratas.remove(i);
                proof {
                    assert(self@.nongratas =~= old(self)@.nongratas.remove(i as int));
                    assert(self@.filters =~= old(self)@.filters);
                }
                return Ok(());
            }
            i += 1;
        }
        Err(ServerError::DBError(String::from_str("nongrata not found")))
    }

    /// Overwrites the mutable fields of one ban record: its reason, its
    /// caller id and its deadline.
    pub fn update_nongrata(
        &mut self,
        id: i64,
        reason: String,
        analyzer_id: String,
        expires_at: i64,
    ) -> (r: Result<(), ServerError>)
        requires
            old(self)@.wf(),
        ensures
            final(self)@.wf(),
            final(self)@.filters == old(self)@.filters,
            final(self)@.next_nongrata_id == old(self)@.next_nongrata_id,
            r is Ok <==> old(self)@.has_nongrata_id(id),
            r is Ok ==> exists|i: int|
                {
                    &&& 0 <= i < old(self)@.nongratas.len()
                    &&& old(self)@.nongratas[i].id == Some(id)
                    &&& final(self)@.nongratas == old(self)@.nongratas.update(
                        i,
                        NongrataView {
                            reason: reason@,
                            analyzer_id: analyzer_id@,
                            expires_at: expires_at as int,
                            ..old(self)@.nongratas[i]
                        },
                    )
                },
            r is Err ==> (r matches Err(ServerError::DBError(_)) && final(self)@ == old(self)@),
    {
        let mut i: usize = 0;
        while i < self.nongratas.len()
            invariant
                old(self)@.wf(),
                0 <= i <= self.nongratas.len(),
                self@ == old(self)@,
                forall|j: int| 0 <= j < i ==> self@.nongratas[j].id != Some(id),
            decreases self.nongratas.len() - i,
        {
            let matches_id = match self.nongratas[i].id {
                Some(v) => v == id,
                None => false,
            };
            if matches_id {
                proof {
                    assert(old(self)@.nongratas[i as int].id == Some(id));
                }
                let ghost nv = NongrataView {
                    reason: reason@,
                    analyzer_id: analyzer_id@,
                    expires_at: expires_at as int,
                    ..old(self)@.nongratas[i as int]
                };
                self.nongratas[i].reason = reason;
                self.nongratas[i].analyzer_id = analyzer_id;
                self.nongratas[i].expires_at = expires_at;
                proof {
                    assert(self.nongratas@[i as int]@ == nv);
                    assert(self@.nongratas =~= old(self)@.nongratas.update(i as int, nv));
                    assert(self@.filters =~= old(self)@.filters);
                }
                return Ok(());
            }
            i += 1;
        }
        Err(ServerError::DBError(String::from_str("nongrata not found")))
    }
}

} // verus!
