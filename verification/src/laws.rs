//! The algebraic laws of filter expressions.
//!
//! These proof functions state, over the same spec functions that the
//! contracts of [`crate::models::Filter`] use, what the append / trim /
//! includes operations guarantee when composed: appending a clause and
//! trimming it back restores the original expression, trimming a filter's own
//! clause empties it, and an appended expression includes both of its parts.

use crate::errors::ServerError;
use crate::executor::{ban_contract, ban_request_valid, has_ci_match, kind_includes,
    lemma_target_clause_shape, target_clause, target_kind, target_valid, unban_contract,
    BlockRequest, UnblockRequest, UpstreamCallView};
use crate::models::{appended_expr, clause_count, includes_expr, ip_clause, ip_ua_clause,
    lead_pattern, or_pattern, trimmed_expr, ua_clause, FilterView, NongrataView};
use crate::store::StoreView;
use crate::text::{ci_contains, ci_sub_at, collapse, has_sub, is_space,
    lemma_collapse_norm, lemma_collapse_shape, lemma_count_sub_none, lemma_count_sub_splice,
    lemma_find_first_is, lemma_find_first_none, lemma_has_sub_find, lemma_trim_clean_ends,
    lemma_trim_len, lemma_trim_noop, norm, remove_all, remove_first, sub_at, trim_spec};
use vstd::prelude::*;

verus! {

/// Appending a clause and then trimming that same clause restores the
/// original expression.
///
/// This holds for every normalized expression `a` (single interior spaces,
/// none leading or trailing — the shape every clause and every `or`-joined
/// expression built by this library has for inputs without doubled or exotic
/// whitespace) and every clause `b` with bare ends whose text does not also
/// occur inside `a` or straddling the joint; the last hypothesis states
/// exactly that the appended expression contains `b` only as its own final
/// clause.
pub proof fn lemma_append_then_trim(a: Seq<char>, b: Seq<char>)
    requires
        norm(a),
        a.len() > 0,
        b.len() > 0,
        !is_space(b[0]),
        !is_space(b[b.len() - 1]),
        forall|j: int| sub_at(a + " or "@ + b, b, j) ==> j == a.len() + 4,
    ensures
        trimmed_expr(appended_expr(a, b), b) == a,
{
    reveal_strlit(" or ");
    reveal_strlit("or ");
    let sep = " or "@;
    let orp = "or "@;
    let e = a + sep + b;

    assert(!is_space(a[0]) && !is_space(a[a.len() - 1])) by {
        if is_space(a[0]) {
            assert(a[0] == ' ');
        }
        if is_space(a[a.len() - 1]) {
            assert(a[a.len() - 1] == ' ');
        }
    }
    lemma_trim_noop(a);
    lemma_trim_noop(b);
    assert(appended_expr(a, b) =~= e);

    // The pattern removed first is `or ` followed by the clause.
    let pat = orp + b;
    assert(pat[0] == 'o');
    assert(pat[pat.len() - 1] == b[b.len() - 1]);
    lemma_trim_noop(pat);
    assert(or_pattern(b) == pat);

    // That pattern first occurs right after `a`.
    let k = a.len() as int + 1;
    assert(sub_at(e, pat, k)) by {
        assert(e.subrange(k, k + pat.len() as int) =~= pat);
    }
    assert forall|j: int| 0 <= j < k implies !sub_at(e, pat, j) by {
        if sub_at(e, pat, j) {
            assert(sub_at(e, b, j + 3)) by {
                let w = e.subrange(j, j + pat.len() as int);
                assert(w == pat);
                assert(e.subrange(j + 3, j + 3 + b.len() as int) =~= w.subrange(
                    3,
                    pat.len() as int,
                ));
                assert(pat.subrange(3, pat.len() as int) =~= b);
            }
        }
    }
    lemma_find_first_is(e, pat, k);
    assert(has_sub(e, pat));

    // Removing it leaves `a` plus one dangling space.
    let a1 = a + seq![' '];
    assert(remove_first(e, pat) =~= a1) by {
        assert(e.subrange(0, k) =~= a1);
        assert(e.subrange(k + pat.len() as int, e.len() as int) =~= Seq::<char>::empty());
    }

    // The bare clause occurs nowhere in what is left.
    assert forall|j: int| !sub_at(a1, b, j) by {
        if sub_at(a1, b, j) {
            assert(sub_at(e, b, j)) by {
                assert(e.subrange(j, j + b.len() as int) =~= a1.subrange(j, j + b.len() as int));
            }
        }
    }
    lemma_find_first_none(a1, b);
    assert(remove_all(a1, b) == a1);

    // Collapsing whitespace drops the dangling space.
    lemma_collapse_norm(a);
    assert(trimmed_expr(appended_expr(a, b), b) == a);
}

/// Trimming a filter's own single clause empties the expression: banning and
/// unbanning one target leaves nothing behind.
pub proof fn lemma_trim_self_empties(b: Seq<char>)
    requires
        b.len() > 0,
        !is_space(b[0]),
        !is_space(b[b.len() - 1]),
    ensures
        trimmed_expr(b, b) == Seq::<char>::empty(),
{
    reveal_strlit("or ");
    reveal_strlit(" or");
    lemma_trim_noop(b);
    let orp = "or "@;
    let pat = orp + b;
    assert(pat[0] == 'o');
    assert(pat[pat.len() - 1] == b[b.len() - 1]);
    lemma_trim_noop(pat);

    // Both `or`-joined patterns are longer than the expression itself, so
    // neither occurs.
    assert forall|j: int| !sub_at(b, pat, j) by {
        if sub_at(b, pat, j) {
            assert(j + pat.len() <= b.len());
        }
    }
    lemma_find_first_none(b, pat);
    lemma_has_sub_find(b, pat);
    assert(!has_sub(b, pat));

    let lead = b + " or"@;
    assert(lead[0] == b[0]);
    assert(lead[lead.len() - 1] == 'r');
    lemma_trim_noop(lead);
    assert(lead_pattern(b) == lead);
    assert forall|j: int| !sub_at(b, lead, j) by {
        if sub_at(b, lead, j) {
            assert(j + lead.len() <= b.len());
        }
    }
    lemma_find_first_none(b, lead);
    assert(remove_first(b, lead) == b);

    // The bare clause is the whole expression: removing it leaves nothing.
    assert(sub_at(b, b, 0)) by {
        assert(b.subrange(0, b.len() as int) =~= b);
    }
    lemma_find_first_is(b, b, 0);
    let rest = b.subrange(b.len() as int, b.len() as int);
    assert(rest =~= Seq::<char>::empty());
    assert forall|j: int| !sub_at(rest, b, j) by {
        if sub_at(rest, b, j) {
            assert(j + b.len() <= 0);
        }
    }
    lemma_find_first_none(rest, b);
    assert(remove_all(b, b) =~= b.subrange(0, 0) + remove_all(rest, b));
    assert(b.subrange(0, 0) + remove_all(rest, b) =~= Seq::<char>::empty());
    assert(trimmed_expr(b, b) == collapse(Seq::<char>::empty()));
}

/// An appended expression includes both of the expressions it was built from.
pub proof fn lemma_append_includes_both(a: Seq<char>, b: Seq<char>)
    ensures
        includes_expr(appended_expr(a, b), a),
        includes_expr(appended_expr(a, b), b),
{
    let e = appended_expr(a, b);
    let ta = trim_spec(a);
    let tb = trim_spec(b);
    let sl = " or "@.len() as int;
    assert(sub_at(e, ta, 0)) by {
        assert(e.subrange(0, ta.len() as int) =~= ta);
    }
    assert(sub_at(e, tb, ta.len() + sl)) by {
        assert(e.subrange(ta.len() + sl, ta.len() + sl + tb.len() as int) =~= tb);
    }
}

/// The clause built for an IP ban is non-empty, with bare parenthesis ends:
/// the shape the trim and emptiness laws ask of a clause.
pub proof fn lemma_ip_clause_shape(ip: Seq<char>)
    ensures
        ip_clause(ip).len() > 0,
        !is_space(ip_clause(ip)[0]),
        !is_space(ip_clause(ip)[ip_clause(ip).len() - 1]),
{
    reveal_strlit("(ip.src eq ");
    reveal_strlit(")");
    assert(ip_clause(ip)[0] == '(');
    assert(ip_clause(ip)[ip_clause(ip).len() - 1] == ')');
}

/// As [`lemma_ip_clause_shape`], for a User-Agent clause.
pub proof fn lemma_ua_clause_shape(ua: Seq<char>)
    ensures
        ua_clause(ua).len() > 0,
        !is_space(ua_clause(ua)[0]),
        !is_space(ua_clause(ua)[ua_clause(ua).len() - 1]),
{
    reveal_strlit("(http.user_agent eq \"");
    reveal_strlit("\")");
    assert(ua_clause(ua)[0] == '(');
    assert(ua_clause(ua)[ua_clause(ua).len() - 1] == ')');
}

/// As [`lemma_ip_clause_shape`], for a joint IP and User-Agent clause.
pub proof fn lemma_ip_ua_clause_shape(ip: Seq<char>, ua: Seq<char>)
    ensures
        ip_ua_clause(ip, ua).len() > 0,
        !is_space(ip_ua_clause(ip, ua)[0]),
        !is_space(ip_ua_clause(ip, ua)[ip_ua_clause(ip, ua).len() - 1]),
{
    reveal_strlit("(ip.src eq ");
    reveal_strlit(" and http.user_agent eq \"");
    reveal_strlit("\")");
    assert(ip_ua_clause(ip, ua)[0] == '(');
    assert(ip_ua_clause(ip, ua)[ip_ua_clause(ip, ua).len() - 1] == ')');
}

/// Any string carries itself, up to ASCII case.
pub proof fn lemma_ci_contains_self(s: Seq<char>)
    ensures
        ci_contains(s, s),
{
    assert(ci_sub_at(s, s, 0));
}

/// A case-insensitive occurrence inside a prefix stays an occurrence of the
/// extended string.
pub proof fn lemma_ci_contains_extend(e: Seq<char>, tail: Seq<char>, v: Seq<char>)
    requires
        ci_contains(e, v),
    ensures
        ci_contains(e + tail, v),
{
    let p = choose|p: int| ci_sub_at(e, v, p);
    assert(ci_sub_at(e + tail, v, p)) by {
        assert(forall|q: int| 0 <= q < v.len() ==> #[trigger] (e + tail)[p + q] == e[p + q]);
    }
}

/// A clause occurring verbatim at some position occurs there up to case too.
pub proof fn lemma_ci_contains_at(e: Seq<char>, v: Seq<char>, p: int)
    requires
        0 <= p,
        p + v.len() <= e.len(),
        forall|q: int| 0 <= q < v.len() ==> e[p + q] == v[q],
    ensures
        ci_contains(e, v),
{
    assert(ci_sub_at(e, v, p));
}

/// Bans keep every ban record's clause carried by its filter's expression,
/// and every expression bare at its ends: whatever a ban did — created a
/// fresh filter, coalesced a clause in, refreshed a duplicate, or failed —
/// the store it leaves behind still covers each record's clause,
/// case-insensitively, in the filter the record points at.
pub proof fn lemma_ban_preserves_coverage(
    pre: StoreView,
    post: StoreView,
    r: Result<(), ServerError>,
    calls: Seq<UpstreamCallView>,
    req: BlockRequest,
    analyzer: Seq<char>,
    now: int,
    fid: Seq<char>,
    rid: Seq<char>,
)
    requires
        ban_contract(pre, post, r, calls, req, analyzer, now, fid, rid),
        pre.no_empty_filters(),
        pre.expressions_trim_clean(),
        pre.clauses_covered(),
    ensures
        post.expressions_trim_clean(),
        post.clauses_covered(),
{
    if !ban_request_valid(req) {
        assert(post == pre);
        return ;
    }
    let kind = target_kind(req.target);
    let clause = target_clause(req.target);
    lemma_target_clause_shape(req.target);
    lemma_trim_noop(clause);
    if !pre.has_kind(kind) {
        if !pre.has_filter_id(fid) {
            // A fresh filter appears, carrying exactly the new clause; the
            // new record points at it.
            let nf = FilterView { id: fid, rule_id: rid, filter_type: kind, expression: clause };
            assert(post.filters == pre.filters.push(nf));
            let fi = post.filters.len() - 1;
            assert(post.filters[fi].expression == clause);
            assert forall|j: int| 0 <= j < post.nongratas.len() implies exists|i: int|
                {
                    &&& 0 <= i < post.filters.len()
                    &&& (#[trigger] post.filters[i]).id == (
                    #[trigger] post.nongratas[j]).filter_id
                    &&& ci_contains(
                        post.filters[i].expression,
                        post.nongratas[j].restriction_value,
                    )
                } by {
                if j < post.nongratas.len() - 1 {
                    let i = choose|i: int|
                        {
                            &&& 0 <= i < pre.filters.len()
                            &&& (#[trigger] pre.filters[i]).id == pre.nongratas[j].filter_id
                            &&& ci_contains(
                                pre.filters[i].expression,
                                pre.nongratas[j].restriction_value,
                            )
                        };
                    assert(post.filters[i] == pre.filters[i]);
                } else {
                    lemma_ci_contains_self(clause);
                    assert(post.filters[fi].id == post.nongratas[j].filter_id);
                }
            }
        } else {
            assert(post == pre);
        }
    } else if kind_includes(pre, kind, clause) {
        match r {
            Ok(_) => {
                if has_ci_match(pre, clause) {
                    // Only one record's mutable fields change; clauses and
                    // expressions stay.
                    let j0 = choose|j0: int|
                        {
                            &&& 0 <= j0 < pre.nongratas.len()
                            &&& ci_contains(
                                (#[trigger] pre.nongratas[j0]).restriction_value,
                                clause,
                            )
                            &&& forall|k: int|
                                0 <= k < j0 ==> !ci_contains(
                                    (#[trigger] pre.nongratas[k]).restriction_value,
                                    clause,
                                )
                            &&& post.nongratas == pre.nongratas.update(
                                j0,
                                NongrataView {
                                    reason: req.reason@,
                                    analyzer_id: analyzer,
                                    expires_at: crate::executor::spec_expiry(
                                        now,
                                        req.ttl as int,
                                    ),
                                    ..pre.nongratas[j0]
                                },
                            )
                        };
                    assert forall|j: int| 0 <= j < post.nongratas.len() implies exists|i: int|
                        {
                            &&& 0 <= i < post.filters.len()
                            &&& (#[trigger] post.filters[i]).id == (
                            #[trigger] post.nongratas[j]).filter_id
                            &&& ci_contains(
                                post.filters[i].expression,
                                post.nongratas[j].restriction_value,
                            )
                        } by {
                        assert(post.nongratas[j].filter_id == pre.nongratas[j].filter_id);
                        assert(post.nongratas[j].restriction_value
                            == pre.nongratas[j].restriction_value);
                        let i = choose|i: int|
                            {
                                &&& 0 <= i < pre.filters.len()
                                &&& (#[trigger] pre.filters[i]).id == pre.nongratas[j].filter_id
                                &&& ci_contains(
                                    pre.filters[i].expression,
                                    pre.nongratas[j].restriction_value,
                                )
                            };
                        assert(post.filters[i] == pre.filters[i]);
                    }
                }
            },
            Err(_) => {
                assert(post == pre);
            },
        }
    } else {
        // Coalesce: the kind's filter takes the extended expression and the
        // new record's clause sits at its end.
        reveal_strlit(" or ");
        let i0 = choose|i0: int|
            {
                &&& 0 <= i0 < pre.filters.len()
                &&& (#[trigger] pre.filters[i0]).filter_type == kind
                &&& calls == seq![
                    UpstreamCallView::UpdateFilter {
                        filter_id: pre.filters[i0].id,
                        expression: appended_expr(pre.filters[i0].expression, clause),
                    },
                ]
                &&& post.filters == pre.filters.update(
                    i0,
                    FilterView {
                        expression: appended_expr(pre.filters[i0].expression, clause),
                        ..pre.filters[i0]
                    },
                )
                &&& post.nongratas == pre.nongratas.push(
                    crate::executor::ban_record(
                        pre.filters[i0].id,
                        clause,
                        req.reason@,
                        analyzer,
                        now,
                        req.ttl as int,
                        pre.next_nongrata_id,
                    ),
                )
                &&& post.next_nongrata_id == pre.next_nongrata_id + 1
            };
        let e = pre.filters[i0].expression;
        let appended = appended_expr(e, clause);
        assert(trim_spec(e) == e);
        assert(appended == e + " or "@ + clause);
        lemma_trim_clean_ends(e);
        assert(appended[0] == e[0]);
        assert(appended[appended.len() - 1] == clause[clause.len() - 1]);
        lemma_trim_noop(appended);
        assert forall|j: int| 0 <= j < post.nongratas.len() implies exists|i: int|
            {
                &&& 0 <= i < post.filters.len()
                &&& (#[trigger] post.filters[i]).id == (#[trigger] post.nongratas[j]).filter_id
                &&& ci_contains(post.filters[i].expression, post.nongratas[j].restriction_value)
            } by {
            if j < post.nongratas.len() - 1 {
                let i = choose|i: int|
                    {
                        &&& 0 <= i < pre.filters.len()
                        &&& (#[trigger] pre.filters[i]).id == pre.nongratas[j].filter_id
                        &&& ci_contains(
                            pre.filters[i].expression,
                            pre.nongratas[j].restriction_value,
                        )
                    };
                if i == i0 {
                    lemma_ci_contains_extend(
                        e,
                        " or "@ + clause,
                        pre.nongratas[j].restriction_value,
                    );
                    assert(e + (" or "@ + clause) =~= appended);
                    assert(post.filters[i0].id == pre.filters[i0].id);
                } else {
                    assert(post.filters[i] == pre.filters[i]);
                }
            } else {
                assert(post.nongratas[j].filter_id == pre.filters[i0].id);
                assert(post.nongratas[j].restriction_value == clause);
                assert(post.filters[i0].id == pre.filters[i0].id);
                lemma_ci_contains_at(appended, clause, e.len() as int + 4);
            }
        }
    }
}

/// Unbans keep every persisted expression bare at its ends: a rewritten
/// expression is a collapse result, which never starts or ends with
/// whitespace.
pub proof fn lemma_unban_keeps_expressions_trim_clean(
    pre: StoreView,
    post: StoreView,
    r: Result<(), ServerError>,
    calls: Seq<UpstreamCallView>,
    req: UnblockRequest,
)
    requires
        unban_contract(pre, post, r, calls, req),
        pre.expressions_trim_clean(),
    ensures
        post.expressions_trim_clean(),
{
    if !target_valid(req.target) {
        assert(post == pre);
        return ;
    }
    let kind = target_kind(req.target);
    let clause = target_clause(req.target);
    if !pre.has_kind(kind) || !has_ci_match(pre, clause) {
        assert(post == pre);
        return ;
    }
    let i0 = choose|i0: int|
        {
            &&& 0 <= i0 < pre.filters.len()
            &&& (#[trigger] pre.filters[i0]).filter_type == kind
            &&& {
                let trimmed = trimmed_expr(pre.filters[i0].expression, clause);
                if trim_spec(trimmed).len() == 0 {
                    &&& calls == seq![
                        UpstreamCallView::DeleteRule { rule_id: pre.filters[i0].rule_id },
                    ]
                    &&& post.filters == pre.filters.remove(i0)
                } else {
                    &&& calls == seq![
                        UpstreamCallView::UpdateFilter {
                            filter_id: pre.filters[i0].id,
                            expression: trimmed,
                        },
                    ]
                    &&& post.filters == pre.filters.update(
                        i0,
                        FilterView { expression: trimmed, ..pre.filters[i0] },
                    )
                }
            }
        };
    let trimmed = trimmed_expr(pre.filters[i0].expression, clause);
    if trim_spec(trimmed).len() == 0 {
        assert forall|i: int|
            0 <= i < post.filters.len() implies trim_spec(
            (#[trigger] post.filters[i]).expression,
        ) == post.filters[i].expression by {
            if i < i0 {
                assert(post.filters[i] == pre.filters[i]);
            } else {
                assert(post.filters[i] == pre.filters[i + 1]);
            }
        }
    } else {
        lemma_trim_len(trimmed);
        lemma_collapse_shape(
            remove_all(
                if has_sub(pre.filters[i0].expression, or_pattern(clause)) {
                    remove_first(pre.filters[i0].expression, or_pattern(clause))
                } else {
                    remove_first(pre.filters[i0].expression, lead_pattern(clause))
                },
                trim_spec(clause),
            ),
        );
        lemma_trim_noop(trimmed);
        assert forall|i: int|
            0 <= i < post.filters.len() implies trim_spec(
            (#[trigger] post.filters[i]).expression,
        ) == post.filters[i].expression by {
            if i != i0 {
                assert(post.filters[i] == pre.filters[i]);
            }
        }
    }
}

/// A store whose expressions are non-empty and bare at both ends holds no
/// whitespace-only expression either: each expression equals its own trim,
/// which is then non-empty. Both conditions hold of the empty store, and
/// every ban, unban and invalidation keeps them.
pub proof fn lemma_no_blank_expressions(s: StoreView)
    requires
        s.no_empty_filters(),
        s.expressions_trim_clean(),
    ensures
        forall|i: int|
            0 <= i < s.filters.len() ==> trim_spec(
                (#[trigger] s.filters[i]).expression,
            ).len() > 0,
{
}

/// An expression free of the ` or ` separator is a single clause — what a
/// fresh ban persists.
pub proof fn lemma_single_clause(c: Seq<char>)
    requires
        !has_sub(c, " or "@),
    ensures
        clause_count(c) == 1,
{
    assert forall|j: int| !sub_at(c, " or "@, j) by {
        if sub_at(c, " or "@, j) {
            assert(has_sub(c, " or "@));
        }
    }
    lemma_count_sub_none(c, " or "@);
}

/// A coalescing ban adds exactly one clause: appending a clause that carries
/// no ` or ` of its own to a parenthesis-terminated expression gives an
/// expression with exactly one clause more. Together with the coalesce
/// outcome of `ban_contract` — which adds exactly one ban record — and
/// [`lemma_single_clause`] for the fresh case, this is the bookkeeping of
/// clause counts under bans.
pub proof fn lemma_append_adds_one_clause(e: Seq<char>, c: Seq<char>)
    requires
        trim_spec(e) == e,
        e.len() > 0,
        e[e.len() - 1] == ')',
        c.len() > 0,
        c[0] == '(',
        !is_space(c[c.len() - 1]),
        !has_sub(c, " or "@),
    ensures
        clause_count(appended_expr(e, c)) == clause_count(e) + 1,
{
    reveal_strlit(" or ");
    let sep = " or "@;
    assert(!is_space(c[0]));
    lemma_trim_noop(c);
    let big = e + sep + c;
    assert(appended_expr(e, c) == big);

    // Every separator occurrence lies inside `e` or is the spliced one: the
    // seams cannot carry one, since `e` ends with `)` and `c` opens with `(`.
    assert forall|i: int| sub_at(big, sep, i) implies i + sep.len() <= e.len() || i == e.len() by {
        if sub_at(big, sep, i) && !(i + sep.len() <= e.len() || i == e.len()) {
            let w = big.subrange(i, i + sep.len() as int);
            assert(w == sep);
            if i < e.len() {
                // The occurrence would cover the final `)` of `e`.
                let off = e.len() - 1 - i;
                assert(0 <= off < sep.len());
                assert(w[off] == big[e.len() - 1]);
                assert(big[e.len() - 1] == e[e.len() - 1]);
                assert(sep[off] == ')');
            } else if i == e.len() + 1 || i == e.len() + 2 {
                // The occurrence would start on `o` or `r` of the separator.
                assert(w[0] == big[i]);
                assert(big[i] == sep[i - e.len()]);
            } else if i == e.len() + 3 {
                // The occurrence would continue into the `(` of the clause.
                assert(w[1] == big[i + 1]);
                assert(big[i + 1] == c[0]);
            } else {
                // The occurrence would lie inside the clause.
                assert(sub_at(c, sep, i - (e.len() + 4))) by {
                    assert(c.subrange(i - (e.len() + 4), i - e.len()) =~= big.subrange(
                        i,
                        i + sep.len() as int,
                    ));
                }
                assert(has_sub(c, sep));
            }
        }
    }
    assert forall|j: int| !sub_at(c, sep, j) by {
        if sub_at(c, sep, j) {
            assert(has_sub(c, sep));
        }
    }
    lemma_count_sub_splice(e, sep, c);
}

} // verus!
