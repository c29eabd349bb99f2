//! Verified insertion sorts for the two orderings the engine emits: trades by
//! buy date (most recent first) and instruments by cost-exposure ratio
//! (largest first).  Both sorts are stable, matching the documented
//! tie-breaking rule, and each executable sort returns exactly the sequence
//! its specification-level counterpart describes.

use vstd::prelude::*;

use crate::position::MAX_PRICE;
use crate::profit_loss::{
    insert_target_desc, insert_trade_desc, sort_targets_desc, sort_trades_desc, targets_sorted_desc,
    trades_sorted_desc, PositionProfitLoss, PositionProfitLossV, TargetProfitLoss,
    TargetProfitLossV,
};
use crate::text::{lemma_lex_le_total, lex_le, str_le};

verus! {

/// Inserting splits the list at the first position whose key is strictly
/// smaller: the result is the untouched prefix, the new element, and the rest.
proof fn lemma_insert_trade_at(s: Seq<PositionProfitLossV>, x: PositionProfitLossV, i: int)
    requires
        0 <= i <= s.len(),
        forall|j: int| 0 <= j < i ==> lex_le(x.buy_date, (#[trigger] s[j]).buy_date),
        i < s.len() ==> !lex_le(x.buy_date, s[i].buy_date),
    ensures
        insert_trade_desc(s, x) == s.take(i) + seq![x] + s.skip(i),
    decreases i,
{
    if i == 0 {
        assert(insert_trade_desc(s, x) =~= s.take(0) + seq![x] + s.skip(0));
    } else {
        assert(lex_le(x.buy_date, s[0].buy_date));
        assert(forall|j: int| 0 <= j < s.len() - 1 ==> (#[trigger] s.drop_first()[j]) == s[j + 1]);
        lemma_insert_trade_at(s.drop_first(), x, i - 1);
        assert(insert_trade_desc(s, x) =~= s.take(i) + seq![x] + s.skip(i)) by {
            assert(insert_trade_desc(s, x) == seq![s[0]] + insert_trade_desc(s.drop_first(), x));
        }
    }
}

/// Inserting into a date-descending list keeps it date-descending.
#[verifier::rlimit(50)]
proof fn lemma_insert_trade_sorted(s: Seq<PositionProfitLossV>, x: PositionProfitLossV)
    requires
        trades_sorted_desc(s),
    ensures
        trades_sorted_desc(insert_trade_desc(s, x)),
    decreases s.len(),
{
    let r = insert_trade_desc(s, x);
    if s.len() > 0 && lex_le(x.buy_date, s[0].buy_date) {
        let rest = insert_trade_desc(s.drop_first(), x);
        assert(forall|j: int| 0 <= j < s.len() - 1 ==> (#[trigger] s.drop_first()[j]) == s[j + 1]);
        assert(trades_sorted_desc(s.drop_first())) by {
            assert forall|i: int| 0 < i < s.drop_first().len() implies lex_le(
                (#[trigger] s.drop_first()[i]).buy_date,
                s.drop_first()[i - 1].buy_date,
            ) by {
                assert(s.drop_first()[i] == s[i + 1]);
                assert(lex_le((s[i + 1]).buy_date, s[i].buy_date));
            }
        }
        lemma_insert_trade_sorted(s.drop_first(), x);
        assert(r == seq![s[0]] + rest);
        assert forall|i: int| 0 < i < r.len() implies lex_le(
            (#[trigger] r[i]).buy_date,
            r[i - 1].buy_date,
        ) by {
            if i == 1 {
                assert(r[0] == s[0]);
                assert(r[1] == rest[0]);
                if s.drop_first().len() > 0 && lex_le(x.buy_date, s.drop_first()[0].buy_date) {
                    assert(rest[0] == s.drop_first()[0]);
                    assert(s.drop_first()[0] == s[1]);
                    assert(lex_le((s[1]).buy_date, s[0].buy_date));
                } else {
                    assert(rest[0] == x);
                }
            } else {
                assert(r[i] == rest[i - 1]);
                assert(r[i - 1] == rest[i - 2]);
                assert(lex_le((rest[i - 1]).buy_date, rest[i - 2].buy_date));
            }
        }
    } else {
        if s.len() > 0 {
            lemma_lex_le_total(x.buy_date, s[0].buy_date);
        }
        assert(r == seq![x] + s);
        assert forall|i: int| 0 < i < r.len() implies lex_le(
            (#[trigger] r[i]).buy_date,
            r[i - 1].buy_date,
        ) by {
            assert(r[0] == x);
            if i == 1 {
                assert(r[1] == s[0]);
            } else {
                assert(r[i] == s[i - 1]);
                assert(r[i - 1] == s[i - 2]);
                assert(lex_le((s[i - 1]).buy_date, s[i - 2].buy_date));
            }
        }
    }
}

/// The sorted trade list is date-descending.
pub proof fn lemma_sort_trades_sorted(s: Seq<PositionProfitLossV>)
    ensures
        trades_sorted_desc(sort_trades_desc(s)),
    decreases s.len(),
{
    if s.len() > 0 {
        lemma_sort_trades_sorted(s.drop_last());
        lemma_insert_trade_sorted(sort_trades_desc(s.drop_last()), s.last());
    }
}

/// Every buy price in a trade list stays within its bounds across insertion.
proof fn lemma_insert_trade_buy_bounded(s: Seq<PositionProfitLossV>, x: PositionProfitLossV)
    requires
        forall|j: int| 0 <= j < s.len() ==> 0 < (#[trigger] s[j]).buy_price <= MAX_PRICE,
        0 < x.buy_price <= MAX_PRICE,
    ensures
        forall|j: int|
            0 <= j < insert_trade_desc(s, x).len() ==> 0 < (#[trigger] insert_trade_desc(
                s,
                x,
            )[j]).buy_price <= MAX_PRICE,
        insert_trade_desc(s, x).len() == s.len() + 1,
    decreases s.len(),
{
    let r = insert_trade_desc(s, x);
    if s.len() > 0 && lex_le(x.buy_date, s[0].buy_date) {
        assert(forall|j: int| 0 <= j < s.len() - 1 ==> (#[trigger] s.drop_first()[j]) == s[j + 1]);
        lemma_insert_trade_buy_bounded(s.drop_first(), x);
        let rest = insert_trade_desc(s.drop_first(), x);
        assert(r == seq![s[0]] + rest);
        assert forall|j: int| 0 <= j < r.len() implies 0 < (#[trigger] r[j]).buy_price
            <= MAX_PRICE by {
            if j == 0 {
                assert(r[0] == s[0]);
            } else {
                assert(r[j] == rest[j - 1]);
            }
        }
    } else {
        assert(r == seq![x] + s);
        assert forall|j: int| 0 <= j < r.len() implies 0 < (#[trigger] r[j]).buy_price
            <= MAX_PRICE by {
            if j == 0 {
                assert(r[0] == x);
            } else {
                assert(r[j] == s[j - 1]);
            }
        }
    }
}

/// Every buy price in a trade list stays within its bounds across sorting.
pub proof fn lemma_sort_trades_buy_bounded(s: Seq<PositionProfitLossV>)
    requires
        forall|j: int| 0 <= j < s.len() ==> 0 < (#[trigger] s[j]).buy_price <= MAX_PRICE,
    ensures
        forall|j: int|
            0 <= j < sort_trades_desc(s).len() ==> 0 < (#[trigger] sort_trades_desc(
                s,
            )[j]).buy_price <= MAX_PRICE,
        sort_trades_desc(s).len() == s.len(),
    decreases s.len(),
{
    if s.len() > 0 {
        assert(forall|j: int|
            0 <= j < s.drop_last().len() ==> (#[trigger] s.drop_last()[j]) == s[j]);
        lemma_sort_trades_buy_bounded(s.drop_last());
        lemma_insert_trade_buy_bounded(sort_trades_desc(s.drop_last()), s.last());
    }
}

/// Sort trades by buy date, most recent first.
pub fn sort_trades(v: Vec<PositionProfitLoss>) -> (r: Vec<PositionProfitLoss>)
    ensures
        r.deep_view() == sort_trades_desc(v.deep_view()),
{
    let ghost orig = v.deep_view();
    let mut rest = v;
    let mut r: Vec<PositionProfitLoss> = Vec::new();
    let ghost mut i: int = 0;
    proof {
        assert(rest.deep_view() =~~= orig.skip(0));
        assert(r.deep_view() =~~= sort_trades_desc(orig.take(0)));
    }
    while rest.len() > 0
        invariant
            0 <= i <= orig.len(),
            orig.len() == rest.deep_view().len() + i,
            rest.deep_view() == orig.skip(i),
            r.deep_view() == sort_trades_desc(orig.take(i)),
        decreases rest@.len(),
    {
        let ghost rest_pre = rest.deep_view();
        let ghost restv_pre = rest@;
        let x = rest.remove(0);
        proof {
            assert(x.deep_view() == rest_pre[0]);
            assert(rest_pre[0] == orig[i]);
            assert forall|j: int|
                0 <= j < rest.deep_view().len() implies (#[trigger] rest.deep_view()[j])
                == orig.skip(i + 1)[j] by {
                assert(rest@[j] == restv_pre[j + 1]);
                assert(rest.deep_view()[j] == rest@[j].deep_view());
                assert(rest_pre[j + 1] == restv_pre[j + 1].deep_view());
                assert(rest_pre[j + 1] == orig.skip(i)[j + 1]);
            }
            assert(rest.deep_view() =~= orig.skip(i + 1));
            assert(orig.take(i + 1).drop_last() =~= orig.take(i));
            assert(orig.take(i + 1).last() == orig[i]);
        }
        insert_trade(&mut r, x);
        proof {
            i = i + 1;
        }
    }
    proof {
        assert(orig.skip(i).len() == 0);
        assert(orig.take(i) =~= orig);
    }
    r
}

/// Insert one trade into a date-descending list, after all trades bought on
/// the same day or later.
fn insert_trade(r: &mut Vec<PositionProfitLoss>, x: PositionProfitLoss)
    ensures
        final(r).deep_view() == insert_trade_desc(old(r).deep_view(), x.deep_view()),
{
    let ghost sv = r.deep_view();
    let ghost xv = x.deep_view();
    let mut idx: usize = 0;
    loop
        invariant
            sv == r.deep_view(),
            0 <= idx <= sv.len(),
            sv.len() == r@.len(),
            xv == x.deep_view(),
            forall|j: int| 0 <= j < idx ==> lex_le(xv.buy_date, (#[trigger] sv[j]).buy_date),
        ensures
            sv == r.deep_view(),
            0 <= idx <= sv.len(),
            forall|j: int| 0 <= j < idx ==> lex_le(xv.buy_date, (#[trigger] sv[j]).buy_date),
            idx < sv.len() ==> !lex_le(xv.buy_date, sv[idx as int].buy_date),
        decreases sv.len() - idx,
    {
        if idx == r.len() {
            break ;
        }
        proof {
            assert(sv[idx as int] == r@[idx as int].deep_view());
        }
        if !str_le(x.buy_date.as_str(), r[idx].buy_date.as_str()) {
            break ;
        }
        idx = idx + 1;
    }
    proof {
        lemma_insert_trade_at(sv, xv, idx as int);
    }
    r.insert(idx, x);
    proof {
        assert(r.deep_view() =~~= sv.take(idx as int) + seq![xv] + sv.skip(idx as int));
    }
}

/// Inserting splits the instrument list at the first strictly smaller ratio.
proof fn lemma_insert_target_at(s: Seq<TargetProfitLossV>, x: TargetProfitLossV, i: int)
    requires
        0 <= i <= s.len(),
        forall|j: int|
            0 <= j < i ==> x.cost_position_rate.le_spec((#[trigger] s[j]).cost_position_rate),
        i < s.len() ==> !x.cost_position_rate.le_spec(s[i].cost_position_rate),
    ensures
        insert_target_desc(s, x) == s.take(i) + seq![x] + s.skip(i),
    decreases i,
{
    if i == 0 {
        assert(insert_target_desc(s, x) =~= s.take(0) + seq![x] + s.skip(0));
    } else {
        assert(x.cost_position_rate.le_spec(s[0].cost_position_rate));
        assert(forall|j: int| 0 <= j < s.len() - 1 ==> (#[trigger] s.drop_first()[j]) == s[j + 1]);
        lemma_insert_target_at(s.drop_first(), x, i - 1);
        assert(insert_target_desc(s, x) =~= s.take(i) + seq![x] + s.skip(i)) by {
            assert(insert_target_desc(s, x) == seq![s[0]] + insert_target_desc(s.drop_first(), x));
        }
    }
}

/// Inserting into a ratio-descending list keeps it ratio-descending.
#[verifier::rlimit(50)]
proof fn lemma_insert_target_sorted(s: Seq<TargetProfitLossV>, x: TargetProfitLossV)
    requires
        targets_sorted_desc(s),
    ensures
        targets_sorted_desc(insert_target_desc(s, x)),
    decreases s.len(),
{
    let r = insert_target_desc(s, x);
    if s.len() > 0 && x.cost_position_rate.le_spec(s[0].cost_position_rate) {
        let rest = insert_target_desc(s.drop_first(), x);
        assert(forall|j: int| 0 <= j < s.len() - 1 ==> (#[trigger] s.drop_first()[j]) == s[j + 1]);
        assert(targets_sorted_desc(s.drop_first())) by {
            assert forall|i: int| 0 < i < s.drop_first().len() implies ((
            #[trigger] s.drop_first()[i]).cost_position_rate).le_spec(
                s.drop_first()[i - 1].cost_position_rate,
            ) by {
                assert(s.drop_first()[i] == s[i + 1]);
                assert((s[i + 1]).cost_position_rate.le_spec(s[i].cost_position_rate));
            }
        }
        lemma_insert_target_sorted(s.drop_first(), x);
        assert(r == seq![s[0]] + rest);
        assert forall|i: int| 0 < i < r.len() implies ((
        #[trigger] r[i]).cost_position_rate).le_spec(r[i - 1].cost_position_rate) by {
            if i == 1 {
                assert(r[0] == s[0]);
                assert(r[1] == rest[0]);
                if s.drop_first().len() > 0 && x.cost_position_rate.le_spec(
                    s.drop_first()[0].cost_position_rate,
                ) {
                    assert(rest[0] == s.drop_first()[0]);
                    assert(s.drop_first()[0] == s[1]);
                    assert((s[1]).cost_position_rate.le_spec(s[0].cost_position_rate));
                } else {
                    assert(rest[0] == x);
                }
            } else {
                assert(r[i] == rest[i - 1]);
                assert(r[i - 1] == rest[i - 2]);
                assert((rest[i - 1]).cost_position_rate.le_spec(rest[i - 2].cost_position_rate));
            }
        }
    } else {
        assert(r == seq![x] + s);
        assert forall|i: int| 0 < i < r.len() implies ((
        #[trigger] r[i]).cost_position_rate).le_spec(r[i - 1].cost_position_rate) by {
            assert(r[0] == x);
            if i == 1 {
                assert(r[1] == s[0]);
            } else {
                assert(r[i] == s[i - 1]);
                assert(r[i - 1] == s[i - 2]);
                assert((s[i - 1]).cost_position_rate.le_spec(s[i - 2].cost_position_rate));
            }
        }
    }
}

/// The sorted instrument list is ratio-descending.
pub proof fn lemma_sort_targets_sorted(s: Seq<TargetProfitLossV>)
    ensures
        targets_sorted_desc(sort_targets_desc(s)),
    decreases s.len(),
{
    if s.len() > 0 {
        lemma_sort_targets_sorted(s.drop_last());
        lemma_insert_target_sorted(sort_targets_desc(s.drop_last()), s.last());
    }
}

/// What the engine guarantees of each instrument entry it builds: exact,
/// well-formed rates and a bounded profit/loss.
pub open spec fn target_entry_wf(t: TargetProfitLossV) -> bool {
    &&& t.cost_position_rate.wf()
    &&& 0 <= t.cost_position_rate.num
    &&& -crate::rational::RAT_BOUND <= t.target_profit_loss <= crate::rational::RAT_BOUND
}

/// A pointwise property of the instrument entries survives insertion.
proof fn lemma_insert_target_preserves(
    s: Seq<TargetProfitLossV>,
    x: TargetProfitLossV,
    pred: spec_fn(TargetProfitLossV) -> bool,
)
    requires
        forall|j: int| 0 <= j < s.len() ==> pred(#[trigger] s[j]),
        pred(x),
    ensures
        forall|j: int|
            0 <= j < insert_target_desc(s, x).len() ==> pred(
                #[trigger] insert_target_desc(s, x)[j],
            ),
        insert_target_desc(s, x).len() == s.len() + 1,
    decreases s.len(),
{
    let r = insert_target_desc(s, x);
    if s.len() > 0 && x.cost_position_rate.le_spec(s[0].cost_position_rate) {
        assert(forall|j: int| 0 <= j < s.len() - 1 ==> (#[trigger] s.drop_first()[j]) == s[j + 1]);
        lemma_insert_target_preserves(s.drop_first(), x, pred);
        let rest = insert_target_desc(s.drop_first(), x);
        assert(r == seq![s[0]] + rest);
        assert forall|j: int| 0 <= j < r.len() implies pred(#[trigger] r[j]) by {
            if j == 0 {
                assert(r[0] == s[0]);
            } else {
                assert(r[j] == rest[j - 1]);
            }
        }
    } else {
        assert(r == seq![x] + s);
        assert forall|j: int| 0 <= j < r.len() implies pred(#[trigger] r[j]) by {
            if j == 0 {
                assert(r[0] == x);
            } else {
                assert(r[j] == s[j - 1]);
            }
        }
    }
}

/// A pointwise property of the instrument entries survives the whole sort.
pub proof fn lemma_sort_targets_preserves(
    s: Seq<TargetProfitLossV>,
    pred: spec_fn(TargetProfitLossV) -> bool,
)
    requires
        forall|j: int| 0 <= j < s.len() ==> pred(#[trigger] s[j]),
    ensures
        forall|j: int|
            0 <= j < sort_targets_desc(s).len() ==> pred(#[trigger] sort_targets_desc(s)[j]),
        sort_targets_desc(s).len() == s.len(),
    decreases s.len(),
{
    if s.len() > 0 {
        assert(forall|j: int|
            0 <= j < s.drop_last().len() ==> (#[trigger] s.drop_last()[j]) == s[j]);
        lemma_sort_targets_preserves(s.drop_last(), pred);
        lemma_insert_target_preserves(sort_targets_desc(s.drop_last()), s.last(), pred);
    }
}

/// Sort instruments by cost-exposure ratio, largest first.
pub fn sort_targets(v: Vec<TargetProfitLoss>) -> (r: Vec<TargetProfitLoss>)
    requires
        forall|j: int|
            0 <= j < v.deep_view().len() ==> target_entry_wf(#[trigger] v.deep_view()[j]),
    ensures
        r.deep_view() == sort_targets_desc(v.deep_view()),
{
    let ghost orig = v.deep_view();
    let mut rest = v;
    let mut r: Vec<TargetProfitLoss> = Vec::new();
    let ghost mut i: int = 0;
    proof {
        assert(rest.deep_view() =~~= orig.skip(0));
        assert(r.deep_view() =~~= sort_targets_desc(orig.take(0)));
    }
    while rest.len() > 0
        invariant
            0 <= i <= orig.len(),
            orig.len() == rest.deep_view().len() + i,
            forall|j: int| 0 <= j < orig.len() ==> target_entry_wf(#[trigger] orig[j]),
            rest.deep_view() == orig.skip(i),
            r.deep_view() == sort_targets_desc(orig.take(i)),
        decreases rest@.len(),
    {
        let ghost rest_pre = rest.deep_view();
        let ghost restv_pre = rest@;
        let x = rest.remove(0);
        proof {
            assert(x.deep_view() == rest_pre[0]);
            assert(rest_pre[0] == orig[i]);
            assert forall|j: int|
                0 <= j < rest.deep_view().len() implies (#[trigger] rest.deep_view()[j])
                == orig.skip(i + 1)[j] by {
                assert(rest@[j] == restv_pre[j + 1]);
                assert(rest.deep_view()[j] == rest@[j].deep_view());
                assert(rest_pre[j + 1] == restv_pre[j + 1].deep_view());
                assert(rest_pre[j + 1] == orig.skip(i)[j + 1]);
            }
            assert(rest.deep_view() =~= orig.skip(i + 1));
            assert(orig.take(i + 1).drop_last() =~= orig.take(i));
            assert(orig.take(i + 1).last() == orig[i]);
            assert(forall|j: int|
                0 <= j < orig.take(i).len() ==> target_entry_wf(#[trigger] orig.take(i)[j]));
            lemma_sort_targets_preserves(orig.take(i), |t: TargetProfitLossV| target_entry_wf(t));
        }
        insert_target(&mut r, x);
        proof {
            i = i + 1;
        }
    }
    proof {
        assert(orig.skip(i).len() == 0);
        assert(orig.take(i) =~= orig);
    }
    r
}

/// Insert one instrument into a ratio-descending list, after all instruments
/// with a ratio at least as large.
fn insert_target(r: &mut Vec<TargetProfitLoss>, x: TargetProfitLoss)
    requires
        forall|j: int|
            0 <= j < old(r).deep_view().len() ==> target_entry_wf(
                #[trigger] old(r).deep_view()[j],
            ),
        target_entry_wf(x.deep_view()),
    ensures
        final(r).deep_view() == insert_target_desc(old(r).deep_view(), x.deep_view()),
{
    let ghost sv = r.deep_view();
    let ghost xv = x.deep_view();
    let mut idx: usize = 0;
    loop
        invariant
            sv == r.deep_view(),
            0 <= idx <= sv.len(),
            sv.len() == r@.len(),
            xv == x.deep_view(),
            target_entry_wf(xv),
            forall|j: int| 0 <= j < sv.len() ==> target_entry_wf(#[trigger] sv[j]),
            forall|j: int|
                0 <= j < idx ==> xv.cost_position_rate.le_spec(
                    (#[trigger] sv[j]).cost_position_rate,
                ),
        ensures
            sv == r.deep_view(),
            0 <= idx <= sv.len(),
            forall|j: int|
                0 <= j < idx ==> xv.cost_position_rate.le_spec(
                    (#[trigger] sv[j]).cost_position_rate,
                ),
            idx < sv.len() ==> !xv.cost_position_rate.le_spec(sv[idx as int].cost_position_rate),
        decreases sv.len() - idx,
    {
        if idx == r.len() {
            break ;
        }
        proof {
            assert(sv[idx as int] == r@[idx as int].deep_view());
            assert(target_entry_wf(sv[idx as int]));
        }
        if !x.cost_position_rate.le(&r[idx].cost_position_rate) {
            break ;
        }
        idx = idx + 1;
    }
    proof {
        lemma_insert_target_at(sv, xv, idx as int);
    }
    r.insert(idx, x);
    proof {
        assert(r.deep_view() =~~= sv.take(idx as int) + seq![xv] + sv.skip(idx as int));
    }
}

} // verus!
