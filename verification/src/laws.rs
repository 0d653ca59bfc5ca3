//! What holds of the rules, of a month and of a whole log, whatever the
//! shipments are.

use vstd::prelude::*;
use crate::discount::{spec_apply, RuleModel};
use crate::repository::{lemma_min_price_is_lowest, standard_table, spec_min_price, PriceTable};
use crate::shipment::{
    ignored_mark,
    la_poste,
    large,
    small,
    spec_render,
    spec_year_month,
    ShipmentView,
};
use crate::shipments::{
    lemma_group_nonempty,
    spec_apply_discounts,
    spec_apply_rules,
    spec_group,
    spec_price_shipment,
    spec_price_shipments,
    spec_window,
    fresh_rules,
    Priced,
    MAX_DISCOUNT,
};

verus! {

/// Whether a rule handles shipments of a size.
pub open spec fn handles(rule: RuleModel, size: Seq<char>) -> bool {
    match rule {
        RuleModel::Small => size == small(),
        RuleModel::Large { .. } => size == large(),
    }
}

/// What a rule grants a shipment out of an allowance: the discount that it
/// sets, or nothing where it does not handle the shipment.
pub open spec fn granted(rule: RuleModel, s: ShipmentView, budget: nat, table: PriceTable) -> nat {
    if handles(rule, s.size) {
        spec_apply(rule, s, budget, table).shipment.discount
    } else {
        0
    }
}

/// A rule leaves a shipment of a size that it does not handle, the allowance
/// and itself as they were.
pub proof fn law_other_sizes_untouched(
    rule: RuleModel,
    s: ShipmentView,
    budget: nat,
    table: PriceTable,
)
    requires
        !handles(rule, s.size),
    ensures
        spec_apply(rule, s, budget, table).rule == rule,
        spec_apply(rule, s, budget, table).shipment == s,
        spec_apply(rule, s, budget, table).budget == budget,
{
}

/// A rule changes nothing of a record but its price and discount.
pub proof fn law_record_kept(rule: RuleModel, s: ShipmentView, budget: nat, table: PriceTable)
    ensures
        spec_apply(rule, s, budget, table).shipment.date == s.date,
        spec_apply(rule, s, budget, table).shipment.size == s.size,
        spec_apply(rule, s, budget, table).shipment.service == s.service,
        spec_apply(rule, s, budget, table).shipment.ignored == s.ignored,
{
}

/// A rule never grants more than the allowance holds, and takes exactly what
/// it grants: the allowance never goes below zero.
pub proof fn law_budget_pays_grant(rule: RuleModel, s: ShipmentView, budget: nat, table: PriceTable)
    ensures
        granted(rule, s, budget, table) <= budget,
        spec_apply(rule, s, budget, table).budget == budget - granted(rule, s, budget, table),
        spec_apply(rule, s, budget, table).budget <= budget,
{
}

/// A rule never grants more than the point price of the shipment, and the
/// shipment pays the rest.
pub proof fn law_grant_within_price(
    rule: RuleModel,
    s: ShipmentView,
    budget: nat,
    table: PriceTable,
)
    requires
        handles(rule, s.size),
    ensures
        spec_apply(rule, s, budget, table).shipment.discount <= table[(s.size, s.service)],
        spec_apply(rule, s, budget, table).shipment.price + spec_apply(
            rule,
            s,
            budget,
            table,
        ).shipment.discount == table[(s.size, s.service)],
{
}

/// The small-size rule grants the gap to the lowest small price, or what is
/// left of the allowance where that is less, and nothing from an empty one.
pub proof fn law_small_grant(s: ShipmentView, budget: nat, table: PriceTable)
    requires
        s.size == small(),
        table.dom().contains((s.size, s.service)),
    ensures
        ({
            let gap = table[(s.size, s.service)] - spec_min_price(table, s.size);
            let out = spec_apply(RuleModel::Small, s, budget, table);
            &&& out.shipment.discount == (if budget >= gap {
                gap
            } else {
                budget as int
            })
            &&& out.budget == budget - out.shipment.discount
            &&& out.shipment.discount > 0 ==> out.budget < budget
            &&& budget == 0 ==> out.shipment.discount == 0 && out.budget == 0
        }),
{
    lemma_min_price_is_lowest(table, s.size, s.service);
}

/// The large-size rule counts a large shipment of the promoted provider
/// once, whether or not it grants anything, and counts no other shipment.
pub proof fn law_large_counter(purchases: nat, s: ShipmentView, budget: nat, table: PriceTable)
    ensures
        spec_apply(RuleModel::Large { purchases }, s, budget, table).rule == (RuleModel::Large {
            purchases: if s.size == large() && s.service == la_poste() {
                purchases + 1
            } else {
                purchases
            },
        }),
{
}

/// The large-size rule grants the whole point price, or nothing. It grants
/// only to a promoted large shipment that is the third, sixth, ninth, ... of
/// its month, and only where the allowance covers the whole price.
pub proof fn law_large_grant(purchases: nat, s: ShipmentView, budget: nat, table: PriceTable)
    requires
        s.size == large(),
    ensures
        ({
            let point = table[(s.size, s.service)];
            let out = spec_apply(RuleModel::Large { purchases }, s, budget, table);
            let due = s.service == la_poste() && (purchases + 1) % 3 == 0 && budget >= point;
            &&& due ==> out.shipment.discount == point && out.shipment.price == 0 && out.budget
                == budget - point
            &&& !due ==> out.shipment.discount == 0 && out.shipment.price == point && out.budget
                == budget
        }),
{
}

/// Whether two records differ in nothing but price and discount.
pub open spec fn same_record(a: ShipmentView, b: ShipmentView) -> bool {
    a.date == b.date && a.size == b.size && a.service == b.service && a.ignored == b.ignored
}

/// A pass through a list of rules keeps the number of rules and the record,
/// and never adds to the allowance.
pub proof fn law_rules_pass(rules: Seq<RuleModel>, s: ShipmentView, budget: nat, table: PriceTable)
    ensures
        spec_apply_rules(rules, s, budget, table).rules.len() == rules.len(),
        same_record(spec_apply_rules(rules, s, budget, table).shipment, s),
        spec_apply_rules(rules, s, budget, table).budget <= budget,
    decreases rules.len(),
{
    if rules.len() > 0 {
        law_rules_pass(rules.drop_last(), s, budget, table);
    }
}

/// Pricing a shipment keeps the number of rules and the record, and never
/// adds to the allowance. A rejected record is left as it was, and so are
/// the rules and the allowance.
pub proof fn law_pricing_one(rules: Seq<RuleModel>, s: ShipmentView, budget: nat, table: PriceTable)
    ensures
        spec_price_shipment(rules, s, budget, table).rules.len() == rules.len(),
        same_record(spec_price_shipment(rules, s, budget, table).shipment, s),
        spec_price_shipment(rules, s, budget, table).budget <= budget,
        s.ignored ==> spec_price_shipment(rules, s, budget, table) == (Priced {
            rules,
            shipment: s,
            budget,
        }),
{
    if !s.ignored {
        law_rules_pass(
            rules,
            ShipmentView { price: table[(s.size, s.service)], ..s },
            budget,
            table,
        );
    }
}

/// Pricing a month keeps the number and the order of its records and the
/// number of rules, never adds to the allowance, and leaves every rejected
/// record as it was: without a price or a discount that it did not have.
pub proof fn law_month_shape(
    rules: Seq<RuleModel>,
    shipments: Seq<ShipmentView>,
    budget: nat,
    table: PriceTable,
)
    ensures
        spec_apply_discounts(rules, shipments, budget, table).rules.len() == rules.len(),
        spec_apply_discounts(rules, shipments, budget, table).shipments.len() == shipments.len(),
        spec_apply_discounts(rules, shipments, budget, table).budget <= budget,
        forall|i: int|
            0 <= i < shipments.len() ==> same_record(
                #[trigger] spec_apply_discounts(rules, shipments, budget, table).shipments[i],
                shipments[i],
            ),
        forall|i: int|
            0 <= i < shipments.len() && shipments[i].ignored ==> #[trigger] spec_apply_discounts(
                rules,
                shipments,
                budget,
                table,
            ).shipments[i] == shipments[i],
    decreases shipments.len(),
{
    if shipments.len() > 0 {
        let before = spec_apply_discounts(rules, shipments.drop_last(), budget, table);
        law_month_shape(rules, shipments.drop_last(), budget, table);
        law_pricing_one(before.rules, shipments.last(), before.budget, table);
    }
}

/// The state of a month after its first `i` records is the state in which
/// record `i` is priced: what a record gets depends on the records before it
/// alone, and the allowance left after any number of records is at most what
/// was left after fewer.
pub proof fn law_month_prefix(
    rules: Seq<RuleModel>,
    shipments: Seq<ShipmentView>,
    budget: nat,
    table: PriceTable,
    i: int,
)
    requires
        0 <= i <= shipments.len(),
    ensures
        spec_apply_discounts(rules, shipments, budget, table).shipments.take(i)
            == spec_apply_discounts(rules, shipments.take(i), budget, table).shipments,
        spec_apply_discounts(rules, shipments, budget, table).budget <= spec_apply_discounts(
            rules,
            shipments.take(i),
            budget,
            table,
        ).budget,
        i < shipments.len() ==> spec_apply_discounts(rules, shipments, budget, table).shipments[i]
            == spec_price_shipment(
            spec_apply_discounts(rules, shipments.take(i), budget, table).rules,
            shipments[i],
            spec_apply_discounts(rules, shipments.take(i), budget, table).budget,
            table,
        ).shipment,
    decreases shipments.len(),
{
    let whole = spec_apply_discounts(rules, shipments, budget, table);
    law_month_shape(rules, shipments, budget, table);
    if i == shipments.len() {
        assert(shipments.take(i) == shipments);
        assert(whole.shipments.take(i) == whole.shipments);
    } else {
        let front = shipments.drop_last();
        let before = spec_apply_discounts(rules, front, budget, table);
        law_month_shape(rules, front, budget, table);
        law_month_prefix(rules, front, budget, table, i);
        law_pricing_one(before.rules, shipments.last(), before.budget, table);
        assert(front.take(i) == shipments.take(i));
        assert(whole.shipments.take(i) == before.shipments.take(i));
        if i == shipments.len() - 1 {
            assert(front.take(i) == front);
        } else {
            assert(whole.shipments[i] == before.shipments[i]);
            assert(front[i] == shipments[i]);
        }
    }
}

/// The two rules of a month, small before large, the large one having
/// counted `purchases` shipments.
pub open spec fn month_rules(purchases: nat) -> Seq<RuleModel> {
    seq![RuleModel::Small, RuleModel::Large { purchases }]
}

/// Whether a record counts for the large-size rule: accepted, large, and of
/// the promoted provider.
pub open spec fn is_promoted(s: ShipmentView) -> bool {
    !s.ignored && s.size == large() && s.service == la_poste()
}

/// The number of records that count for the large-size rule.
pub open spec fn count_promoted(shipments: Seq<ShipmentView>) -> nat
    decreases shipments.len(),
{
    if shipments.len() == 0 {
        0
    } else {
        count_promoted(shipments.drop_last()) + (if is_promoted(shipments.last()) {
            1nat
        } else {
            0nat
        })
    }
}

/// The two rules of a month take a shipment one after the other: the small
/// rule first, the large rule on what the small rule left.
pub proof fn law_two_rules(purchases: nat, s: ShipmentView, budget: nat, table: PriceTable)
    ensures
        ({
            let first = spec_apply(RuleModel::Small, s, budget, table);
            let second = spec_apply(
                RuleModel::Large { purchases },
                first.shipment,
                first.budget,
                table,
            );
            spec_apply_rules(month_rules(purchases), s, budget, table) == (Priced {
                rules: seq![first.rule, second.rule],
                shipment: second.shipment,
                budget: second.budget,
            })
        }),
{
    let rules = month_rules(purchases);
    let one = rules.drop_last();
    assert(one == seq![RuleModel::Small]);
    assert(one.drop_last() == Seq::<RuleModel>::empty());
    assert(spec_apply_rules(one.drop_last(), s, budget, table) == (Priced {
        rules: Seq::<RuleModel>::empty(),
        shipment: s,
        budget,
    }));
    let first = spec_apply(RuleModel::Small, s, budget, table);
    assert(spec_apply_rules(one, s, budget, table) == (Priced {
        rules: seq![first.rule],
        shipment: first.shipment,
        budget: first.budget,
    })) by {
        assert(Seq::<RuleModel>::empty().push(first.rule) == seq![first.rule]);
    }
    let second = spec_apply(RuleModel::Large { purchases }, first.shipment, first.budget, table);
    assert(seq![first.rule].push(second.rule) == seq![first.rule, second.rule]);
}

/// What the two rules of a month make of one accepted shipment. A small or
/// large one pays its point price less the discount, and the discount is
/// never more than the point price; a medium one pays its point price and
/// keeps the discount it came with. The large rule counts the shipment if
/// and only if it is large and of the promoted provider.
pub proof fn law_priced_shipment(purchases: nat, s: ShipmentView, budget: nat, table: PriceTable)
    requires
        !s.ignored,
    ensures
        ({
            let out = spec_price_shipment(month_rules(purchases), s, budget, table);
            let point = table[(s.size, s.service)];
            &&& out.rules == month_rules(
                if is_promoted(s) {
                    purchases + 1
                } else {
                    purchases
                },
            )
            &&& s.size == small() || s.size == large() ==> out.shipment.discount <= point
                && out.shipment.price + out.shipment.discount == point
            &&& s.size != small() && s.size != large() ==> out.shipment.price == point
                && out.shipment.discount == s.discount && out.budget == budget
            &&& out.budget + out.shipment.discount == budget || out.budget == budget
            &&& budget == 0 && (s.size == small() || s.size == large()) ==> out.shipment.discount
                == 0
            &&& budget == 0 ==> out.budget == 0
        }),
{
    let start = ShipmentView { price: table[(s.size, s.service)], ..s };
    law_two_rules(purchases, start, budget, table);
    assert(small()[0] != large()[0]);
}

/// After a month, the rules are the two they were, and the large rule has
/// counted each accepted large shipment of the promoted provider exactly
/// once, whatever was granted.
pub proof fn law_month_counter(
    purchases: nat,
    shipments: Seq<ShipmentView>,
    budget: nat,
    table: PriceTable,
)
    ensures
        spec_apply_discounts(month_rules(purchases), shipments, budget, table).rules
            == month_rules(purchases + count_promoted(shipments)),
    decreases shipments.len(),
{
    if shipments.len() > 0 {
        let before = spec_apply_discounts(
            month_rules(purchases),
            shipments.drop_last(),
            budget,
            table,
        );
        law_month_counter(purchases, shipments.drop_last(), budget, table);
        let s = shipments.last();
        if !s.ignored {
            law_priced_shipment(
                purchases + count_promoted(shipments.drop_last()),
                s,
                before.budget,
                table,
            );
        }
    }
}

/// In a priced month every accepted small or large shipment pays its point
/// price less its discount, so no discount is more than the price before
/// it, and every accepted shipment of another size pays its point price.
pub proof fn law_month_prices(
    purchases: nat,
    shipments: Seq<ShipmentView>,
    budget: nat,
    table: PriceTable,
    i: int,
)
    requires
        0 <= i < shipments.len(),
        !shipments[i].ignored,
    ensures
        ({
            let out = spec_apply_discounts(month_rules(purchases), shipments, budget, table);
            let point = table[(shipments[i].size, shipments[i].service)];
            &&& shipments[i].size == small() || shipments[i].size == large()
                ==> out.shipments[i].discount <= point && out.shipments[i].price
                + out.shipments[i].discount == point
            &&& shipments[i].size != small() && shipments[i].size != large()
                ==> out.shipments[i].price == point && out.shipments[i].discount
                == shipments[i].discount
        }),
{
    let rules = month_rules(purchases);
    law_month_prefix(rules, shipments, budget, table, i);
    law_month_counter(purchases, shipments.take(i), budget, table);
    let before = spec_apply_discounts(rules, shipments.take(i), budget, table);
    law_priced_shipment(
        purchases + count_promoted(shipments.take(i)),
        shipments[i],
        before.budget,
        table,
    );
}

/// Once the allowance of a month is used up, it stays so, and every later
/// small or large shipment of the month gets no discount.
pub proof fn law_exhausted_allowance(
    purchases: nat,
    shipments: Seq<ShipmentView>,
    budget: nat,
    table: PriceTable,
    i: int,
    j: int,
)
    requires
        0 <= i <= j < shipments.len(),
        spec_apply_discounts(month_rules(purchases), shipments.take(i), budget, table).budget == 0,
    ensures
        spec_apply_discounts(month_rules(purchases), shipments.take(j), budget, table).budget == 0,
        spec_apply_discounts(month_rules(purchases), shipments, budget, table).budget == 0,
        !shipments[j].ignored && (shipments[j].size == small() || shipments[j].size == large())
            ==> spec_apply_discounts(
            month_rules(purchases),
            shipments,
            budget,
            table,
        ).shipments[j].discount == 0,
{
    let rules = month_rules(purchases);
    law_month_prefix(rules, shipments, budget, table, i);
    law_month_prefix(rules, shipments, budget, table, j);
    law_month_prefix(rules, shipments.take(j), budget, table, i);
    assert(shipments.take(j).take(i) == shipments.take(i));
    law_month_counter(purchases, shipments.take(j), budget, table);
    if !shipments[j].ignored {
        law_priced_shipment(purchases + count_promoted(shipments.take(j)), shipments[j], 0, table);
    }
}

/// The year and month of a record.
pub open spec fn month_of(s: ShipmentView) -> Seq<char> {
    spec_year_month(s.date)
}

/// Whether the records of each year and month stand together in a log, as
/// they do in a log ordered by date.
pub open spec fn months_together(records: Seq<ShipmentView>) -> bool {
    forall|i: int, j: int, k: int|
        0 <= i < j < k < records.len() && month_of(#[trigger] records[i]) == month_of(
            #[trigger] records[k],
        ) ==> month_of(#[trigger] records[j]) == month_of(records[i])
}

/// The runs of a log hold its records, all of them and in their order.
pub proof fn law_months_keep_log(records: Seq<ShipmentView>)
    ensures
        spec_group(records).flatten() == records,
    decreases records.len(),
{
    let groups = spec_group(records);
    groups.lemma_flatten_and_flatten_alt_are_equivalent();
    if records.len() == 0 {
        assert(groups.flatten_alt() == records);
    } else {
        let before = spec_group(records.drop_last());
        let s = records.last();
        law_months_keep_log(records.drop_last());
        before.lemma_flatten_and_flatten_alt_are_equivalent();
        assert(records.drop_last().push(s) == records);
        if before.len() > 0 && month_of(before.last().last()) == month_of(s) {
            assert(groups.drop_last() == before.drop_last());
            assert(groups.flatten_alt() == before.drop_last().flatten_alt() + before.last().push(
                s,
            ));
            assert(before.flatten_alt() == before.drop_last().flatten_alt() + before.last());
            assert(groups.flatten_alt() == before.flatten_alt().push(s));
        } else {
            assert(groups.drop_last() == before);
            assert(groups.flatten_alt() == before.flatten_alt() + seq![s]);
            assert(groups.flatten_alt() == before.flatten_alt().push(s));
        }
    }
}

/// Of the runs of a log: each record of a run is a record of the log and
/// shares year and month with the first of its run, and two runs that follow
/// each other differ in year and month where they meet.
proof fn lemma_group_facts(records: Seq<ShipmentView>)
    ensures
        forall|g: int|
            0 <= g < spec_group(records).len() ==> (#[trigger] spec_group(records)[g]).len() > 0,
        forall|g: int, a: int|
            0 <= g < spec_group(records).len() && 0 <= a < spec_group(records)[g].len()
                ==> month_of(#[trigger] spec_group(records)[g][a]) == month_of(
                spec_group(records)[g][0],
            ),
        forall|g: int, a: int|
            0 <= g < spec_group(records).len() && 0 <= a < spec_group(records)[g].len()
                ==> records.contains(#[trigger] spec_group(records)[g][a]),
        forall|g: int|
            0 <= g < spec_group(records).len() - 1 ==> month_of(
                (#[trigger] spec_group(records)[g]).last(),
            ) != month_of(spec_group(records)[g + 1][0]),
    decreases records.len(),
{
    let groups = spec_group(records);
    lemma_group_nonempty(records);
    if records.len() > 0 {
        let front = records.drop_last();
        let before = spec_group(front);
        let s = records.last();
        lemma_group_facts(front);
        lemma_group_nonempty(front);
        assert(records[records.len() - 1] == s);
        assert forall|g: int, a: int| 0 <= g < groups.len() && 0 <= a < groups[g].len() implies {
            &&& month_of(#[trigger] groups[g][a]) == month_of(groups[g][0])
            &&& records.contains(groups[g][a])
        } by {
            if g < before.len() && a < before[g].len() {
                assert(groups[g][a] == before[g][a]);
                assert(groups[g][0] == before[g][0]);
                assert(front.contains(before[g][a]));
                let k = choose|k: int| 0 <= k < front.len() && front[k] == before[g][a];
                assert(records[k] == front[k]);
            } else {
                assert(groups[g][a] == s);
                if g < before.len() {
                    assert(groups[g][0] == before[g][0]);
                    assert(month_of(before[g][before[g].len() - 1]) == month_of(before[g][0]));
                }
            }
        }
        assert forall|g: int| 0 <= g < groups.len() - 1 implies month_of(
            (#[trigger] groups[g]).last(),
        ) != month_of(groups[g + 1][0]) by {
            if g + 1 < before.len() {
                assert(groups[g] == before[g]);
                assert(groups[g + 1][0] == before[g + 1][0]);
            } else {
                assert(groups[g] == before[g]);
                assert(groups[g + 1][0] == s);
            }
        }
    }
}

/// Two records of one run share year and month.
pub proof fn law_window_shares_month(records: Seq<ShipmentView>, g: int, a: int, b: int)
    requires
        0 <= g < spec_group(records).len(),
        0 <= a < spec_group(records)[g].len(),
        0 <= b < spec_group(records)[g].len(),
    ensures
        month_of(spec_group(records)[g][a]) == month_of(spec_group(records)[g][b]),
{
    lemma_group_facts(records);
}

/// Where one run ends and the next begins, year and month change.
pub proof fn law_windows_change_month(records: Seq<ShipmentView>, g: int)
    requires
        0 <= g < spec_group(records).len() - 1,
    ensures
        spec_group(records)[g].len() > 0,
        spec_group(records)[g + 1].len() > 0,
        month_of(spec_group(records)[g].last()) != month_of(spec_group(records)[g + 1][0]),
{
    lemma_group_facts(records);
}

/// In a log that keeps the records of each year and month together, no two
/// runs begin in the same year and month.
proof fn lemma_months_differ(records: Seq<ShipmentView>)
    requires
        months_together(records),
    ensures
        forall|g: int, h: int|
            0 <= g < h < spec_group(records).len() ==> month_of(
                (#[trigger] spec_group(records)[g])[0],
            ) != month_of((#[trigger] spec_group(records)[h])[0]),
    decreases records.len(),
{
    let groups = spec_group(records);
    if records.len() > 0 {
        let front = records.drop_last();
        let before = spec_group(front);
        let s = records.last();
        assert(months_together(front)) by {
            assert forall|i: int, j: int, k: int|
                0 <= i < j < k < front.len() && month_of(#[trigger] front[i]) == month_of(
                    #[trigger] front[k],
                ) implies month_of(#[trigger] front[j]) == month_of(front[i]) by {
                assert(front[i] == records[i]);
                assert(front[j] == records[j]);
                assert(front[k] == records[k]);
            }
        }
        lemma_months_differ(front);
        lemma_group_facts(front);
        lemma_group_nonempty(front);
        assert forall|g: int, h: int| 0 <= g < h < groups.len() implies month_of(
            (#[trigger] groups[g])[0],
        ) != month_of((#[trigger] groups[h])[0]) by {
            assert(groups[g][0] == before[g][0]);
            if h < before.len() {
                assert(groups[h][0] == before[h][0]);
            } else {
                assert(groups[h][0] == s);
                let n = front.len() as int;
                assert(before.last().last() == front[n - 1]);
                assert(month_of(front[n - 1]) != month_of(s));
                assert(front.contains(before[g][0]));
                let k = choose|k: int| 0 <= k < front.len() && front[k] == before[g][0];
                assert(records[k] == front[k]);
                assert(records[n - 1] == front[n - 1]);
                assert(records[n] == s);
                if month_of(before[g][0]) == month_of(s) {
                    if k < n - 1 {
                        assert(month_of(records[n - 1]) == month_of(records[k]));
                    }
                    assert(false);
                }
            }
        }
    }
}

/// In a log that keeps the records of each year and month together, two
/// records are in the same run if and only if they share year and month.
pub proof fn law_same_month_same_window(
    records: Seq<ShipmentView>,
    g: int,
    a: int,
    h: int,
    b: int,
)
    requires
        months_together(records),
        0 <= g < spec_group(records).len(),
        0 <= a < spec_group(records)[g].len(),
        0 <= h < spec_group(records).len(),
        0 <= b < spec_group(records)[h].len(),
    ensures
        g == h <==> month_of(spec_group(records)[g][a]) == month_of(spec_group(records)[h][b]),
{
    let groups = spec_group(records);
    lemma_group_facts(records);
    lemma_months_differ(records);
    assert(month_of(groups[g][a]) == month_of(groups[g][0]));
    assert(month_of(groups[h][b]) == month_of(groups[h][0]));
    if g < h {
        assert(month_of(groups[g][0]) != month_of(groups[h][0]));
    } else if h < g {
        assert(month_of(groups[h][0]) != month_of(groups[g][0]));
    }
}

/// Records that all share one year and month form a single run.
pub proof fn law_one_month_one_window(run: Seq<ShipmentView>)
    requires
        run.len() > 0,
        forall|a: int| 0 <= a < run.len() ==> month_of(#[trigger] run[a]) == month_of(run[0]),
    ensures
        spec_group(run) == seq![run],
    decreases run.len(),
{
    let front = run.drop_last();
    if front.len() == 0 {
        assert(spec_group(front) == Seq::<Seq<ShipmentView>>::empty());
        assert(seq![run.last()] == run);
        assert(spec_group(run) == seq![run]);
    } else {
        assert forall|a: int| 0 <= a < front.len() implies month_of(#[trigger] front[a])
            == month_of(front[0]) by {
            assert(front[a] == run[a]);
            assert(front[0] == run[0]);
        }
        law_one_month_one_window(front);
        let before = spec_group(front);
        assert(before.last() == front);
        assert(front.last() == run[run.len() - 2]);
        assert(month_of(run[run.len() - 1]) == month_of(run[0]));
        assert(before.drop_last() == Seq::<Seq<ShipmentView>>::empty());
        assert(front.push(run.last()) == run);
        assert(spec_group(run) == seq![run]);
    }
}

/// Each run of a log is priced as a month of its own, with fresh rules and
/// the full allowance: as if its records were the whole log. No allowance
/// and no counter passes from one month to the next.
pub proof fn law_window_priced_alone(records: Seq<ShipmentView>, g: int)
    requires
        0 <= g < spec_group(records).len(),
    ensures
        spec_price_shipments(records).len() == spec_group(records).len(),
        spec_price_shipments(records)[g] == spec_window(spec_group(records)[g]),
        spec_price_shipments(spec_group(records)[g]) == seq![spec_price_shipments(records)[g]],
{
    let run = spec_group(records)[g];
    lemma_group_facts(records);
    law_one_month_one_window(run);
    assert(spec_price_shipments(run) == seq![spec_window(run)]);
}

/// Pricing a log keeps every record in its run and at its place, and
/// changes nothing of it but price and discount.
pub proof fn law_log_keeps_records(records: Seq<ShipmentView>, g: int, a: int)
    requires
        0 <= g < spec_group(records).len(),
        0 <= a < spec_group(records)[g].len(),
    ensures
        spec_price_shipments(records)[g].shipments.len() == spec_group(records)[g].len(),
        same_record(spec_price_shipments(records)[g].shipments[a], spec_group(records)[g][a]),
        spec_price_shipments(records)[g].budget <= MAX_DISCOUNT,
{
    law_month_shape(fresh_rules(), spec_group(records)[g], MAX_DISCOUNT as nat, standard_table());
}

/// A rejected record of a log comes out as it went in, with no price and no
/// discount that it did not have, and its output line ends in "Ignored".
pub proof fn law_rejected_records(records: Seq<ShipmentView>, g: int, a: int)
    requires
        0 <= g < spec_group(records).len(),
        0 <= a < spec_group(records)[g].len(),
        spec_group(records)[g][a].ignored,
    ensures
        spec_price_shipments(records)[g].shipments[a] == spec_group(records)[g][a],
        spec_render(spec_price_shipments(records)[g].shipments[a]) == spec_group(
            records,
        )[g][a].date + seq![' '] + spec_group(records)[g][a].size + seq![' '] + spec_group(
            records,
        )[g][a].service + seq![' '] + ignored_mark(),
{
    law_month_shape(fresh_rules(), spec_group(records)[g], MAX_DISCOUNT as nat, standard_table());
}

/// In a priced log every accepted small or large shipment pays its point
/// price less its discount, so no discount is more than the price before it,
/// and every accepted medium shipment pays its point price.
pub proof fn law_log_prices(records: Seq<ShipmentView>, g: int, a: int)
    requires
        0 <= g < spec_group(records).len(),
        0 <= a < spec_group(records)[g].len(),
        !spec_group(records)[g][a].ignored,
    ensures
        ({
            let s = spec_group(records)[g][a];
            let out = spec_price_shipments(records)[g].shipments[a];
            let point = standard_table()[(s.size, s.service)];
            &&& s.size == small() || s.size == large() ==> out.discount <= point && out.price
                + out.discount == point
            &&& s.size != small() && s.size != large() ==> out.price == point && out.discount
                == s.discount
        }),
{
    assert(fresh_rules() == month_rules(0));
    law_month_prices(0, spec_group(records)[g], MAX_DISCOUNT as nat, standard_table(), a);
}

} // verus!
