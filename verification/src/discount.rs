//! The discount rules: one per size class, each drawing on the month's
//! shared allowance.

use vstd::prelude::*;
use crate::repository::{
    lemma_min_price_is_lowest,
    spec_min_price,
    PriceTable,
    Repository,
};
use crate::shipment::{is_la_poste, is_large, is_small, la_poste, large, small, Shipment, ShipmentView};

verus! {

/// What a rule is and remembers: the small-size rule keeps nothing, the
/// large-size rule counts the promoted large shipments it has seen.
pub enum RuleModel {
    Small,
    Large { purchases: nat },
}

/// A rule, a shipment and the allowance after the rule has seen the shipment.
pub struct Outcome {
    pub rule: RuleModel,
    pub shipment: ShipmentView,
    pub budget: nat,
}

/// The discount of a small shipment: the gap between its point price and the
/// lowest small price, as far as the allowance covers it.
pub open spec fn small_grant(point: nat, floor: nat, budget: nat) -> nat {
    let gap = if point >= floor {
        (point - floor) as nat
    } else {
        0
    };
    if budget >= gap {
        gap
    } else {
        budget
    }
}

/// The discount of a promoted large shipment that is number `count` of its
/// month: the whole point price on every third one, if the allowance covers
/// all of it, else nothing.
pub open spec fn large_grant(count: nat, point: nat, budget: nat) -> nat {
    if count % 3 == 0 && budget >= point {
        point
    } else {
        0
    }
}

/// A shipment with its price and discount set for a grant out of `point`.
pub open spec fn settled(s: ShipmentView, point: nat, grant: nat) -> ShipmentView {
    ShipmentView { price: (point - grant) as nat, discount: grant, ..s }
}

/// What a rule does with one shipment and the allowance left. A shipment of
/// a size that the rule does not handle leaves everything as it was.
pub open spec fn spec_apply(
    rule: RuleModel,
    s: ShipmentView,
    budget: nat,
    table: PriceTable,
) -> Outcome {
    let point = table[(s.size, s.service)];
    match rule {
        RuleModel::Small => {
            if s.size == small() {
                let grant = small_grant(point, spec_min_price(table, s.size), budget);
                Outcome { rule, shipment: settled(s, point, grant), budget: (budget - grant) as nat }
            } else {
                Outcome { rule, shipment: s, budget }
            }
        },
        RuleModel::Large { purchases } => {
            if s.size == large() {
                if s.service == la_poste() {
                    let count = purchases + 1;
                    let grant = large_grant(count, point, budget);
                    Outcome {
                        rule: RuleModel::Large { purchases: count },
                        shipment: settled(s, point, grant),
                        budget: (budget - grant) as nat,
                    }
                } else {
                    Outcome { rule, shipment: settled(s, point, 0), budget }
                }
            } else {
                Outcome { rule, shipment: s, budget }
            }
        },
    }
}

/// Whether a rule can take a shipment: the table prices every shipment that
/// the rule handles, and the purchase counter has room for one more.
pub open spec fn can_apply(rule: RuleModel, s: ShipmentView, table: PriceTable) -> bool {
    match rule {
        RuleModel::Small => s.size == small() ==> table.dom().contains((s.size, s.service)),
        RuleModel::Large { purchases } => s.size == large() ==> {
            &&& table.dom().contains((s.size, s.service))
            &&& s.service == la_poste() ==> purchases < u64::MAX
        },
    }
}

/// A discount rule.
pub trait Discount {
    /// What the rule is and remembers.
    spec fn model(&self) -> RuleModel;

    /// Applies the rule to the shipment and takes the discount that it
    /// grants out of the allowance.
    fn apply<R: Repository>(
        &mut self,
        shipment: &mut Shipment,
        available_discount: &mut u64,
        price_repo: &R,
    )
        requires
            can_apply(old(self).model(), old(shipment)@, price_repo.table()),
        ensures
            final(self).model() == spec_apply(
                old(self).model(),
                old(shipment)@,
                *old(available_discount) as nat,
                price_repo.table(),
            ).rule,
            final(shipment)@ == spec_apply(
                old(self).model(),
                old(shipment)@,
                *old(available_discount) as nat,
                price_repo.table(),
            ).shipment,
            *final(available_discount) == spec_apply(
                old(self).model(),
                old(shipment)@,
                *old(available_discount) as nat,
                price_repo.table(),
            ).budget,
    ;
}

/// The rule for small shipments.
pub struct SDiscount;

impl Discount for SDiscount {
    open spec fn model(&self) -> RuleModel {
        RuleModel::Small
    }

    fn apply<R: Repository>(
        &mut self,
        shipment: &mut Shipment,
        available_discount: &mut u64,
        price_repo: &R,
    ) {
        if is_small(shipment.size.as_str()) {
            let min_price = price_repo.get_min_price_by_size(shipment.size.as_str());
            let max_price = price_repo.get_price(shipment.size.as_str(), shipment.service.as_str());
            proof {
                lemma_min_price_is_lowest(price_repo.table(), shipment.size@, shipment.service@);
            }
            let discount = max_price - min_price;
            let discount = if *available_discount >= discount {
                discount
            } else {
                *available_discount
            };
            *available_discount -= discount;
            shipment.discount = discount;
            shipment.price = max_price - discount;
        }
    }
}

/// The rule for large shipments.
pub struct LDiscount {
    purchases: u64,
}

impl LDiscount {
    /// A rule that has seen no shipment yet.
    pub fn new() -> (r: Self)
        ensures
            r.model() == (RuleModel::Large { purchases: 0 }),
    {
        LDiscount { purchases: 0 }
    }
}

impl Default for LDiscount {
    fn default() -> (r: Self)
        ensures
            r.model() == (RuleModel::Large { purchases: 0 }),
    {
        LDiscount::new()
    }
}

impl Discount for LDiscount {
    closed spec fn model(&self) -> RuleModel {
        RuleModel::Large { purchases: self.purchases as nat }
    }

    fn apply<R: Repository>(
        &mut self,
        shipment: &mut Shipment,
        available_discount: &mut u64,
        price_repo: &R,
    ) {
        if is_large(shipment.size.as_str()) {
            let price = price_repo.get_price(shipment.size.as_str(), shipment.service.as_str());
            let mut discount: u64 = 0;
            if is_la_poste(shipment.service.as_str()) {
                self.purchases += 1;
                if self.purchases % 3 == 0 {
                    discount = if *available_discount >= price {
                        price
                    } else {
                        0
                    };
                    *available_discount -= discount;
                }
            }
            shipment.discount = discount;
            shipment.price = price - discount;
        }
    }
}

/// Either rule.
pub enum Rule {
    Small(SDiscount),
    Large(LDiscount),
}

impl Discount for Rule {
    open spec fn model(&self) -> RuleModel {
        match self {
            Rule::Small(rule) => rule.model(),
            Rule::Large(rule) => rule.model(),
        }
    }

    fn apply<R: Repository>(
        &mut self,
        shipment: &mut Shipment,
        available_discount: &mut u64,
        price_repo: &R,
    ) {
        match self {
            Rule::Small(rule) => rule.apply(shipment, available_discount, price_repo),
            Rule::Large(rule) => rule.apply(shipment, available_discount, price_repo),
        }
    }
}

} // verus!
