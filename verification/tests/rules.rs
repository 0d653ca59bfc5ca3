use shipment_discounts::discount::{Discount, LDiscount, Rule, SDiscount};
use shipment_discounts::repository::{PriceRepository, Repository};
use shipment_discounts::shipment::Shipment;

fn record(line: &str) -> Shipment {
    Shipment::from(line.to_string())
}

#[test]
fn the_table_holds_the_standard_prices() {
    let repo = PriceRepository::new();
    assert_eq!(repo.get_price("S", "LP"), 150);
    assert_eq!(repo.get_price("M", "LP"), 490);
    assert_eq!(repo.get_price("L", "LP"), 690);
    assert_eq!(repo.get_price("S", "MR"), 200);
    assert_eq!(repo.get_price("M", "MR"), 300);
    assert_eq!(repo.get_price("L", "MR"), 400);
}

#[test]
fn the_lowest_price_is_taken_over_both_providers() {
    let repo = PriceRepository::new();
    assert_eq!(repo.get_min_price_by_size("S"), 150);
    assert_eq!(repo.get_min_price_by_size("M"), 300);
    assert_eq!(repo.get_min_price_by_size("L"), 400);
}

#[test]
fn the_lowest_price_is_at_most_each_point_price() {
    let repo = PriceRepository::new();
    for size in ["S", "M", "L"] {
        for service in ["LP", "MR"] {
            assert!(repo.get_min_price_by_size(size) <= repo.get_price(size, service));
        }
    }
}

#[test]
fn a_small_shipment_gets_the_gap_to_the_lowest_price() {
    let repo = PriceRepository::new();
    let mut rule = SDiscount;
    let mut budget: u64 = 1000;
    let mut s = record("2015-02-01 S MR");
    rule.apply(&mut s, &mut budget, &repo);
    assert_eq!(s.price, 150);
    assert_eq!(s.discount, 50);
    assert_eq!(budget, 950);
}

#[test]
fn a_small_shipment_at_the_lowest_price_gets_nothing() {
    let repo = PriceRepository::new();
    let mut rule = SDiscount;
    let mut budget: u64 = 1000;
    let mut s = record("2015-02-01 S LP");
    rule.apply(&mut s, &mut budget, &repo);
    assert_eq!(s.price, 150);
    assert_eq!(s.discount, 0);
    assert_eq!(budget, 1000);
}

#[test]
fn a_small_shipment_gets_what_is_left_of_the_allowance() {
    let repo = PriceRepository::new();
    let mut rule = SDiscount;
    let mut budget: u64 = 10;
    let mut s = record("2015-02-01 S MR");
    rule.apply(&mut s, &mut budget, &repo);
    assert_eq!(s.price, 190);
    assert_eq!(s.discount, 10);
    assert_eq!(budget, 0);
    let mut t = record("2015-02-02 S MR");
    rule.apply(&mut t, &mut budget, &repo);
    assert_eq!(t.price, 200);
    assert_eq!(t.discount, 0);
    assert_eq!(budget, 0);
}

#[test]
fn the_small_rule_leaves_other_sizes_untouched() {
    let repo = PriceRepository::new();
    let mut rule = SDiscount;
    for line in ["2015-02-01 M MR", "2015-02-01 L LP", "2015-02-01 L MR", "2015-02-01 X MR"] {
        let mut budget: u64 = 1000;
        let mut s = record(line);
        s.price = 7;
        s.discount = 3;
        rule.apply(&mut s, &mut budget, &repo);
        assert_eq!(s.price, 7);
        assert_eq!(s.discount, 3);
        assert_eq!(budget, 1000);
    }
}

#[test]
fn every_third_promoted_large_shipment_is_free() {
    let repo = PriceRepository::new();
    let mut rule = LDiscount::new();
    let mut budget: u64 = 10_000;
    for n in 1..=9u64 {
        let mut s = record("2015-02-01 L LP");
        rule.apply(&mut s, &mut budget, &repo);
        if n % 3 == 0 {
            assert_eq!((s.price, s.discount), (0, 690));
        } else {
            assert_eq!((s.price, s.discount), (690, 0));
        }
    }
    assert_eq!(budget, 10_000 - 3 * 690);
}

#[test]
fn a_large_grant_is_all_or_nothing() {
    let repo = PriceRepository::new();
    let mut rule = LDiscount::new();
    let mut budget: u64 = 689;
    for _ in 0..3 {
        let mut s = record("2015-02-01 L LP");
        rule.apply(&mut s, &mut budget, &repo);
        assert_eq!((s.price, s.discount), (690, 0));
    }
    assert_eq!(budget, 689);
    let mut exact: u64 = 690;
    let mut rule = LDiscount::new();
    for n in 1..=3 {
        let mut s = record("2015-02-01 L LP");
        rule.apply(&mut s, &mut exact, &repo);
        assert_eq!(s.discount, if n == 3 { 690 } else { 0 });
    }
    assert_eq!(exact, 0);
}

#[test]
fn the_counter_goes_on_when_a_grant_is_denied() {
    let repo = PriceRepository::new();
    let mut rule = LDiscount::new();
    let mut budget: u64 = 0;
    for _ in 0..3 {
        let mut s = record("2015-02-01 L LP");
        rule.apply(&mut s, &mut budget, &repo);
        assert_eq!(s.discount, 0);
    }
    budget = 5000;
    for n in 4..=6 {
        let mut s = record("2015-02-01 L LP");
        rule.apply(&mut s, &mut budget, &repo);
        assert_eq!(s.discount, if n == 6 { 690 } else { 0 });
    }
    assert_eq!(budget, 5000 - 690);
}

#[test]
fn only_the_promoted_provider_counts() {
    let repo = PriceRepository::new();
    let mut rule = LDiscount::new();
    let mut budget: u64 = 1000;
    let lines = [
        "2015-02-01 L LP",
        "2015-02-01 L MR",
        "2015-02-01 L LP",
        "2015-02-01 S LP",
        "2015-02-01 M LP",
        "2015-02-01 L MR",
    ];
    for line in lines {
        let mut s = record(line);
        let before = (s.price, s.discount);
        rule.apply(&mut s, &mut budget, &repo);
        if s.size == "L" {
            assert_eq!(s.discount, 0);
            assert_eq!(s.price, repo.get_price("L", &s.service));
        } else {
            assert_eq!((s.price, s.discount), before);
        }
    }
    assert_eq!(budget, 1000);
    let mut third = record("2015-02-01 L LP");
    rule.apply(&mut third, &mut budget, &repo);
    assert_eq!((third.price, third.discount), (0, 690));
    assert_eq!(budget, 310);
}

#[test]
fn a_default_large_rule_has_seen_nothing() {
    let repo = PriceRepository::new();
    let mut rule = LDiscount::default();
    let mut budget: u64 = 1000;
    for n in 1..=3 {
        let mut s = record("2015-02-01 L LP");
        rule.apply(&mut s, &mut budget, &repo);
        assert_eq!(s.discount, if n == 3 { 690 } else { 0 });
    }
}

#[test]
fn either_rule_acts_as_the_rule_it_holds() {
    let repo = PriceRepository::new();
    let mut small = Rule::Small(SDiscount);
    let mut large = Rule::Large(LDiscount::new());
    let mut budget: u64 = 1000;
    let mut s = record("2015-02-01 S MR");
    large.apply(&mut s, &mut budget, &repo);
    assert_eq!((s.price, s.discount, budget), (0, 0, 1000));
    small.apply(&mut s, &mut budget, &repo);
    assert_eq!((s.price, s.discount, budget), (150, 50, 950));
    let mut l = record("2015-02-01 L MR");
    small.apply(&mut l, &mut budget, &repo);
    assert_eq!((l.price, l.discount, budget), (0, 0, 950));
    large.apply(&mut l, &mut budget, &repo);
    assert_eq!((l.price, l.discount, budget), (400, 0, 950));
}

#[test]
fn no_rule_grants_more_than_the_price_or_the_allowance() {
    let repo = PriceRepository::new();
    for start in [0u64, 10, 49, 50, 51, 689, 690, 691, 1000] {
        for size in ["S", "M", "L"] {
            for service in ["LP", "MR"] {
                let mut small = SDiscount;
                let mut large = LDiscount::new();
                let mut budget = start;
                for _ in 0..7 {
                    let mut s = record(&format!("2015-02-01 {} {}", size, service));
                    let point = repo.get_price(size, service);
                    s.price = point;
                    let before = budget;
                    small.apply(&mut s, &mut budget, &repo);
                    large.apply(&mut s, &mut budget, &repo);
                    assert!(s.discount <= point);
                    assert_eq!(s.price + s.discount, point);
                    assert!(budget <= before);
                    assert_eq!(before - budget, s.discount);
                }
            }
        }
    }
}
