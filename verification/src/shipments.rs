//! Month windows: the shipments of one calendar month, the allowance they
//! share, and the pass of the discount rules over them.

use vstd::prelude::*;
use crate::discount::{can_apply, spec_apply, Discount, LDiscount, Rule, RuleModel, SDiscount};
use crate::repository::{standard_table, PriceRepository, PriceTable, Repository};
use crate::shipment::{
    spec_parse,
    spec_render,
    spec_year_month,
    Shipment,
    ShipmentView,
};
use crate::text::{join, same_text, spec_join, spec_trim, texts, trim};

verus! {

/// The records of a list of shipments.
pub open spec fn views(shipments: Seq<Shipment>) -> Seq<ShipmentView> {
    Seq::new(shipments.len(), |i: int| shipments[i]@)
}

/// What each rule of a list is and remembers.
pub open spec fn models<D: Discount>(rules: Seq<D>) -> Seq<RuleModel> {
    Seq::new(rules.len(), |i: int| rules[i].model())
}

/// A list of rules, a shipment and the allowance after the rules have seen
/// the shipment.
pub struct Priced {
    pub rules: Seq<RuleModel>,
    pub shipment: ShipmentView,
    pub budget: nat,
}

/// A list of rules, the shipments of a month and the allowance after the
/// rules have seen the shipments.
pub struct Settled {
    pub rules: Seq<RuleModel>,
    pub shipments: Seq<ShipmentView>,
    pub budget: nat,
}

/// Passes one shipment through the rules in order; each rule sees what the
/// rules before it left.
pub open spec fn spec_apply_rules(
    rules: Seq<RuleModel>,
    s: ShipmentView,
    budget: nat,
    table: PriceTable,
) -> Priced
    decreases rules.len(),
{
    if rules.len() == 0 {
        Priced { rules, shipment: s, budget }
    } else {
        let before = spec_apply_rules(rules.drop_last(), s, budget, table);
        let after = spec_apply(rules.last(), before.shipment, before.budget, table);
        Priced {
            rules: before.rules.push(after.rule),
            shipment: after.shipment,
            budget: after.budget,
        }
    }
}

/// Prices one shipment: a rejected record is passed over; any other gets its
/// point price and then goes through the rules.
pub open spec fn spec_price_shipment(
    rules: Seq<RuleModel>,
    s: ShipmentView,
    budget: nat,
    table: PriceTable,
) -> Priced {
    if s.ignored {
        Priced { rules, shipment: s, budget }
    } else {
        spec_apply_rules(
            rules,
            ShipmentView { price: table[(s.size, s.service)], ..s },
            budget,
            table,
        )
    }
}

/// Prices the shipments of a month in order, each from the rules and the
/// allowance that the shipments before it left.
pub open spec fn spec_apply_discounts(
    rules: Seq<RuleModel>,
    shipments: Seq<ShipmentView>,
    budget: nat,
    table: PriceTable,
) -> Settled
    decreases shipments.len(),
{
    if shipments.len() == 0 {
        Settled { rules, shipments, budget }
    } else {
        let before = spec_apply_discounts(rules, shipments.drop_last(), budget, table);
        let after = spec_price_shipment(before.rules, shipments.last(), before.budget, table);
        Settled {
            rules: after.rules,
            shipments: before.shipments.push(after.shipment),
            budget: after.budget,
        }
    }
}

/// Whether the table prices a record, unless the record is rejected.
pub open spec fn priced_by(s: ShipmentView, table: PriceTable) -> bool {
    !s.ignored ==> table.dom().contains((s.size, s.service))
}

/// Whether a rule can still take `n` shipments: a purchase counter has room
/// for all of them.
pub open spec fn has_room(rule: RuleModel, n: nat) -> bool {
    match rule {
        RuleModel::Small => true,
        RuleModel::Large { purchases } => purchases + n <= u64::MAX,
    }
}

/// A rule with room for a shipment can take it, and has room for one fewer
/// afterwards.
pub proof fn lemma_apply_keeps_room(
    rule: RuleModel,
    s: ShipmentView,
    budget: nat,
    table: PriceTable,
    n: nat,
)
    requires
        has_room(rule, n),
        n >= 1,
        table.dom().contains((s.size, s.service)),
    ensures
        can_apply(rule, s, table),
        has_room(spec_apply(rule, s, budget, table).rule, (n - 1) as nat),
        spec_apply(rule, s, budget, table).shipment.size == s.size,
        spec_apply(rule, s, budget, table).shipment.service == s.service,
{
}

/// What a month window holds: the allowance left, the records in input order,
/// and the price table.
pub struct WindowView {
    pub budget: nat,
    pub shipments: Seq<ShipmentView>,
    pub table: PriceTable,
}

/// A monthly window of shipments.
pub struct MonthWindow<R: Repository> {
    available_discount: u64,
    pub shipments: Vec<Shipment>,
    price_repo: R,
}

impl<R: Repository> View for MonthWindow<R> {
    type V = WindowView;

    closed spec fn view(&self) -> WindowView {
        WindowView {
            budget: self.available_discount as nat,
            shipments: views(self.shipments@),
            table: self.price_repo.table(),
        }
    }
}

impl<R: Repository> MonthWindow<R> {
    /// An empty window with its allowance in cents.
    pub fn new(available_discount: u64, price_repo: R) -> (w: Self)
        ensures
            w@ == (WindowView {
                budget: available_discount as nat,
                shipments: Seq::empty(),
                table: price_repo.table(),
            }),
    {
        let w = MonthWindow { available_discount, shipments: Vec::new(), price_repo };
        assert(views(w.shipments@) =~= Seq::empty());
        w
    }

    /// What is left of the allowance, in cents.
    pub fn available_discount(&self) -> (left: u64)
        ensures
            left == self@.budget,
    {
        self.available_discount
    }

    /// Appends a shipment to the window.
    pub fn add(&mut self, shipment: Shipment)
        ensures
            final(self)@ == (WindowView {
                shipments: old(self)@.shipments.push(shipment@),
                ..old(self)@
            }),
    {
        self.shipments.push(shipment);
        assert(views(self.shipments@) == views(old(self).shipments@).push(shipment@));
    }

    /// Applies discounts to the shipments of a month.
    pub fn apply_discounts<D: Discount>(&mut self, discounts: &mut Vec<D>)
        requires
            forall|i: int|
                0 <= i < old(self)@.shipments.len() ==> priced_by(
                    #[trigger] old(self)@.shipments[i],
                    old(self)@.table,
                ),
            forall|j: int|
                0 <= j < old(discounts).len() ==> has_room(
                    #[trigger] old(discounts)[j].model(),
                    old(self)@.shipments.len(),
                ),
        ensures
            final(self)@.table == old(self)@.table,
            models(final(discounts)@) == spec_apply_discounts(
                models(old(discounts)@),
                old(self)@.shipments,
                old(self)@.budget,
                old(self)@.table,
            ).rules,
            final(self)@.shipments == spec_apply_discounts(
                models(old(discounts)@),
                old(self)@.shipments,
                old(self)@.budget,
                old(self)@.table,
            ).shipments,
            final(self)@.budget == spec_apply_discounts(
                models(old(discounts)@),
                old(self)@.shipments,
                old(self)@.budget,
                old(self)@.table,
            ).budget,
    {
        let ghost rules0 = models(discounts@);
        let ghost ships0 = views(self.shipments@);
        let ghost budget0 = self.available_discount as nat;
        let ghost table = self.price_repo.table();
        let n = self.shipments.len();
        let m = discounts.len();
        let mut i: usize = 0;
        proof {
            assert(self@.shipments == ships0);
            assert(forall|k: int| 0 <= k < n ==> priced_by(#[trigger] ships0[k], table));
            assert(ships0.take(0) == Seq::<ShipmentView>::empty());
            assert(views(self.shipments@).take(0) == Seq::<ShipmentView>::empty());
        }
        while i < n
            invariant
                i <= n,
                n == self.shipments.len(),
                n == ships0.len(),
                m == discounts.len(),
                m == rules0.len(),
                self.price_repo.table() == table,
                forall|k: int| 0 <= k < n ==> priced_by(#[trigger] ships0[k], table),
                forall|k: int| i <= k < n ==> (#[trigger] self.shipments[k])@ == ships0[k],
                forall|j: int| 0 <= j < m ==> has_room(#[trigger] discounts[j].model(), (n - i) as nat),
                models(discounts@) == spec_apply_discounts(
                    rules0,
                    ships0.take(i as int),
                    budget0,
                    table,
                ).rules,
                views(self.shipments@).take(i as int) == spec_apply_discounts(
                    rules0,
                    ships0.take(i as int),
                    budget0,
                    table,
                ).shipments,
                self.available_discount == spec_apply_discounts(
                    rules0,
                    ships0.take(i as int),
                    budget0,
                    table,
                ).budget,
            decreases n - i,
        {
            let ghost before = spec_apply_discounts(rules0, ships0.take(i as int), budget0, table);
            let ghost done = views(self.shipments@).take(i as int);
            let ghost ships_now = self.shipments@;
            proof {
                assert(ships0.take(i + 1).drop_last() == ships0.take(i as int));
                assert(ships0.take(i + 1).last() == ships0[i as int]);
                assert(priced_by(ships0[i as int], table));
                assert(self.shipments[i as int]@ == ships0[i as int]);
            }
            if !self.shipments[i].ignored {
                let point = self.price_repo.get_price(
                    self.shipments[i].size.as_str(),
                    self.shipments[i].service.as_str(),
                );
                self.shipments[i].price = point;
                let ghost first = self.shipments[i as int]@;
                let ghost rules_in = models(discounts@);
                let mut j: usize = 0;
                while j < m
                    invariant
                        j <= m,
                        i < n,
                        n == self.shipments.len(),
                        m == discounts.len(),
                        m == rules_in.len(),
                        self.price_repo.table() == table,
                        table.dom().contains((first.size, first.service)),
                        self.shipments[i as int]@.size == first.size,
                        self.shipments[i as int]@.service == first.service,
                        forall|k: int|
                            0 <= k < n && k != i ==> (#[trigger] self.shipments[k]) == ships_now[k],
                        forall|k: int|
                            0 <= k < j ==> has_room(
                                #[trigger] discounts[k].model(),
                                (n - i - 1) as nat,
                            ),
                        forall|k: int|
                            j <= k < m ==> has_room(#[trigger] rules_in[k], (n - i) as nat),
                        forall|k: int| j <= k < m ==> (#[trigger] discounts[k]).model() == rules_in[k],
                        models(discounts@).take(j as int) == spec_apply_rules(
                            rules_in.take(j as int),
                            first,
                            before.budget,
                            table,
                        ).rules,
                        self.shipments[i as int]@ == spec_apply_rules(
                            rules_in.take(j as int),
                            first,
                            before.budget,
                            table,
                        ).shipment,
                        self.available_discount == spec_apply_rules(
                            rules_in.take(j as int),
                            first,
                            before.budget,
                            table,
                        ).budget,
                    decreases m - j,
                {
                    let ghost seen = models(discounts@).take(j as int);
                    let ghost rule = discounts[j as int].model();
                    let ghost s = self.shipments[i as int]@;
                    let ghost b = self.available_discount as nat;
                    proof {
                        assert(rules_in.take(j + 1).drop_last() == rules_in.take(j as int));
                        assert(rules_in.take(j + 1).last() == rule);
                        lemma_apply_keeps_room(rule, s, b, table, (n - i) as nat);
                    }
                    discounts[j].apply(
                        &mut self.shipments[i],
                        &mut self.available_discount,
                        &self.price_repo,
                    );
                    proof {
                        assert(models(discounts@).take(j + 1) == seen.push(
                            spec_apply(rule, s, b, table).rule,
                        ));
                    }
                    j += 1;
                }
                proof {
                    assert(rules_in.take(m as int) == rules_in);
                    assert(models(discounts@).take(m as int) == models(discounts@));
                }
            }
            proof {
                assert(views(self.shipments@).take(i + 1) == done.push(self.shipments[i as int]@));
            }
            i += 1;
        }
        proof {
            assert(ships0.take(n as int) == ships0);
            assert(views(self.shipments@).take(n as int) == views(self.shipments@));
        }
    }
}

/// The allowance of one month, in cents.
pub const MAX_DISCOUNT: u64 = 1000;

/// The line break between two output lines.
pub open spec fn line_break() -> Seq<char> {
    seq!['\n']
}

/// The output lines of a list of records.
pub open spec fn spec_lines(shipments: Seq<ShipmentView>) -> Seq<Seq<char>> {
    Seq::new(shipments.len(), |i: int| spec_render(shipments[i]))
}

/// The output of a month: one line per record, in order.
pub open spec fn spec_render_window(w: WindowView) -> Seq<char> {
    spec_join(spec_lines(w.shipments), line_break())
}

/// The output of a list of months, one after the other.
pub open spec fn spec_render_all(windows: Seq<WindowView>) -> Seq<char> {
    spec_join(Seq::new(windows.len(), |i: int| spec_render_window(windows[i])), line_break())
}

impl<R: Repository> MonthWindow<R> {
    /// The output of the month: one line per record, in order.
    pub fn render(&self) -> (out: String)
        ensures
            out@ == spec_render_window(self@),
    {
        let mut lines: Vec<String> = Vec::new();
        let n = self.shipments.len();
        let mut i: usize = 0;
        while i < n
            invariant
                i <= n,
                n == self.shipments.len(),
                texts(lines@) == spec_lines(views(self.shipments@)).take(i as int),
            decreases n - i,
        {
            let line = self.shipments[i].render();
            let ghost prev = lines@;
            lines.push(line);
            proof {
                let all = spec_lines(views(self.shipments@));
                assert(texts(lines@) == texts(prev).push(line@));
                assert(all.take(i + 1) == all.take(i as int).push(all[i as int]));
            }
            i += 1;
        }
        proof {
            reveal_strlit("\n");
            assert("\n"@ == line_break());
            assert(spec_lines(views(self.shipments@)).take(n as int) == spec_lines(
                views(self.shipments@),
            ));
        }
        join(&lines, "\n")
    }
}

/// The month windows of a log, in input order.
pub struct Shipments<R: Repository> {
    pub month_windows: Vec<MonthWindow<R>>,
}

/// What each window of a list holds.
pub open spec fn window_views<R: Repository>(windows: Seq<MonthWindow<R>>) -> Seq<WindowView> {
    Seq::new(windows.len(), |i: int| windows[i]@)
}

impl<R: Repository> View for Shipments<R> {
    type V = Seq<WindowView>;

    open spec fn view(&self) -> Seq<WindowView> {
        window_views(self.month_windows@)
    }
}

impl<R: Repository> Shipments<R> {
    /// The output of the whole log.
    pub fn render(&self) -> (out: String)
        ensures
            out@ == spec_render_all(self@),
    {
        let mut parts: Vec<String> = Vec::new();
        let n = self.month_windows.len();
        let ghost expected = Seq::new(self@.len(), |i: int| spec_render_window(self@[i]));
        let mut i: usize = 0;
        while i < n
            invariant
                i <= n,
                n == self.month_windows.len(),
                expected == Seq::new(self@.len(), |i: int| spec_render_window(self@[i])),
                texts(parts@) == expected.take(i as int),
            decreases n - i,
        {
            let part = self.month_windows[i].render();
            let ghost prev = parts@;
            parts.push(part);
            proof {
                assert(texts(parts@) == texts(prev).push(part@));
                assert(expected.take(i + 1) == expected.take(i as int).push(expected[i as int]));
            }
            i += 1;
        }
        proof {
            reveal_strlit("\n");
            assert("\n"@ == line_break());
            assert(expected.take(n as int) == expected);
        }
        join(&parts, "\n")
    }
}

/// The records of a log split into runs of one year and month: a record
/// joins the run before it where the two share year and month, and starts a
/// new run where they do not.
pub open spec fn spec_group(records: Seq<ShipmentView>) -> Seq<Seq<ShipmentView>>
    decreases records.len(),
{
    if records.len() == 0 {
        Seq::empty()
    } else {
        let before = spec_group(records.drop_last());
        let s = records.last();
        if before.len() > 0 && spec_year_month(before.last().last().date) == spec_year_month(
            s.date,
        ) {
            before.drop_last().push(before.last().push(s))
        } else {
            before.push(seq![s])
        }
    }
}

/// No run is empty, and the last run ends with the last record.
pub proof fn lemma_group_nonempty(records: Seq<ShipmentView>)
    ensures
        forall|i: int|
            0 <= i < spec_group(records).len() ==> (#[trigger] spec_group(records)[i]).len() > 0,
        records.len() > 0 ==> spec_group(records).len() > 0 && spec_group(
            records,
        ).last().last() == records.last(),
        records.len() == 0 ==> spec_group(records).len() == 0,
    decreases records.len(),
{
    if records.len() > 0 {
        lemma_group_nonempty(records.drop_last());
    }
}

/// An untouched window over the standard prices with the full allowance.
pub open spec fn fresh_window(shipments: Seq<ShipmentView>) -> WindowView {
    WindowView { budget: MAX_DISCOUNT as nat, shipments, table: standard_table() }
}

/// Opens a window for each run of one year and month, in input order.
pub fn group_by_month(records: Vec<Shipment>) -> (months: Vec<MonthWindow<PriceRepository>>)
    ensures
        window_views(months@) == Seq::new(
            spec_group(views(records@)).len(),
            |i: int| fresh_window(spec_group(views(records@))[i]),
        ),
{
    let ghost all = views(records@);
    let mut months: Vec<MonthWindow<PriceRepository>> = Vec::new();
    let n = records.len();
    let mut records = records;
    let mut rest: Vec<Shipment> = Vec::new();
    // Turn the log round, so that its records are taken off the end in input order.
    while records.len() > 0
        invariant
            records.len() + rest.len() == n,
            n == all.len(),
            forall|k: int| 0 <= k < records.len() ==> (#[trigger] records[k])@ == all[k],
            forall|k: int| 0 <= k < rest.len() ==> (#[trigger] rest[k])@ == all[n - 1 - k],
        decreases records.len(),
    {
        let s = records.pop().unwrap();
        rest.push(s);
    }
    let mut i: usize = 0;
    proof {
        assert(all.take(0) == Seq::<ShipmentView>::empty());
        assert(window_views(months@) == Seq::new(
            spec_group(all.take(0)).len(),
            |k: int| fresh_window(spec_group(all.take(0))[k]),
        ));
    }
    while i < n
        invariant
            i <= n,
            n == all.len(),
            rest.len() == n - i,
            forall|k: int| 0 <= k < rest.len() ==> (#[trigger] rest[k])@ == all[n - 1 - k],
            window_views(months@) == Seq::new(
                spec_group(all.take(i as int)).len(),
                |k: int| fresh_window(spec_group(all.take(i as int))[k]),
            ),
        decreases n - i,
    {
        let ghost groups = spec_group(all.take(i as int));
        let ghost before = window_views(months@);
        let shipment = rest.pop().unwrap();
        proof {
            assert(shipment@ == all[i as int]);
            assert(all.take(i + 1).drop_last() == all.take(i as int));
            assert(all.take(i + 1).last() == all[i as int]);
            lemma_group_nonempty(all.take(i as int));
            assert(before.len() == months.len());
            assert(months.len() == groups.len());
            if months.len() > 0 {
                assert(before[months.len() - 1] == fresh_window(groups.last()));
                assert(months[months.len() - 1]@.shipments == groups.last());
            }
        }
        let open_new = if months.len() == 0 {
            true
        } else {
            let last = &months[months.len() - 1];
            let previous = &last.shipments[last.shipments.len() - 1];
            !same_text(shipment.get_year_month(), previous.get_year_month())
        };
        if open_new {
            months.push(MonthWindow::new(MAX_DISCOUNT, PriceRepository::new()));
        }
        let k = months.len() - 1;
        let ghost opened = months@;
        months[k].add(shipment);
        proof {
            let after = spec_group(all.take(i + 1));
            let expected = Seq::new(after.len(), |j: int| fresh_window(after[j]));
            assert(window_views(months@).len() == expected.len());
            assert forall|j: int| 0 <= j < expected.len() implies window_views(months@)[j]
                == expected[j] by {
                if j < k {
                    assert(months[j] == opened[j]);
                    assert(window_views(opened)[j] == before[j]);
                } else {
                    if open_new {
                        assert(views(opened[k as int].shipments@) == Seq::<ShipmentView>::empty());
                        assert(after[j] == seq![all[i as int]]);
                    } else {
                        assert(before[k as int] == fresh_window(groups.last()));
                    }
                    assert(months[j]@.shipments == after[j]);
                }
            }
            assert(window_views(months@) == expected);
        }
        i += 1;
    }
    proof {
        assert(all.take(n as int) == all);
    }
    months
}

/// The rules at the start of a month, in the order in which they are applied.
pub open spec fn fresh_rules() -> Seq<RuleModel> {
    seq![RuleModel::Small, RuleModel::Large { purchases: 0 }]
}

/// A month after pricing: its records priced in order by fresh rules out of
/// the full allowance.
pub open spec fn spec_window(shipments: Seq<ShipmentView>) -> WindowView {
    let out = spec_apply_discounts(
        fresh_rules(),
        shipments,
        MAX_DISCOUNT as nat,
        standard_table(),
    );
    WindowView { budget: out.budget, shipments: out.shipments, table: standard_table() }
}

/// A log after pricing: its runs of one year and month, each priced as a
/// month of its own.
pub open spec fn spec_price_shipments(records: Seq<ShipmentView>) -> Seq<WindowView> {
    let groups = spec_group(records);
    Seq::new(groups.len(), |i: int| spec_window(groups[i]))
}

/// Where the table prices every record of a log, it prices every record of
/// every run.
pub proof fn lemma_group_priced(records: Seq<ShipmentView>, table: PriceTable)
    requires
        forall|k: int| 0 <= k < records.len() ==> priced_by(#[trigger] records[k], table),
    ensures
        forall|i: int, j: int|
            0 <= i < spec_group(records).len() && 0 <= j < spec_group(records)[i].len()
                ==> priced_by(#[trigger] spec_group(records)[i][j], table),
    decreases records.len(),
{
    if records.len() > 0 {
        let before = spec_group(records.drop_last());
        assert forall|k: int| 0 <= k < records.drop_last().len() implies priced_by(
            #[trigger] records.drop_last()[k],
            table,
        ) by {
            assert(records.drop_last()[k] == records[k]);
        }
        lemma_group_priced(records.drop_last(), table);
        assert(priced_by(records[records.len() - 1], table));
    }
}

/// Prices a log of records: splits it into months and passes each month
/// through the two rules, small before large, with a fresh allowance.
pub fn price_shipments(records: Vec<Shipment>) -> (priced: Shipments<PriceRepository>)
    requires
        forall|k: int| 0 <= k < records.len() ==> priced_by(#[trigger] records[k]@, standard_table()),
    ensures
        priced@ == spec_price_shipments(views(records@)),
{
    let ghost groups = spec_group(views(records@));
    proof {
        assert forall|k: int| 0 <= k < views(records@).len() implies priced_by(
            #[trigger] views(records@)[k],
            standard_table(),
        ) by {
            assert(views(records@)[k] == records[k]@);
        }
        lemma_group_priced(views(records@), standard_table());
    }
    let mut months = group_by_month(records);
    let n = months.len();
    let mut i: usize = 0;
    proof {
        assert(window_views(months@).len() == n);
        assert forall|k: int| 0 <= k < n implies (#[trigger] months[k])@ == fresh_window(
            groups[k],
        ) by {
            assert(months[k]@ == window_views(months@)[k]);
        }
    }
    while i < n
        invariant
            i <= n,
            n == months.len(),
            n == groups.len(),
            forall|a: int, b: int|
                0 <= a < groups.len() && 0 <= b < groups[a].len() ==> priced_by(
                    #[trigger] groups[a][b],
                    standard_table(),
                ),
            forall|k: int| 0 <= k < i ==> (#[trigger] months[k])@ == spec_window(groups[k]),
            forall|k: int| i <= k < n ==> (#[trigger] months[k])@ == fresh_window(groups[k]),
        decreases n - i,
    {
        let mut discounts: Vec<Rule> = Vec::new();
        discounts.push(Rule::Small(SDiscount));
        discounts.push(Rule::Large(LDiscount::new()));
        let ghost before = months@;
        let count = months[i].shipments.len();
        proof {
            assert(models(discounts@) == fresh_rules());
            assert(months[i as int]@ == fresh_window(groups[i as int]));
            assert forall|k: int| 0 <= k < months[i as int]@.shipments.len() implies priced_by(
                #[trigger] months[i as int]@.shipments[k],
                months[i as int]@.table,
            ) by {
                assert(months[i as int]@.shipments[k] == groups[i as int][k]);
            }
            assert(months[i as int]@.shipments.len() == count);
            assert forall|j: int| 0 <= j < discounts.len() implies has_room(
                #[trigger] discounts[j].model(),
                months[i as int]@.shipments.len(),
            ) by {
                assert(discounts[j].model() == models(discounts@)[j]);
            }
        }
        months[i].apply_discounts(&mut discounts);
        proof {
            assert forall|k: int| 0 <= k < n && k != i implies (#[trigger] months[k]) == before[k] by {}
        }
        i += 1;
    }
    let priced = Shipments { month_windows: months };
    assert(priced@ == spec_price_shipments(views(records@)));
    priced
}

/// The records of a list of input lines: each line without the white space
/// around it, blank lines left out, read as a record.
pub open spec fn spec_records(lines: Seq<Seq<char>>) -> Seq<ShipmentView>
    decreases lines.len(),
{
    if lines.len() == 0 {
        Seq::empty()
    } else {
        let before = spec_records(lines.drop_last());
        let line = spec_trim(lines.last());
        if line.len() == 0 {
            before
        } else {
            before.push(spec_parse(line))
        }
    }
}

/// The standard table prices every record read from a line, unless the
/// record is rejected.
pub proof fn lemma_parsed_is_priced(line: Seq<char>)
    ensures
        priced_by(spec_parse(line), standard_table()),
{
}

/// The standard table prices every record read from a list of lines.
pub proof fn lemma_records_are_priced(lines: Seq<Seq<char>>)
    ensures
        forall|k: int|
            0 <= k < spec_records(lines).len() ==> priced_by(
                #[trigger] spec_records(lines)[k],
                standard_table(),
            ),
    decreases lines.len(),
{
    if lines.len() > 0 {
        let before = spec_records(lines.drop_last());
        lemma_records_are_priced(lines.drop_last());
        lemma_parsed_is_priced(spec_trim(lines.last()));
        assert forall|k: int| 0 <= k < spec_records(lines).len() implies priced_by(
            #[trigger] spec_records(lines)[k],
            standard_table(),
        ) by {
            if k < before.len() {
                assert(spec_records(lines)[k] == before[k]);
            }
        }
    }
}

/// Reads the records of a list of input lines.
pub fn collect_records(lines: &Vec<String>) -> (records: Vec<Shipment>)
    ensures
        views(records@) == spec_records(texts(lines@)),
{
    let mut records: Vec<Shipment> = Vec::new();
    let n = lines.len();
    let mut i: usize = 0;
    proof {
        assert(texts(lines@).take(0) == Seq::<Seq<char>>::empty());
    }
    while i < n
        invariant
            i <= n,
            n == lines.len(),
            views(records@) == spec_records(texts(lines@).take(i as int)),
        decreases n - i,
    {
        proof {
            let t = texts(lines@).take(i + 1);
            assert(t.drop_last() == texts(lines@).take(i as int));
            assert(t.last() == lines[i as int]@);
        }
        let line = trim(lines[i].as_str());
        if !line.is_empty() {
            let ghost prev = records@;
            let record = Shipment::from(String::from_str(line));
            records.push(record);
            assert(views(records@) == views(prev).push(record@));
        }
        i += 1;
    }
    proof {
        assert(texts(lines@).take(n as int) == texts(lines@));
    }
    records
}

/// Reads a shipment log line by line and prices it.
pub fn process_shipments(lines: Vec<String>) -> (priced: Shipments<PriceRepository>)
    ensures
        priced@ == spec_price_shipments(spec_records(texts(lines@))),
{
    let records = collect_records(&lines);
    proof {
        lemma_records_are_priced(texts(lines@));
        assert forall|k: int| 0 <= k < records.len() implies priced_by(
            #[trigger] records[k]@,
            standard_table(),
        ) by {
            assert(records[k]@ == views(records@)[k]);
        }
    }
    price_shipments(records)
}

} // verus!
