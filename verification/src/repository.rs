//! Point prices by size class and provider.

use vstd::prelude::*;
use crate::shipment::{
    is_la_poste,
    is_medium,
    is_service,
    is_size,
    is_small,
    la_poste,
    large,
    medium,
    mondial_relay,
    small,
};

verus! {

/// A price table: the point price in cents of each pair of a size code and a
/// provider code that it covers.
pub type PriceTable = Map<(Seq<char>, Seq<char>), nat>;

/// Whether the table prices `size` with at least one provider.
pub open spec fn has_size(table: PriceTable, size: Seq<char>) -> bool {
    exists|service: Seq<char>| #[trigger] table.dom().contains((size, service))
}

/// Whether `p` is the lowest price of `size` in the table: some provider
/// charges it, and none charges less.
pub open spec fn is_min_price(table: PriceTable, size: Seq<char>, p: nat) -> bool {
    &&& exists|service: Seq<char>| #[trigger]
        table.dom().contains((size, service)) && table[(size, service)] == p
    &&& forall|service: Seq<char>| #[trigger]
        table.dom().contains((size, service)) ==> p <= table[(size, service)]
}

/// The lowest price of `size` over the providers of the table.
pub open spec fn spec_min_price(table: PriceTable, size: Seq<char>) -> nat {
    choose|p: nat| is_min_price(table, size, p)
}

/// A size has at most one lowest price.
pub proof fn lemma_min_price_unique(table: PriceTable, size: Seq<char>, p: nat)
    requires
        is_min_price(table, size, p),
    ensures
        spec_min_price(table, size) == p,
{
    let q = spec_min_price(table, size);
    assert(is_min_price(table, size, q));
    let sp = choose|service: Seq<char>| #[trigger]
        table.dom().contains((size, service)) && table[(size, service)] == p;
    let sq = choose|service: Seq<char>| #[trigger]
        table.dom().contains((size, service)) && table[(size, service)] == q;
    assert(table.dom().contains((size, sp)));
    assert(table.dom().contains((size, sq)));
}

/// A size with a price of at most `bound` has a lowest price.
proof fn lemma_min_price_below(table: PriceTable, size: Seq<char>, service: Seq<char>, bound: nat)
    requires
        table.dom().contains((size, service)),
        table[(size, service)] <= bound,
    ensures
        exists|p: nat| is_min_price(table, size, p),
    decreases bound,
{
    let p = table[(size, service)];
    if exists|other: Seq<char>| #[trigger]
        table.dom().contains((size, other)) && table[(size, other)] < p {
        let other = choose|other: Seq<char>| #[trigger]
            table.dom().contains((size, other)) && table[(size, other)] < p;
        lemma_min_price_below(table, size, other, (p - 1) as nat);
    } else {
        assert(is_min_price(table, size, p));
    }
}

/// A size that the table prices has a lowest price, and that is at most the
/// point price of the size with any provider.
pub proof fn lemma_min_price_is_lowest(table: PriceTable, size: Seq<char>, service: Seq<char>)
    requires
        table.dom().contains((size, service)),
    ensures
        is_min_price(table, size, spec_min_price(table, size)),
        spec_min_price(table, size) <= table[(size, service)],
{
    lemma_min_price_below(table, size, service, table[(size, service)]);
}

/// A source of point prices.
pub trait Repository {
    /// The prices that the source holds.
    spec fn table(&self) -> PriceTable;

    /// The lowest price of a size over all providers.
    fn get_min_price_by_size(&self, size: &str) -> (p: u64)
        requires
            has_size(self.table(), size@),
        ensures
            p == spec_min_price(self.table(), size@),
    ;

    /// The point price of a size with a provider.
    fn get_price(&self, size: &str, service: &str) -> (p: u64)
        requires
            self.table().dom().contains((size@, service@)),
        ensures
            p == self.table()[(size@, service@)],
    ;
}

/// The price in cents that the standard table gives a size with a provider.
pub open spec fn standard_price(size: Seq<char>, service: Seq<char>) -> nat {
    if service == la_poste() {
        if size == small() {
            150
        } else if size == medium() {
            490
        } else {
            690
        }
    } else {
        if size == small() {
            200
        } else if size == medium() {
            300
        } else {
            400
        }
    }
}

/// The standard table: every size class with both providers.
pub open spec fn standard_table() -> PriceTable {
    Map::new(
        |k: (Seq<char>, Seq<char>)| is_size(k.0) && is_service(k.1),
        |k: (Seq<char>, Seq<char>)| standard_price(k.0, k.1),
    )
}

/// The prices of one provider, by size class.
struct ServicePrices {
    small: u64,
    medium: u64,
    large: u64,
}

impl ServicePrices {
    spec fn spec_price(&self, size: Seq<char>) -> nat {
        if size == small() {
            self.small as nat
        } else if size == medium() {
            self.medium as nat
        } else {
            self.large as nat
        }
    }

    fn price(&self, size: &str) -> (p: u64)
        ensures
            p == self.spec_price(size@),
    {
        if is_small(size) {
            self.small
        } else if is_medium(size) {
            self.medium
        } else {
            self.large
        }
    }
}

/// The fixed price table of the two providers.
pub struct PriceRepository {
    lp: ServicePrices,
    mr: ServicePrices,
}

impl PriceRepository {
    /// The standard prices.
    pub fn new() -> (r: Self)
        ensures
            r.table() == standard_table(),
    {
        let r = PriceRepository {
            lp: ServicePrices { small: 150, medium: 490, large: 690 },
            mr: ServicePrices { small: 200, medium: 300, large: 400 },
        };
        assert(r.table() =~= standard_table());
        r
    }
}

impl Repository for PriceRepository {
    closed spec fn table(&self) -> PriceTable {
        Map::new(
            |k: (Seq<char>, Seq<char>)| is_size(k.0) && is_service(k.1),
            |k: (Seq<char>, Seq<char>)|
                if k.1 == la_poste() {
                    self.lp.spec_price(k.0)
                } else {
                    self.mr.spec_price(k.0)
                },
        )
    }

    fn get_min_price_by_size(&self, size: &str) -> (p: u64) {
        let p1 = self.mr.price(size);
        let p2 = self.lp.price(size);
        proof {
            let t = self.table();
            let witness = choose|service: Seq<char>| #[trigger]
                t.dom().contains((size@, service));
            assert(t.dom().contains((size@, witness)));
            assert(t.dom().contains((size@, mondial_relay())));
            assert(t.dom().contains((size@, la_poste())));
            assert(mondial_relay() != la_poste()) by {
                assert(mondial_relay()[0] != la_poste()[0]);
            }
        }
        let p = if p1 < p2 {
            p1
        } else {
            p2
        };
        proof {
            lemma_min_price_unique(self.table(), size@, p as nat);
        }
        p
    }

    fn get_price(&self, size: &str, service: &str) -> (p: u64) {
        if is_la_poste(service) {
            self.lp.price(size)
        } else {
            self.mr.price(size)
        }
    }
}

/// Every pair that the standard table covers, with its price.
pub proof fn lemma_standard_table()
    ensures
        forall|size: Seq<char>, service: Seq<char>|
            #[trigger] standard_table().dom().contains((size, service)) <==> is_size(size)
                && is_service(service),
        standard_table()[(small(), la_poste())] == 150,
        standard_table()[(medium(), la_poste())] == 490,
        standard_table()[(large(), la_poste())] == 690,
        standard_table()[(small(), mondial_relay())] == 200,
        standard_table()[(medium(), mondial_relay())] == 300,
        standard_table()[(large(), mondial_relay())] == 400,
        spec_min_price(standard_table(), small()) == 150,
        spec_min_price(standard_table(), medium()) == 300,
        spec_min_price(standard_table(), large()) == 400,
{
    assert(small()[0] != medium()[0]);
    assert(small()[0] != large()[0]);
    assert(medium()[0] != large()[0]);
    assert(mondial_relay()[0] != la_poste()[0]);
    let t = standard_table();
    assert(t.dom().contains((small(), la_poste())));
    assert(t.dom().contains((medium(), mondial_relay())));
    assert(t.dom().contains((large(), mondial_relay())));
    lemma_min_price_unique(t, small(), 150);
    lemma_min_price_unique(t, medium(), 300);
    lemma_min_price_unique(t, large(), 400);
}

} // verus!
