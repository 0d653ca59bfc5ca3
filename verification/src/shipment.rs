//! Shipment records: the codes they carry, how a line of the log becomes a
//! record, and how a record is written out.

use vstd::prelude::*;
use vstd::string::*;
use crate::amount::{push_amount, spec_amount};
use crate::text::{same_text, spec_split, spec_upper, split, texts, to_upper};

verus! {

/// Code of the small size class.
pub open spec fn small() -> Seq<char> {
    seq!['S']
}

/// Code of the medium size class.
pub open spec fn medium() -> Seq<char> {
    seq!['M']
}

/// Code of the large size class.
pub open spec fn large() -> Seq<char> {
    seq!['L']
}

/// Code of the provider La Poste, whose large parcels are promoted.
pub open spec fn la_poste() -> Seq<char> {
    seq!['L', 'P']
}

/// Code of the provider Mondial Relay.
pub open spec fn mondial_relay() -> Seq<char> {
    seq!['M', 'R']
}

/// Whether a text is the code of a size class.
pub open spec fn is_size(s: Seq<char>) -> bool {
    s == small() || s == medium() || s == large()
}

/// Whether a text is the code of a provider.
pub open spec fn is_service(s: Seq<char>) -> bool {
    s == la_poste() || s == mondial_relay()
}

/// Whether a text is the code of the small size class.
pub fn is_small(s: &str) -> (b: bool)
    ensures
        b == (s@ == small()),
{
    proof {
        reveal_strlit("S");
        assert("S"@ =~= small());
    }
    same_text(s, "S")
}

/// Whether a text is the code of the medium size class.
pub fn is_medium(s: &str) -> (b: bool)
    ensures
        b == (s@ == medium()),
{
    proof {
        reveal_strlit("M");
        assert("M"@ =~= medium());
    }
    same_text(s, "M")
}

/// Whether a text is the code of the large size class.
pub fn is_large(s: &str) -> (b: bool)
    ensures
        b == (s@ == large()),
{
    proof {
        reveal_strlit("L");
        assert("L"@ =~= large());
    }
    same_text(s, "L")
}

/// Whether a text is the code of the provider La Poste.
pub fn is_la_poste(s: &str) -> (b: bool)
    ensures
        b == (s@ == la_poste()),
{
    proof {
        reveal_strlit("LP");
        assert("LP"@ =~= la_poste());
    }
    same_text(s, "LP")
}

/// Whether a text is the code of the provider Mondial Relay.
pub fn is_mondial_relay(s: &str) -> (b: bool)
    ensures
        b == (s@ == mondial_relay()),
{
    proof {
        reveal_strlit("MR");
        assert("MR"@ =~= mondial_relay());
    }
    same_text(s, "MR")
}

/// What a shipment record says: its three columns, whether it was rejected,
/// and the price and discount in cents.
pub struct ShipmentView {
    pub date: Seq<char>,
    pub size: Seq<char>,
    pub service: Seq<char>,
    pub ignored: bool,
    pub price: nat,
    pub discount: nat,
}

/// One record of the shipment log. Amounts are in cents.
pub struct Shipment {
    pub date: String,
    pub size: String,
    pub service: String,
    pub ignored: bool,
    pub price: u64,
    pub discount: u64,
}

impl View for Shipment {
    type V = ShipmentView;

    open spec fn view(&self) -> ShipmentView {
        ShipmentView {
            date: self.date@,
            size: self.size@,
            service: self.service@,
            ignored: self.ignored,
            price: self.price as nat,
            discount: self.discount as nat,
        }
    }
}

/// The year and month of a date: its first seven characters, or all of it
/// where it has fewer.
pub open spec fn spec_year_month(date: Seq<char>) -> Seq<char> {
    if date.len() < 7 {
        date
    } else {
        date.take(7)
    }
}

/// The columns of a line: its pieces between single spaces, in upper case.
pub open spec fn spec_columns(line: Seq<char>) -> Seq<Seq<char>> {
    let words = spec_split(line, ' ');
    Seq::new(words.len(), |i: int| spec_upper(words[i]))
}

/// The column at `i`, or the empty text where the line has no such column.
pub open spec fn column(cols: Seq<Seq<char>>, i: int) -> Seq<char> {
    if 0 <= i < cols.len() {
        cols[i]
    } else {
        Seq::empty()
    }
}

/// The record that a line stands for. It is rejected unless it has exactly
/// three columns, the second a size code and the third a provider code.
pub open spec fn spec_parse(line: Seq<char>) -> ShipmentView {
    let cols = spec_columns(line);
    ShipmentView {
        date: column(cols, 0),
        size: column(cols, 1),
        service: column(cols, 2),
        ignored: !(cols.len() == 3 && is_size(cols[1]) && is_service(cols[2])),
        price: 0,
        discount: 0,
    }
}

/// The text "Ignored".
pub open spec fn ignored_mark() -> Seq<char> {
    seq!['I', 'g', 'n', 'o', 'r', 'e', 'd']
}

/// The output line of a record: its three columns, then either the mark of a
/// rejected record, or the price and the discount, a zero discount as "-".
pub open spec fn spec_render(v: ShipmentView) -> Seq<char> {
    v.date + seq![' '] + v.size + seq![' '] + v.service + seq![' '] + (if v.ignored {
        ignored_mark()
    } else {
        spec_amount(v.price) + seq![' '] + (if v.discount == 0 {
            seq!['-']
        } else {
            spec_amount(v.discount)
        })
    })
}

impl Default for Shipment {
    fn default() -> (r: Shipment)
        ensures
            r@ == (ShipmentView {
                date: Seq::empty(),
                size: Seq::empty(),
                service: Seq::empty(),
                ignored: false,
                price: 0,
                discount: 0,
            }),
    {
        Shipment {
            date: String::new(),
            size: String::new(),
            service: String::new(),
            ignored: false,
            price: 0,
            discount: 0,
        }
    }
}

/// The upper-case text of column `i`, empty where there is no such column.
fn take_column(words: &Vec<String>, i: usize) -> (col: String)
    ensures
        col@ == column(Seq::new(words@.len(), |k: int| spec_upper(texts(words@)[k])), i as int),
{
    if i < words.len() {
        to_upper(words[i].as_str())
    } else {
        String::new()
    }
}

/// What `from` returns is stated over the record's view, in the contract of
/// `from` itself.
impl vstd::std_specs::convert::FromSpecImpl<String> for Shipment {
    open spec fn obeys_from_spec() -> bool {
        false
    }

    open spec fn from_spec(line: String) -> Shipment {
        arbitrary()
    }
}

impl From<String> for Shipment {
    /// Reads one line of the log.
    fn from(line: String) -> (r: Shipment)
        ensures
            r@ == spec_parse(line@),
    {
        let words = split(line.as_str(), ' ');
        let date = take_column(&words, 0);
        let size = take_column(&words, 1);
        let service = take_column(&words, 2);
        proof {
            assert(spec_columns(line@) =~= Seq::new(
                words@.len(),
                |k: int| spec_upper(texts(words@)[k]),
            ));
        }
        let known = words.len() == 3 && (is_small(size.as_str()) || is_medium(size.as_str())
            || is_large(size.as_str())) && (is_la_poste(service.as_str()) || is_mondial_relay(
            service.as_str(),
        ));
        Shipment { date, size, service, ignored: !known, price: 0, discount: 0 }
    }
}

impl Shipment {
    /// The year and month of the shipment's date.
    pub fn get_year_month(&self) -> (ym: &str)
        ensures
            ym@ == spec_year_month(self@.date),
    {
        let date = self.date.as_str();
        let n = date.unicode_len();
        if n < 7 {
            assert(date@.subrange(0, n as int) == date@);
            date.substring_char(0, n)
        } else {
            date.substring_char(0, 7)
        }
    }

    /// The output line of the record.
    pub fn render(&self) -> (line: String)
        ensures
            line@ == spec_render(self@),
    {
        proof {
            reveal_strlit(" ");
            reveal_strlit("-");
            reveal_strlit("Ignored");
            assert(" "@ =~= seq![' ']);
            assert("-"@ =~= seq!['-']);
            assert("Ignored"@ =~= ignored_mark());
        }
        let mut line = String::new();
        line.append(self.date.as_str());
        line.append(" ");
        line.append(self.size.as_str());
        line.append(" ");
        line.append(self.service.as_str());
        line.append(" ");
        if self.ignored {
            line.append("Ignored");
        } else {
            push_amount(&mut line, self.price);
            line.append(" ");
            if self.discount == 0 {
                line.append("-");
            } else {
                push_amount(&mut line, self.discount);
            }
        }
        assert(line@ =~= spec_render(self@));
        line
    }
}

} // verus!
