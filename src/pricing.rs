//! Products, shipping regions and VAT, folded into an itemised basket.
//!
//! Combining two products starts a basket; a region adds a shipping line and
//! its cost; VAT adds a tax line and taxes the running total. Order matters:
//! shipping combined before VAT is taxed, shipping combined after is not.
//! Combining a second region is allowed: it adds another shipping line and the
//! basket's region becomes the newer one. VAT may be combined repeatedly and
//! compounds each time.
use vstd::prelude::*;
use vstd::string::StringExecFns;
use crate::decimal::{can_add, can_take_percent, percent, sum, text, Decimal};

verus! {

/// Something for sale, and its price.
#[derive(Debug)]
pub struct Product {
    pub name: String,
    pub price: Decimal,
}

/// A shipping destination, and what shipping there costs.
#[derive(Debug)]
pub struct Region {
    pub name: String,
    pub price: Decimal,
}

/// A value-added tax rate, in percent.
#[derive(Clone, Copy, Debug)]
pub struct VAT {
    pub percentage: Decimal,
}

/// A receipt: the lines combined so far, the region shipped to (once one has
/// been combined), and the running total.
#[derive(Debug)]
pub struct Basket {
    pub items: Vec<String>,
    pub region: Option<String>,
    pub price: Decimal,
}

/// The line that shipping to `region` adds.
pub open spec fn shipping_line(region: Seq<char>) -> Seq<char> {
    "Shipping to "@ + region
}

/// The line that VAT at `percentage` adds, naming the region where one is set.
pub open spec fn vat_line(region: Option<Seq<char>>, percentage: Decimal) -> Seq<char> {
    match region {
        Some(r) => "VAT for "@ + r + " at "@ + text(percentage) + "%"@,
        None => "VAT at "@ + text(percentage) + "%"@,
    }
}

/// The text of an optional string.
pub open spec fn option_text(o: Option<String>) -> Option<Seq<char>> {
    match o {
        Some(s) => Some(s@),
        None => None,
    }
}

impl Basket {
    /// The basket's lines, as text.
    pub open spec fn lines(&self) -> Seq<Seq<char>> {
        self.items@.map_values(|s: String| s@)
    }

    /// The region's name, as text.
    pub open spec fn region_name(&self) -> Option<Seq<char>> {
        option_text(self.region)
    }

    /// Adds shipping to `rhs`: its cost joins the total, a shipping line is
    /// appended, and `rhs` becomes the basket's region.
    pub fn add(self, rhs: Region) -> (r: Basket)
        requires
            can_add(self.price, rhs.price),
        ensures
            r.price == sum(self.price, rhs.price),
            r.region_name() == Some(rhs.name@),
            r.lines() == self.lines().push(shipping_line(rhs.name@)),
    {
        let mut items = self.items;
        let line = String::from_str("Shipping to ").concat(rhs.name.as_str());
        items.push(line);
        let price = self.price.add(&rhs.price);
        let r = Basket { items, region: Some(rhs.name), price };
        assert(r.lines() =~= self.lines().push(shipping_line(rhs.name@)));
        r
    }

    /// Applies VAT at `rhs.percentage` to the running total, shipping
    /// included, and appends a VAT line. The region is kept.
    pub fn rem(self, rhs: VAT) -> (r: Basket)
        requires
            can_take_percent(self.price, rhs.percentage),
            can_add(self.price, percent(self.price, rhs.percentage)),
        ensures
            r.price == sum(self.price, percent(self.price, rhs.percentage)),
            r.region_name() == self.region_name(),
            r.lines() == self.lines().push(vat_line(self.region_name(), rhs.percentage)),
    {
        let rate = rhs.percentage.to_text();
        let line = match &self.region {
            Some(name) => String::from_str("VAT for ").concat(name.as_str()).concat(" at ").concat(
                rate.as_str(),
            ).concat("%"),
            None => String::from_str("VAT at ").concat(rate.as_str()).concat("%"),
        };
        let mut items = self.items;
        items.push(line);
        let tax = self.price.percent_of(&rhs.percentage);
        let price = self.price.add(&tax);
        let r = Basket { items, region: self.region, price };
        assert(r.lines() =~= self.lines().push(vat_line(self.region_name(), rhs.percentage)));
        r
    }
}

impl Product {
    /// Starts a basket from two products: their names in order, the sum of
    /// their prices, and no region.
    pub fn add(self, rhs: Product) -> (r: Basket)
        requires
            can_add(self.price, rhs.price),
        ensures
            r.price == sum(self.price, rhs.price),
            r.region_name() == None::<Seq<char>>,
            r.lines() == seq![self.name@, rhs.name@],
    {
        let price = self.price.add(&rhs.price);
        let r = Basket { items: vec![self.name, rhs.name], region: None, price };
        assert(r.lines() =~= seq![self.name@, rhs.name@]);
        r
    }
}

} // verus!
