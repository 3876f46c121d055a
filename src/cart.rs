//! A cart that catalogues shipping regions and products by name.
//!
//! Each catalogue holds at most one entry per name: adding under a name that
//! is already there replaces its price and leaves the count unchanged. Nothing
//! is ever removed.
use vstd::prelude::*;
use vstd::string::StringExecFns;
use crate::decimal::Decimal;

verus! {

/// What a sequence of entries maps each name to: the later entry wins.
pub open spec fn entries_map(s: Seq<(String, Decimal)>) -> Map<Seq<char>, Decimal>
    decreases s.len(),
{
    if s.len() == 0 {
        Map::empty()
    } else {
        entries_map(s.drop_last()).insert(s.last().0@, s.last().1)
    }
}

/// No two entries share a name.
pub open spec fn names_unique(s: Seq<(String, Decimal)>) -> bool {
    forall|i: int, j: int| 0 <= i < j < s.len() ==> s[i].0@ != s[j].0@
}

proof fn lemma_entries_map_keys(s: Seq<(String, Decimal)>, k: Seq<char>)
    ensures
        entries_map(s).dom().finite(),
        entries_map(s).contains_key(k) <==> exists|i: int| 0 <= i < s.len() && s[i].0@ == k,
    decreases s.len(),
{
    if s.len() > 0 {
        let p = s.drop_last();
        lemma_entries_map_keys(p, k);
        if entries_map(p).contains_key(k) {
            let i = choose|i: int| 0 <= i < p.len() && p[i].0@ == k;
            assert(s[i] == p[i]);
        }
        if exists|i: int| 0 <= i < s.len() && s[i].0@ == k {
            let i = choose|i: int| 0 <= i < s.len() && s[i].0@ == k;
            if i < s.len() - 1 {
                assert(p[i] == s[i]);
            }
        }
    }
}

proof fn lemma_entries_map_len(s: Seq<(String, Decimal)>)
    requires
        names_unique(s),
    ensures
        entries_map(s).dom().finite(),
        entries_map(s).dom().len() == s.len(),
    decreases s.len(),
{
    lemma_entries_map_keys(s, Seq::empty());
    if s.len() > 0 {
        let p = s.drop_last();
        assert(names_unique(p)) by {
            assert forall|i: int, j: int| 0 <= i < j < p.len() implies p[i].0@ != p[j].0@ by {
                assert(p[i] == s[i] && p[j] == s[j]);
            }
        }
        lemma_entries_map_len(p);
        lemma_entries_map_keys(p, s.last().0@);
        if entries_map(p).contains_key(s.last().0@) {
            let i = choose|i: int| 0 <= i < p.len() && p[i].0@ == s.last().0@;
            assert(p[i] == s[i]);
        }
    }
}

proof fn lemma_entries_map_update(s: Seq<(String, Decimal)>, i: int, e: (String, Decimal))
    requires
        names_unique(s),
        0 <= i < s.len(),
        s[i].0@ == e.0@,
    ensures
        entries_map(s.update(i, e)) == entries_map(s).insert(e.0@, e.1),
    decreases s.len(),
{
    let t = s.update(i, e);
    let p = s.drop_last();
    if i == s.len() - 1 {
        assert(t.drop_last() =~= p);
        assert(entries_map(t) =~= entries_map(s).insert(e.0@, e.1));
    } else {
        assert(t.drop_last() =~= p.update(i, e));
        assert(names_unique(p)) by {
            assert forall|a: int, b: int| 0 <= a < b < p.len() implies p[a].0@ != p[b].0@ by {
                assert(p[a] == s[a] && p[b] == s[b]);
            }
        }
        lemma_entries_map_update(p, i, e);
        assert(s[i].0@ != s.last().0@);
        assert(entries_map(t) =~= entries_map(s).insert(e.0@, e.1));
    }
}

/// Prices kept by name, one entry per name.
pub struct Catalog {
    entries: Vec<(String, Decimal)>,
}

impl View for Catalog {
    type V = Map<Seq<char>, Decimal>;

    closed spec fn view(&self) -> Map<Seq<char>, Decimal> {
        entries_map(self.entries@)
    }
}

impl Catalog {
    /// The entries have distinct names.
    pub closed spec fn wf(&self) -> bool {
        names_unique(self.entries@)
    }

    /// An empty catalogue.
    pub fn new() -> (r: Catalog)
        ensures
            r.wf(),
            r@ == Map::<Seq<char>, Decimal>::empty(),
    {
        Catalog { entries: Vec::new() }
    }

    /// Sets the price kept under `name`, adding the name if it is new.
    pub fn insert(&mut self, name: String, price: Decimal)
        requires
            old(self).wf(),
        ensures
            final(self).wf(),
            final(self)@ == old(self)@.insert(name@, price),
    {
        let mut i: usize = 0;
        while i < self.entries.len()
            invariant
                i <= self.entries.len(),
                self.entries@ == old(self).entries@,
                names_unique(self.entries@),
                forall|j: int| 0 <= j < i ==> self.entries@[j].0@ != name@,
            decreases self.entries.len() - i,
        {
            if self.entries[i].0 == name {
                let ghost before = self.entries@;
                let ghost e = (name, price);
                proof {
                    lemma_entries_map_update(before, i as int, e);
                }
                self.entries.set(i, (name, price));
                assert(self.entries@ =~= before.update(i as int, e));
                assert(names_unique(self.entries@)) by {
                    assert forall|a: int, b: int|
                        0 <= a < b < self.entries@.len() implies self.entries@[a].0@
                        != self.entries@[b].0@ by {
                        if a != i && b != i {
                            assert(self.entries@[a] == before[a] && self.entries@[b] == before[b]);
                        } else if a == i {
                            assert(self.entries@[b] == before[b]);
                        } else {
                            assert(self.entries@[a] == before[a]);
                        }
                    }
                }
                return;
            }
            i = i + 1;
        }
        let ghost before = self.entries@;
        self.entries.push((name, price));
        assert(self.entries@.drop_last() =~= before);
        assert(names_unique(self.entries@)) by {
            assert forall|a: int, b: int|
                0 <= a < b < self.entries@.len() implies self.entries@[a].0@
                != self.entries@[b].0@ by {
                assert(self.entries@[a] == before[a]);
            }
        }
    }

    /// How many names are kept.
    pub fn len(&self) -> (r: usize)
        requires
            self.wf(),
        ensures
            self@.dom().finite(),
            r == self@.dom().len(),
    {
        proof {
            lemma_entries_map_len(self.entries@);
        }
        self.entries.len()
    }
}

/// Shipping regions and products, each catalogued by name.
pub struct Cart {
    regions: Catalog,
    products: Catalog,
}

impl Cart {
    /// The catalogues are well formed.
    pub closed spec fn wf(&self) -> bool {
        self.regions.wf() && self.products.wf()
    }

    /// The shipping cost kept under each region name.
    pub closed spec fn regions_map(&self) -> Map<Seq<char>, Decimal> {
        self.regions@
    }

    /// The price kept under each product name.
    pub closed spec fn products_map(&self) -> Map<Seq<char>, Decimal> {
        self.products@
    }

    /// An empty cart.
    pub fn new() -> (r: Cart)
        ensures
            r.wf(),
            r.regions_map() == Map::<Seq<char>, Decimal>::empty(),
            r.products_map() == Map::<Seq<char>, Decimal>::empty(),
    {
        Cart { regions: Catalog::new(), products: Catalog::new() }
    }

    /// Keeps shipping to `name` at `price`, replacing any earlier price.
    pub fn add_region(&mut self, name: &str, price: Decimal)
        requires
            old(self).wf(),
        ensures
            final(self).wf(),
            final(self).regions_map() == old(self).regions_map().insert(name@, price),
            final(self).products_map() == old(self).products_map(),
    {
        self.regions.insert(String::from_str(name), price);
    }

    /// How many distinct region names are kept.
    pub fn count_regions(&self) -> (r: usize)
        requires
            self.wf(),
        ensures
            self.regions_map().dom().finite(),
            r == self.regions_map().dom().len(),
    {
        self.regions.len()
    }

    /// Keeps product `name` at `price`, replacing any earlier price.
    pub fn add_product(&mut self, name: &str, price: Decimal)
        requires
            old(self).wf(),
        ensures
            final(self).wf(),
            final(self).products_map() == old(self).products_map().insert(name@, price),
            final(self).regions_map() == old(self).regions_map(),
    {
        self.products.insert(String::from_str(name), price);
    }

    /// How many distinct product names are kept.
    pub fn count_products(&self) -> (r: usize)
        requires
            self.wf(),
        ensures
            self.products_map().dom().finite(),
            r == self.products_map().dom().len(),
    {
        self.products.len()
    }
}

/// The region catalogue of a new cart after `add_region(names[i], prices[i])`
/// for each `i` in turn, as `Cart::new` and `Cart::add_region` state it.
pub open spec fn regions_after(names: Seq<Seq<char>>, prices: Seq<Decimal>) -> Map<Seq<char>, Decimal>
    decreases names.len(),
{
    if names.len() == 0 {
        Map::empty()
    } else {
        regions_after(names.drop_last(), prices.drop_last()).insert(names.last(), prices.last())
    }
}

proof fn lemma_regions_after_keys(names: Seq<Seq<char>>, prices: Seq<Decimal>, k: Seq<char>)
    ensures
        regions_after(names, prices).dom().finite(),
        regions_after(names, prices).contains_key(k) <==> names.contains(k),
    decreases names.len(),
{
    if names.len() > 0 {
        let p = names.drop_last();
        lemma_regions_after_keys(p, prices.drop_last(), k);
        if p.contains(k) {
            let i = choose|i: int| 0 <= i < p.len() && p[i] == k;
            assert(names[i] == k);
        }
        if names.contains(k) {
            let i = choose|i: int| 0 <= i < names.len() && names[i] == k;
            if i < names.len() - 1 {
                assert(p[i] == k);
            }
        }
    }
}

/// Adding regions under `n` distinct names to a new cart leaves `n` regions
/// counted.
pub proof fn lemma_distinct_regions_count(names: Seq<Seq<char>>, prices: Seq<Decimal>)
    requires
        names.no_duplicates(),
        names.len() == prices.len(),
    ensures
        regions_after(names, prices).dom().finite(),
        regions_after(names, prices).dom().len() == names.len(),
    decreases names.len(),
{
    lemma_regions_after_keys(names, prices, Seq::empty());
    if names.len() > 0 {
        let p = names.drop_last();
        assert(p.no_duplicates()) by {
            assert forall|i: int, j: int| 0 <= i < p.len() && 0 <= j < p.len() && i != j implies p[i]
                != p[j] by {
                assert(p[i] == names[i] && p[j] == names[j]);
            }
        }
        lemma_distinct_regions_count(p, prices.drop_last());
        lemma_regions_after_keys(p, prices.drop_last(), names.last());
        if p.contains(names.last()) {
            let i = choose|i: int| 0 <= i < p.len() && p[i] == names.last();
            assert(names[i] == names[names.len() - 1]);
        }
    }
}

/// Adding a region under a name the cart already holds leaves the count of
/// regions unchanged.
pub proof fn lemma_readd_region_count(c: &Cart, name: Seq<char>, price: Decimal)
    requires
        c.wf(),
        c.regions_map().contains_key(name),
    ensures
        c.regions_map().dom().finite(),
        c.regions_map().insert(name, price).dom().len() == c.regions_map().dom().len(),
{
    lemma_entries_map_len(c.regions.entries@);
    assert(c.regions_map().insert(name, price).dom() =~= c.regions_map().dom());
}

} // verus!
