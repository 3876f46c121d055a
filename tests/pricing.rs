use rustacart::{Basket, Decimal, Product, Region, VAT};

fn product(name: &str, mantissa: u64, scale: u32) -> Product {
    Product { name: name.to_string(), price: Decimal::new(mantissa, scale) }
}

fn region(name: &str, mantissa: u64, scale: u32) -> Region {
    Region { name: name.to_string(), price: Decimal::new(mantissa, scale) }
}

fn bus_and_hotel() -> Basket {
    product("Lego London Bus", 10999, 2).add(product("Lego Boutique Hotel", 17499, 2))
}

#[test]
fn it_can_create_products() {
    let london_bus = product("Lego London Bus", 10999, 2);
    assert_eq!(london_bus.name, "Lego London Bus");
    assert_eq!(london_bus.price, Decimal::new(10999, 2));

    let boutique_hotel = product("Lego Boutique Hotel", 17499, 2);
    assert_eq!(boutique_hotel.name, "Lego Boutique Hotel");
    assert_eq!(boutique_hotel.price, Decimal::new(17499, 2));
}

#[test]
fn it_can_create_vat() {
    let percentage = Decimal::from_int(15);
    let vat = VAT { percentage };
    assert_eq!(vat.percentage, percentage);
}

#[test]
fn it_can_create_regions() {
    let united_kingdom = region("United Kingdom", 599, 2);
    assert_eq!(united_kingdom.name, "United Kingdom");
    assert_eq!(united_kingdom.price, Decimal::new(599, 2));

    let northern_ireland = region("Northern Ireland", 799, 2);
    assert_eq!(northern_ireland.name, "Northern Ireland");
    assert_eq!(northern_ireland.price, Decimal::new(799, 2));

    let european_union = region("European Union", 1199, 2);
    assert_eq!(european_union.name, "European Union");
    assert_eq!(european_union.price, Decimal::new(1199, 2));
}

#[test]
fn it_can_add_products_together() {
    let basket = bus_and_hotel();
    assert_eq!(basket.price, Decimal::new(28498, 2));
    assert_eq!(basket.region, None);
    assert_eq!(basket.items, vec!["Lego London Bus", "Lego Boutique Hotel"]);
}

#[test]
fn it_can_add_products_and_shipping_together() {
    let basket = bus_and_hotel().add(region("United Kingdom", 599, 2));
    assert_eq!(basket.price, Decimal::new(29097, 2));
    assert_eq!(basket.region.as_deref(), Some("United Kingdom"));
    assert_eq!(
        basket.items,
        vec!["Lego London Bus", "Lego Boutique Hotel", "Shipping to United Kingdom"]
    );
}

#[test]
fn it_can_add_products_shipping_and_vat_together() {
    let vat = VAT { percentage: Decimal::from_int(15) };
    let basket = bus_and_hotel().add(region("United Kingdom", 599, 2)).rem(vat);
    assert_eq!(basket.price, Decimal::new(3346155, 4));
    assert_eq!(basket.region.as_deref(), Some("United Kingdom"));
    assert_eq!(
        basket.items,
        vec![
            "Lego London Bus",
            "Lego Boutique Hotel",
            "Shipping to United Kingdom",
            "VAT for United Kingdom at 15%"
        ]
    );
}

#[test]
fn products_combine_in_argument_order() {
    let basket = product("Kite", 5, 0).add(product("String", 125, 1));
    assert_eq!(basket.price, Decimal::new(175, 1));
    assert_eq!(basket.items, vec!["Kite", "String"]);
    assert_eq!(basket.region, None);
}

#[test]
fn sum_is_written_at_the_finer_scale() {
    assert_eq!(Decimal::new(5, 1).add(&Decimal::new(25, 3)), Decimal::new(525, 3));
    assert_eq!(Decimal::from_int(0).add(&Decimal::from_int(0)), Decimal::from_int(0));
}

#[test]
fn percent_of_keeps_every_digit() {
    assert_eq!(Decimal::new(29097, 2).percent_of(&Decimal::from_int(15)), Decimal::new(436455, 4));
    assert_eq!(Decimal::from_int(200).percent_of(&Decimal::new(125, 1)), Decimal::new(25000, 3));
}

#[test]
fn vat_without_region_names_no_region() {
    let vat = VAT { percentage: Decimal::from_int(20) };
    let basket = bus_and_hotel().rem(vat);
    assert_eq!(basket.region, None);
    assert_eq!(basket.items[2], "VAT at 20%");
    assert_eq!(basket.price, Decimal::new(3419760, 4));
}

#[test]
fn vat_before_shipping_leaves_shipping_untaxed() {
    let vat = VAT { percentage: Decimal::from_int(15) };
    let basket = bus_and_hotel().rem(vat).add(region("United Kingdom", 599, 2));
    assert_eq!(basket.price, Decimal::new(3337170, 4));
    assert_eq!(
        basket.items,
        vec!["Lego London Bus", "Lego Boutique Hotel", "VAT at 15%", "Shipping to United Kingdom"]
    );
}

#[test]
fn fractional_vat_reads_without_trailing_zeros() {
    let vat = VAT { percentage: Decimal::new(1750, 2) };
    let basket = product("A", 100, 0).add(product("B", 100, 0)).rem(vat);
    assert_eq!(basket.items[2], "VAT at 17.5%");
    assert_eq!(basket.price, Decimal::new(2350000, 4));
}

#[test]
fn vat_compounds_when_repeated() {
    let ten = VAT { percentage: Decimal::from_int(10) };
    let basket = product("A", 50, 0).add(product("B", 50, 0)).rem(ten).rem(ten);
    assert_eq!(basket.price, Decimal::new(1210000, 4));
    assert_eq!(basket.items, vec!["A", "B", "VAT at 10%", "VAT at 10%"]);
}

#[test]
fn second_region_overwrites_and_adds_a_line() {
    let basket = bus_and_hotel()
        .add(region("United Kingdom", 599, 2))
        .add(region("European Union", 1199, 2));
    assert_eq!(basket.region.as_deref(), Some("European Union"));
    assert_eq!(basket.price, Decimal::new(30296, 2));
    assert_eq!(basket.items.len(), 4);
    assert_eq!(basket.items[3], "Shipping to European Union");
}

#[test]
fn decimal_text_forms() {
    assert_eq!(Decimal::from_int(15).to_text(), "15");
    assert_eq!(Decimal::new(150, 1).to_text(), "15");
    assert_eq!(Decimal::new(1250, 3).to_text(), "1.25");
    assert_eq!(Decimal::new(5, 2).to_text(), "0.05");
    assert_eq!(Decimal::from_int(0).to_text(), "0");
    assert_eq!(Decimal::new(0, 3).to_text(), "0");
    assert_eq!(Decimal::new(1000, 2).to_text(), "10");
}
