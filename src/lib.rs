//! A small shopping-cart model: priced products, shipping regions and VAT
//! folded into an itemised basket, and a cart that catalogues regions and
//! products by name. Money and percentages are exact base-10 decimals, so no
//! total is ever rounded.
pub mod cart;
pub mod decimal;
pub mod pricing;

pub use cart::Cart;
pub use decimal::Decimal;
pub use pricing::{Basket, Product, Region, VAT};
