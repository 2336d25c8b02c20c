//! Library settings that show in the iCal text it writes.

use vstd::prelude::*;

verus! {

/// The organisation part of the PRODID written for new items
/// (`-//ABC Corporation//My Product//EN`).
pub const ORG_NAME: &'static str = "My organization";

/// The product part of the PRODID written for new items.
pub const PRODUCT_NAME: &'static str = "KitchenFridge";

} // verus!
