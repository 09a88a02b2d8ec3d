//! The table descriptor registry: the static list of syncable tables, in
//! dependency order, each with its remote name and its business columns in
//! payload order.  Field mapping is explicit here rather than built by
//! string interpolation at the call sites.

use vstd::prelude::*;

verus! {

/// How many tables the registry holds.
pub const TABLE_COUNT: usize = 3;

/// Identity of a syncable table.
#[derive(Clone, Copy, PartialEq, Eq, Structural, Debug)]
pub enum TableId {
    Categories,
    Products,
    Customers,
}

impl TableId {
    /// Position in registry order.  Tables without foreign references come
    /// first: products reference categories, so categories precede them.
    pub open spec fn position_spec(self) -> int {
        match self {
            TableId::Categories => 0,
            TableId::Products => 1,
            TableId::Customers => 2,
        }
    }

    pub fn position(self) -> (r: usize)
        ensures
            r == self.position_spec(),
            r < TABLE_COUNT,
    {
        match self {
            TableId::Categories => 0,
            TableId::Products => 1,
            TableId::Customers => 2,
        }
    }

    /// The table identified by a registry position.
    pub fn at_position(pos: usize) -> (r: TableId)
        requires
            pos < TABLE_COUNT,
        ensures
            r.position_spec() == pos,
    {
        if pos == 0 {
            TableId::Categories
        } else if pos == 1 {
            TableId::Products
        } else {
            TableId::Customers
        }
    }

    /// How many business columns the table's payload carries.
    pub open spec fn arity_spec(self) -> int {
        match self {
            TableId::Categories => 2,
            TableId::Products => 9,
            TableId::Customers => 5,
        }
    }

    /// The table's name on both stores.
    pub fn name(self) -> (r: &'static str)
        ensures
            self == TableId::Categories ==> r@ == "categories"@,
            self == TableId::Products ==> r@ == "products"@,
            self == TableId::Customers ==> r@ == "customers"@,
    {
        match self {
            TableId::Categories => "categories",
            TableId::Products => "products",
            TableId::Customers => "customers",
        }
    }

    /// The business columns of the table, in payload order.
    pub fn columns(self) -> (r: Vec<&'static str>)
        ensures
            r@.len() == self.arity_spec(),
            ({
                match self {
                    TableId::Categories => r@[0]@ == "name"@ && r@[1]@ == "description"@,
                    TableId::Products => r@[0]@ == "name"@ && r@[1]@ == "description"@ && r@[2]@
                        == "price"@ && r@[3]@ == "stock_quantity"@ && r@[4]@ == "category_id"@
                        && r@[5]@ == "barcode"@ && r@[6]@ == "sku"@ && r@[7]@
                        == "production_date"@ && r@[8]@ == "expiration_date"@,
                    TableId::Customers => r@[0]@ == "name"@ && r@[1]@ == "phone"@ && r@[2]@
                        == "email"@ && r@[3]@ == "address"@ && r@[4]@ == "total_debt"@,
                }
            }),
    {
        match self {
            TableId::Categories => vec!["name", "description"],
            TableId::Products => vec![
                "name",
                "description",
                "price",
                "stock_quantity",
                "category_id",
                "barcode",
                "sku",
                "production_date",
                "expiration_date",
            ],
            TableId::Customers => vec!["name", "phone", "email", "address", "total_debt"],
        }
    }
}

/// The registry: every syncable table, in the order both phases visit them.
pub fn registry() -> (r: Vec<TableId>)
    ensures
        r@.len() == TABLE_COUNT,
        forall|i: int| 0 <= i < r@.len() ==> (#[trigger] r@[i]).position_spec() == i,
{
    let r = vec![TableId::Categories, TableId::Products, TableId::Customers];
    assert(forall|i: int| 0 <= i < r@.len() ==> (#[trigger] r@[i]).position_spec() == i) by {
        assert(r@[0] == TableId::Categories);
        assert(r@[1] == TableId::Products);
        assert(r@[2] == TableId::Customers);
    }
    r
}

} // verus!
