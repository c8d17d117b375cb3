//! Physical stores (`Store`) where an ingredient is preferentially bought.
//!
//! The code/label/lookup contract mirrors [`crate::group`]: every variant has
//! a stable integer code, and `Any` is the "no preference" fallback with the
//! sentinel code `-1`, sorting before every named store.

use vstd::prelude::*;

verus! {

/// The stores available for shopping.
///
/// `Any` is declared first so that the derived ordering matches the order of
/// the integer codes, where the fallback's sentinel `-1` comes before every
/// valid code.
#[derive(Clone, Copy, Debug, PartialEq, Eq, PartialOrd, Ord, Hash, Structural)]
pub enum Store {
    Any,
    Rewe,
    DM,
    Denz,
}

/// The stable integer code of each store; `-1` is the fallback sentinel,
/// distinct from the valid range `0..=2`.
pub open spec fn store_code(s: Store) -> int {
    match s {
        Store::Any => -1,
        Store::Rewe => 0,
        Store::DM => 1,
        Store::Denz => 2,
    }
}

/// The bare variant name of each store, as used by the shopping-list JSON
/// keys.
pub open spec fn store_name(s: Store) -> Seq<char> {
    match s {
        Store::Any => "Any"@,
        Store::Rewe => "Rewe"@,
        Store::DM => "DM"@,
        Store::Denz => "Denz"@,
    }
}

/// The human-readable label of each store.
pub open spec fn store_label(s: Store) -> Seq<char> {
    match s {
        Store::Any => "Überall"@,
        Store::Rewe => "Rewe"@,
        Store::DM => "DM"@,
        Store::Denz => "Denz"@,
    }
}

/// The JSON items of the store enumeration: the names in order, each quoted,
/// separated by commas.
pub open spec fn stores_json_items(stores: Seq<Store>) -> Seq<char>
    decreases stores.len(),
{
    if stores.len() == 0 {
        Seq::empty()
    } else if stores.len() == 1 {
        "\""@ + store_name(stores[0]) + "\""@
    } else {
        stores_json_items(stores.drop_last()) + ", \""@ + store_name(stores.last()) + "\""@
    }
}

/// The sequence of all stores, in their declared listing order.
pub open spec fn all_stores() -> Seq<Store> {
    seq![Store::Rewe, Store::DM, Store::Denz, Store::Any]
}

impl Store {
    /// The store a code decodes to: the matching variant for a valid code,
    /// the fallback for everything else.
    pub open spec fn spec_lookup(number: int) -> Store {
        if number == 0 {
            Store::Rewe
        } else if number == 1 {
            Store::DM
        } else if number == 2 {
            Store::Denz
        } else {
            Store::Any
        }
    }

    /// Decodes a persisted store code; codes outside the valid range fall
    /// back to `Any` and never fail.
    pub fn lookup_store_number(number: usize) -> (s: Store)
        ensures
            s == Store::spec_lookup(number as int),
    {
        match number {
            0 => Store::Rewe,
            1 => Store::DM,
            2 => Store::Denz,
            _ => Store::Any,
        }
    }

    /// The stable integer code of this store, as written to records.
    pub fn code(&self) -> (c: i8)
        ensures
            c as int == store_code(*self),
    {
        match self {
            Store::Any => -1,
            Store::Rewe => 0,
            Store::DM => 1,
            Store::Denz => 2,
        }
    }

    /// The bare variant name of this store, as used by the shopping-list
    /// JSON keys.
    pub fn name(&self) -> (r: &str)
        ensures
            r@ == store_name(*self),
    {
        match self {
            Store::Any => "Any",
            Store::Rewe => "Rewe",
            Store::DM => "DM",
            Store::Denz => "Denz",
        }
    }

    /// The human-readable label of this store.
    pub fn label(&self) -> (r: String)
        ensures
            r@ == store_label(*self),
    {
        match self {
            Store::Any => "Überall".to_owned(),
            Store::Rewe => "Rewe".to_owned(),
            Store::DM => "DM".to_owned(),
            Store::Denz => "Denz".to_owned(),
        }
    }

    /// The stores offered for listing, in their declared order.
    pub fn get_store_iterator() -> (r: Vec<Store>)
        ensures
            r@ == all_stores(),
    {
        let mut r: Vec<Store> = Vec::new();
        r.push(Store::Rewe);
        r.push(Store::DM);
        r.push(Store::Denz);
        r.push(Store::Any);
        proof {
            assert(r@ =~= all_stores());
        }
        r
    }

    /// Enumerates every store as a JSON object with a single `"stores"`
    /// array of the variant names, in declared order.
    pub fn all_as_json() -> (r: String)
        ensures
            r@ == "{\"stores\": ["@ + stores_json_items(all_stores()) + "]}"@,
    {
        let stores = Store::get_store_iterator();
        let mut json = String::new();
        json.append("{\"stores\": [");

        let mut is_first: bool = true;
        let mut i: usize = 0;
        while i < stores.len()
            invariant
                stores@ == all_stores(),
                i <= stores@.len(),
                is_first == (i == 0),
                json@ == "{\"stores\": ["@ + stores_json_items(stores@.take(i as int)),
            decreases stores@.len() - i,
        {
            if is_first {
                json.append("\"");
                json.append(stores[i].name());
                json.append("\"");
                is_first = false;
            } else {
                json.append(", \"");
                json.append(stores[i].name());
                json.append("\"");
            }
            proof {
                let t = stores@.take(i + 1 as int);
                assert(t.drop_last() =~= stores@.take(i as int));
                assert(t.last() == stores@[i as int]);
                assert(t[0] == stores@[0]);
            }
            i = i + 1;
        }
        json.append("]}");

        proof {
            assert(stores@.take(stores@.len() as int) =~= all_stores());
        }
        json
    }
}

/// Every code outside the valid range `0..=2` decodes to the fallback store.
pub proof fn lemma_store_lookup_fallback(number: int)
    requires
        !(0 <= number <= 2),
    ensures
        Store::spec_lookup(number) == Store::Any,
{
}

/// Decoding inverts encoding for every non-fallback store.
pub proof fn lemma_store_code_roundtrip(s: Store)
    requires
        s != Store::Any,
    ensures
        Store::spec_lookup(store_code(s)) == s,
{
}

/// Encoding inverts decoding on the whole valid code range.
pub proof fn lemma_store_lookup_code(number: int)
    requires
        0 <= number <= 2,
    ensures
        Store::spec_lookup(number) != Store::Any,
        store_code(Store::spec_lookup(number)) == number,
{
}

} // verus!
