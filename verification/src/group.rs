//! Grocery departments (`Group`) for classifying ingredients.
//!
//! Every variant has a stable integer code used by the persisted record
//! format; `Other` is the fallback for any code outside the valid range and
//! carries the sentinel code `-1`, which also places it first in the sort
//! order.

use vstd::prelude::*;

verus! {

/// The grocery departments an ingredient can belong to.
///
/// `Other` is declared first so that the derived ordering matches the order
/// of the integer codes, where the fallback's sentinel `-1` comes before
/// every valid code.
#[derive(Clone, Copy, Debug, PartialEq, Eq, PartialOrd, Ord, Hash, Structural)]
pub enum Group {
    Other,
    Vegetable,
    Fruit,
    Freezer,
    Conserved,
    Beverage,
    Baking,
    Pasta,
    Legume,
    Spice,
    Snacks,
    Sweets,
}

/// The stable integer code of each department; `-1` is the fallback sentinel,
/// distinct from the valid range `0..=10`.
pub open spec fn group_code(g: Group) -> int {
    match g {
        Group::Other => -1,
        Group::Vegetable => 0,
        Group::Fruit => 1,
        Group::Freezer => 2,
        Group::Conserved => 3,
        Group::Beverage => 4,
        Group::Baking => 5,
        Group::Pasta => 6,
        Group::Legume => 7,
        Group::Spice => 8,
        Group::Snacks => 9,
        Group::Sweets => 10,
    }
}

/// The human-readable label of each department.
pub open spec fn group_label(g: Group) -> Seq<char> {
    match g {
        Group::Other => "Anderes"@,
        Group::Vegetable => "Gemüse"@,
        Group::Fruit => "Obst"@,
        Group::Freezer => "Kühlung"@,
        Group::Conserved => "Konserve"@,
        Group::Beverage => "Getränk"@,
        Group::Baking => "Backzutat"@,
        Group::Pasta => "Nudeln"@,
        Group::Legume => "Hülsenfrüchte"@,
        Group::Spice => "Gewürz"@,
        Group::Snacks => "Knabberkram"@,
        Group::Sweets => "Süßigkeiten"@,
    }
}

impl Group {
    /// The department a code decodes to: the matching variant for a valid
    /// code, the fallback for everything else.
    pub open spec fn spec_lookup(number: int) -> Group {
        if number == 0 {
            Group::Vegetable
        } else if number == 1 {
            Group::Fruit
        } else if number == 2 {
            Group::Freezer
        } else if number == 3 {
            Group::Conserved
        } else if number == 4 {
            Group::Beverage
        } else if number == 5 {
            Group::Baking
        } else if number == 6 {
            Group::Pasta
        } else if number == 7 {
            Group::Legume
        } else if number == 8 {
            Group::Spice
        } else if number == 9 {
            Group::Snacks
        } else if number == 10 {
            Group::Sweets
        } else {
            Group::Other
        }
    }

    /// Decodes a persisted department code; codes outside the valid range
    /// fall back to `Other` and never fail.
    pub fn lookup_group_number(number: usize) -> (g: Group)
        ensures
            g == Group::spec_lookup(number as int),
    {
        match number {
            0 => Group::Vegetable,
            1 => Group::Fruit,
            2 => Group::Freezer,
            3 => Group::Conserved,
            4 => Group::Beverage,
            5 => Group::Baking,
            6 => Group::Pasta,
            7 => Group::Legume,
            8 => Group::Spice,
            9 => Group::Snacks,
            10 => Group::Sweets,
            _ => Group::Other,
        }
    }

    /// The stable integer code of this department, as written to records.
    pub fn code(&self) -> (c: i8)
        ensures
            c as int == group_code(*self),
    {
        match self {
            Group::Other => -1,
            Group::Vegetable => 0,
            Group::Fruit => 1,
            Group::Freezer => 2,
            Group::Conserved => 3,
            Group::Beverage => 4,
            Group::Baking => 5,
            Group::Pasta => 6,
            Group::Legume => 7,
            Group::Spice => 8,
            Group::Snacks => 9,
            Group::Sweets => 10,
        }
    }

    /// The human-readable label of this department.
    pub fn label(&self) -> (r: String)
        ensures
            r@ == group_label(*self),
    {
        match self {
            Group::Other => "Anderes".to_owned(),
            Group::Vegetable => "Gemüse".to_owned(),
            Group::Fruit => "Obst".to_owned(),
            Group::Freezer => "Kühlung".to_owned(),
            Group::Conserved => "Konserve".to_owned(),
            Group::Beverage => "Getränk".to_owned(),
            Group::Baking => "Backzutat".to_owned(),
            Group::Pasta => "Nudeln".to_owned(),
            Group::Legume => "Hülsenfrüchte".to_owned(),
            Group::Spice => "Gewürz".to_owned(),
            Group::Snacks => "Knabberkram".to_owned(),
            Group::Sweets => "Süßigkeiten".to_owned(),
        }
    }

    /// Every department, in listing order: the named departments by code,
    /// the fallback last.
    pub fn get_group_iterator() -> (r: Vec<Group>)
        ensures
            r@ == all_groups(),
    {
        let mut r: Vec<Group> = Vec::new();
        r.push(Group::Vegetable);
        r.push(Group::Fruit);
        r.push(Group::Freezer);
        r.push(Group::Conserved);
        r.push(Group::Beverage);
        r.push(Group::Baking);
        r.push(Group::Pasta);
        r.push(Group::Legume);
        r.push(Group::Spice);
        r.push(Group::Snacks);
        r.push(Group::Sweets);
        r.push(Group::Other);
        proof {
            assert(r@ =~= all_groups());
        }
        r
    }

    /// Enumerates every department as a JSON object with a single
    /// `"groups"` array of the display labels, in listing order.
    pub fn all_as_json() -> (r: String)
        ensures
            r@ == "{\"groups\": ["@ + groups_json_items(all_groups()) + "]}"@,
    {
        let groups = Group::get_group_iterator();
        let mut json = String::new();
        json.append("{\"groups\": [");

        let mut is_first: bool = true;
        let mut i: usize = 0;
        while i < groups.len()
            invariant
                groups@ == all_groups(),
                i <= groups@.len(),
                is_first == (i == 0),
                json@ == "{\"groups\": ["@ + groups_json_items(groups@.take(i as int)),
            decreases groups@.len() - i,
        {
            if is_first {
                json.append("\"");
                json.append(groups[i].label().as_str());
                json.append("\"");
                is_first = false;
            } else {
                json.append(", \"");
                json.append(groups[i].label().as_str());
                json.append("\"");
            }
            proof {
                let t = groups@.take(i + 1 as int);
                assert(t.drop_last() =~= groups@.take(i as int));
                assert(t.last() == groups@[i as int]);
                assert(t[0] == groups@[0]);
            }
            i = i + 1;
        }
        json.append("]}");

        proof {
            assert(groups@.take(groups@.len() as int) =~= all_groups());
        }
        json
    }
}

/// The sequence of every department, in listing order: the named
/// departments by code, the fallback last.
pub open spec fn all_groups() -> Seq<Group> {
    seq![
        Group::Vegetable,
        Group::Fruit,
        Group::Freezer,
        Group::Conserved,
        Group::Beverage,
        Group::Baking,
        Group::Pasta,
        Group::Legume,
        Group::Spice,
        Group::Snacks,
        Group::Sweets,
        Group::Other,
    ]
}

/// The JSON items of the department enumeration: the display labels in
/// order, each quoted, separated by commas.
pub open spec fn groups_json_items(groups: Seq<Group>) -> Seq<char>
    decreases groups.len(),
{
    if groups.len() == 0 {
        Seq::empty()
    } else if groups.len() == 1 {
        "\""@ + group_label(groups[0]) + "\""@
    } else {
        groups_json_items(groups.drop_last()) + ", \""@ + group_label(groups.last()) + "\""@
    }
}

/// Every code outside the valid range `0..=10` decodes to the fallback
/// department.
pub proof fn lemma_group_lookup_fallback(number: int)
    requires
        !(0 <= number <= 10),
    ensures
        Group::spec_lookup(number) == Group::Other,
{
}

/// Decoding inverts encoding for every non-fallback department.
pub proof fn lemma_group_code_roundtrip(g: Group)
    requires
        g != Group::Other,
    ensures
        Group::spec_lookup(group_code(g)) == g,
{
}

/// Encoding inverts decoding on the whole valid code range.
pub proof fn lemma_group_lookup_code(number: int)
    requires
        0 <= number <= 10,
    ensures
        Group::spec_lookup(number) != Group::Other,
        group_code(Group::spec_lookup(number)) == number,
{
}

} // verus!
