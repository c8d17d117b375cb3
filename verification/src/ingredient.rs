//! Ingredients: a name, a grocery department ([`Group`]) and a preferred
//! [`Store`], together with their ordering, their record and JSON forms, and
//! the registry of all known ingredients keyed by name.

use vstd::prelude::*;

use crate::group::{group_code, group_label, Group};
use crate::numeral::{code_str, is_numeral, numeral_val, parse_u16};
use crate::store::{store_code, store_label, Store};
use crate::text::{chars_le, split_chars, str_views, trim_spec};
use crate::text::{lemma_chars_le_antisymmetric, lemma_chars_le_connected,
    lemma_chars_le_reflexive, lemma_chars_le_transitive};
use crate::text::{split_str, str_le, trim_str};

verus! {

/// An ingredient which is in a specific group and has a preferred store.
#[derive(Debug, PartialEq, Eq, PartialOrd, Ord, Hash)]
pub struct Ingredient {
    pub preferred_store: Store,
    pub group: Group,
    pub name: String,
}

/// The mathematical value of an [`Ingredient`].
#[verifier::ext_equal]
pub struct IngredientV {
    pub name: Seq<char>,
    pub group: Group,
    pub store: Store,
}

impl View for Ingredient {
    type V = IngredientV;

    open spec fn view(&self) -> IngredientV {
        IngredientV { name: self.name@, group: self.group, store: self.preferred_store }
    }
}

impl Clone for Ingredient {
    /// Cloning keeps the value.
    fn clone(&self) -> (res: Self)
        ensures
            res == *self,
            res@ == self@,
    {
        Ingredient {
            preferred_store: self.preferred_store,
            group: self.group,
            name: self.name.clone(),
        }
    }
}

// ---------------------------------------------------------------------------
// Ordering
// ---------------------------------------------------------------------------

/// The ingredient ordering: by preferred store first, then group, then name,
/// each ascending in its own order.
pub open spec fn ing_le(a: IngredientV, b: IngredientV) -> bool {
    if store_code(a.store) != store_code(b.store) {
        store_code(a.store) < store_code(b.store)
    } else if group_code(a.group) != group_code(b.group) {
        group_code(a.group) < group_code(b.group)
    } else {
        chars_le(a.name, b.name)
    }
}

/// The ingredient ordering as a first-class relation, for use with the
/// sequence sorting functions.
pub open spec fn ing_leq() -> spec_fn(IngredientV, IngredientV) -> bool {
    |a: IngredientV, b: IngredientV| ing_le(a, b)
}

/// The name-first ordering used when listing ingredients alphabetically;
/// ties between equal names fall back to the full ingredient ordering so the
/// relation stays total.
pub open spec fn name_le(a: IngredientV, b: IngredientV) -> bool {
    if a.name == b.name {
        ing_le(a, b)
    } else {
        chars_le(a.name, b.name)
    }
}

/// The name-first ordering as a first-class relation.
pub open spec fn name_leq() -> spec_fn(IngredientV, IngredientV) -> bool {
    |a: IngredientV, b: IngredientV| name_le(a, b)
}

/// Whether a sequence of ingredient values is sorted by the ingredient
/// ordering.
pub open spec fn ing_sorted(s: Seq<IngredientV>) -> bool {
    forall|i: int, j: int| 0 <= i <= j < s.len() ==> ing_le(s[i], s[j])
}

/// The views of a sequence of ingredients.
pub open spec fn ing_views(s: Seq<Ingredient>) -> Seq<IngredientV> {
    s.map_values(|x: Ingredient| x@)
}

pub proof fn lemma_ing_le_refl(a: IngredientV)
    ensures
        ing_le(a, a),
{
    lemma_chars_le_reflexive(a.name);
}

pub proof fn lemma_ing_le_trans(a: IngredientV, b: IngredientV, c: IngredientV)
    requires
        ing_le(a, b),
        ing_le(b, c),
    ensures
        ing_le(a, c),
{
    if store_code(a.store) == store_code(b.store) && store_code(b.store) == store_code(c.store)
        && group_code(a.group) == group_code(b.group) && group_code(b.group) == group_code(
        c.group,
    ) {
        lemma_chars_le_transitive(a.name, b.name, c.name);
    }
}

pub proof fn lemma_ing_le_antisym(a: IngredientV, b: IngredientV)
    requires
        ing_le(a, b),
        ing_le(b, a),
    ensures
        a == b,
{
    if store_code(a.store) == store_code(b.store) && group_code(a.group) == group_code(b.group) {
        lemma_chars_le_antisymmetric(a.name, b.name);
        assert(a =~= b);
    }
}

pub proof fn lemma_ing_le_flip(a: IngredientV, b: IngredientV)
    requires
        !ing_le(a, b),
    ensures
        ing_le(b, a),
{
    lemma_chars_le_connected(a.name, b.name);
}

pub proof fn lemma_name_le_refl(a: IngredientV)
    ensures
        name_le(a, a),
{
    lemma_chars_le_reflexive(a.name);
}

pub proof fn lemma_name_le_trans(a: IngredientV, b: IngredientV, c: IngredientV)
    requires
        name_le(a, b),
        name_le(b, c),
    ensures
        name_le(a, c),
{
    if a.name != b.name && b.name != c.name {
        lemma_chars_le_transitive(a.name, b.name, c.name);
        if a.name == c.name {
            lemma_chars_le_antisymmetric(a.name, b.name);
        }
    } else if a.name == b.name && b.name != c.name {
    } else if a.name != b.name && b.name == c.name {
    } else {
        lemma_ing_le_trans(a, b, c);
    }
}

pub proof fn lemma_name_le_flip(a: IngredientV, b: IngredientV)
    requires
        !name_le(a, b),
    ensures
        name_le(b, a),
{
    lemma_chars_le_connected(a.name, b.name);
    if a.name == b.name {
        lemma_ing_le_flip(a, b);
    }
}

/// The ingredient ordering is a total order: reflexive, antisymmetric,
/// transitive, and any two ingredients are comparable.
pub proof fn lemma_ing_le_total_ordering()
    ensures
        vstd::relations::total_ordering(ing_leq()),
{
    assert forall|a: IngredientV| #[trigger] ing_le(a, a) by {
        lemma_chars_le_reflexive(a.name);
    }
    assert forall|a: IngredientV, b: IngredientV| #[trigger] ing_le(a, b) && #[trigger] ing_le(
        b,
        a,
    ) implies a == b by {
        if store_code(a.store) == store_code(b.store) && group_code(a.group) == group_code(
            b.group,
        ) {
            lemma_chars_le_antisymmetric(a.name, b.name);
            assert(a =~= b);
        }
    }
    assert forall|a: IngredientV, b: IngredientV, c: IngredientV|
        #[trigger] ing_le(a, b) && #[trigger] ing_le(b, c) implies ing_le(a, c) by {
        if store_code(a.store) == store_code(b.store) && store_code(b.store) == store_code(
            c.store,
        ) && group_code(a.group) == group_code(b.group) && group_code(b.group) == group_code(
            c.group,
        ) {
            lemma_chars_le_transitive(a.name, b.name, c.name);
        }
    }
    assert forall|a: IngredientV, b: IngredientV| #[trigger] ing_le(a, b) || #[trigger] ing_le(
        b,
        a,
    ) by {
        lemma_chars_le_connected(a.name, b.name);
    }
}

/// The name-first ordering is a total order as well.
pub proof fn lemma_name_le_total_ordering()
    ensures
        vstd::relations::total_ordering(name_leq()),
{
    lemma_ing_le_total_ordering();
    assert forall|a: IngredientV| #[trigger] name_le(a, a) by {
        lemma_chars_le_reflexive(a.name);
    }
    assert forall|a: IngredientV, b: IngredientV| #[trigger] name_le(a, b) && #[trigger] name_le(
        b,
        a,
    ) implies a == b by {
        if a.name == b.name {
            assert(ing_le(a, b) && ing_le(b, a));
        } else {
            lemma_chars_le_antisymmetric(a.name, b.name);
        }
    }
    assert forall|a: IngredientV, b: IngredientV, c: IngredientV|
        #[trigger] name_le(a, b) && #[trigger] name_le(b, c) implies name_le(a, c) by {
        if a.name != b.name && b.name != c.name {
            lemma_chars_le_transitive(a.name, b.name, c.name);
            if a.name == c.name {
                lemma_chars_le_antisymmetric(a.name, b.name);
            }
        }
    }
    assert forall|a: IngredientV, b: IngredientV| #[trigger] name_le(a, b) || #[trigger] name_le(
        b,
        a,
    ) by {
        lemma_chars_le_connected(a.name, b.name);
    }
}

/// Sorting is deterministic: two sequences sorted by the ingredient ordering
/// that hold the same ingredients are the same sequence, so sorting a list
/// twice yields the same order.
pub proof fn lemma_ing_sort_deterministic(s1: Seq<IngredientV>, s2: Seq<IngredientV>)
    requires
        ing_sorted(s1),
        ing_sorted(s2),
        s1.to_multiset() == s2.to_multiset(),
    ensures
        s1 == s2,
{
    lemma_ing_le_total_ordering();
    assert(vstd::relations::sorted_by(s1, ing_leq()));
    assert(vstd::relations::sorted_by(s2, ing_leq()));
    vstd::seq_lib::lemma_sorted_unique(s1, s2, ing_leq());
    assert(s1 =~= s2);
}

/// Sorting an already sorted sequence leaves it unchanged.
pub proof fn lemma_ing_sort_idempotent(s: Seq<IngredientV>)
    requires
        ing_sorted(s),
    ensures
        s.sort_by(ing_leq()) == s,
{
    lemma_ing_le_total_ordering();
    s.lemma_sort_by_ensures(ing_leq());
    let t = s.sort_by(ing_leq());
    assert forall|i: int, j: int| 0 <= i <= j < t.len() implies ing_le(t[i], t[j]) by {
        if i == j {
            lemma_chars_le_reflexive(t[i].name);
        } else {
            assert(ing_leq()(t[i], t[j]));
        }
    }
    lemma_ing_sort_deterministic(t, s);
}

/// Compares two ingredients in the ingredient ordering.
pub fn ing_le_exec(a: &Ingredient, b: &Ingredient) -> (r: bool)
    ensures
        r == ing_le(a@, b@),
{
    let sa = a.preferred_store.code();
    let sb = b.preferred_store.code();
    if sa != sb {
        return sa < sb;
    }
    let ga = a.group.code();
    let gb = b.group.code();
    if ga != gb {
        return ga < gb;
    }
    str_le(a.name.as_str(), b.name.as_str())
}

/// Compares two ingredients in the name-first ordering.
pub fn name_le_exec(a: &Ingredient, b: &Ingredient) -> (r: bool)
    ensures
        r == name_le(a@, b@),
{
    if crate::text::str_eq(a.name.as_str(), b.name.as_str()) {
        ing_le_exec(a, b)
    } else {
        str_le(a.name.as_str(), b.name.as_str())
    }
}

// ---------------------------------------------------------------------------
// Construction and parsing
// ---------------------------------------------------------------------------

/// The group a record field decodes to: the trimmed field read as a numeral
/// and looked up, or the fallback when it is not a numeral.
pub open spec fn group_of_field(f: Seq<char>) -> Group {
    let t = trim_spec(f);
    if is_numeral(t) && numeral_val(t) <= u16::MAX {
        Group::spec_lookup(numeral_val(t))
    } else {
        Group::Other
    }
}

/// The store a record field decodes to, like [`group_of_field`].
pub open spec fn store_of_field(f: Seq<char>) -> Store {
    let t = trim_spec(f);
    if is_numeral(t) && numeral_val(t) <= u16::MAX {
        Store::spec_lookup(numeral_val(t))
    } else {
        Store::Any
    }
}

/// The ingredient an `name;groupCode;storeCode` record line parses to.
/// A missing or malformed code field degrades to the fallback variant and
/// never fails the parse.
pub open spec fn ing_of_line(line: Seq<char>) -> IngredientV {
    let fields = split_chars(line, ';');
    IngredientV {
        name: fields[0],
        group: if fields.len() >= 2 {
            group_of_field(fields[1])
        } else {
            Group::Other
        },
        store: if fields.len() >= 3 {
            store_of_field(fields[2])
        } else {
            Store::Any
        },
    }
}

impl Ingredient {
    /// Parses an ingredient from a persisted `name;groupCode;storeCode`
    /// record line.
    pub fn new_by_line(line: &str) -> (r: Ingredient)
        ensures
            r@ == ing_of_line(line@),
    {
        let fields = split_str(line, ';');
        proof {
            crate::text::lemma_split_chars_len(line@, ';');
            assert(str_views(fields@)[0] == fields@[0]@);
            if fields@.len() >= 2 {
                assert(str_views(fields@)[1] == fields@[1]@);
            }
            if fields@.len() >= 3 {
                assert(str_views(fields@)[2] == fields@[2]@);
            }
        }
        let name = fields[0].clone();
        let group = if fields.len() >= 2 {
            let t = trim_str(fields[1].as_str());
            match parse_u16(t) {
                Some(num) => Group::lookup_group_number(num as usize),
                None => Group::Other,
            }
        } else {
            Group::Other
        };
        let store = if fields.len() >= 3 {
            let t = trim_str(fields[2].as_str());
            match parse_u16(t) {
                Some(num) => Store::lookup_store_number(num as usize),
                None => Store::Any,
            }
        } else {
            Store::Any
        };
        let r = Ingredient { preferred_store: store, group, name };
        proof {
            assert(r@ =~= ing_of_line(line@));
        }
        r
    }

    /// Creates a new ingredient with only a name; store and group fall back
    /// to their defaults.
    pub fn new_by_name(name: String) -> (r: Ingredient)
        ensures
            r@ == (IngredientV { name: name@, group: Group::Other, store: Store::Any }),
    {
        Ingredient { preferred_store: Store::Any, group: Group::Other, name }
    }

    /// Changes the assigned group to the one the given code decodes to.
    pub fn set_group(&mut self, group: usize)
        ensures
            final(self)@ == (IngredientV { group: Group::spec_lookup(group as int), ..old(self)@ }),
    {
        self.group = Group::lookup_group_number(group);
    }

    /// Changes the assigned store to the one the given code decodes to.
    pub fn set_store(&mut self, store: usize)
        ensures
            final(self)@ == (IngredientV { store: Store::spec_lookup(store as int), ..old(self)@ }),
    {
        self.preferred_store = Store::lookup_store_number(store);
    }
}

// ---------------------------------------------------------------------------
// JSON and record text
// ---------------------------------------------------------------------------

/// The JSON object of an ingredient: its name and the display labels of its
/// group and store.
pub open spec fn ing_json(i: IngredientV) -> Seq<char> {
    "{\"name\": \""@ + i.name + "\", \"group\": \""@ + group_label(i.group)
        + "\", \"store\": \""@ + store_label(i.store) + "\"}"@
}

/// The record line of an ingredient: name and the two integer codes,
/// separated by semicolons, with a trailing newline.
pub open spec fn ing_record(i: IngredientV) -> Seq<char> {
    i.name + ";"@ + code_str(group_code(i.group)) + ";"@ + code_str(store_code(i.store)) + "\n"@
}

impl Ingredient {
    /// Exports this ingredient to JSON.
    pub fn to_json(&self) -> (r: String)
        ensures
            r@ == ing_json(self@),
    {
        let mut json = String::new();
        json.append("{\"name\": \"");
        json.append(self.name.as_str());
        json.append("\", \"group\": \"");
        json.append(self.group.label().as_str());
        json.append("\", \"store\": \"");
        json.append(self.preferred_store.label().as_str());
        json.append("\"}");
        proof {
            assert(json@ =~= ing_json(self@));
        }
        json
    }

    /// The persisted record line of this ingredient.
    pub fn to_record(&self) -> (r: String)
        ensures
            r@ == ing_record(self@),
    {
        let mut rec = String::new();
        rec.append(self.name.as_str());
        rec.append(";");
        rec.append(crate::numeral::code_to_string(self.group.code()).as_str());
        rec.append(";");
        rec.append(crate::numeral::code_to_string(self.preferred_store.code()).as_str());
        rec.append("\n");
        proof {
            assert(rec@ =~= ing_record(self@));
        }
        rec
    }
}

/// Whether two ingredients are the same triple of name, group and store.
pub fn same_ingredient(a: &Ingredient, b: &Ingredient) -> (r: bool)
    ensures
        r == (a@ == b@),
{
    let r = a.preferred_store == b.preferred_store && a.group == b.group && crate::text::str_eq(
        a.name.as_str(),
        b.name.as_str(),
    );
    proof {
        if r {
            assert(a@ =~= b@);
        }
    }
    r
}

// ---------------------------------------------------------------------------
// Sorting
// ---------------------------------------------------------------------------

/// Sorts ingredients by the ingredient ordering: store, then group, then
/// name.
pub fn sort_ingredients(v: Vec<Ingredient>) -> (r: Vec<Ingredient>)
    ensures
        ing_views(r@) == ing_views(v@).sort_by(ing_leq()),
        ing_sorted(ing_views(r@)),
        ing_views(r@).to_multiset() == ing_views(v@).to_multiset(),
{
    broadcast use vstd::seq_lib::group_to_multiset_ensures;

    let mut out: Vec<Ingredient> = Vec::new();
    let mut i: usize = 0;
    proof {
        assert(ing_views(out@) =~= Seq::<IngredientV>::empty());
        assert(ing_views(v@.take(0)) =~= Seq::<IngredientV>::empty());
    }
    while i < v.len()
        invariant
            i <= v@.len(),
            ing_sorted(ing_views(out@)),
            ing_views(out@).to_multiset() == ing_views(v@.take(i as int)).to_multiset(),
        decreases v@.len() - i,
    {
        let x = v[i].clone();
        let mut p: usize = 0;
        while p < out.len() && ing_le_exec(&out[p], &x)
            invariant
                p <= out@.len(),
                forall|q: int| 0 <= q < p ==> ing_le(#[trigger] ing_views(out@)[q], x@),
            decreases out@.len() - p,
        {
            p = p + 1;
        }
        let ghost ov = ing_views(out@);
        let ghost pi = p as int;
        out.insert(p, x);
        proof {
            assert(ing_views(out@) =~= ov.insert(pi, x@));
            vstd::seq_lib::to_multiset_insert(ov, pi, x@);
            let nv = ing_views(out@);
            assert forall|k: int, l: int| 0 <= k <= l < nv.len() implies ing_le(
                nv[k],
                nv[l],
            ) by {
                if k == l {
                    lemma_ing_le_refl(nv[k]);
                } else if l < pi {
                } else if k < pi && l == pi {
                } else if k < pi && l > pi {
                    assert(ing_le(ov[k], ov[l - 1]));
                } else if k == pi && l > pi {
                    lemma_ing_le_flip(ov[pi], x@);
                    assert(ing_le(ov[pi], ov[l - 1]));
                    lemma_ing_le_trans(x@, ov[pi], ov[l - 1]);
                } else {
                    assert(ing_le(ov[k - 1], ov[l - 1]));
                }
            }
            assert(nv.to_multiset() == ov.to_multiset().insert(x@));
            let tk = ing_views(v@.take(i as int));
            assert(x@ == v@[i as int]@);
            assert(ing_views(v@.take(i + 1)) =~= tk.push(x@));
            vstd::seq_lib::to_multiset_build(tk, x@);
        }
        i = i + 1;
    }
    proof {
        assert(v@.take(v@.len() as int) =~= v@);
        lemma_ing_le_total_ordering();
        ing_views(v@).lemma_sort_by_ensures(ing_leq());
        vstd::seq_lib::lemma_sorted_unique(
            ing_views(out@),
            ing_views(v@).sort_by(ing_leq()),
            ing_leq(),
        );
        assert(ing_views(out@) == ing_views(v@).sort_by(ing_leq()));
    }
    out
}

/// Sorts ingredients by the name-first ordering.
pub fn sort_ingredients_by_name(v: Vec<Ingredient>) -> (r: Vec<Ingredient>)
    ensures
        ing_views(r@) == ing_views(v@).sort_by(name_leq()),
        ing_views(r@).to_multiset() == ing_views(v@).to_multiset(),
{
    broadcast use vstd::seq_lib::group_to_multiset_ensures;

    let mut out: Vec<Ingredient> = Vec::new();
    let mut i: usize = 0;
    proof {
        assert(ing_views(out@) =~= Seq::<IngredientV>::empty());
        assert(ing_views(v@.take(0)) =~= Seq::<IngredientV>::empty());
    }
    while i < v.len()
        invariant
            i <= v@.len(),
            forall|k: int, l: int|
                0 <= k <= l < out@.len() ==> name_le(
                    #[trigger] ing_views(out@)[k],
                    #[trigger] ing_views(out@)[l],
                ),
            ing_views(out@).to_multiset() == ing_views(v@.take(i as int)).to_multiset(),
        decreases v@.len() - i,
    {
        let x = v[i].clone();
        let mut p: usize = 0;
        while p < out.len() && name_le_exec(&out[p], &x)
            invariant
                p <= out@.len(),
                forall|q: int| 0 <= q < p ==> name_le(#[trigger] ing_views(out@)[q], x@),
            decreases out@.len() - p,
        {
            p = p + 1;
        }
        let ghost ov = ing_views(out@);
        let ghost pi = p as int;
        out.insert(p, x);
        proof {
            assert(ing_views(out@) =~= ov.insert(pi, x@));
            vstd::seq_lib::to_multiset_insert(ov, pi, x@);
            let nv = ing_views(out@);
            assert forall|k: int, l: int| 0 <= k <= l < nv.len() implies name_le(
                nv[k],
                nv[l],
            ) by {
                if k == l {
                    lemma_name_le_refl(nv[k]);
                } else if l < pi {
                } else if k < pi && l == pi {
                } else if k < pi && l > pi {
                    assert(name_le(ov[k], ov[l - 1]));
                } else if k == pi && l > pi {
                    lemma_name_le_flip(ov[pi], x@);
                    assert(name_le(ov[pi], ov[l - 1]));
                    lemma_name_le_trans(x@, ov[pi], ov[l - 1]);
                } else {
                    assert(name_le(ov[k - 1], ov[l - 1]));
                }
            }
            assert(nv.to_multiset() == ov.to_multiset().insert(x@));
            let tk = ing_views(v@.take(i as int));
            assert(x@ == v@[i as int]@);
            assert(ing_views(v@.take(i + 1)) =~= tk.push(x@));
            vstd::seq_lib::to_multiset_build(tk, x@);
        }
        i = i + 1;
    }
    proof {
        assert(v@.take(v@.len() as int) =~= v@);
        lemma_name_le_total_ordering();
        ing_views(v@).lemma_sort_by_ensures(name_leq());
        vstd::seq_lib::lemma_sorted_unique(
            ing_views(out@),
            ing_views(v@).sort_by(name_leq()),
            name_leq(),
        );
        assert(ing_views(out@) == ing_views(v@).sort_by(name_leq()));
    }
    out
}

// ---------------------------------------------------------------------------
// The ingredient registry
// ---------------------------------------------------------------------------

/// The first position in a sequence of ingredient values holding the given
/// name, or `-1` when no entry does.
pub open spec fn find_name(s: Seq<IngredientV>, name: Seq<char>) -> int
    decreases s.len(),
{
    if s.len() == 0 {
        -1
    } else if s[0].name == name {
        0
    } else {
        let r = find_name(s.drop_first(), name);
        if r < 0 {
            -1
        } else {
            r + 1
        }
    }
}

/// Whether some entry holds the given name.
pub open spec fn contains_name(s: Seq<IngredientV>, name: Seq<char>) -> bool {
    find_name(s, name) >= 0
}

pub proof fn lemma_find_name(s: Seq<IngredientV>, name: Seq<char>)
    ensures
        -1 <= find_name(s, name) < s.len(),
        find_name(s, name) == -1 ==> forall|i: int| 0 <= i < s.len() ==> s[i].name != name,
        find_name(s, name) >= 0 ==> s[find_name(s, name)].name == name,
        find_name(s, name) >= 0 ==> forall|i: int|
            0 <= i < find_name(s, name) ==> s[i].name != name,
    decreases s.len(),
{
    if s.len() > 0 && s[0].name != name {
        lemma_find_name(s.drop_first(), name);
        assert(forall|i: int| 1 <= i < s.len() ==> s[i] == s.drop_first()[i - 1]);
    }
}

/// The registry of all known ingredients, keyed by their unique names.
pub struct IngredientMap {
    items: Vec<Ingredient>,
}

impl View for IngredientMap {
    type V = Seq<IngredientV>;

    closed spec fn view(&self) -> Seq<IngredientV> {
        ing_views(self.items@)
    }
}

impl IngredientMap {
    /// All entries hold pairwise distinct names.
    pub open spec fn wf(&self) -> bool {
        forall|i: int, j: int| 0 <= i < j < self@.len() ==> self@[i].name != self@[j].name
    }

    /// Creates an empty registry.
    pub fn new() -> (r: IngredientMap)
        ensures
            r@ == Seq::<IngredientV>::empty(),
            r.wf(),
    {
        let r = IngredientMap { items: Vec::new() };
        proof {
            assert(r@ =~= Seq::<IngredientV>::empty());
        }
        r
    }

    /// The number of registered ingredients.
    pub fn len(&self) -> (r: usize)
        ensures
            r == self@.len(),
    {
        self.items.len()
    }

    /// The registered ingredients, in registry order.
    pub fn values(&self) -> (r: &Vec<Ingredient>)
        ensures
            ing_views(r@) == self@,
    {
        &self.items
    }

    /// Whether an ingredient of the given name is registered.
    pub fn contains_key(&self, name: &str) -> (r: bool)
        ensures
            r == contains_name(self@, name@),
    {
        proof {
            lemma_find_name(self@, name@);
        }
        let mut i: usize = 0;
        while i < self.items.len()
            invariant
                i <= self@.len(),
                self@.len() == self.items@.len(),
                forall|j: int| 0 <= j < i ==> (#[trigger] self@[j]).name != name@,
                -1 <= find_name(self@, name@) < self@.len(),
                find_name(self@, name@) == -1 ==> forall|k: int|
                    0 <= k < self@.len() ==> self@[k].name != name@,
                find_name(self@, name@) >= 0 ==> self@[find_name(self@, name@)].name == name@,
                find_name(self@, name@) >= 0 ==> forall|k: int|
                    0 <= k < find_name(self@, name@) ==> self@[k].name != name@,
            decreases self@.len() - i,
        {
            if crate::text::str_eq(self.items[i].name.as_str(), name) {
                proof {
                    assert(self@[i as int].name == name@);
                }
                return true;
            }
            i = i + 1;
        }
        false
    }

    /// Looks up the registered ingredient of the given name.
    pub fn get<'a>(&'a self, name: &str) -> (r: Option<&'a Ingredient>)
        ensures
            (r is Some) == contains_name(self@, name@),
            r matches Some(ing) ==> ing@ == self@[find_name(self@, name@)],
    {
        proof {
            lemma_find_name(self@, name@);
        }
        let mut i: usize = 0;
        while i < self.items.len()
            invariant
                i <= self@.len(),
                self@.len() == self.items@.len(),
                forall|j: int| 0 <= j < i ==> (#[trigger] self@[j]).name != name@,
                -1 <= find_name(self@, name@) < self@.len(),
                find_name(self@, name@) == -1 ==> forall|k: int|
                    0 <= k < self@.len() ==> self@[k].name != name@,
                find_name(self@, name@) >= 0 ==> self@[find_name(self@, name@)].name == name@,
                find_name(self@, name@) >= 0 ==> forall|k: int|
                    0 <= k < find_name(self@, name@) ==> self@[k].name != name@,
            decreases self@.len() - i,
        {
            if crate::text::str_eq(self.items[i].name.as_str(), name) {
                proof {
                    assert(self@[i as int].name == name@);
                    assert(find_name(self@, name@) == i as int);
                }
                return Some(&self.items[i]);
            }
            i = i + 1;
        }
        None
    }

    /// Registers an ingredient: replaces the entry of the same name, or
    /// appends a new entry.
    pub fn insert(&mut self, ing: Ingredient)
        ensures
            contains_name(old(self)@, ing@.name) ==> final(self)@ == old(self)@.update(
                find_name(old(self)@, ing@.name),
                ing@,
            ),
            !contains_name(old(self)@, ing@.name) ==> final(self)@ == old(self)@.push(ing@),
            old(self).wf() ==> final(self).wf(),
    {
        proof {
            lemma_find_name(old(self)@, ing@.name);
        }
        let ghost orig = self@;
        let mut i: usize = 0;
        while i < self.items.len()
            invariant
                orig == old(self)@,
                self@ == orig,
                self@.len() == self.items@.len(),
                i <= self@.len(),
                forall|j: int| 0 <= j < i ==> (#[trigger] orig[j]).name != ing@.name,
                -1 <= find_name(orig, ing@.name) < orig.len(),
                find_name(orig, ing@.name) == -1 ==> forall|k: int|
                    0 <= k < orig.len() ==> orig[k].name != ing@.name,
                find_name(orig, ing@.name) >= 0 ==> orig[find_name(orig, ing@.name)].name
                    == ing@.name,
                find_name(orig, ing@.name) >= 0 ==> forall|k: int|
                    0 <= k < find_name(orig, ing@.name) ==> orig[k].name != ing@.name,
            decreases self@.len() - i,
        {
            if crate::text::str_eq(self.items[i].name.as_str(), ing.name.as_str()) {
                proof {
                    assert(orig[i as int].name == ing@.name);
                    assert(find_name(orig, ing@.name) == i as int);
                }
                self.items[i] = ing;
                proof {
                    assert(self@ =~= orig.update(i as int, ing@));
                }
                return ;
            }
            i = i + 1;
        }
        self.items.push(ing);
        proof {
            assert(self@ =~= orig.push(ing@));
        }
    }
}

impl Ingredient {
    /// Registers a brand-new by-name ingredient, given the outcome of the
    /// storage collaborator's attempt to write it: on a successful write the
    /// registry gains the ingredient, on a failed write the registry is left
    /// untouched and the failure is passed through.
    pub fn persist_new_ingredient(
        name: &String,
        all_ingredients: &mut IngredientMap,
        write_result: Result<(), String>,
    ) -> (r: Result<(), String>)
        ensures
            write_result is Ok ==> {
                let newv = IngredientV { name: name@, group: Group::Other, store: Store::Any };
                &&& (contains_name(old(all_ingredients)@, name@) ==> final(all_ingredients)@
                    == old(all_ingredients)@.update(find_name(old(all_ingredients)@, name@), newv))
                &&& (!contains_name(old(all_ingredients)@, name@) ==> final(all_ingredients)@
                    == old(all_ingredients)@.push(newv))
                &&& r is Ok
            },
            write_result is Err ==> final(all_ingredients)@ == old(all_ingredients)@ && r
                == write_result,
            old(all_ingredients).wf() ==> final(all_ingredients).wf(),
    {
        match write_result {
            Err(e) => Err(e),
            Ok(()) => {
                let new_ingredient = Ingredient::new_by_name(name.clone());
                all_ingredients.insert(new_ingredient);
                Ok(())
            },
        }
    }

    /// Exports the sorted list of all registered ingredients to JSON, as a
    /// flat array ordered by name.
    pub fn all_to_json(all_ingredients: &IngredientMap) -> (r: String)
        ensures
            r@ == "["@ + ings_json(all_ingredients@.sort_by(name_leq())) + "]"@,
    {
        let src = all_ingredients.values();
        let mut items: Vec<Ingredient> = Vec::new();
        let mut i: usize = 0;
        proof {
            assert(ing_views(items@) =~= all_ingredients@.take(0));
        }
        while i < src.len()
            invariant
                i <= src@.len(),
                ing_views(src@) == all_ingredients@,
                ing_views(items@) == all_ingredients@.take(i as int),
            decreases src@.len() - i,
        {
            let x = src[i].clone();
            let ghost before = items@;
            proof {
                assert(x@ == ing_views(src@)[i as int]);
            }
            items.push(x);
            proof {
                assert(ing_views(items@) =~= ing_views(before).push(ing_views(src@)[i as int]));
                assert(ing_views(items@) =~= all_ingredients@.take(i + 1));
            }
            i = i + 1;
        }
        proof {
            assert(all_ingredients@.take(all_ingredients@.len() as int) =~= all_ingredients@);
        }
        let sorted = sort_ingredients_by_name(items);
        let ghost sv = ing_views(sorted@);

        let mut json = String::new();
        json.append("[");
        let mut k: usize = 0;
        proof {
            assert(json@ =~= "["@ + ings_json(sv.take(0)));
        }
        while k < sorted.len()
            invariant
                k <= sorted@.len(),
                sv == ing_views(sorted@),
                json@ == "["@ + ings_json(sv.take(k as int)),
            decreases sorted@.len() - k,
        {
            if k > 0 {
                json.append(", ");
            }
            json.append(sorted[k].to_json().as_str());
            proof {
                let t = sv.take(k + 1);
                assert(t.drop_last() =~= sv.take(k as int));
                assert(t.last() == sv[k as int]);
                assert(t[0] == sv[0]);
                assert(json@ =~= "["@ + ings_json(sv.take(k + 1)));
            }
            k = k + 1;
        }
        json.append("]");
        proof {
            assert(sv.take(sv.len() as int) =~= sv);
            assert(json@ =~= "["@ + ings_json(all_ingredients@.sort_by(name_leq())) + "]"@);
        }
        json
    }

    /// Returns the list of all registered ingredients, sorted by the
    /// ingredient ordering.
    pub fn get_all_ingredients(all_ingredients: &IngredientMap) -> (r: Vec<Ingredient>)
        ensures
            ing_views(r@) == all_ingredients@.sort_by(ing_leq()),
            ing_sorted(ing_views(r@)),
    {
        let src = all_ingredients.values();
        let mut items: Vec<Ingredient> = Vec::new();
        let mut i: usize = 0;
        proof {
            assert(ing_views(items@) =~= all_ingredients@.take(0));
        }
        while i < src.len()
            invariant
                i <= src@.len(),
                ing_views(src@) == all_ingredients@,
                ing_views(items@) == all_ingredients@.take(i as int),
            decreases src@.len() - i,
        {
            let x = src[i].clone();
            let ghost before = items@;
            proof {
                assert(x@ == ing_views(src@)[i as int]);
            }
            items.push(x);
            proof {
                assert(ing_views(items@) =~= ing_views(before).push(ing_views(src@)[i as int]));
                assert(ing_views(items@) =~= all_ingredients@.take(i + 1));
            }
            i = i + 1;
        }
        proof {
            assert(all_ingredients@.take(all_ingredients@.len() as int) =~= all_ingredients@);
        }
        sort_ingredients(items)
    }
}

/// The record lines of a sequence of ingredients, in order.
pub open spec fn registry_records(s: Seq<IngredientV>) -> Seq<char>
    decreases s.len(),
{
    if s.len() == 0 {
        Seq::empty()
    } else {
        registry_records(s.drop_last()) + ing_record(s.last())
    }
}

impl IngredientMap {
    /// The persisted record text of the whole registry, one line per
    /// ingredient in registry order.
    pub fn to_records(&self) -> (r: String)
        ensures
            r@ == registry_records(self@),
    {
        let mut rec = String::new();
        let mut i: usize = 0;
        proof {
            assert(rec@ =~= registry_records(self@.take(0)));
        }
        while i < self.items.len()
            invariant
                i <= self@.len(),
                self@.len() == self.items@.len(),
                rec@ == registry_records(self@.take(i as int)),
            decreases self@.len() - i,
        {
            rec.append(self.items[i].to_record().as_str());
            proof {
                let t = self@.take(i + 1);
                assert(t.drop_last() =~= self@.take(i as int));
                assert(t.last() == self@[i as int]);
                assert(self@[i as int] == self.items@[i as int]@);
                assert(rec@ =~= registry_records(t));
            }
            i = i + 1;
        }
        proof {
            assert(self@.take(self@.len() as int) =~= self@);
        }
        rec
    }
}

/// The JSON array items of a sequence of ingredients, separated by commas.
pub open spec fn ings_json(s: Seq<IngredientV>) -> Seq<char>
    decreases s.len(),
{
    if s.len() == 0 {
        Seq::empty()
    } else if s.len() == 1 {
        ing_json(s[0])
    } else {
        ings_json(s.drop_last()) + ", "@ + ing_json(s.last())
    }
}

} // verus!
