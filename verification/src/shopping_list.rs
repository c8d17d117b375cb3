//! The shopping list: ingredients still to buy, each with an amount, with
//! add-or-increment and removal semantics and a JSON export grouped by store
//! and then by grocery department.

use vstd::prelude::*;

use crate::group::{group_label, Group};
use crate::ingredient::{
    ing_le, lemma_ing_le_flip, lemma_ing_le_trans, same_ingredient, Ingredient, IngredientV,
};
use crate::numeral::{dec_str, u16_to_string};
use crate::store::{store_name, Store};

verus! {

/// The views of a sequence of shopping-list entries.
pub open spec fn entry_views(s: Seq<(Ingredient, u16)>) -> Seq<(IngredientV, u16)> {
    s.map_values(|e: (Ingredient, u16)| (e.0@, e.1))
}

/// The first position whose entry holds the given ingredient, or `-1` when
/// no entry does.
pub open spec fn find_entry(s: Seq<(IngredientV, u16)>, k: IngredientV) -> int
    decreases s.len(),
{
    if s.len() == 0 {
        -1
    } else if s[0].0 == k {
        0
    } else {
        let r = find_entry(s.drop_first(), k);
        if r < 0 {
            -1
        } else {
            r + 1
        }
    }
}

/// Whether some entry holds the given ingredient.
pub open spec fn contains_entry(s: Seq<(IngredientV, u16)>, k: IngredientV) -> bool {
    find_entry(s, k) >= 0
}

pub proof fn lemma_find_entry(s: Seq<(IngredientV, u16)>, k: IngredientV)
    ensures
        -1 <= find_entry(s, k) < s.len(),
        find_entry(s, k) == -1 ==> forall|i: int| 0 <= i < s.len() ==> s[i].0 != k,
        find_entry(s, k) >= 0 ==> s[find_entry(s, k)].0 == k,
        find_entry(s, k) >= 0 ==> forall|i: int| 0 <= i < find_entry(s, k) ==> s[i].0 != k,
    decreases s.len(),
{
    if s.len() > 0 && s[0].0 != k {
        lemma_find_entry(s.drop_first(), k);
        assert(forall|i: int| 1 <= i < s.len() ==> s[i] == s.drop_first()[i - 1]);
    }
}

/// A position that holds the key, with no earlier one holding it, is the
/// position [`find_entry`] yields.
pub proof fn lemma_find_entry_at(s: Seq<(IngredientV, u16)>, k: IngredientV, i: int)
    requires
        0 <= i < s.len(),
        s[i].0 == k,
        forall|j: int| 0 <= j < i ==> s[j].0 != k,
    ensures
        find_entry(s, k) == i,
    decreases s.len(),
{
    if i > 0 {
        let d = s.drop_first();
        assert(forall|j: int| 0 <= j < d.len() ==> d[j] == s[j + 1]);
        lemma_find_entry_at(d, k, i - 1);
    }
}

/// The effect of add-or-increment on the entries: a present ingredient's
/// amount grows by one, an absent one is appended with amount one.
pub open spec fn add_effect(s: Seq<(IngredientV, u16)>, k: IngredientV) -> Seq<(IngredientV, u16)> {
    if contains_entry(s, k) {
        let f = find_entry(s, k);
        s.update(f, (s[f].0, (s[f].1 + 1) as u16))
    } else {
        s.push((k, 1))
    }
}

/// The shopping list: what still has to be bought, and how much of it.
pub struct ShoppingList {
    to_buy: Vec<(Ingredient, u16)>,
}

impl View for ShoppingList {
    type V = Seq<(IngredientV, u16)>;

    closed spec fn view(&self) -> Seq<(IngredientV, u16)> {
        entry_views(self.to_buy@)
    }
}

impl ShoppingList {
    /// All entries hold pairwise distinct ingredients.
    pub open spec fn wf(&self) -> bool {
        forall|i: int, j: int| 0 <= i < j < self@.len() ==> self@[i].0 != self@[j].0
    }

    /// Creates an empty shopping list.
    pub fn new() -> (r: ShoppingList)
        ensures
            r@ == Seq::<(IngredientV, u16)>::empty(),
            r.wf(),
    {
        let r = ShoppingList { to_buy: Vec::new() };
        proof {
            assert(r@ =~= Seq::<(IngredientV, u16)>::empty());
        }
        r
    }

    /// Whether nothing is to buy.
    pub fn is_empty(&self) -> (r: bool)
        ensures
            r == (self@.len() == 0),
    {
        self.to_buy.is_empty()
    }

    /// Whether the ingredient is on the list.
    pub fn contains_key(&self, ingredient: &Ingredient) -> (r: bool)
        ensures
            r == contains_entry(self@, ingredient@),
    {
        proof {
            lemma_find_entry(self@, ingredient@);
        }
        let mut i: usize = 0;
        while i < self.to_buy.len()
            invariant
                i <= self@.len(),
                self@.len() == self.to_buy@.len(),
                forall|j: int| 0 <= j < i ==> (#[trigger] self@[j]).0 != ingredient@,
                -1 <= find_entry(self@, ingredient@) < self@.len(),
                find_entry(self@, ingredient@) == -1 ==> forall|k: int|
                    0 <= k < self@.len() ==> self@[k].0 != ingredient@,
                find_entry(self@, ingredient@) >= 0 ==> self@[find_entry(self@, ingredient@)].0
                    == ingredient@,
                find_entry(self@, ingredient@) >= 0 ==> forall|k: int|
                    0 <= k < find_entry(self@, ingredient@) ==> self@[k].0 != ingredient@,
            decreases self@.len() - i,
        {
            if same_ingredient(&self.to_buy[i].0, ingredient) {
                proof {
                    assert(self@[i as int].0 == ingredient@);
                }
                return true;
            }
            i = i + 1;
        }
        false
    }

    /// The amount to buy of the given ingredient, when it is on the list.
    pub fn get_amount(&self, ingredient: &Ingredient) -> (r: Option<u16>)
        ensures
            (r is Some) == contains_entry(self@, ingredient@),
            r matches Some(a) ==> a == self@[find_entry(self@, ingredient@)].1,
    {
        proof {
            lemma_find_entry(self@, ingredient@);
        }
        let mut i: usize = 0;
        while i < self.to_buy.len()
            invariant
                i <= self@.len(),
                self@.len() == self.to_buy@.len(),
                forall|j: int| 0 <= j < i ==> (#[trigger] self@[j]).0 != ingredient@,
                -1 <= find_entry(self@, ingredient@) < self@.len(),
                find_entry(self@, ingredient@) == -1 ==> forall|k: int|
                    0 <= k < self@.len() ==> self@[k].0 != ingredient@,
                find_entry(self@, ingredient@) >= 0 ==> self@[find_entry(self@, ingredient@)].0
                    == ingredient@,
                find_entry(self@, ingredient@) >= 0 ==> forall|k: int|
                    0 <= k < find_entry(self@, ingredient@) ==> self@[k].0 != ingredient@,
            decreases self@.len() - i,
        {
            if same_ingredient(&self.to_buy[i].0, ingredient) {
                proof {
                    assert(self@[i as int].0 == ingredient@);
                    lemma_find_entry_at(self@, ingredient@, i as int);
                }
                return Some(self.to_buy[i].1);
            }
            i = i + 1;
        }
        None
    }

    /// Adds an ingredient: a first add puts it on the list with amount one,
    /// every further add increments the amount.
    pub fn add_or_increment(&mut self, ingredient: &Ingredient)
        requires
            contains_entry(old(self)@, ingredient@) ==> old(self)@[find_entry(
                old(self)@,
                ingredient@,
            )].1 < u16::MAX,
        ensures
            final(self)@ == add_effect(old(self)@, ingredient@),
            old(self).wf() ==> final(self).wf(),
    {
        proof {
            lemma_find_entry(old(self)@, ingredient@);
        }
        let ghost orig = self@;
        let mut i: usize = 0;
        while i < self.to_buy.len()
            invariant
                orig == old(self)@,
                self@ == orig,
                self@.len() == self.to_buy@.len(),
                i <= self@.len(),
                contains_entry(orig, ingredient@) ==> orig[find_entry(orig, ingredient@)].1
                    < u16::MAX,
                forall|j: int| 0 <= j < i ==> (#[trigger] orig[j]).0 != ingredient@,
                -1 <= find_entry(orig, ingredient@) < orig.len(),
                find_entry(orig, ingredient@) == -1 ==> forall|k: int|
                    0 <= k < orig.len() ==> orig[k].0 != ingredient@,
                find_entry(orig, ingredient@) >= 0 ==> orig[find_entry(orig, ingredient@)].0
                    == ingredient@,
                find_entry(orig, ingredient@) >= 0 ==> forall|k: int|
                    0 <= k < find_entry(orig, ingredient@) ==> orig[k].0 != ingredient@,
            decreases self@.len() - i,
        {
            if same_ingredient(&self.to_buy[i].0, ingredient) {
                proof {
                    assert(orig[i as int].0 == ingredient@);
                    lemma_find_entry_at(orig, ingredient@, i as int);
                }
                let key = self.to_buy[i].0.clone();
                let amount = self.to_buy[i].1;
                self.to_buy[i] = (key, amount + 1);
                proof {
                    assert(self@ =~= add_effect(orig, ingredient@));
                }
                return ;
            }
            i = i + 1;
        }
        self.to_buy.push((ingredient.clone(), 1));
        proof {
            assert(self@ =~= orig.push((ingredient@, 1)));
        }
    }

    /// Puts an ingredient on the list with an explicit amount, replacing any
    /// present entry: the unconditional upsert used when loading from
    /// storage.
    pub fn add_item(&mut self, ingredient: Ingredient, amount: u16)
        ensures
            contains_entry(old(self)@, ingredient@) ==> final(self)@ == old(self)@.update(
                find_entry(old(self)@, ingredient@),
                (ingredient@, amount),
            ),
            !contains_entry(old(self)@, ingredient@) ==> final(self)@ == old(self)@.push(
                (ingredient@, amount),
            ),
            old(self).wf() ==> final(self).wf(),
    {
        proof {
            lemma_find_entry(old(self)@, ingredient@);
        }
        let ghost orig = self@;
        let mut i: usize = 0;
        while i < self.to_buy.len()
            invariant
                orig == old(self)@,
                self@ == orig,
                self@.len() == self.to_buy@.len(),
                i <= self@.len(),
                forall|j: int| 0 <= j < i ==> (#[trigger] orig[j]).0 != ingredient@,
                -1 <= find_entry(orig, ingredient@) < orig.len(),
                find_entry(orig, ingredient@) == -1 ==> forall|k: int|
                    0 <= k < orig.len() ==> orig[k].0 != ingredient@,
                find_entry(orig, ingredient@) >= 0 ==> orig[find_entry(orig, ingredient@)].0
                    == ingredient@,
                find_entry(orig, ingredient@) >= 0 ==> forall|k: int|
                    0 <= k < find_entry(orig, ingredient@) ==> orig[k].0 != ingredient@,
            decreases self@.len() - i,
        {
            if same_ingredient(&self.to_buy[i].0, &ingredient) {
                proof {
                    assert(orig[i as int].0 == ingredient@);
                    lemma_find_entry_at(orig, ingredient@, i as int);
                }
                self.to_buy[i] = (ingredient, amount);
                proof {
                    assert(self@ =~= orig.update(find_entry(orig, ingredient@), (ingredient@, amount)));
                }
                return ;
            }
            i = i + 1;
        }
        self.to_buy.push((ingredient, amount));
        proof {
            assert(self@ =~= orig.push((ingredient@, amount)));
        }
    }

    /// Takes an ingredient off the list; removing an absent ingredient is a
    /// no-op and leaves the list unchanged.
    pub fn remove(&mut self, ingredient: &Ingredient)
        ensures
            contains_entry(old(self)@, ingredient@) ==> final(self)@ == old(self)@.remove(
                find_entry(old(self)@, ingredient@),
            ),
            !contains_entry(old(self)@, ingredient@) ==> final(self)@ == old(self)@,
            old(self).wf() ==> final(self).wf(),
    {
        proof {
            lemma_find_entry(old(self)@, ingredient@);
        }
        let ghost orig = self@;
        let mut i: usize = 0;
        while i < self.to_buy.len()
            invariant
                orig == old(self)@,
                self@ == orig,
                self@.len() == self.to_buy@.len(),
                i <= self@.len(),
                forall|j: int| 0 <= j < i ==> (#[trigger] orig[j]).0 != ingredient@,
                -1 <= find_entry(orig, ingredient@) < orig.len(),
                find_entry(orig, ingredient@) == -1 ==> forall|k: int|
                    0 <= k < orig.len() ==> orig[k].0 != ingredient@,
                find_entry(orig, ingredient@) >= 0 ==> orig[find_entry(orig, ingredient@)].0
                    == ingredient@,
                find_entry(orig, ingredient@) >= 0 ==> forall|k: int|
                    0 <= k < find_entry(orig, ingredient@) ==> orig[k].0 != ingredient@,
            decreases self@.len() - i,
        {
            if same_ingredient(&self.to_buy[i].0, ingredient) {
                proof {
                    assert(orig[i as int].0 == ingredient@);
                    lemma_find_entry_at(orig, ingredient@, i as int);
                }
                self.to_buy.remove(i);
                proof {
                    assert(self@ =~= orig.remove(i as int));
                }
                return ;
            }
            i = i + 1;
        }
    }
}

// ---------------------------------------------------------------------------
// The entry ordering
// ---------------------------------------------------------------------------

/// The entry ordering the export sorts by: the ingredient ordering, with
/// ties between equal ingredients broken by amount so the relation is total.
pub open spec fn entry_le(a: (IngredientV, u16), b: (IngredientV, u16)) -> bool {
    if a.0 == b.0 {
        a.1 <= b.1
    } else {
        ing_le(a.0, b.0)
    }
}

/// The entry ordering as a first-class relation.
pub open spec fn entry_leq() -> spec_fn((IngredientV, u16), (IngredientV, u16)) -> bool {
    |a: (IngredientV, u16), b: (IngredientV, u16)| entry_le(a, b)
}

pub proof fn lemma_entry_le_refl(a: (IngredientV, u16))
    ensures
        entry_le(a, a),
{
}

pub proof fn lemma_entry_le_flip(a: (IngredientV, u16), b: (IngredientV, u16))
    requires
        !entry_le(a, b),
    ensures
        entry_le(b, a),
{
    if a.0 != b.0 {
        lemma_ing_le_flip(a.0, b.0);
    }
}

pub proof fn lemma_entry_le_trans(a: (IngredientV, u16), b: (IngredientV, u16), c: (IngredientV, u16))
    requires
        entry_le(a, b),
        entry_le(b, c),
    ensures
        entry_le(a, c),
{
    if a.0 != b.0 && b.0 != c.0 {
        lemma_ing_le_trans(a.0, b.0, c.0);
        if a.0 == c.0 {
            crate::ingredient::lemma_ing_le_antisym(a.0, b.0);
        }
    }
}

pub proof fn lemma_entry_le_antisym(a: (IngredientV, u16), b: (IngredientV, u16))
    requires
        entry_le(a, b),
        entry_le(b, a),
    ensures
        a == b,
{
    if a.0 != b.0 {
        crate::ingredient::lemma_ing_le_antisym(a.0, b.0);
    }
}

pub proof fn lemma_entry_le_total_ordering()
    ensures
        vstd::relations::total_ordering(entry_leq()),
{
    assert forall|a: (IngredientV, u16)| #[trigger] entry_le(a, a) by {
        lemma_entry_le_refl(a);
    }
    assert forall|a: (IngredientV, u16), b: (IngredientV, u16)|
        #[trigger] entry_le(a, b) && #[trigger] entry_le(b, a) implies a == b by {
        lemma_entry_le_antisym(a, b);
    }
    assert forall|a: (IngredientV, u16), b: (IngredientV, u16), c: (IngredientV, u16)|
        #[trigger] entry_le(a, b) && #[trigger] entry_le(b, c) implies entry_le(a, c) by {
        lemma_entry_le_trans(a, b, c);
    }
    assert forall|a: (IngredientV, u16), b: (IngredientV, u16)|
        #[trigger] entry_le(a, b) || #[trigger] entry_le(b, a) by {
        if !entry_le(a, b) {
            lemma_entry_le_flip(a, b);
        }
    }
}

fn entry_le_exec(a: &(Ingredient, u16), b: &(Ingredient, u16)) -> (r: bool)
    ensures
        r == entry_le((a.0@, a.1), (b.0@, b.1)),
{
    if same_ingredient(&a.0, &b.0) {
        a.1 <= b.1
    } else {
        crate::ingredient::ing_le_exec(&a.0, &b.0)
    }
}

/// Sorts shopping-list entries by the entry ordering.
fn sort_entries(v: Vec<(Ingredient, u16)>) -> (r: Vec<(Ingredient, u16)>)
    ensures
        entry_views(r@) == entry_views(v@).sort_by(entry_leq()),
        entry_views(r@).to_multiset() == entry_views(v@).to_multiset(),
{
    let mut out: Vec<(Ingredient, u16)> = Vec::new();
    let mut i: usize = 0;
    proof {
        assert(entry_views(out@) =~= Seq::<(IngredientV, u16)>::empty());
        assert(entry_views(v@.take(0)) =~= Seq::<(IngredientV, u16)>::empty());
    }
    while i < v.len()
        invariant
            i <= v@.len(),
            forall|k: int, l: int|
                0 <= k <= l < out@.len() ==> entry_le(
                    #[trigger] entry_views(out@)[k],
                    #[trigger] entry_views(out@)[l],
                ),
            entry_views(out@).to_multiset() == entry_views(v@.take(i as int)).to_multiset(),
        decreases v@.len() - i,
    {
        let key = v[i].0.clone();
        let amount = v[i].1;
        let x = (key, amount);
        proof {
            assert(x.0@ == v@[i as int].0@);
        }
        let mut p: usize = 0;
        while p < out.len() && entry_le_exec(&out[p], &x)
            invariant
                p <= out@.len(),
                forall|q: int|
                    0 <= q < p ==> entry_le(#[trigger] entry_views(out@)[q], (x.0@, x.1)),
            decreases out@.len() - p,
        {
            p = p + 1;
        }
        let ghost ov = entry_views(out@);
        let ghost pi = p as int;
        let ghost xv = (x.0@, x.1);
        out.insert(p, x);
        proof {
            assert(entry_views(out@) =~= ov.insert(pi, xv));
            vstd::seq_lib::to_multiset_insert(ov, pi, xv);
            let nv = entry_views(out@);
            assert forall|k: int, l: int| 0 <= k <= l < nv.len() implies entry_le(
                nv[k],
                nv[l],
            ) by {
                if k == l {
                    lemma_entry_le_refl(nv[k]);
                } else if l < pi {
                } else if k < pi && l == pi {
                } else if k < pi && l > pi {
                    assert(entry_le(ov[k], ov[l - 1]));
                } else if k == pi && l > pi {
                    lemma_entry_le_flip(ov[pi], xv);
                    assert(entry_le(ov[pi], ov[l - 1]));
                    lemma_entry_le_trans(xv, ov[pi], ov[l - 1]);
                } else {
                    assert(entry_le(ov[k - 1], ov[l - 1]));
                }
            }
            assert(nv.to_multiset() == ov.to_multiset().insert(xv));
            let tk = entry_views(v@.take(i as int));
            assert(xv == entry_views(v@)[i as int]);
            assert(entry_views(v@.take(i + 1)) =~= tk.push(xv));
            vstd::seq_lib::to_multiset_build(tk, xv);
        }
        i = i + 1;
    }
    proof {
        assert(v@.take(v@.len() as int) =~= v@);
        lemma_entry_le_total_ordering();
        entry_views(v@).lemma_sort_by_ensures(entry_leq());
        vstd::seq_lib::lemma_sorted_unique(
            entry_views(out@),
            entry_views(v@).sort_by(entry_leq()),
            entry_leq(),
        );
        assert(entry_views(out@) == entry_views(v@).sort_by(entry_leq()));
    }
    out
}

// ---------------------------------------------------------------------------
// Record and JSON text
// ---------------------------------------------------------------------------

/// The persisted record lines of the entries: `name;amount`, one line each.
pub open spec fn sl_records(entries: Seq<(IngredientV, u16)>) -> Seq<char>
    decreases entries.len(),
{
    if entries.len() == 0 {
        Seq::empty()
    } else {
        sl_records(entries.drop_last()) + entries.last().0.name + ";"@ + dec_str(
            entries.last().1 as nat,
        ) + "\n"@
    }
}

/// The JSON object of one entry: the name, and the amount only when it
/// exceeds one.
pub open spec fn entry_json(name: Seq<char>, amount: u16) -> Seq<char> {
    "{\"name\": \""@ + name + "\""@ + (if amount > 1 {
        ", \"amount\": "@ + dec_str(amount as nat)
    } else {
        Seq::<char>::empty()
    }) + "}"@
}

/// The opening of a store group: its quoted name, the opening brace of its
/// object, and the opening of its first department sub-group.
pub open spec fn store_open(s: Store, g: Group) -> Seq<char> {
    "\""@ + store_name(s) + "\": {\""@ + group_label(g) + "\": ["@
}

/// The items of the grouped export, emitted in one linear pass: a new store
/// group begins whenever the store differs from the previous item's, a new
/// department sub-group whenever the department differs, and commas separate
/// items within one sub-group.
pub open spec fn items_json(
    entries: Seq<(IngredientV, u16)>,
    prev_store: Store,
    prev_group: Group,
    first: bool,
) -> Seq<char>
    decreases entries.len(),
{
    if entries.len() == 0 {
        Seq::empty()
    } else {
        let k = entries[0].0;
        let piece = if k.store != prev_store {
            "]}, "@ + store_open(k.store, k.group)
        } else if k.group != prev_group {
            "], \""@ + group_label(k.group) + "\": ["@
        } else if !first {
            ", "@
        } else {
            Seq::<char>::empty()
        };
        piece + entry_json(k.name, entries[0].1) + items_json(
            entries.drop_first(),
            k.store,
            k.group,
            false,
        )
    }
}

/// The grouped JSON export of sorted entries: the empty object for an empty
/// list, else store groups of department sub-groups of entry objects.
pub open spec fn shopping_json(entries: Seq<(IngredientV, u16)>) -> Seq<char> {
    if entries.len() == 0 {
        "{}"@
    } else {
        let k0 = entries[0].0;
        "{"@ + store_open(k0.store, k0.group) + items_json(entries, k0.store, k0.group, true)
            + "]}}"@
    }
}

/// The emitted items of a concatenation split at any point: the tail
/// continues from the last store and department the head emitted.
proof fn lemma_items_json_append(
    s1: Seq<(IngredientV, u16)>,
    s2: Seq<(IngredientV, u16)>,
    prev_store: Store,
    prev_group: Group,
    first: bool,
)
    ensures
        items_json(s1 + s2, prev_store, prev_group, first) == items_json(
            s1,
            prev_store,
            prev_group,
            first,
        ) + items_json(
            s2,
            if s1.len() == 0 {
                prev_store
            } else {
                s1.last().0.store
            },
            if s1.len() == 0 {
                prev_group
            } else {
                s1.last().0.group
            },
            first && s1.len() == 0,
        ),
    decreases s1.len(),
{
    if s1.len() == 0 {
        assert(s1 + s2 =~= s2);
        assert(items_json(s1, prev_store, prev_group, first) == Seq::<char>::empty());
        assert(Seq::<char>::empty() + items_json(s2, prev_store, prev_group, first) =~= items_json(
            s2,
            prev_store,
            prev_group,
            first,
        ));
    } else {
        let k = s1[0].0;
        let piece = if k.store != prev_store {
            "]}, "@ + store_open(k.store, k.group)
        } else if k.group != prev_group {
            "], \""@ + group_label(k.group) + "\": ["@
        } else if !first {
            ", "@
        } else {
            Seq::<char>::empty()
        };
        let head = piece + entry_json(k.name, s1[0].1);
        let ns = s1.last().0.store;
        let ng = s1.last().0.group;
        let tail1 = items_json(s1.drop_first(), k.store, k.group, false);
        let tail2 = items_json(s2, ns, ng, false);

        assert((s1 + s2)[0] == s1[0]);
        assert((s1 + s2).drop_first() =~= s1.drop_first() + s2);
        assert(items_json(s1 + s2, prev_store, prev_group, first) == head + items_json(
            s1.drop_first() + s2,
            k.store,
            k.group,
            false,
        ));
        lemma_items_json_append(s1.drop_first(), s2, k.store, k.group, false);
        if s1.len() == 1 {
            assert(s1.drop_first().len() == 0);
            assert(s1.last() == s1[0]);
        } else {
            assert(s1.drop_first().last() == s1.last());
        }
        assert(items_json(s1.drop_first() + s2, k.store, k.group, false) == tail1 + tail2);
        assert(head + (tail1 + tail2) =~= (head + tail1) + tail2);
        assert(items_json(s1, prev_store, prev_group, first) == head + tail1);
    }
}

/// Emits one entry of the grouped export: the group-boundary text the entry
/// opens with, then its JSON object; tracks the store and department of the
/// emitted entry.
#[verifier::rlimit(100)]
fn emit_entry(
    json: &mut String,
    store: &mut Store,
    category: &mut Group,
    is_first: &mut bool,
    ing: &Ingredient,
    amount: u16,
)
    ensures
        final(json)@ == old(json)@ + items_json(
            seq![(ing@, amount)],
            *old(store),
            *old(category),
            *old(is_first),
        ),
        *final(store) == ing@.store,
        *final(category) == ing@.group,
        *final(is_first) == false,
{
    let ghost start = json@;
    let ghost prev_store = *store;
    let ghost prev_group = *category;
    let ghost was_first = *is_first;

    let ghost piece = (if ing@.store != prev_store {
        "]}, "@ + store_open(ing@.store, ing@.group)
    } else if ing@.group != prev_group {
        "], \""@ + group_label(ing@.group) + "\": ["@
    } else if !was_first {
        ", "@
    } else {
        Seq::<char>::empty()
    });

    let e_store = ing.preferred_store;
    let e_group = ing.group;
    if e_store != *store {
        *store = e_store;
        *category = e_group;
        json.append("]}, ");
        json.append("\"");
        json.append(e_store.name());
        json.append("\": {\"");
        json.append(e_group.label().as_str());
        json.append("\": [");
        *is_first = true;
        proof {
            assert(json@ =~= start + piece);
        }
    } else if e_group != *category {
        *category = e_group;
        json.append("], \"");
        json.append(e_group.label().as_str());
        json.append("\": [");
        *is_first = true;
        proof {
            assert(json@ =~= start + piece);
        }
    }

    if !*is_first {
        json.append(", ");
    }
    proof {
        assert(json@ =~= start + piece);
    }
    let ghost with_piece = json@;
    json.append("{\"name\": \"");
    json.append(ing.name.as_str());
    json.append("\"");
    if amount > 1 {
        json.append(", \"amount\": ");
        json.append(u16_to_string(amount).as_str());
    }
    json.append("}");
    *is_first = false;
    proof {
        assert(json@ =~= with_piece + entry_json(ing@.name, amount));
    }

    proof {
        let single = seq![(ing@, amount)];
        assert(single.len() == 1 && single[0] == (ing@, amount));
        assert(single.drop_first() =~= Seq::<(IngredientV, u16)>::empty());
        assert(items_json(single.drop_first(), ing@.store, ing@.group, false)
            == Seq::<char>::empty());
        assert(items_json(single, prev_store, prev_group, was_first) == piece + entry_json(
            ing@.name,
            amount,
        ) + items_json(single.drop_first(), ing@.store, ing@.group, false));
        assert(json@ =~= start + items_json(single, prev_store, prev_group, was_first));
    }
}

impl ShoppingList {
    /// The persisted record text of the whole list.
    pub fn to_records(&self) -> (r: String)
        ensures
            r@ == sl_records(self@),
    {
        let mut rec = String::new();
        let mut i: usize = 0;
        proof {
            assert(rec@ =~= sl_records(self@.take(0)));
        }
        while i < self.to_buy.len()
            invariant
                i <= self@.len(),
                self@.len() == self.to_buy@.len(),
                rec@ == sl_records(self@.take(i as int)),
            decreases self@.len() - i,
        {
            rec.append(self.to_buy[i].0.name.as_str());
            rec.append(";");
            rec.append(u16_to_string(self.to_buy[i].1).as_str());
            rec.append("\n");
            proof {
                let t = self@.take(i + 1);
                assert(t.drop_last() =~= self@.take(i as int));
                assert(t.last() == self@[i as int]);
                assert(self@[i as int].0.name == self.to_buy@[i as int].0@.name);
                assert(rec@ =~= sl_records(self@.take(i + 1)));
            }
            i = i + 1;
        }
        proof {
            assert(self@.take(self@.len() as int) =~= self@);
        }
        rec
    }

    /// Adds an ingredient as [`Self::add_or_increment`] does and returns the
    /// record text of the updated list, for the storage collaborator to
    /// write.
    pub fn add_and_save(&mut self, ingredient: &Ingredient) -> (content: String)
        requires
            contains_entry(old(self)@, ingredient@) ==> old(self)@[find_entry(
                old(self)@,
                ingredient@,
            )].1 < u16::MAX,
        ensures
            final(self)@ == add_effect(old(self)@, ingredient@),
            old(self).wf() ==> final(self).wf(),
            content@ == sl_records(final(self)@),
    {
        self.add_or_increment(ingredient);
        self.to_records()
    }

    /// Removes an ingredient as [`Self::remove`] does and returns the record
    /// text of the updated list, for the storage collaborator to write.
    pub fn remove_and_save(&mut self, ingredient: &Ingredient) -> (content: String)
        ensures
            contains_entry(old(self)@, ingredient@) ==> final(self)@ == old(self)@.remove(
                find_entry(old(self)@, ingredient@),
            ),
            !contains_entry(old(self)@, ingredient@) ==> final(self)@ == old(self)@,
            old(self).wf() ==> final(self).wf(),
            content@ == sl_records(final(self)@),
    {
        self.remove(ingredient);
        self.to_records()
    }

    /// Exports the shopping list to JSON, sorted by the ingredient ordering
    /// and grouped by store and then by grocery department; an empty list
    /// exports as the empty object.
    #[verifier::rlimit(100)]
    pub fn to_json(&self) -> (r: String)
        ensures
            r@ == shopping_json(self@.sort_by(entry_leq())),
    {
        let mut entries: Vec<(Ingredient, u16)> = Vec::new();
        let mut i: usize = 0;
        proof {
            assert(entry_views(entries@) =~= self@.take(0));
        }
        while i < self.to_buy.len()
            invariant
                i <= self@.len(),
                self@.len() == self.to_buy@.len(),
                entry_views(entries@) == self@.take(i as int),
            decreases self@.len() - i,
        {
            let key = self.to_buy[i].0.clone();
            let amount = self.to_buy[i].1;
            let ghost before = entries@;
            proof {
                assert((key@, amount) == self@[i as int]);
            }
            entries.push((key, amount));
            proof {
                assert(entry_views(entries@) =~= entry_views(before).push(self@[i as int]));
                assert(entry_views(entries@) =~= self@.take(i + 1));
            }
            i = i + 1;
        }
        proof {
            assert(self@.take(self@.len() as int) =~= self@);
        }
        let sorted = sort_entries(entries);
        let ghost sv = self@.sort_by(entry_leq());
        proof {
            assert(entry_views(sorted@) == sv);
        }

        if sorted.len() == 0 {
            proof {
                assert(sv.len() == entry_views(sorted@).len());
            }
            return "{}".to_owned();
        }
        proof {
            assert(sv.len() > 0);
        }

        let ghost s0 = sv[0].0.store;
        let ghost g0 = sv[0].0.group;
        let mut store = sorted[0].0.preferred_store;
        let mut category = sorted[0].0.group;

        let mut json = String::new();
        json.append("{");
        json.append("\"");
        json.append(store.name());
        json.append("\": {\"");
        json.append(category.label().as_str());
        json.append("\": [");
        proof {
            assert(sv[0] == entry_views(sorted@)[0]);
            assert(store == s0 && category == g0);
            assert(sv.take(0) =~= Seq::<(IngredientV, u16)>::empty());
            assert(json@ =~= "{"@ + store_open(s0, g0) + items_json(sv.take(0), s0, g0, true));
        }

        let mut is_first: bool = true;
        let mut k: usize = 0;
        while k < sorted.len()
            invariant
                sv == entry_views(sorted@),
                sv.len() == sorted@.len(),
                sv.len() > 0,
                s0 == sv[0].0.store,
                g0 == sv[0].0.group,
                k <= sv.len(),
                is_first == (k == 0),
                store == (if k == 0 {
                    s0
                } else {
                    sv[k - 1].0.store
                }),
                category == (if k == 0 {
                    g0
                } else {
                    sv[k - 1].0.group
                }),
                json@ == "{"@ + store_open(s0, g0) + items_json(sv.take(k as int), s0, g0, true),
            decreases sv.len() - k,
        {
            let ghost piece_start = json@;
            let ghost prev_store = store;
            let ghost prev_group = category;
            let ghost was_first = is_first;
            proof {
                assert(sv[k as int] == entry_views(sorted@)[k as int]);
            }
            emit_entry(
                &mut json,
                &mut store,
                &mut category,
                &mut is_first,
                &sorted[k].0,
                sorted[k].1,
            );
            proof {
                let single = seq![sv[k as int]];
                assert(single == seq![(sorted@[k as int].0@, sorted@[k as int].1)]);
                assert(json@ == piece_start + items_json(single, prev_store, prev_group, was_first));
                assert(sv.take(k + 1) =~= sv.take(k as int) + single);
                lemma_items_json_append(sv.take(k as int), single, s0, g0, true);
                if k == 0 {
                    assert(sv.take(0).len() == 0);
                } else {
                    assert(sv.take(k as int).last() == sv[k - 1]);
                }
                assert(items_json(sv.take(k + 1), s0, g0, true) == items_json(
                    sv.take(k as int),
                    s0,
                    g0,
                    true,
                ) + items_json(single, prev_store, prev_group, was_first));
                assert(json@ =~= "{"@ + store_open(s0, g0) + items_json(
                    sv.take(k + 1),
                    s0,
                    g0,
                    true,
                ));
            }
            k = k + 1;
        }
        json.append("]}}");
        proof {
            assert(sv.take(sv.len() as int) =~= sv);
            assert(json@ =~= shopping_json(sv));
        }
        json
    }
}

/// Adding the same absent ingredient twice yields amount two.
pub proof fn lemma_add_or_increment_twice(s: Seq<(IngredientV, u16)>, k: IngredientV)
    requires
        !contains_entry(s, k),
    ensures
        ({
            let once = add_effect(s, k);
            let twice = add_effect(once, k);
            &&& contains_entry(twice, k)
            &&& twice[find_entry(twice, k)].1 == 2
        }),
{
    lemma_find_entry(s, k);
    let once = s.push((k, 1));
    assert(once[s.len() as int].0 == k);
    assert(forall|j: int| 0 <= j < s.len() ==> (#[trigger] once[j]) == s[j]);
    lemma_find_entry_at(once, k, s.len() as int);
    let twice = add_effect(once, k);
    assert(twice == once.update(s.len() as int, (k, 2)));
    assert(twice[s.len() as int].0 == k);
    assert(forall|j: int| 0 <= j < s.len() ==> (#[trigger] twice[j]) == s[j]);
    lemma_find_entry_at(twice, k, s.len() as int);
}

} // verus!
