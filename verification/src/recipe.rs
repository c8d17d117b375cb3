//! Recipes: a name, ingredient entries with amounts and units, and free-form
//! tags; parsing from record lines with ingredient auto-creation, a JSON
//! form, and the query engine that filters recipes by name, by used
//! ingredients, and by tags.

use vstd::prelude::*;

use crate::group::Group;
use crate::ingredient::{contains_name, find_name, ing_views, Ingredient, IngredientMap, IngredientV};
use crate::numeral::{dec_str, is_numeral, numeral_val, parse_u16, u16_to_string};
use crate::store::Store;
use crate::text::{
    contains_string, contains_substring, has_substring, split_chars, split_str, str_views,
    trim_spec, trim_str, views_contain,
};

verus! {

/// The views of a sequence of recipe ingredient entries.
pub open spec fn triple_views(s: Seq<(Ingredient, u16, String)>) -> Seq<(IngredientV, u16, Seq<char>)> {
    s.map_values(|e: (Ingredient, u16, String)| (e.0@, e.1, e.2@))
}

/// The values of a sequence of recipe references.
pub open spec fn deref_views(s: Seq<&Recipe>) -> Seq<Recipe> {
    s.map_values(|p: &Recipe| *p)
}

/// The views of a sequence of string slices.
pub open spec fn slice_views(s: Seq<&str>) -> Seq<Seq<char>> {
    s.map_values(|t: &str| t@)
}

/// The mathematical value of a [`Recipe`].
#[verifier::ext_equal]
pub struct RecipeV {
    pub name: Seq<char>,
    pub ingredients: Seq<(IngredientV, u16, Seq<char>)>,
    pub tags: Seq<Seq<char>>,
}

/// A recipe: its name, the ingredients it uses with amount and unit, and its
/// tags.
#[derive(Debug, PartialEq, Eq)]
pub struct Recipe {
    pub name: String,
    pub ingredients: Vec<(Ingredient, u16, String)>,
    pub tags: Vec<String>,
}

impl View for Recipe {
    type V = RecipeV;

    open spec fn view(&self) -> RecipeV {
        RecipeV {
            name: self.name@,
            ingredients: triple_views(self.ingredients@),
            tags: str_views(self.tags@),
        }
    }
}

// ---------------------------------------------------------------------------
// JSON text
// ---------------------------------------------------------------------------

/// The JSON object of one recipe ingredient entry: name, amount and unit.
pub open spec fn recipe_ing_json(name: Seq<char>, amount: u16, unit: Seq<char>) -> Seq<char> {
    "{\"name\": \""@ + name + "\", \"amount\": "@ + dec_str(amount as nat) + ", \"unit\": \""@
        + unit + "\"}"@
}

/// The JSON items of the ingredient entries, in entry order, separated by
/// commas.
pub open spec fn recipe_ings_json(s: Seq<(IngredientV, u16, Seq<char>)>) -> Seq<char>
    decreases s.len(),
{
    if s.len() == 0 {
        Seq::empty()
    } else if s.len() == 1 {
        recipe_ing_json(s[0].0.name, s[0].1, s[0].2)
    } else {
        recipe_ings_json(s.drop_last()) + ", "@ + recipe_ing_json(
            s.last().0.name,
            s.last().1,
            s.last().2,
        )
    }
}

/// The JSON object of a recipe: its name and the array of its ingredient
/// entries.
pub open spec fn recipe_json(rc: RecipeV) -> Seq<char> {
    "{\"name\": \""@ + rc.name + "\", \"ingredients\": ["@ + recipe_ings_json(rc.ingredients)
        + "]}"@
}

impl Recipe {
    /// The JSON object of one ingredient entry of a recipe.
    pub fn ingredient_to_json(i: &Ingredient, a: &u16, u: &String) -> (r: String)
        ensures
            r@ == recipe_ing_json(i@.name, *a, u@),
    {
        let mut json = String::new();
        json.append("{\"name\": \"");
        json.append(i.name.as_str());
        json.append("\", \"amount\": ");
        json.append(u16_to_string(*a).as_str());
        json.append(", \"unit\": \"");
        json.append(u.as_str());
        json.append("\"}");
        proof {
            assert(json@ =~= recipe_ing_json(i@.name, *a, u@));
        }
        json
    }

    /// Exports this recipe to JSON.
    pub fn to_json(&self) -> (r: String)
        ensures
            r@ == recipe_json(self@),
    {
        let mut json = String::new();
        json.append("{\"name\": \"");
        json.append(self.name.as_str());
        json.append("\", \"ingredients\": [");
        let ghost head = json@;
        let mut i: usize = 0;
        proof {
            assert(self@.ingredients.take(0) =~= Seq::<(IngredientV, u16, Seq<char>)>::empty());
        }
        while i < self.ingredients.len()
            invariant
                i <= self.ingredients@.len(),
                self@.ingredients.len() == self.ingredients@.len(),
                head == "{\"name\": \""@ + self.name@ + "\", \"ingredients\": ["@,
                json@ == head + recipe_ings_json(self@.ingredients.take(i as int)),
            decreases self.ingredients@.len() - i,
        {
            if i > 0 {
                json.append(", ");
            }
            let entry_json = Recipe::ingredient_to_json(
                &self.ingredients[i].0,
                &self.ingredients[i].1,
                &self.ingredients[i].2,
            );
            json.append(entry_json.as_str());
            proof {
                let t = self@.ingredients.take(i + 1);
                assert(t.drop_last() =~= self@.ingredients.take(i as int));
                assert(t.last() == self@.ingredients[i as int]);
                assert(t[0] == self@.ingredients[0]);
                assert(self@.ingredients[i as int] == (
                    self.ingredients@[i as int].0@,
                    self.ingredients@[i as int].1,
                    self.ingredients@[i as int].2@,
                ));
                assert(json@ =~= head + recipe_ings_json(t));
            }
            i = i + 1;
        }
        json.append("]}");
        proof {
            assert(self@.ingredients.take(self@.ingredients.len() as int) =~= self@.ingredients);
            assert(json@ =~= recipe_json(self@));
        }
        json
    }
}

// ---------------------------------------------------------------------------
// The query engine
// ---------------------------------------------------------------------------

/// Whether a recipe's name contains the pattern, case-sensitively.
pub open spec fn name_matches(rc: RecipeV, pat: Seq<char>) -> bool {
    has_substring(rc.name, pat)
}

/// Whether a recipe uses one of the included ingredient names; an empty
/// inclusion list admits every recipe.
pub open spec fn included_ok(rc: RecipeV, included: Seq<Seq<char>>) -> bool {
    included.len() == 0 || exists|k: int|
        0 <= k < rc.ingredients.len() && views_contain(
            included,
            #[trigger] rc.ingredients[k].0.name,
        )
}

/// Whether a recipe uses none of the excluded ingredient names.
pub open spec fn excluded_ok(rc: RecipeV, excluded: Seq<Seq<char>>) -> bool {
    forall|k: int|
        0 <= k < rc.ingredients.len() ==> !views_contain(
            excluded,
            #[trigger] rc.ingredients[k].0.name,
        )
}

/// Whether a recipe carries one of the given tags.
pub open spec fn tag_matches(rc: RecipeV, tags: Seq<Seq<char>>) -> bool {
    exists|k: int| 0 <= k < rc.tags.len() && views_contain(tags, #[trigger] rc.tags[k])
}

/// The recipes whose names contain the pattern, in input order.
pub open spec fn by_name_spec(rs: Seq<Recipe>, pat: Seq<char>) -> Seq<Recipe>
    decreases rs.len(),
{
    if rs.len() == 0 {
        Seq::empty()
    } else {
        let rest = by_name_spec(rs.drop_last(), pat);
        if name_matches(rs.last()@, pat) {
            rest.push(rs.last())
        } else {
            rest
        }
    }
}

/// The recipes that use an included ingredient and no excluded one, in input
/// order; a name on both lists excludes.
pub open spec fn by_ings_spec(
    rs: Seq<Recipe>,
    included: Seq<Seq<char>>,
    excluded: Seq<Seq<char>>,
) -> Seq<Recipe>
    decreases rs.len(),
{
    if rs.len() == 0 {
        Seq::empty()
    } else {
        let rest = by_ings_spec(rs.drop_last(), included, excluded);
        if included_ok(rs.last()@, included) && excluded_ok(rs.last()@, excluded) {
            rest.push(rs.last())
        } else {
            rest
        }
    }
}

/// The recipes whose tag set intersects the given tags, in input order.
pub open spec fn by_tags_spec(rs: Seq<Recipe>, tags: Seq<Seq<char>>) -> Seq<Recipe>
    decreases rs.len(),
{
    if rs.len() == 0 {
        Seq::empty()
    } else {
        let rest = by_tags_spec(rs.drop_last(), tags);
        if tag_matches(rs.last()@, tags) {
            rest.push(rs.last())
        } else {
            rest
        }
    }
}

impl Recipe {
    /// Returns the recipes whose names contain the given text.
    pub fn get_recipes_by_name<'a>(recipes: &'a Vec<Recipe>, name: &str) -> (r: Vec<&'a Recipe>)
        ensures
            deref_views(r@) == by_name_spec(recipes@, name@),
    {
        let mut out: Vec<&'a Recipe> = Vec::new();
        let mut i: usize = 0;
        proof {
            assert(deref_views(out@) =~= by_name_spec(recipes@.take(0), name@));
        }
        while i < recipes.len()
            invariant
                i <= recipes@.len(),
                deref_views(out@) == by_name_spec(recipes@.take(i as int), name@),
            decreases recipes@.len() - i,
        {
            let ghost before = out@;
            if contains_substring(recipes[i].name.as_str(), name) {
                out.push(&recipes[i]);
            }
            proof {
                let t = recipes@.take(i + 1);
                assert(t.drop_last() =~= recipes@.take(i as int));
                assert(t.last() == recipes@[i as int]);
                if name_matches(recipes@[i as int]@, name@) {
                    assert(deref_views(out@) =~= deref_views(before).push(recipes@[i as int]));
                }
                assert(deref_views(out@) =~= by_name_spec(t, name@));
            }
            i = i + 1;
        }
        proof {
            assert(recipes@.take(recipes@.len() as int) =~= recipes@);
        }
        out
    }

    /// Returns the recipes that use at least one of the included ingredient
    /// names (or all recipes, when the inclusion list is empty) and none of
    /// the excluded ones; exclusion wins over inclusion.
    pub fn get_recipes_by_ingredients<'a>(
        recipes: &'a Vec<Recipe>,
        ingredient_included: &Vec<String>,
        ingredient_excluding: &Vec<String>,
    ) -> (r: Vec<&'a Recipe>)
        ensures
            deref_views(r@) == by_ings_spec(
                recipes@,
                str_views(ingredient_included@),
                str_views(ingredient_excluding@),
            ),
    {
        let ghost inc = str_views(ingredient_included@);
        let ghost exc = str_views(ingredient_excluding@);
        let mut out: Vec<&'a Recipe> = Vec::new();
        let mut i: usize = 0;
        proof {
            assert(deref_views(out@) =~= by_ings_spec(recipes@.take(0), inc, exc));
        }
        while i < recipes.len()
            invariant
                i <= recipes@.len(),
                inc == str_views(ingredient_included@),
                exc == str_views(ingredient_excluding@),
                deref_views(out@) == by_ings_spec(recipes@.take(i as int), inc, exc),
            decreases recipes@.len() - i,
        {
            let recipe = &recipes[i];
            let mut is_included = ingredient_included.is_empty();
            let mut is_excluded = false;
            let mut k: usize = 0;
            while k < recipe.ingredients.len()
                invariant
                    k <= recipe.ingredients@.len(),
                    recipe@.ingredients.len() == recipe.ingredients@.len(),
                    inc == str_views(ingredient_included@),
                    exc == str_views(ingredient_excluding@),
                    is_included == (inc.len() == 0 || exists|q: int|
                        0 <= q < k && views_contain(
                            inc,
                            #[trigger] recipe@.ingredients[q].0.name,
                        )),
                    is_excluded == (exists|q: int|
                        0 <= q < k && views_contain(
                            exc,
                            #[trigger] recipe@.ingredients[q].0.name,
                        )),
                decreases recipe.ingredients@.len() - k,
            {
                proof {
                    assert(recipe@.ingredients[k as int].0.name
                        == recipe.ingredients@[k as int].0@.name);
                }
                if !is_included && contains_string(
                    ingredient_included,
                    recipe.ingredients[k].0.name.as_str(),
                ) {
                    is_included = true;
                }
                if contains_string(ingredient_excluding, recipe.ingredients[k].0.name.as_str()) {
                    is_excluded = true;
                }
                k = k + 1;
            }
            proof {
                assert(is_included == included_ok(recipe@, inc));
                assert(is_excluded == !excluded_ok(recipe@, exc));
            }
            let ghost before = out@;
            if is_included && !is_excluded {
                out.push(recipe);
            }
            proof {
                let t = recipes@.take(i + 1);
                assert(t.drop_last() =~= recipes@.take(i as int));
                assert(t.last() == recipes@[i as int]);
                if included_ok(recipes@[i as int]@, inc) && excluded_ok(recipes@[i as int]@, exc) {
                    assert(deref_views(out@) =~= deref_views(before).push(recipes@[i as int]));
                }
                assert(deref_views(out@) =~= by_ings_spec(t, inc, exc));
            }
            i = i + 1;
        }
        proof {
            assert(recipes@.take(recipes@.len() as int) =~= recipes@);
        }
        out
    }

    /// Returns the recipes carrying at least one of the given tags, which
    /// must already be in unified form.
    pub fn get_recipes_by_tags<'a>(recipes: &'a Vec<Recipe>, tags: &Vec<String>) -> (r: Vec<
        &'a Recipe,
    >)
        ensures
            deref_views(r@) == by_tags_spec(recipes@, str_views(tags@)),
    {
        let ghost ts = str_views(tags@);
        let mut out: Vec<&'a Recipe> = Vec::new();
        let mut i: usize = 0;
        proof {
            assert(deref_views(out@) =~= by_tags_spec(recipes@.take(0), ts));
        }
        while i < recipes.len()
            invariant
                i <= recipes@.len(),
                ts == str_views(tags@),
                deref_views(out@) == by_tags_spec(recipes@.take(i as int), ts),
            decreases recipes@.len() - i,
        {
            let recipe = &recipes[i];
            let mut found = false;
            let mut k: usize = 0;
            while k < recipe.tags.len()
                invariant
                    k <= recipe.tags@.len(),
                    recipe@.tags.len() == recipe.tags@.len(),
                    ts == str_views(tags@),
                    found == (exists|q: int|
                        0 <= q < k && views_contain(ts, #[trigger] recipe@.tags[q])),
                decreases recipe.tags@.len() - k,
            {
                proof {
                    assert(recipe@.tags[k as int] == recipe.tags@[k as int]@);
                }
                if contains_string(tags, recipe.tags[k].as_str()) {
                    found = true;
                }
                k = k + 1;
            }
            proof {
                assert(found == tag_matches(recipe@, ts));
            }
            let ghost before = out@;
            if found {
                out.push(recipe);
            }
            proof {
                let t = recipes@.take(i + 1);
                assert(t.drop_last() =~= recipes@.take(i as int));
                assert(t.last() == recipes@[i as int]);
                if tag_matches(recipes@[i as int]@, ts) {
                    assert(deref_views(out@) =~= deref_views(before).push(recipes@[i as int]));
                }
                assert(deref_views(out@) =~= by_tags_spec(t, ts));
            }
            i = i + 1;
        }
        proof {
            assert(recipes@.take(recipes@.len() as int) =~= recipes@);
        }
        out
    }
}

// ---------------------------------------------------------------------------
// Query-input helpers
// ---------------------------------------------------------------------------

/// Whether a token asks for exclusion: it begins with an exclamation mark.
pub open spec fn is_exclusion(t: Seq<char>) -> bool {
    t.len() > 0 && t[0] == '!'
}

/// The tokens without an exclusion mark, in input order.
pub open spec fn included_of(toks: Seq<Seq<char>>) -> Seq<Seq<char>>
    decreases toks.len(),
{
    if toks.len() == 0 {
        Seq::empty()
    } else {
        let rest = included_of(toks.drop_last());
        if is_exclusion(toks.last()) {
            rest
        } else {
            rest.push(toks.last())
        }
    }
}

/// The marked tokens, each stripped of its exclusion mark, in input order.
pub open spec fn excluded_of(toks: Seq<Seq<char>>) -> Seq<Seq<char>>
    decreases toks.len(),
{
    if toks.len() == 0 {
        Seq::empty()
    } else {
        let rest = excluded_of(toks.drop_last());
        if is_exclusion(toks.last()) {
            rest.push(toks.last().drop_first())
        } else {
            rest
        }
    }
}

/// A tag in unified form: tokens already starting with a hash mark stay,
/// every other token is prefixed with one.
pub open spec fn unified_tag(t: Seq<char>) -> Seq<char> {
    if t.len() > 0 && t[0] == '#' {
        t
    } else {
        "#"@ + t
    }
}

/// The unified form of every token, in input order.
pub open spec fn unify_spec(toks: Seq<Seq<char>>) -> Seq<Seq<char>>
    decreases toks.len(),
{
    if toks.len() == 0 {
        Seq::empty()
    } else {
        unify_spec(toks.drop_last()).push(unified_tag(toks.last()))
    }
}

impl Recipe {
    /// Splits query tokens into the included names and the excluded names,
    /// stripping the exclusion mark from the latter.
    pub fn split_including_and_excluding(input: Vec<&str>) -> (r: (Vec<String>, Vec<String>))
        ensures
            str_views(r.0@) == included_of(slice_views(input@)),
            str_views(r.1@) == excluded_of(slice_views(input@)),
    {
        let mut including: Vec<String> = Vec::new();
        let mut excluding: Vec<String> = Vec::new();
        let mut i: usize = 0;
        proof {
            assert(str_views(including@) =~= included_of(slice_views(input@).take(0)));
            assert(str_views(excluding@) =~= excluded_of(slice_views(input@).take(0)));
        }
        while i < input.len()
            invariant
                i <= input@.len(),
                str_views(including@) == included_of(slice_views(input@).take(i as int)),
                str_views(excluding@) == excluded_of(slice_views(input@).take(i as int)),
            decreases input@.len() - i,
        {
            let s = input[i];
            let n = s.unicode_len();
            let ghost before_inc = including@;
            let ghost before_exc = excluding@;
            if n > 0 && s.get_char(0) == '!' {
                let stripped = s.substring_char(1, n).to_owned();
                proof {
                    assert(stripped@ =~= s@.drop_first());
                }
                excluding.push(stripped);
            } else {
                including.push(s.to_owned());
            }
            proof {
                let t = slice_views(input@).take(i + 1);
                assert(t.drop_last() =~= slice_views(input@).take(i as int));
                assert(t.last() == input@[i as int]@);
                if is_exclusion(input@[i as int]@) {
                    assert(str_views(excluding@) =~= str_views(before_exc).push(
                        input@[i as int]@.drop_first(),
                    ));
                } else {
                    assert(str_views(including@) =~= str_views(before_inc).push(input@[i as int]@));
                }
                assert(str_views(including@) =~= included_of(t));
                assert(str_views(excluding@) =~= excluded_of(t));
            }
            i = i + 1;
        }
        proof {
            assert(slice_views(input@).take(input@.len() as int) =~= slice_views(input@));
        }
        (including, excluding)
    }

    /// Brings a comma-separated tag list into unified form: every token is
    /// given a leading hash mark unless it already carries one.
    pub fn unify_tags(input: &str) -> (r: Vec<String>)
        ensures
            str_views(r@) == unify_spec(split_chars(trim_spec(input@), ',')),
    {
        let trimmed = trim_str(input);
        let parts = split_str(trimmed, ',');
        let ghost toks = split_chars(trim_spec(input@), ',');
        let mut tags: Vec<String> = Vec::new();
        let mut i: usize = 0;
        proof {
            assert(str_views(tags@) =~= unify_spec(toks.take(0)));
        }
        while i < parts.len()
            invariant
                i <= parts@.len(),
                str_views(parts@) == toks,
                parts@.len() == toks.len(),
                str_views(tags@) == unify_spec(toks.take(i as int)),
            decreases parts@.len() - i,
        {
            let p = &parts[i];
            let ghost before = tags@;
            proof {
                assert(toks[i as int] == parts@[i as int]@);
            }
            if p.as_str().unicode_len() > 0 && p.as_str().get_char(0) == '#' {
                tags.push(p.clone());
            } else {
                let mut tag = "#".to_owned();
                tag.append(p.as_str());
                tags.push(tag);
            }
            proof {
                let t = toks.take(i + 1);
                assert(t.drop_last() =~= toks.take(i as int));
                assert(t.last() == toks[i as int]);
                assert(str_views(tags@) =~= str_views(before).push(unified_tag(toks[i as int])));
                assert(str_views(tags@) =~= unify_spec(t));
            }
            i = i + 1;
        }
        proof {
            assert(toks.take(toks.len() as int) =~= toks);
        }
        tags
    }
}

// ---------------------------------------------------------------------------
// Parsing recipe record lines
// ---------------------------------------------------------------------------

/// The first position among recipe ingredient entries holding the given
/// ingredient name, or `-1` when no entry does.
pub open spec fn find_ing(s: Seq<(IngredientV, u16, Seq<char>)>, name: Seq<char>) -> int
    decreases s.len(),
{
    if s.len() == 0 {
        -1
    } else if s[0].0.name == name {
        0
    } else {
        let r = find_ing(s.drop_first(), name);
        if r < 0 {
            -1
        } else {
            r + 1
        }
    }
}

pub proof fn lemma_find_ing(s: Seq<(IngredientV, u16, Seq<char>)>, name: Seq<char>)
    ensures
        -1 <= find_ing(s, name) < s.len(),
        find_ing(s, name) == -1 ==> forall|i: int| 0 <= i < s.len() ==> s[i].0.name != name,
        find_ing(s, name) >= 0 ==> s[find_ing(s, name)].0.name == name,
        find_ing(s, name) >= 0 ==> forall|i: int|
            0 <= i < find_ing(s, name) ==> s[i].0.name != name,
    decreases s.len(),
{
    if s.len() > 0 && s[0].0.name != name {
        lemma_find_ing(s.drop_first(), name);
        assert(forall|i: int| 1 <= i < s.len() ==> s[i] == s.drop_first()[i - 1]);
    }
}

pub proof fn lemma_find_ing_at(s: Seq<(IngredientV, u16, Seq<char>)>, name: Seq<char>, i: int)
    requires
        0 <= i < s.len(),
        s[i].0.name == name,
        forall|j: int| 0 <= j < i ==> s[j].0.name != name,
    ensures
        find_ing(s, name) == i,
    decreases s.len(),
{
    if i > 0 {
        let d = s.drop_first();
        assert(forall|j: int| 0 <= j < d.len() ==> d[j] == s[j + 1]);
        lemma_find_ing_at(d, name, i - 1);
    }
}

/// The state a recipe line is parsed into: the entries and tags gathered so
/// far, the ingredient registry, and the ingredients created along the way
/// that still await persisting.
#[verifier::ext_equal]
pub struct ParseState {
    pub ingredients: Seq<(IngredientV, u16, Seq<char>)>,
    pub tags: Seq<Seq<char>>,
    pub registry: Seq<IngredientV>,
    pub created: Seq<IngredientV>,
}

/// Whether a record clause is a tag: it begins with a hash mark.
pub open spec fn is_tag_clause(c: Seq<char>) -> bool {
    c.len() > 0 && c[0] == '#'
}

/// The amount an ingredient clause carries: its second field read as a
/// numeral, degrading to zero when absent or malformed.
pub open spec fn clause_amount(parts: Seq<Seq<char>>) -> u16 {
    if parts.len() >= 2 && is_numeral(parts[1]) && numeral_val(parts[1]) <= u16::MAX {
        numeral_val(parts[1]) as u16
    } else {
        0
    }
}

/// The unit an ingredient clause carries: its third field, or the empty
/// string.
pub open spec fn clause_unit(parts: Seq<Seq<char>>) -> Seq<char> {
    if parts.len() >= 3 {
        parts[2]
    } else {
        Seq::empty()
    }
}

/// One clause applied to the parse state. A tag clause joins the tag set; an
/// ingredient clause resolves its name in the registry, auto-creating an
/// unregistered ingredient with the default group and store, and upserts an
/// entry keyed by the ingredient name.
pub open spec fn clause_step(st: ParseState, clause: Seq<char>) -> ParseState {
    if is_tag_clause(clause) {
        if views_contain(st.tags, clause) {
            st
        } else {
            ParseState { tags: st.tags.push(clause), ..st }
        }
    } else {
        let parts = split_chars(clause, ',');
        let iname = parts[0];
        let newv = IngredientV { name: iname, group: Group::Other, store: Store::Any };
        let known = contains_name(st.registry, iname);
        let registry = if known {
            st.registry
        } else {
            st.registry.push(newv)
        };
        let created = if known {
            st.created
        } else {
            st.created.push(newv)
        };
        let ing = registry[find_name(registry, iname)];
        let entry = (ing, clause_amount(parts), clause_unit(parts));
        let f = find_ing(st.ingredients, iname);
        let ingredients = if f >= 0 {
            st.ingredients.update(f, entry)
        } else {
            st.ingredients.push(entry)
        };
        ParseState { ingredients, registry, created, ..st }
    }
}

/// All clauses applied in order to the initial state.
pub open spec fn parse_clauses(clauses: Seq<Seq<char>>, init: ParseState) -> ParseState
    decreases clauses.len(),
{
    if clauses.len() == 0 {
        init
    } else {
        clause_step(parse_clauses(clauses.drop_last(), init), clauses.last())
    }
}

/// Applies one record clause to the parse state, as [`clause_step`] says.
fn apply_clause(
    ingredients: &mut Vec<(Ingredient, u16, String)>,
    tags: &mut Vec<String>,
    all_ingredients: &mut IngredientMap,
    created: &mut Vec<Ingredient>,
    clause: &str,
)
    ensures
        ({
            let st0 = ParseState {
                ingredients: triple_views(old(ingredients)@),
                tags: str_views(old(tags)@),
                registry: old(all_ingredients)@,
                created: ing_views(old(created)@),
            };
            let st1 = clause_step(st0, clause@);
            &&& triple_views(final(ingredients)@) == st1.ingredients
            &&& str_views(final(tags)@) == st1.tags
            &&& final(all_ingredients)@ == st1.registry
            &&& ing_views(final(created)@) == st1.created
        }),
        old(all_ingredients).wf() ==> final(all_ingredients).wf(),
{
    let ghost st0 = ParseState {
        ingredients: triple_views(ingredients@),
        tags: str_views(tags@),
        registry: all_ingredients@,
        created: ing_views(created@),
    };
    let n = clause.unicode_len();
    if n > 0 && clause.get_char(0) == '#' {
        let ghost before = tags@;
        if !contains_string(tags, clause) {
            tags.push(clause.to_owned());
            proof {
                assert(str_views(tags@) =~= str_views(before).push(clause@));
            }
        }
        proof {
            assert(triple_views(ingredients@) == st0.ingredients);
            assert(clause_step(st0, clause@) =~= ParseState {
                tags: str_views(tags@),
                ..st0
            });
        }
        return ;
    }

    let parts = split_str(clause, ',');
    proof {
        crate::text::lemma_split_chars_len(clause@, ',');
        assert(str_views(parts@)[0] == parts@[0]@);
        if parts@.len() >= 2 {
            assert(str_views(parts@)[1] == parts@[1]@);
        }
        if parts@.len() >= 3 {
            assert(str_views(parts@)[2] == parts@[2]@);
        }
    }
    let name = parts[0].clone();

    let amount: u16 = if parts.len() >= 2 {
        match parse_u16(parts[1].as_str()) {
            Some(num) => num,
            None => 0,
        }
    } else {
        0
    };
    proof {
        assert(amount == clause_amount(split_chars(clause@, ',')));
    }
    let unit: String = if parts.len() >= 3 {
        parts[2].clone()
    } else {
        String::new()
    };
    proof {
        assert(unit@ == clause_unit(split_chars(clause@, ',')));
    }

    let ghost reg0 = all_ingredients@;
    if !all_ingredients.contains_key(name.as_str()) {
        let fresh = Ingredient::new_by_name(name.clone());
        let ghost before_created = created@;
        created.push(fresh.clone());
        all_ingredients.insert(fresh);
        proof {
            assert(ing_views(created@) =~= ing_views(before_created).push(
                IngredientV { name: name@, group: Group::Other, store: Store::Any },
            ));
        }
    }
    proof {
        crate::ingredient::lemma_find_name(all_ingredients@, name@);
        if !contains_name(reg0, name@) {
            let reg1 = all_ingredients@;
            assert(reg1 == reg0.push(
                IngredientV { name: name@, group: Group::Other, store: Store::Any },
            ));
            assert(reg1[reg1.len() - 1].name == name@);
            assert(contains_name(reg1, name@));
        }
    }
    let ing = match all_ingredients.get(name.as_str()) {
        Some(x) => x.clone(),
        None => {
            proof {
                assert(false);
            }
            Ingredient::new_by_name(String::new())
        },
    };
    proof {
        assert(ing@ == all_ingredients@[find_name(all_ingredients@, name@)]);
    }

    let ghost entries0 = triple_views(ingredients@);
    let ghost st1 = clause_step(st0, clause@);
    let ghost xv = (ing@, amount, unit@);
    proof {
        lemma_find_ing(entries0, name@);
        assert(st1.tags == str_views(tags@));
        assert(st1.registry == all_ingredients@);
        assert(st1.created == ing_views(created@));
        assert(st1.ingredients == (if find_ing(entries0, name@) >= 0 {
            entries0.update(find_ing(entries0, name@), xv)
        } else {
            entries0.push(xv)
        }));
    }
    let mut j: usize = 0;
    while j < ingredients.len()
        invariant
            st0 == (ParseState {
                ingredients: triple_views(old(ingredients)@),
                tags: str_views(old(tags)@),
                registry: old(all_ingredients)@,
                created: ing_views(old(created)@),
            }),
            st1 == clause_step(st0, clause@),
            xv == (ing@, amount, unit@),
            entries0 == st0.ingredients,
            entries0 == triple_views(ingredients@),
            entries0.len() == ingredients@.len(),
            j <= entries0.len(),
            ing@.name == name@,
            st1.tags == str_views(tags@),
            st1.registry == all_ingredients@,
            st1.created == ing_views(created@),
            st1.ingredients == (if find_ing(entries0, name@) >= 0 {
                entries0.update(find_ing(entries0, name@), xv)
            } else {
                entries0.push(xv)
            }),
            old(all_ingredients).wf() ==> all_ingredients.wf(),
            forall|q: int| 0 <= q < j ==> (#[trigger] entries0[q]).0.name != name@,
            -1 <= find_ing(entries0, name@) < entries0.len(),
            find_ing(entries0, name@) == -1 ==> forall|q: int|
                0 <= q < entries0.len() ==> entries0[q].0.name != name@,
            find_ing(entries0, name@) >= 0 ==> entries0[find_ing(entries0, name@)].0.name
                == name@,
            find_ing(entries0, name@) >= 0 ==> forall|q: int|
                0 <= q < find_ing(entries0, name@) ==> entries0[q].0.name != name@,
        decreases entries0.len() - j,
    {
        if crate::text::str_eq(ingredients[j].0.name.as_str(), name.as_str()) {
            proof {
                assert(entries0[j as int].0.name == name@);
                lemma_find_ing_at(entries0, name@, j as int);
            }
            ingredients[j] = (ing, amount, unit);
            proof {
                assert(triple_views(ingredients@) =~= entries0.update(
                    find_ing(entries0, name@),
                    xv,
                ));
            }
            return ;
        }
        j = j + 1;
    }
    ingredients.push((ing, amount, unit));
    proof {
        assert(triple_views(ingredients@) =~= entries0.push(xv));
    }
}

impl Recipe {
    /// Parses a recipe from a persisted `name;clause;...` record line, where
    /// each clause is a `#tag` or an `ingredientName[,amount[,unit]]`.
    /// Ingredient names absent from the registry are auto-created with the
    /// default group and store; the second result lists those new
    /// ingredients, which the storage collaborator still has to persist.
    pub fn new_by_line(line: &str, all_ingredients: &mut IngredientMap) -> (r: (
        Recipe,
        Vec<Ingredient>,
    ))
        ensures
            ({
                let fields = split_chars(line@, ';');
                let st0 = ParseState {
                    ingredients: Seq::empty(),
                    tags: Seq::empty(),
                    registry: old(all_ingredients)@,
                    created: Seq::empty(),
                };
                let stf = parse_clauses(fields.drop_first(), st0);
                &&& r.0@.name == fields[0]
                &&& r.0@.ingredients == stf.ingredients
                &&& r.0@.tags == stf.tags
                &&& final(all_ingredients)@ == stf.registry
                &&& ing_views(r.1@) == stf.created
            }),
            old(all_ingredients).wf() ==> final(all_ingredients).wf(),
    {
        let fields = split_str(line, ';');
        proof {
            crate::text::lemma_split_chars_len(line@, ';');
            assert(str_views(fields@)[0] == fields@[0]@);
        }
        let name = fields[0].clone();

        let ghost fv = split_chars(line@, ';');
        let ghost st0 = ParseState {
            ingredients: Seq::empty(),
            tags: Seq::empty(),
            registry: all_ingredients@,
            created: Seq::empty(),
        };
        let mut ingredients: Vec<(Ingredient, u16, String)> = Vec::new();
        let mut tags: Vec<String> = Vec::new();
        let mut created: Vec<Ingredient> = Vec::new();

        let mut i: usize = 1;
        proof {
            assert(fv.drop_first().take(0) =~= Seq::<Seq<char>>::empty());
            assert(triple_views(ingredients@) =~= Seq::<(IngredientV, u16, Seq<char>)>::empty());
            assert(str_views(tags@) =~= Seq::<Seq<char>>::empty());
            assert(ing_views(created@) =~= Seq::<IngredientV>::empty());
        }
        while i < fields.len()
            invariant
                1 <= i <= fields@.len(),
                str_views(fields@) == fv,
                fields@.len() == fv.len(),
                st0 == (ParseState {
                    ingredients: Seq::<(IngredientV, u16, Seq<char>)>::empty(),
                    tags: Seq::<Seq<char>>::empty(),
                    registry: old(all_ingredients)@,
                    created: Seq::<IngredientV>::empty(),
                }),
                ({
                    let st = parse_clauses(fv.drop_first().take(i - 1), st0);
                    &&& triple_views(ingredients@) == st.ingredients
                    &&& str_views(tags@) == st.tags
                    &&& all_ingredients@ == st.registry
                    &&& ing_views(created@) == st.created
                }),
                old(all_ingredients).wf() ==> all_ingredients.wf(),
            decreases fields@.len() - i,
        {
            proof {
                assert(fv[i as int] == fields@[i as int]@);
            }
            apply_clause(
                &mut ingredients,
                &mut tags,
                all_ingredients,
                &mut created,
                fields[i].as_str(),
            );
            proof {
                let t = fv.drop_first().take(i as int);
                assert(t.drop_last() =~= fv.drop_first().take(i - 1));
                assert(t.last() == fv.drop_first()[i - 1]);
                assert(fv.drop_first()[i - 1] == fv[i as int]);
            }
            i = i + 1;
        }
        proof {
            assert(fv.drop_first().take(fields@.len() - 1) =~= fv.drop_first());
        }
        let recipe = Recipe { name, ingredients, tags };
        proof {
            assert(recipe@.name == fv[0]);
        }
        (recipe, created)
    }
}

} // verus!
