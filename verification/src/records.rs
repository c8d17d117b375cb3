//! Loading the persisted record files: line splitting as the standard
//! `lines` iterator does, and the loaders that turn file content into the
//! ingredient registry, the recipe collection and the shopping list.
//!
//! The loaders take file content as text and never touch storage; the
//! ingredients they auto-create are returned to the caller, who persists
//! them.

use vstd::prelude::*;

use crate::group::Group;
use crate::ingredient::{
    contains_name, find_name, ing_of_line, ing_views, Ingredient, IngredientMap, IngredientV,
};
use crate::numeral::{is_numeral, numeral_val, parse_u16};
use crate::recipe::{parse_clauses, ParseState, Recipe, RecipeV};
use crate::shopping_list::{find_entry, ShoppingList};
use crate::store::Store;
use crate::text::{split_chars, split_str, str_views};

verus! {

// ---------------------------------------------------------------------------
// Lines
// ---------------------------------------------------------------------------

/// A piece with one trailing carriage return stripped, as happens to lines
/// ended by a carriage return and line feed pair.
pub open spec fn strip_cr(p: Seq<char>) -> Seq<char> {
    if p.len() > 0 && p.last() == '\r' {
        p.drop_last()
    } else {
        p
    }
}

/// The lines of a text, as the standard `lines` iterator yields them: split
/// at every line feed, a final line ending yields no extra empty line, and a
/// carriage return before a line feed is stripped.
pub open spec fn lines_spec(s: Seq<char>) -> Seq<Seq<char>> {
    let ps = split_chars(s, '\n');
    if ps.last().len() == 0 {
        Seq::new((ps.len() - 1) as nat, |i: int| strip_cr(ps[i]))
    } else {
        Seq::new(
            ps.len(),
            |i: int|
                if i < ps.len() - 1 {
                    strip_cr(ps[i])
                } else {
                    ps[i]
                },
        )
    }
}

fn strip_cr_exec(p: &str) -> (r: String)
    ensures
        r@ == strip_cr(p@),
{
    let n = p.unicode_len();
    if n > 0 && p.get_char(n - 1) == '\r' {
        let r = p.substring_char(0, n - 1).to_owned();
        proof {
            assert(r@ =~= p@.drop_last());
        }
        r
    } else {
        p.to_owned()
    }
}

/// Splits a text into its lines, as the standard `lines` iterator does.
pub fn split_lines(s: &str) -> (r: Vec<String>)
    ensures
        str_views(r@) == lines_spec(s@),
{
    let raw = split_str(s, '\n');
    proof {
        crate::text::lemma_split_chars_len(s@, '\n');
    }
    let n = raw.len();
    let dropped = raw[n - 1].as_str().is_empty();
    let cnt = if dropped {
        n - 1
    } else {
        n
    };
    let ghost lv = lines_spec(s@);
    proof {
        assert(lv.len() == cnt);
    }
    let mut out: Vec<String> = Vec::new();
    let mut i: usize = 0;
    proof {
        assert(str_views(out@) =~= lv.take(0));
    }
    while i < cnt
        invariant
            cnt <= n == raw@.len(),
            str_views(raw@) == split_chars(s@, '\n'),
            n == split_chars(s@, '\n').len(),
            dropped == (split_chars(s@, '\n').last().len() == 0),
            cnt == (if dropped {
                n - 1
            } else {
                n as int
            }),
            lv == lines_spec(s@),
            lv.len() == cnt,
            i <= cnt,
            str_views(out@) == lv.take(i as int),
        decreases cnt - i,
    {
        let ghost before = out@;
        proof {
            assert(raw@[i as int]@ == split_chars(s@, '\n')[i as int]);
        }
        let piece = if dropped || i < cnt - 1 {
            let p = strip_cr_exec(raw[i].as_str());
            proof {
                assert(lv[i as int] == strip_cr(split_chars(s@, '\n')[i as int]));
                assert(p@ == lv[i as int]);
            }
            p
        } else {
            let p = raw[i].clone();
            proof {
                assert(lv[i as int] == split_chars(s@, '\n')[i as int]);
                assert(p@ == lv[i as int]);
            }
            p
        };
        out.push(piece);
        proof {
            assert(str_views(out@) =~= str_views(before).push(lv[i as int]));
            assert(str_views(out@) =~= lv.take(i + 1));
        }
        i = i + 1;
    }
    proof {
        assert(lv.take(cnt as int) =~= lv);
    }
    out
}

// ---------------------------------------------------------------------------
// Loading ingredients
// ---------------------------------------------------------------------------

/// The registry the ingredient lines load into: comment lines beginning with
/// a hash mark are skipped, every other line parses as an ingredient record
/// and upserts by its name.
pub open spec fn load_ings_spec(lines: Seq<Seq<char>>) -> Seq<IngredientV>
    decreases lines.len(),
{
    if lines.len() == 0 {
        Seq::empty()
    } else {
        let prev = load_ings_spec(lines.drop_last());
        let line = lines.last();
        if line.len() > 0 && line[0] == '#' {
            prev
        } else {
            let v = ing_of_line(line);
            let f = find_name(prev, v.name);
            if f >= 0 {
                prev.update(f, v)
            } else {
                prev.push(v)
            }
        }
    }
}

/// Loads the ingredient registry from the content of the ingredients file.
pub fn load_ingredients(content: &str) -> (r: IngredientMap)
    ensures
        r@ == load_ings_spec(lines_spec(content@)),
        r.wf(),
{
    let lines = split_lines(content);
    let ghost lv = lines_spec(content@);
    let mut all = IngredientMap::new();
    let mut i: usize = 0;
    proof {
        assert(all@ =~= load_ings_spec(lv.take(0)));
    }
    while i < lines.len()
        invariant
            i <= lines@.len(),
            str_views(lines@) == lv,
            lines@.len() == lv.len(),
            all@ == load_ings_spec(lv.take(i as int)),
            all.wf(),
        decreases lines@.len() - i,
    {
        let line = lines[i].as_str();
        proof {
            assert(lv[i as int] == lines@[i as int]@);
        }
        let n = line.unicode_len();
        if !(n > 0 && line.get_char(0) == '#') {
            let ing = Ingredient::new_by_line(line);
            proof {
                crate::ingredient::lemma_find_name(all@, ing@.name);
            }
            all.insert(ing);
        }
        proof {
            let t = lv.take(i + 1);
            assert(t.drop_last() =~= lv.take(i as int));
            assert(t.last() == lv[i as int]);
        }
        i = i + 1;
    }
    proof {
        assert(lv.take(lv.len() as int) =~= lv);
    }
    all
}

// ---------------------------------------------------------------------------
// Loading recipes
// ---------------------------------------------------------------------------

/// The first position among recipes holding the given name, or `-1`.
pub open spec fn find_recipe(s: Seq<RecipeV>, name: Seq<char>) -> int
    decreases s.len(),
{
    if s.len() == 0 {
        -1
    } else if s[0].name == name {
        0
    } else {
        let r = find_recipe(s.drop_first(), name);
        if r < 0 {
            -1
        } else {
            r + 1
        }
    }
}

pub proof fn lemma_find_recipe(s: Seq<RecipeV>, name: Seq<char>)
    ensures
        -1 <= find_recipe(s, name) < s.len(),
        find_recipe(s, name) == -1 ==> forall|i: int| 0 <= i < s.len() ==> s[i].name != name,
        find_recipe(s, name) >= 0 ==> s[find_recipe(s, name)].name == name,
        find_recipe(s, name) >= 0 ==> forall|i: int|
            0 <= i < find_recipe(s, name) ==> s[i].name != name,
    decreases s.len(),
{
    if s.len() > 0 && s[0].name != name {
        lemma_find_recipe(s.drop_first(), name);
        assert(forall|i: int| 1 <= i < s.len() ==> s[i] == s.drop_first()[i - 1]);
    }
}

pub proof fn lemma_find_recipe_at(s: Seq<RecipeV>, name: Seq<char>, i: int)
    requires
        0 <= i < s.len(),
        s[i].name == name,
        forall|j: int| 0 <= j < i ==> s[j].name != name,
    ensures
        find_recipe(s, name) == i,
    decreases s.len(),
{
    if i > 0 {
        let d = s.drop_first();
        assert(forall|j: int| 0 <= j < d.len() ==> d[j] == s[j + 1]);
        lemma_find_recipe_at(d, name, i - 1);
    }
}

/// The views of a sequence of recipes.
pub open spec fn recipe_views(s: Seq<Recipe>) -> Seq<RecipeV> {
    s.map_values(|r: Recipe| r@)
}

/// The state the recipe lines load into: the recipes keyed by name, the
/// ingredient registry, and all ingredients created along the way.
#[verifier::ext_equal]
pub struct RecipesLoad {
    pub recipes: Seq<RecipeV>,
    pub registry: Seq<IngredientV>,
    pub created: Seq<IngredientV>,
}

/// One recipe line applied to the load state: comment lines beginning with
/// a hash mark are skipped, every other line parses as a recipe record and
/// upserts by the recipe name.
pub open spec fn recipe_line_step(st: RecipesLoad, line: Seq<char>) -> RecipesLoad {
    if line.len() > 0 && line[0] == '#' {
        st
    } else {
        let fields = split_chars(line, ';');
        let st0 = ParseState {
            ingredients: Seq::empty(),
            tags: Seq::empty(),
            registry: st.registry,
            created: Seq::empty(),
        };
        let stf = parse_clauses(fields.drop_first(), st0);
        let rv = RecipeV { name: fields[0], ingredients: stf.ingredients, tags: stf.tags };
        let f = find_recipe(st.recipes, rv.name);
        RecipesLoad {
            recipes: if f >= 0 {
                st.recipes.update(f, rv)
            } else {
                st.recipes.push(rv)
            },
            registry: stf.registry,
            created: st.created + stf.created,
        }
    }
}

/// All recipe lines applied in order.
pub open spec fn load_recipes_spec(lines: Seq<Seq<char>>, init: RecipesLoad) -> RecipesLoad
    decreases lines.len(),
{
    if lines.len() == 0 {
        init
    } else {
        recipe_line_step(load_recipes_spec(lines.drop_last(), init), lines.last())
    }
}

/// Loads all recipes from the content of the recipes file, resolving
/// ingredient names in the given registry and auto-creating unregistered
/// ones; the second result lists the created ingredients, which the storage
/// collaborator still has to persist.
pub fn load_recipes(content: &str, all_ingredients: &mut IngredientMap) -> (r: (
    Vec<Recipe>,
    Vec<Ingredient>,
))
    ensures
        ({
            let init = RecipesLoad {
                recipes: Seq::empty(),
                registry: old(all_ingredients)@,
                created: Seq::empty(),
            };
            let stf = load_recipes_spec(lines_spec(content@), init);
            &&& recipe_views(r.0@) == stf.recipes
            &&& final(all_ingredients)@ == stf.registry
            &&& ing_views(r.1@) == stf.created
        }),
        old(all_ingredients).wf() ==> final(all_ingredients).wf(),
{
    let lines = split_lines(content);
    let ghost lv = lines_spec(content@);
    let ghost init = RecipesLoad {
        recipes: Seq::empty(),
        registry: all_ingredients@,
        created: Seq::empty(),
    };
    let mut recipes: Vec<Recipe> = Vec::new();
    let mut created: Vec<Ingredient> = Vec::new();
    let mut i: usize = 0;
    proof {
        assert(recipe_views(recipes@) =~= Seq::<RecipeV>::empty());
        assert(ing_views(created@) =~= Seq::<IngredientV>::empty());
    }
    while i < lines.len()
        invariant
            i <= lines@.len(),
            str_views(lines@) == lv,
            lines@.len() == lv.len(),
            init == (RecipesLoad {
                recipes: Seq::<RecipeV>::empty(),
                registry: old(all_ingredients)@,
                created: Seq::<IngredientV>::empty(),
            }),
            ({
                let st = load_recipes_spec(lv.take(i as int), init);
                &&& recipe_views(recipes@) == st.recipes
                &&& all_ingredients@ == st.registry
                &&& ing_views(created@) == st.created
            }),
            old(all_ingredients).wf() ==> all_ingredients.wf(),
        decreases lines@.len() - i,
    {
        let ghost st_before = load_recipes_spec(lv.take(i as int), init);
        let line = lines[i].as_str();
        proof {
            assert(lv[i as int] == lines@[i as int]@);
        }
        let n = line.unicode_len();
        if !(n > 0 && line.get_char(0) == '#') {
            let (recipe, mut new_ings) = Recipe::new_by_line(line, all_ingredients);
            let ghost created_before = ing_views(created@);
            let ghost added = ing_views(new_ings@);
            created.append(&mut new_ings);
            proof {
                assert(ing_views(created@) =~= created_before + added);
            }
            let ghost rv = recipe@;
            let ghost rs0 = recipe_views(recipes@);
            proof {
                lemma_find_recipe(rs0, rv.name);
            }
            let mut j: usize = 0;
            let mut found = false;
            while j < recipes.len() && !found
                invariant
                    rs0 == recipe_views(recipes@),
                    rs0.len() == recipes@.len(),
                    j <= recipes@.len(),
                    rv == recipe@,
                    forall|q: int| 0 <= q < j ==> (#[trigger] rs0[q]).name != rv.name,
                    found ==> j < rs0.len() && rs0[j as int].name == rv.name,
                decreases recipes@.len() - j + (if found {
                    0int
                } else {
                    1int
                }),
            {
                if crate::text::str_eq(recipes[j].name.as_str(), recipe.name.as_str()) {
                    found = true;
                } else {
                    j = j + 1;
                }
            }
            if found {
                proof {
                    lemma_find_recipe_at(rs0, rv.name, j as int);
                }
                recipes[j] = recipe;
                proof {
                    assert(recipe_views(recipes@) =~= rs0.update(find_recipe(rs0, rv.name), rv));
                }
            } else {
                proof {
                    assert(find_recipe(rs0, rv.name) == -1);
                }
                recipes.push(recipe);
                proof {
                    assert(recipe_views(recipes@) =~= rs0.push(rv));
                }
            }
        }
        proof {
            let t = lv.take(i + 1);
            assert(t.drop_last() =~= lv.take(i as int));
            assert(t.last() == lv[i as int]);
            let st_after = load_recipes_spec(t, init);
            assert(st_after == recipe_line_step(st_before, lv[i as int]));
        }
        i = i + 1;
    }
    proof {
        assert(lv.take(lv.len() as int) =~= lv);
    }
    (recipes, created)
}

// ---------------------------------------------------------------------------
// Loading the shopping list
// ---------------------------------------------------------------------------

/// The amount a shopping-list record line carries: its second field read as
/// a numeral, degrading to one when absent or malformed.
pub open spec fn sl_line_amount(fields: Seq<Seq<char>>) -> u16 {
    if fields.len() >= 2 && is_numeral(fields[1]) && numeral_val(fields[1]) <= u16::MAX {
        numeral_val(fields[1]) as u16
    } else {
        1
    }
}

/// The state the shopping-list lines load into.
#[verifier::ext_equal]
pub struct StockLoad {
    pub entries: Seq<(IngredientV, u16)>,
    pub registry: Seq<IngredientV>,
    pub created: Seq<IngredientV>,
}

/// One shopping-list line applied to the load state: the named ingredient is
/// resolved in the registry, auto-created if unregistered, and upserted with
/// the line's amount.
pub open spec fn sl_line_step(st: StockLoad, line: Seq<char>) -> StockLoad {
    let fields = split_chars(line, ';');
    let iname = fields[0];
    let newv = IngredientV { name: iname, group: Group::Other, store: Store::Any };
    let known = contains_name(st.registry, iname);
    let registry = if known {
        st.registry
    } else {
        st.registry.push(newv)
    };
    let created = if known {
        st.created
    } else {
        st.created.push(newv)
    };
    let ing = registry[find_name(registry, iname)];
    let amount = sl_line_amount(fields);
    let f = find_entry(st.entries, ing);
    StockLoad {
        entries: if f >= 0 {
            st.entries.update(f, (ing, amount))
        } else {
            st.entries.push((ing, amount))
        },
        registry,
        created,
    }
}

/// All shopping-list lines applied in order.
pub open spec fn load_sl_spec(lines: Seq<Seq<char>>, init: StockLoad) -> StockLoad
    decreases lines.len(),
{
    if lines.len() == 0 {
        init
    } else {
        sl_line_step(load_sl_spec(lines.drop_last(), init), lines.last())
    }
}

/// Loads the shopping list from the content of the shopping-list file,
/// resolving ingredient names in the given registry and auto-creating
/// unregistered ones; the second result lists the created ingredients,
/// which the storage collaborator still has to persist.
pub fn load_shopping_list(content: &str, all_ingredients: &mut IngredientMap) -> (r: (
    ShoppingList,
    Vec<Ingredient>,
))
    ensures
        ({
            let init = StockLoad {
                entries: Seq::empty(),
                registry: old(all_ingredients)@,
                created: Seq::empty(),
            };
            let stf = load_sl_spec(lines_spec(content@), init);
            &&& r.0@ == stf.entries
            &&& final(all_ingredients)@ == stf.registry
            &&& ing_views(r.1@) == stf.created
        }),
        old(all_ingredients).wf() ==> final(all_ingredients).wf(),
{
    let lines = split_lines(content);
    let ghost lv = lines_spec(content@);
    let ghost init = StockLoad {
        entries: Seq::empty(),
        registry: all_ingredients@,
        created: Seq::empty(),
    };
    let mut shopping_list = ShoppingList::new();
    let mut created: Vec<Ingredient> = Vec::new();
    let mut i: usize = 0;
    proof {
        assert(ing_views(created@) =~= Seq::<IngredientV>::empty());
    }
    while i < lines.len()
        invariant
            i <= lines@.len(),
            str_views(lines@) == lv,
            lines@.len() == lv.len(),
            init == (StockLoad {
                entries: Seq::<(IngredientV, u16)>::empty(),
                registry: old(all_ingredients)@,
                created: Seq::<IngredientV>::empty(),
            }),
            ({
                let st = load_sl_spec(lv.take(i as int), init);
                &&& shopping_list@ == st.entries
                &&& all_ingredients@ == st.registry
                &&& ing_views(created@) == st.created
            }),
            old(all_ingredients).wf() ==> all_ingredients.wf(),
        decreases lines@.len() - i,
    {
        let ghost st_before = load_sl_spec(lv.take(i as int), init);
        let line = lines[i].as_str();
        proof {
            assert(lv[i as int] == lines@[i as int]@);
        }
        let fields = split_str(line, ';');
        proof {
            crate::text::lemma_split_chars_len(line@, ';');
            assert(str_views(fields@)[0] == fields@[0]@);
            if fields@.len() >= 2 {
                assert(str_views(fields@)[1] == fields@[1]@);
            }
        }
        let name = fields[0].clone();

        let ghost reg0 = all_ingredients@;
        if !all_ingredients.contains_key(name.as_str()) {
            let fresh = Ingredient::new_by_name(name.clone());
            let ghost created_before = ing_views(created@);
            created.push(fresh.clone());
            all_ingredients.insert(fresh);
            proof {
                assert(ing_views(created@) =~= created_before.push(
                    IngredientV { name: name@, group: Group::Other, store: Store::Any },
                ));
            }
        }
        proof {
            crate::ingredient::lemma_find_name(all_ingredients@, name@);
            if !contains_name(reg0, name@) {
                let reg1 = all_ingredients@;
                assert(reg1[reg1.len() - 1].name == name@);
                assert(contains_name(reg1, name@));
            }
        }
        let ing = match all_ingredients.get(name.as_str()) {
            Some(x) => x.clone(),
            None => {
                proof {
                    assert(false);
                }
                Ingredient::new_by_name(String::new())
            },
        };

        let amount: u16 = if fields.len() >= 2 {
            match parse_u16(fields[1].as_str()) {
                Some(x) => x,
                None => 1,
            }
        } else {
            1
        };
        proof {
            assert(amount == sl_line_amount(split_chars(line@, ';')));
        }

        shopping_list.add_item(ing, amount);

        proof {
            let t = lv.take(i + 1);
            assert(t.drop_last() =~= lv.take(i as int));
            assert(t.last() == lv[i as int]);
            let st_after = load_sl_spec(t, init);
            assert(st_after == sl_line_step(st_before, lv[i as int]));
            assert(shopping_list@ == st_after.entries);
        }
        i = i + 1;
    }
    proof {
        assert(lv.take(lv.len() as int) =~= lv);
    }
    (shopping_list, created)
}

} // verus!
