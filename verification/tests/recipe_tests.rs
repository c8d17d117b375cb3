use cooking_book::group::Group;
use cooking_book::ingredient::{Ingredient, IngredientMap};
use cooking_book::recipe::Recipe;
use cooking_book::store::Store;

#[test]
fn test_json() {
    let in1 = Ingredient {
        name: "Ei".to_string(),
        group: Group::Freezer,
        preferred_store: Store::DM,
    };
    let ingredients1 = vec![(in1, 1u16, "Stück".to_string())];
    let tags1 = vec!["Frühstück".to_string()];

    let waffels = Recipe {
        name: "Waffeln".to_string(),
        ingredients: ingredients1,
        tags: tags1,
    };

    assert_eq!(waffels.to_json(), "{\"name\": \"Waffeln\", \"ingredients\": [{\"name\": \"Ei\", \"amount\": 1, \"unit\": \"Stück\"}]}")
}

#[test]
fn test_json_two_ingredients_are_comma_separated() {
    let egg = Ingredient {
        name: "Ei".to_string(),
        group: Group::Freezer,
        preferred_store: Store::DM,
    };
    let flour = Ingredient {
        name: "Mehl".to_string(),
        group: Group::Baking,
        preferred_store: Store::Rewe,
    };
    let recipe = Recipe {
        name: "Waffeln".to_string(),
        ingredients: vec![(egg, 1u16, "Stück".to_string()), (flour, 500u16, "g".to_string())],
        tags: Vec::new(),
    };
    assert_eq!(
        recipe.to_json(),
        "{\"name\": \"Waffeln\", \"ingredients\": [{\"name\": \"Ei\", \"amount\": 1, \"unit\": \"Stück\"}, \
         {\"name\": \"Mehl\", \"amount\": 500, \"unit\": \"g\"}]}"
    );
}

#[test]
fn test_split_including_and_excluding() {
    let input: Vec<&str> = vec!["a", "!b"];

    let (included, excluded) = Recipe::split_including_and_excluding(input);
    assert!(included.len() == 1);
    assert!(included.contains(&"a".to_string()));
    assert!(!included.contains(&"b".to_string()));

    assert!(excluded.len() == 1);
    assert!(!excluded.contains(&"a".to_string()));
    assert!(excluded.contains(&"b".to_string()));
}

#[test]
fn test_unify_tag() {
    let tags = "a,#b";
    let tags = Recipe::unify_tags(tags);

    let tag_a = "#a".to_string();
    assert!(tags.contains(&tag_a));

    let tag_b = "#b".to_string();
    assert!(tags.contains(&tag_b));
}

fn get_mocks() -> Vec<Recipe> {
    let in1 = Ingredient {
        name: "A".to_string(),
        group: Group::Other,
        preferred_store: Store::Any,
    };
    let in2 = Ingredient {
        name: "B".to_string(),
        group: Group::Other,
        preferred_store: Store::Any,
    };
    let r1 = Recipe {
        name: "R1".to_string(),
        ingredients: vec![(in1, 1u16, "unit".to_string()), (in2, 1u16, "unit".to_string())],
        tags: vec!["1".to_string(), "3".to_string()],
    };

    let in12 = Ingredient {
        name: "A".to_string(),
        group: Group::Other,
        preferred_store: Store::Any,
    };
    let in22 = Ingredient {
        name: "C".to_string(),
        group: Group::Other,
        preferred_store: Store::Any,
    };
    let r2 = Recipe {
        name: "R2".to_string(),
        ingredients: vec![(in12, 1u16, "unit".to_string()), (in22, 1u16, "unit".to_string())],
        tags: vec!["2".to_string(), "3".to_string()],
    };

    vec![r1, r2]
}

#[test]
fn test_by_ingredient_all() {
    let recipes = get_mocks();
    let including: Vec<String> = vec!["A".to_string()];
    let excluding: Vec<String> = Vec::with_capacity(0);

    let filtered = Recipe::get_recipes_by_ingredients(&recipes, &including, &excluding);

    assert!(filtered.contains(&&recipes[0]));
    assert!(filtered.contains(&&recipes[1]));
}

#[test]
fn test_by_ingredient_with_exclude() {
    let recipes = get_mocks();
    let including: Vec<String> = Vec::with_capacity(0);
    let excluding: Vec<String> = vec!["A".to_string()];

    let filtered: Vec<&Recipe> =
        Recipe::get_recipes_by_ingredients(&recipes, &including, &excluding);

    assert!(!filtered.contains(&&recipes[0]));
    assert!(!filtered.contains(&&recipes[1]));
}

#[test]
fn test_by_ingredient_with_exclude_and_include() {
    let recipes = get_mocks();
    let including: Vec<String> = vec!["A".to_string()];
    let excluding: Vec<String> = vec!["C".to_string()];

    let filtered = Recipe::get_recipes_by_ingredients(&recipes, &including, &excluding);

    assert!(filtered.contains(&&recipes[0]));
    assert!(!filtered.contains(&&recipes[1]));
}

#[test]
fn test_by_ingredient_with_exclude_and_inclu() {
    let recipes = get_mocks();
    let including: Vec<String> = vec!["A".to_string()];
    let excluding: Vec<String> = vec!["B".to_string(), "C".to_string()];

    let filtered = Recipe::get_recipes_by_ingredients(&recipes, &including, &excluding);

    assert!(!filtered.contains(&&recipes[0]));
    assert!(!filtered.contains(&&recipes[1]));
}

#[test]
fn test_by_name() {
    let recipes = get_mocks();

    let recipes_r = Recipe::get_recipes_by_name(&recipes, "R");
    assert!(recipes_r.contains(&&recipes[0]));
    assert!(recipes_r.contains(&&recipes[1]));

    let recipes_1 = Recipe::get_recipes_by_name(&recipes, "1");
    assert!(recipes_1.contains(&&recipes[0]));
    assert!(!recipes_1.contains(&&recipes[1]));

    let recipes_2 = Recipe::get_recipes_by_name(&recipes, "2");
    assert!(!recipes_2.contains(&&recipes[0]));
    assert!(recipes_2.contains(&&recipes[1]));
}

#[test]
fn test_by_tag() {
    let recipes = get_mocks();
    let mut tags: Vec<String> = vec!["1".to_string()];

    let recipes_r = Recipe::get_recipes_by_tags(&recipes, &tags);
    assert!(recipes_r.contains(&&recipes[0]));
    assert!(!recipes_r.contains(&&recipes[1]));

    tags.clear();
    let tag = "2".to_string();
    tags.push(tag);
    let recipes_1 = Recipe::get_recipes_by_tags(&recipes, &tags);
    assert!(!recipes_1.contains(&&recipes[0]));
    assert!(recipes_1.contains(&&recipes[1]));

    tags.clear();
    let tag = "3".to_string();
    tags.push(tag);
    let recipes_2 = Recipe::get_recipes_by_tags(&recipes, &tags);
    assert!(recipes_2.contains(&&recipes[0]));
    assert!(recipes_2.contains(&&recipes[1]));
}

#[test]
fn test_parse_recipe_end_to_end() {
    let mut registry = IngredientMap::new();
    let (recipe, created) = Recipe::new_by_line("Waffles;Egg,1,piece;#breakfast", &mut registry);

    assert_eq!(recipe.name, "Waffles");
    assert_eq!(recipe.ingredients.len(), 1);
    let (ing, amount, unit) = &recipe.ingredients[0];
    assert_eq!(ing.name, "Egg");
    assert_eq!(ing.group, Group::Other);
    assert_eq!(ing.preferred_store, Store::Any);
    assert_eq!(*amount, 1u16);
    assert_eq!(unit, "piece");
    assert!(recipe.tags.contains(&"#breakfast".to_string()));
    assert_eq!(recipe.tags.len(), 1);

    assert!(registry.contains_key("Egg"));
    let auto = registry.get("Egg").unwrap();
    assert_eq!(auto.group, Group::Other);
    assert_eq!(auto.preferred_store, Store::Any);
    assert_eq!(created.len(), 1);
    assert_eq!(created[0].name, "Egg");
}

#[test]
fn test_parse_recipe_amount_defaults() {
    let mut registry = IngredientMap::new();
    let (recipe, _created) = Recipe::new_by_line("R;Flour;Sugar,abc;Salt,70000,g", &mut registry);

    assert_eq!(recipe.ingredients.len(), 3);
    assert_eq!(recipe.ingredients[0].1, 0u16);
    assert_eq!(recipe.ingredients[0].2, "");
    assert_eq!(recipe.ingredients[1].1, 0u16);
    assert_eq!(recipe.ingredients[2].1, 0u16);
    assert_eq!(recipe.ingredients[2].2, "g");
}

#[test]
fn test_parse_recipe_known_ingredient_kept() {
    let mut registry = IngredientMap::new();
    registry.insert(Ingredient {
        name: "Egg".to_string(),
        group: Group::Freezer,
        preferred_store: Store::DM,
    });
    let (recipe, created) = Recipe::new_by_line("Waffles;Egg,2", &mut registry);
    assert!(created.is_empty());
    assert_eq!(recipe.ingredients[0].0.group, Group::Freezer);
    assert_eq!(recipe.ingredients[0].0.preferred_store, Store::DM);
    assert_eq!(recipe.ingredients[0].1, 2u16);
}

#[test]
fn test_parse_recipe_duplicate_tags_and_ingredients() {
    let mut registry = IngredientMap::new();
    let (recipe, created) = Recipe::new_by_line("R;Egg,1;#x;Egg,3,g;#x", &mut registry);
    assert_eq!(recipe.ingredients.len(), 1);
    assert_eq!(recipe.ingredients[0].1, 3u16);
    assert_eq!(recipe.ingredients[0].2, "g");
    assert_eq!(recipe.tags, vec!["#x".to_string()]);
    assert_eq!(created.len(), 1);
}

#[test]
fn test_unify_tag_trims_input() {
    let tags = Recipe::unify_tags("  a,#b  ");
    assert_eq!(tags, vec!["#a".to_string(), "#b".to_string()]);
}
