use cooking_book::group::Group;
use cooking_book::ingredient::IngredientMap;
use cooking_book::records::{load_ingredients, load_recipes, load_shopping_list};
use cooking_book::store::Store;

#[test]
fn test_load_ingredients_from_content() {
    let all = load_ingredients("Gurke;0;1\n#comment\nBanane;1\nSalami\n");
    assert_eq!(all.len(), 3);
    let gurke = all.get("Gurke").unwrap();
    assert_eq!(gurke.group, Group::Vegetable);
    assert_eq!(gurke.preferred_store, Store::DM);
    let banane = all.get("Banane").unwrap();
    assert_eq!(banane.group, Group::Fruit);
    assert_eq!(banane.preferred_store, Store::Any);
    let salami = all.get("Salami").unwrap();
    assert_eq!(salami.group, Group::Other);
}

#[test]
fn test_load_ingredients_empty_content() {
    let all = load_ingredients("");
    assert_eq!(all.len(), 0);
}

#[test]
fn test_load_ingredients_duplicate_name_overwrites() {
    let all = load_ingredients("Gurke;0\nGurke;1\n");
    assert_eq!(all.len(), 1);
    assert_eq!(all.get("Gurke").unwrap().group, Group::Fruit);
}

#[test]
fn test_load_ingredients_crlf_lines() {
    let all = load_ingredients("Gurke;0\r\nBanane;1\r\n");
    assert_eq!(all.len(), 2);
    assert_eq!(all.get("Gurke").unwrap().group, Group::Vegetable);
    assert_eq!(all.get("Banane").unwrap().group, Group::Fruit);
}

#[test]
fn test_load_recipes_from_content() {
    let mut registry = load_ingredients("Ei;2;1\n");
    let (recipes, created) = load_recipes(
        "#comment\nWaffeln;Ei,2,Stück;Mehl,500,g;#Frühstück\n",
        &mut registry,
    );
    assert_eq!(recipes.len(), 1);
    let waffeln = &recipes[0];
    assert_eq!(waffeln.name, "Waffeln");
    assert_eq!(waffeln.ingredients.len(), 2);
    assert_eq!(waffeln.ingredients[0].0.name, "Ei");
    assert_eq!(waffeln.ingredients[0].0.group, Group::Freezer);
    assert_eq!(waffeln.ingredients[0].1, 2u16);
    assert_eq!(waffeln.ingredients[1].0.name, "Mehl");
    assert_eq!(waffeln.ingredients[1].1, 500u16);
    assert_eq!(waffeln.tags, vec!["#Frühstück".to_string()]);

    // the unknown flour was auto-created and must still be persisted
    assert_eq!(created.len(), 1);
    assert_eq!(created[0].name, "Mehl");
    assert!(registry.contains_key("Mehl"));
}

#[test]
fn test_load_recipes_duplicate_name_overwrites() {
    let mut registry = IngredientMap::new();
    let (recipes, _created) = load_recipes("R;A,1\nR;B,2\n", &mut registry);
    assert_eq!(recipes.len(), 1);
    assert_eq!(recipes[0].ingredients.len(), 1);
    assert_eq!(recipes[0].ingredients[0].0.name, "B");
}

#[test]
fn test_load_shopping_list_from_content() {
    let mut registry = load_ingredients("Banane;1;0\n");
    let (list, created) = load_shopping_list("Banane;2\nGurke\nKäse;abc\n", &mut registry);

    let banane = registry.get("Banane").unwrap().clone();
    assert_eq!(banane.group, Group::Fruit);
    assert_eq!(list.get_amount(&banane), Some(2));

    // unknown names are auto-created; a missing or malformed amount loads as one
    let gurke = registry.get("Gurke").unwrap().clone();
    assert_eq!(gurke.group, Group::Other);
    assert_eq!(list.get_amount(&gurke), Some(1));
    let kaese = registry.get("Käse").unwrap().clone();
    assert_eq!(list.get_amount(&kaese), Some(1));

    assert_eq!(created.len(), 2);
    assert_eq!(created[0].name, "Gurke");
    assert_eq!(created[1].name, "Käse");
}

#[test]
fn test_load_shopping_list_empty_content() {
    let mut registry = IngredientMap::new();
    let (list, created) = load_shopping_list("", &mut registry);
    assert!(list.is_empty());
    assert!(created.is_empty());
    assert_eq!(registry.len(), 0);
}
