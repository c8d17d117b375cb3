use cooking_book::group::Group;
use cooking_book::ingredient::Ingredient;
use cooking_book::shopping_list::ShoppingList;
use cooking_book::store::Store;

#[test]
fn test_add_or_increment() {
    let ingredient = Ingredient::new_by_name("Banane".to_string());
    let mut shopping_list = ShoppingList::new();
    assert!(shopping_list.is_empty());

    shopping_list.add_or_increment(&ingredient);
    assert!(shopping_list.contains_key(&ingredient));

    let mut expected_count: u16 = 1;
    assert_eq!(shopping_list.get_amount(&ingredient), Some(expected_count));

    shopping_list.add_or_increment(&ingredient);
    expected_count += 1;
    assert_eq!(shopping_list.get_amount(&ingredient), Some(expected_count));
}

#[test]
fn test_remove() {
    let ingredient = Ingredient::new_by_name("Banane".to_string());
    let mut shopping_list = ShoppingList::new();
    assert!(shopping_list.is_empty());

    shopping_list.add_or_increment(&ingredient);
    assert!(shopping_list.contains_key(&ingredient));

    shopping_list.remove(&ingredient);
    assert!(shopping_list.is_empty());

    shopping_list.remove(&ingredient);
    assert!(shopping_list.is_empty());
}

#[test]
fn test_to_json_1() {
    let ingredient1 = Ingredient::new_by_name("Banane".to_string());
    let ingredient2 = Ingredient::new_by_name("Gurke".to_string());
    let mut shopping_list = ShoppingList::new();
    shopping_list.add_or_increment(&ingredient1);
    shopping_list.add_or_increment(&ingredient2);

    assert_eq!(
        shopping_list.to_json(),
        "{\"Any\": {\"Anderes\": [{\"name\": \"Banane\"}, {\"name\": \"Gurke\"}]}}"
    );
}

#[test]
fn test_to_json_2() {
    let ingredient1 = Ingredient::new_by_name("Banane".to_string());
    let ingredient2 = Ingredient::new_by_name("Gurke".to_string());
    let mut shopping_list = ShoppingList::new();
    shopping_list.add_or_increment(&ingredient1);
    shopping_list.add_or_increment(&ingredient2);
    shopping_list.add_or_increment(&ingredient2);

    assert_eq!(
        shopping_list.to_json(),
        "{\"Any\": {\"Anderes\": [{\"name\": \"Banane\"}, {\"name\": \"Gurke\", \"amount\": 2}]}}"
    );
}

#[test]
fn test_to_json_3() {
    let ingredient1 = Ingredient {
        name: "Banane".to_string(),
        group: Group::Fruit,
        preferred_store: Store::Any,
    };
    let ingredient2 = Ingredient {
        name: "Gurke".to_string(),
        group: Group::Vegetable,
        preferred_store: Store::Any,
    };
    let mut shopping_list = ShoppingList::new();
    shopping_list.add_or_increment(&ingredient1);
    shopping_list.add_or_increment(&ingredient2);

    assert_eq!(
        shopping_list.to_json(),
        "{\"Any\": {\"Gemüse\": [{\"name\": \"Gurke\"}], \"Obst\": [{\"name\": \"Banane\"}]}}"
    );
}

#[test]
fn test_to_json_4() {
    let ingredient1 = Ingredient {
        name: "Banane".to_string(),
        group: Group::Other,
        preferred_store: Store::Any,
    };
    let ingredient2 = Ingredient {
        name: "Gurke".to_string(),
        group: Group::Other,
        preferred_store: Store::DM,
    };
    let mut shopping_list = ShoppingList::new();
    shopping_list.add_or_increment(&ingredient1);
    shopping_list.add_or_increment(&ingredient2);

    assert_eq!(
        shopping_list.to_json(),
        "{\"Any\": {\"Anderes\": [{\"name\": \"Banane\"}]}, \"DM\": {\"Anderes\": [{\"name\": \"Gurke\"}]}}"
    );
}

#[test]
fn test_to_json_5() {
    let shopping_list = ShoppingList::new();

    assert_eq!(shopping_list.to_json(), "{}");
}

#[test]
fn test_to_json_store_and_group_boundaries() {
    // three stores, two departments under one of them, amounts above one
    let mut shopping_list = ShoppingList::new();
    shopping_list.add_item(
        Ingredient {
            name: "Apfel".to_string(),
            group: Group::Fruit,
            preferred_store: Store::Rewe,
        },
        3,
    );
    shopping_list.add_item(
        Ingredient {
            name: "Gurke".to_string(),
            group: Group::Vegetable,
            preferred_store: Store::Rewe,
        },
        1,
    );
    shopping_list.add_item(
        Ingredient {
            name: "Seife".to_string(),
            group: Group::Other,
            preferred_store: Store::DM,
        },
        123,
    );
    assert_eq!(
        shopping_list.to_json(),
        "{\"Rewe\": {\"Gemüse\": [{\"name\": \"Gurke\"}], \"Obst\": [{\"name\": \"Apfel\", \"amount\": 3}]}, \
         \"DM\": {\"Anderes\": [{\"name\": \"Seife\", \"amount\": 123}]}}"
    );
}

#[test]
fn test_add_item_overwrites() {
    let ingredient = Ingredient::new_by_name("Banane".to_string());
    let mut shopping_list = ShoppingList::new();
    shopping_list.add_or_increment(&ingredient);
    shopping_list.add_item(ingredient.clone(), 7);
    assert_eq!(shopping_list.get_amount(&ingredient), Some(7));
}

#[test]
fn test_same_name_different_group_are_distinct_keys() {
    let i1 = Ingredient {
        name: "X".to_string(),
        group: Group::Fruit,
        preferred_store: Store::Any,
    };
    let i2 = Ingredient {
        name: "X".to_string(),
        group: Group::Vegetable,
        preferred_store: Store::Any,
    };
    let mut shopping_list = ShoppingList::new();
    shopping_list.add_or_increment(&i1);
    shopping_list.add_or_increment(&i2);
    assert_eq!(shopping_list.get_amount(&i1), Some(1));
    assert_eq!(shopping_list.get_amount(&i2), Some(1));
}

#[test]
fn test_add_and_save_returns_records() {
    let ingredient = Ingredient::new_by_name("Banane".to_string());
    let mut shopping_list = ShoppingList::new();
    let content = shopping_list.add_and_save(&ingredient);
    assert_eq!(content, "Banane;1\n");
    let content = shopping_list.add_and_save(&ingredient);
    assert_eq!(content, "Banane;2\n");
}

#[test]
fn test_remove_and_save_returns_records() {
    let banana = Ingredient::new_by_name("Banane".to_string());
    let cucumber = Ingredient::new_by_name("Gurke".to_string());
    let mut shopping_list = ShoppingList::new();
    shopping_list.add_or_increment(&banana);
    shopping_list.add_or_increment(&cucumber);
    let content = shopping_list.remove_and_save(&banana);
    assert_eq!(content, "Gurke;1\n");
    let content = shopping_list.remove_and_save(&banana);
    assert_eq!(content, "Gurke;1\n");
}
