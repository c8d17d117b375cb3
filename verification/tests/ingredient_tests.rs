use std::cmp::Ordering;

use cooking_book::group::Group;
use cooking_book::ingredient::{Ingredient, IngredientMap};
use cooking_book::store::Store;

#[test]
fn test_to_json() {
    let ingredient = Ingredient {
        name: "Gurke".to_string(),
        group: Group::Vegetable,
        preferred_store: Store::Any,
    };
    assert_eq!(
        ingredient.to_json(),
        "{\"name\": \"Gurke\", \"group\": \"Gemüse\", \"store\": \"Überall\"}"
    );
}

#[test]
fn test_new_by_line_empty_1() {
    let ingredient = Ingredient::new_by_line("");
    assert_eq!(ingredient.name, "");
    assert_eq!(ingredient.group, Group::Other);
}

#[test]
fn test_new_by_line_empty_2() {
    let ingredient = Ingredient::new_by_line(";");
    assert_eq!(ingredient.name, "");
    assert_eq!(ingredient.group, Group::Other);
}

#[test]
fn test_new_by_line_only_name_1() {
    let ingredient = Ingredient::new_by_line("Salami");
    assert_eq!(ingredient.name, "Salami");
    assert_eq!(ingredient.group, Group::Other);
}

#[test]
fn test_new_by_line_only_name_2() {
    let ingredient = Ingredient::new_by_line("Salami;");
    assert_eq!(ingredient.name, "Salami");
    assert_eq!(ingredient.group, Group::Other);
}

#[test]
fn test_new_by_line_only_name_3() {
    let ingredient = Ingredient::new_by_line("Salami;;");
    assert_eq!(ingredient.name, "Salami");
    assert_eq!(ingredient.group, Group::Other);
}

#[test]
fn test_new_by_line_only_group_1() {
    let ingredient = Ingredient::new_by_line(";0");
    assert_eq!(ingredient.name, "");
    assert_eq!(ingredient.group, Group::Vegetable);
}

#[test]
fn test_new_by_line_invalid_group_1() {
    let ingredient = Ingredient::new_by_line("Salami;-1");
    assert_eq!(ingredient.name, "Salami");
    assert_eq!(ingredient.group, Group::Other);
}

#[test]
fn test_new_by_line_invalid_group_2() {
    let ingredient = Ingredient::new_by_line("Salami;asd");
    assert_eq!(ingredient.name, "Salami");
    assert_eq!(ingredient.group, Group::Other);
}

#[test]
fn test_sort_equal() {
    let i1 = Ingredient {
        name: String::from("asd"),
        group: Group::Other,
        preferred_store: Store::Any,
    };
    let i2 = Ingredient {
        name: String::from("asd"),
        group: Group::Other,
        preferred_store: Store::Any,
    };

    assert_eq!(i1.cmp(&i2), Ordering::Equal);
}

#[test]
fn test_sort_group() {
    let i1 = Ingredient {
        name: String::from("asd"),
        group: Group::Vegetable,
        preferred_store: Store::Any,
    };
    let i2 = Ingredient {
        name: String::from("asd"),
        group: Group::Other,
        preferred_store: Store::Any,
    };

    assert_eq!(i1.cmp(&i2), Ordering::Greater);
}

#[test]
fn test_sort_name() {
    let i1 = Ingredient {
        name: String::from("asd"),
        group: Group::Vegetable,
        preferred_store: Store::Any,
    };
    let i2 = Ingredient {
        name: String::from("asc"),
        group: Group::Vegetable,
        preferred_store: Store::Any,
    };

    assert_eq!(i1.cmp(&i2), Ordering::Greater);
}

#[test]
fn test_sort_store() {
    let i1 = Ingredient {
        name: String::from("asd"),
        group: Group::Vegetable,
        preferred_store: Store::Any,
    };
    let i2 = Ingredient {
        name: String::from("asd"),
        group: Group::Vegetable,
        preferred_store: Store::DM,
    };

    assert_eq!(i1.cmp(&i2), Ordering::Less);
}

#[test]
fn test_new_by_line_trims_code_fields() {
    let ingredient = Ingredient::new_by_line("Salami; 1 ; 2 ");
    assert_eq!(ingredient.name, "Salami");
    assert_eq!(ingredient.group, Group::Fruit);
    assert_eq!(ingredient.preferred_store, Store::Denz);
}

#[test]
fn test_new_by_line_trims_unicode_whitespace() {
    let ingredient = Ingredient::new_by_line("Salami;\u{00A0}1\u{3000};\u{2003}0");
    assert_eq!(ingredient.group, Group::Fruit);
    assert_eq!(ingredient.preferred_store, Store::Rewe);
}

#[test]
fn test_new_by_line_huge_code() {
    let ingredient = Ingredient::new_by_line("Salami;99999999999999999999");
    assert_eq!(ingredient.group, Group::Other);
}

#[test]
fn test_set_group_and_store() {
    let mut ingredient = Ingredient::new_by_name("Salami".to_string());
    ingredient.set_group(1);
    ingredient.set_store(2);
    assert_eq!(ingredient.group, Group::Fruit);
    assert_eq!(ingredient.preferred_store, Store::Denz);
    ingredient.set_group(42);
    assert_eq!(ingredient.group, Group::Other);
}

#[test]
fn test_persist_new_ingredient_success() {
    let mut all = IngredientMap::new();
    let name = "Ei".to_string();
    let result = Ingredient::persist_new_ingredient(&name, &mut all, Ok(()));
    assert!(result.is_ok());
    assert!(all.contains_key("Ei"));
    let stored = all.get("Ei").unwrap();
    assert_eq!(stored.name, "Ei");
    assert_eq!(stored.group, Group::Other);
    assert_eq!(stored.preferred_store, Store::Any);
}

#[test]
fn test_persist_new_ingredient_failure() {
    let mut all = IngredientMap::new();
    let name = "Ei".to_string();
    let result = Ingredient::persist_new_ingredient(&name, &mut all, Err("disk full".to_string()));
    assert_eq!(result, Err("disk full".to_string()));
    assert!(!all.contains_key("Ei"));
    assert_eq!(all.len(), 0);
}

#[test]
fn test_all_to_json_sorted_by_name() {
    let mut all = IngredientMap::new();
    all.insert(Ingredient::new_by_name("Gurke".to_string()));
    all.insert(Ingredient::new_by_name("Banane".to_string()));
    assert_eq!(
        Ingredient::all_to_json(&all),
        "[{\"name\": \"Banane\", \"group\": \"Anderes\", \"store\": \"Überall\"}, \
         {\"name\": \"Gurke\", \"group\": \"Anderes\", \"store\": \"Überall\"}]"
    );
}

#[test]
fn test_get_all_ingredients_sorted() {
    let mut all = IngredientMap::new();
    let a = Ingredient {
        name: "A".to_string(),
        group: Group::Vegetable,
        preferred_store: Store::DM,
    };
    let b = Ingredient {
        name: "B".to_string(),
        group: Group::Sweets,
        preferred_store: Store::Rewe,
    };
    let c = Ingredient {
        name: "C".to_string(),
        group: Group::Vegetable,
        preferred_store: Store::Rewe,
    };
    all.insert(a.clone());
    all.insert(b.clone());
    all.insert(c.clone());
    let sorted = Ingredient::get_all_ingredients(&all);
    // store first, then group, then name
    assert_eq!(sorted, vec![c, b, a]);
}

#[test]
fn test_sorting_twice_is_stable() {
    let mut all = IngredientMap::new();
    all.insert(Ingredient::new_by_name("B".to_string()));
    all.insert(Ingredient::new_by_name("A".to_string()));
    let once = Ingredient::get_all_ingredients(&all);
    let mut again = IngredientMap::new();
    for i in &once {
        again.insert(i.clone());
    }
    let twice = Ingredient::get_all_ingredients(&again);
    assert_eq!(once, twice);
}

#[test]
fn test_to_record_codes() {
    let ingredient = Ingredient {
        name: "Gurke".to_string(),
        group: Group::Vegetable,
        preferred_store: Store::DM,
    };
    assert_eq!(ingredient.to_record(), "Gurke;0;1\n");
    let fallback = Ingredient::new_by_name("Ei".to_string());
    assert_eq!(fallback.to_record(), "Ei;-1;-1\n");
}

#[test]
fn test_registry_to_records() {
    let mut all = IngredientMap::new();
    all.insert(Ingredient::new_by_name("A".to_string()));
    all.insert(Ingredient {
        name: "B".to_string(),
        group: Group::Spice,
        preferred_store: Store::Rewe,
    });
    assert_eq!(all.to_records(), "A;-1;-1\nB;8;0\n");
}
