use cooking_book::group::Group;

#[test]
fn test_group_size() {
    let it = Group::get_group_iterator();
    let size = it.len();
    assert_eq!(size, 12);
}

#[test]
fn test_group_iterator_covers_every_variant() {
    let it = Group::get_group_iterator();
    for g in [
        Group::Vegetable,
        Group::Fruit,
        Group::Freezer,
        Group::Conserved,
        Group::Beverage,
        Group::Baking,
        Group::Pasta,
        Group::Legume,
        Group::Spice,
        Group::Snacks,
        Group::Sweets,
        Group::Other,
    ] {
        assert!(it.contains(&g));
    }
    assert_eq!(it.last(), Some(&Group::Other));
}

#[test]
fn test_group_all_as_json() {
    assert_eq!(
        Group::all_as_json(),
        "{\"groups\": [\"Gemüse\", \"Obst\", \"Kühlung\", \"Konserve\", \"Getränk\", \
         \"Backzutat\", \"Nudeln\", \"Hülsenfrüchte\", \"Gewürz\", \"Knabberkram\", \
         \"Süßigkeiten\", \"Anderes\"]}"
    );
}

#[test]
fn test_group_display() {
    let label = Group::Other.label();
    assert_eq!(&label, "Anderes");
}

#[test]
fn test_lookup_group() {
    assert_eq!(Group::lookup_group_number(0), Group::Vegetable);
    assert_eq!(Group::lookup_group_number(1), Group::Fruit);
    assert_eq!(Group::lookup_group_number(2), Group::Freezer);
    assert_eq!(Group::lookup_group_number(3), Group::Conserved);
    assert_eq!(Group::lookup_group_number(4), Group::Beverage);
    assert_eq!(Group::lookup_group_number(5), Group::Baking);
    assert_eq!(Group::lookup_group_number(6), Group::Pasta);
    assert_eq!(Group::lookup_group_number(7), Group::Legume);
    assert_eq!(Group::lookup_group_number(8), Group::Spice);
    assert_eq!(Group::lookup_group_number(9), Group::Snacks);
    assert_eq!(Group::lookup_group_number(10), Group::Sweets);
    assert_eq!(Group::lookup_group_number(11), Group::Other);
}

#[test]
fn test_group_code_roundtrip() {
    let groups = [
        Group::Vegetable,
        Group::Fruit,
        Group::Freezer,
        Group::Conserved,
        Group::Beverage,
        Group::Baking,
        Group::Pasta,
        Group::Legume,
        Group::Spice,
        Group::Snacks,
        Group::Sweets,
    ];
    for g in groups {
        let code = g.code();
        assert!(code >= 0);
        assert_eq!(Group::lookup_group_number(code as usize), g);
    }
    assert_eq!(Group::Other.code(), -1);
}

#[test]
fn test_group_lookup_out_of_range() {
    assert_eq!(Group::lookup_group_number(12), Group::Other);
    assert_eq!(Group::lookup_group_number(usize::MAX), Group::Other);
}
