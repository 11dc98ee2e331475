use std::collections::hash_map::DefaultHasher;
use std::hash::{Hash, Hasher};
use stocksense::inventory::{is_negative_price, Inventory, InventoryError, InventoryItem};

fn bits(x: f32) -> u32 {
    x.to_bits()
}

fn is_alnum_id(id: &str) -> bool {
    id.chars().all(|c| c.is_ascii_alphanumeric())
}

#[test]
fn negative_prices_are_those_below_zero() {
    assert!(is_negative_price(bits(-1.0)));
    assert!(is_negative_price(bits(-0.01)));
    assert!(is_negative_price(bits(f32::NEG_INFINITY)));
    assert!(is_negative_price(bits(-f32::MIN_POSITIVE)));
    assert!(!is_negative_price(bits(0.0)));
    assert!(!is_negative_price(bits(-0.0)));
    assert!(!is_negative_price(bits(2.5)));
    assert!(!is_negative_price(bits(f32::INFINITY)));
    assert!(!is_negative_price(bits(f32::NAN)));
    assert!(!is_negative_price(bits(-f32::NAN)));
}

#[test]
fn item_new_keeps_its_fields() {
    let item = InventoryItem::new("A1", "Arroz", "Proveedor", 10, bits(2.5)).ok().unwrap();
    assert_eq!(item.get_id(), "A1");
    assert_eq!(item.get_name(), "Arroz");
    assert_eq!(item.get_provider(), "Proveedor");
    assert_eq!(item.get_quantity_left(), 10);
    assert_eq!(f32::from_bits(item.get_price()), 2.5);
}

#[test]
fn item_new_reports_the_first_rule_broken() {
    assert_eq!(InventoryItem::new("", "", "", 1, bits(-1.0)).err(), Some(InventoryError::EmptyID));
    assert_eq!(InventoryItem::new("A", "", "", 1, bits(-1.0)).err(), Some(InventoryError::EmptyName));
    assert_eq!(InventoryItem::new("A", "n", "", 1, bits(-1.0)).err(), Some(InventoryError::EmptyProvider));
    assert_eq!(
        InventoryItem::new("A", "n", "p", 1, bits(-1.0)).err(),
        Some(InventoryError::NegativePrice(bits(-1.0)))
    );
    assert!(InventoryItem::new("A", "n", "p", 0, bits(0.0)).is_ok());
}

#[test]
fn item_setters_refuse_invalid_values_and_keep_the_item() {
    let mut item = InventoryItem::new("A1", "Arroz", "Prov", 3, bits(1.0)).ok().unwrap();
    assert_eq!(item.set_name(""), Err(InventoryError::EmptyName));
    assert_eq!(item.get_name(), "Arroz");
    assert_eq!(item.set_provider(""), Err(InventoryError::EmptyProvider));
    assert_eq!(item.get_provider(), "Prov");
    assert_eq!(item.set_price(bits(-3.0)), Err(InventoryError::NegativePrice(bits(-3.0))));
    assert_eq!(f32::from_bits(item.get_price()), 1.0);
    assert_eq!(item.set_name("Frijol"), Ok(()));
    assert_eq!(item.get_name(), "Frijol");
    assert_eq!(item.set_provider("Otro"), Ok(()));
    assert_eq!(item.get_provider(), "Otro");
    item.set_quantity_left(42);
    assert_eq!(item.get_quantity_left(), 42);
    assert_eq!(item.set_price(bits(7.25)), Ok(()));
    assert_eq!(f32::from_bits(item.get_price()), 7.25);
}

#[test]
fn item_clone_and_equality_by_id() {
    let a = InventoryItem::new("A1", "Arroz", "Prov", 3, bits(1.0)).ok().unwrap();
    let b = a.clone();
    assert_eq!(b.get_id(), "A1");
    assert_eq!(b.get_name(), "Arroz");
    assert_eq!(b.get_quantity_left(), 3);
    assert!(a == b);
    let c = InventoryItem::new("A1", "Otro", "X", 9, bits(5.0)).ok().unwrap();
    assert!(a == c);
    let d = InventoryItem::new("B1", "Arroz", "Prov", 3, bits(1.0)).ok().unwrap();
    assert!(a != d);
}

#[test]
fn equal_items_hash_alike() {
    let a = InventoryItem::new("A1", "Arroz", "Prov", 3, bits(1.0)).ok().unwrap();
    let c = InventoryItem::new("A1", "Otro", "X", 9, bits(5.0)).ok().unwrap();
    let mut ha = DefaultHasher::new();
    a.hash(&mut ha);
    let mut hc = DefaultHasher::new();
    c.hash(&mut hc);
    assert_eq!(ha.finish(), hc.finish());
}

#[test]
fn new_inventory_is_empty() {
    let inv = Inventory::new();
    assert_eq!(inv.size(), 0);
    assert!(inv.is_empty());
    assert!(inv.find("x").is_none());
}

#[test]
fn add_draws_a_fresh_alphanumeric_id() {
    let mut inv = Inventory::new();
    assert_eq!(inv.add("Arroz", "Prov", 10, bits(2.5)), Ok(()));
    assert_eq!(inv.size(), 1);
    let item = &inv.items()[0];
    assert_eq!(item.get_id().chars().count(), Inventory::ID_LENGTH);
    assert!(is_alnum_id(item.get_id()));
    assert_eq!(item.get_name(), "Arroz");
    assert_eq!(item.get_provider(), "Prov");
    assert_eq!(item.get_quantity_left(), 10);
    assert_eq!(f32::from_bits(item.get_price()), 2.5);
    let id = item.get_id().to_string();
    assert_eq!(inv.find(&id).unwrap().get_name(), "Arroz");
}

#[test]
fn added_ids_are_all_distinct() {
    let mut inv = Inventory::new();
    for i in 0..200 {
        assert_eq!(inv.add(&format!("p{}", i), "Prov", i, bits(1.0)), Ok(()));
    }
    let mut ids: Vec<String> = inv.items().iter().map(|it| it.get_id().to_string()).collect();
    ids.sort();
    ids.dedup();
    assert_eq!(ids.len(), 200);
}

#[test]
fn add_refuses_invalid_fields_and_keeps_the_inventory() {
    let mut inv = Inventory::new();
    assert_eq!(inv.add("", "Prov", 1, bits(1.0)), Err(InventoryError::EmptyName));
    assert_eq!(inv.add("n", "", 1, bits(1.0)), Err(InventoryError::EmptyProvider));
    assert_eq!(inv.add("n", "p", 1, bits(-2.0)), Err(InventoryError::NegativePrice(bits(-2.0))));
    assert!(inv.is_empty());
}

#[test]
fn add_with_id_appends_or_refuses() {
    let mut inv = Inventory::new();
    assert_eq!(inv.add_with_id("", "n", "p", 1, bits(1.0)), Err(InventoryError::EmptyID));
    assert_eq!(inv.add_with_id("A", "n", "p", 1, bits(1.0)), Ok(()));
    assert_eq!(inv.add_with_id("B", "m", "q", 2, bits(3.0)), Ok(()));
    assert_eq!(inv.size(), 2);
    assert_eq!(inv.items()[0].get_id(), "A");
    assert_eq!(inv.items()[1].get_id(), "B");
}

#[test]
fn find_gives_the_first_item_with_the_id() {
    let mut inv = Inventory::new();
    inv.add_with_id("A", "first", "p", 1, bits(1.0)).unwrap();
    inv.add_with_id("B", "other", "p", 1, bits(1.0)).unwrap();
    inv.add_with_id("A", "second", "p", 1, bits(1.0)).unwrap();
    assert_eq!(inv.find("A").unwrap().get_name(), "first");
    assert_eq!(inv.find("B").unwrap().get_name(), "other");
    assert!(inv.find("C").is_none());
    assert!(inv.find("").is_none());
}

#[test]
fn find_mut_changes_the_item_in_place() {
    let mut inv = Inventory::new();
    inv.add_with_id("A", "n", "p", 5, bits(1.0)).unwrap();
    inv.find_mut("A").unwrap().set_quantity_left(2);
    assert_eq!(inv.find("A").unwrap().get_quantity_left(), 2);
    assert!(inv.find_mut("Z").is_none());
}

#[test]
fn remove_takes_out_the_first_item_with_the_id() {
    let mut inv = Inventory::new();
    inv.add_with_id("A", "n", "p", 5, bits(1.0)).unwrap();
    inv.add_with_id("B", "m", "p", 5, bits(1.0)).unwrap();
    assert_eq!(inv.remove("Z"), Err(InventoryError::ProductNotFound));
    assert_eq!(inv.size(), 2);
    assert_eq!(inv.remove("A"), Ok(()));
    assert_eq!(inv.size(), 1);
    assert!(inv.find("A").is_none());
    assert_eq!(inv.items()[0].get_id(), "B");
}

#[test]
fn edit_applies_every_given_field() {
    let mut inv = Inventory::new();
    inv.add_with_id("A", "n", "p", 5, bits(1.0)).unwrap();
    assert_eq!(inv.edit("A", Some("nuevo"), None, Some(9), Some(bits(4.5))), Ok(()));
    let it = inv.find("A").unwrap();
    assert_eq!(it.get_name(), "nuevo");
    assert_eq!(it.get_provider(), "p");
    assert_eq!(it.get_quantity_left(), 9);
    assert_eq!(f32::from_bits(it.get_price()), 4.5);
    assert_eq!(inv.edit("A", None, None, None, None), Ok(()));
    assert_eq!(inv.find("A").unwrap().get_name(), "nuevo");
}

#[test]
fn edit_refused_changes_nothing() {
    let mut inv = Inventory::new();
    inv.add_with_id("A", "n", "p", 5, bits(1.0)).unwrap();
    assert_eq!(inv.edit("Z", Some("x"), None, None, None), Err(InventoryError::ProductNotFound));
    assert_eq!(inv.edit("A", Some(""), Some(""), Some(1), None), Err(InventoryError::EmptyName));
    assert_eq!(inv.edit("A", Some("x"), Some(""), Some(1), None), Err(InventoryError::EmptyProvider));
    assert_eq!(
        inv.edit("A", Some("x"), Some("y"), Some(1), Some(bits(-1.0))),
        Err(InventoryError::NegativePrice(bits(-1.0)))
    );
    let it = inv.find("A").unwrap();
    assert_eq!(it.get_name(), "n");
    assert_eq!(it.get_provider(), "p");
    assert_eq!(it.get_quantity_left(), 5);
    assert_eq!(f32::from_bits(it.get_price()), 1.0);
}

#[test]
fn from_items_keeps_items_as_given() {
    let a = InventoryItem::from_parts(String::new(), String::from("n"), String::from("p"), 1, bits(-1.0));
    let inv = Inventory::from_items(vec![a]);
    assert_eq!(inv.size(), 1);
    assert_eq!(inv.items()[0].get_id(), "");
    assert_eq!(inv.items()[0].get_price(), bits(-1.0));
}

#[test]
fn error_messages() {
    assert_eq!(InventoryError::ProductNotFound.message(""), "El producto no se encontró.");
    assert_eq!(InventoryError::EmptyID.message(""), "El ID no puede estar vacío");
    assert_eq!(InventoryError::EmptyName.message(""), "El nombre no puede estar vacío");
    assert_eq!(InventoryError::EmptyProvider.message(""), "El proveedor no puede estar vacío");
    assert_eq!(
        InventoryError::NegativePrice(bits(-1.5)).message("-1.5"),
        "El precio (-1.5) no puede ser negativo"
    );
    assert_eq!(InventoryError::NotEnoughStock(12).message(""), "No hay suficiente Stock (12)!");
    assert_eq!(InventoryError::InvalidStock(0).message(""), "El stock proveído (0) es invalido.");
}

#[test]
fn id_space_is_every_eight_character_id() {
    assert_eq!(Inventory::ID_SPACE, 62u64.pow(Inventory::ID_LENGTH as u32));
}

#[test]
fn removing_what_add_appended_restores_the_items() {
    let mut inv = Inventory::new();
    inv.add_with_id("A", "n", "p", 5, bits(1.0)).unwrap();
    inv.add_with_id("B", "m", "q", 6, bits(2.0)).unwrap();
    assert_eq!(inv.add("nuevo", "prov", 3, bits(4.0)), Ok(()));
    let id = inv.items()[2].get_id().to_string();
    assert_eq!(inv.remove(&id), Ok(()));
    assert_eq!(inv.size(), 2);
    assert_eq!(inv.items()[0].get_id(), "A");
    assert_eq!(inv.items()[0].get_name(), "n");
    assert_eq!(inv.items()[1].get_id(), "B");
    assert_eq!(inv.items()[1].get_quantity_left(), 6);
    assert!(inv.find(&id).is_none());
}
