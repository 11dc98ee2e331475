use stocksense::billing::{apply_bill_quantities, Bill, BillDetail};
use stocksense::inventory::{Inventory, InventoryError};

fn bits(x: f32) -> u32 {
    x.to_bits()
}

fn stock() -> Inventory {
    let mut inv = Inventory::new();
    inv.add_with_id("A", "Arroz", "P1", 10, bits(2.5)).unwrap();
    inv.add_with_id("B", "Frijol", "P2", 3, bits(1.0)).unwrap();
    inv
}

#[test]
fn bill_detail_holds_a_quantity() {
    let mut d = BillDetail::new();
    assert_eq!(d.get_quantity(), 0);
    d.set_quantity(7);
    assert_eq!(d.get_quantity(), 7);
}

#[test]
fn new_bill_is_empty_and_named() {
    let inv = stock();
    let bill = Bill::new("Cliente", &inv);
    assert_eq!(bill.get_name(), "Cliente");
    assert!(bill.is_empty());
    assert!(bill.iter_items().is_empty());
}

#[test]
fn add_quantity_refuses_zero() {
    let inv = stock();
    let mut bill = Bill::new("c", &inv);
    assert_eq!(bill.add_quantity("A", 0), Err(InventoryError::InvalidStock(0)));
    assert!(bill.is_empty());
}

#[test]
fn add_quantity_refuses_unknown_products() {
    let inv = stock();
    let mut bill = Bill::new("c", &inv);
    assert_eq!(bill.add_quantity("Z", 1), Err(InventoryError::ProductNotFound));
    assert!(bill.is_empty());
}

#[test]
fn add_quantity_accumulates_within_stock() {
    let inv = stock();
    let mut bill = Bill::new("c", &inv);
    assert_eq!(bill.add_quantity("A", 4), Ok(()));
    assert_eq!(bill.add_quantity("B", 3), Ok(()));
    assert_eq!(bill.add_quantity("A", 6), Ok(()));
    assert_eq!(bill.iter_items(), vec![("A", 10), ("B", 3)]);
    assert!(!bill.is_empty());
}

#[test]
fn add_quantity_refuses_more_than_the_stock_and_keeps_the_bill() {
    let inv = stock();
    let mut bill = Bill::new("c", &inv);
    assert_eq!(bill.add_quantity("B", 2), Ok(()));
    assert_eq!(bill.add_quantity("B", 2), Err(InventoryError::NotEnoughStock(4)));
    assert_eq!(bill.add_quantity("A", 11), Err(InventoryError::NotEnoughStock(11)));
    assert_eq!(bill.iter_items(), vec![("B", 2)]);
}

#[test]
fn quantities_map_lists_each_line() {
    let inv = stock();
    let mut bill = Bill::new("c", &inv);
    bill.add_quantity("B", 1).unwrap();
    bill.add_quantity("A", 2).unwrap();
    assert_eq!(bill.quantities_map(), vec![(String::from("B"), 1), (String::from("A"), 2)]);
}

#[test]
fn csv_rows_carry_the_product_data() {
    let inv = stock();
    let mut bill = Bill::new("c", &inv);
    bill.add_quantity("A", 2).unwrap();
    let rows = bill.csv_rows();
    assert_eq!(rows.len(), 1);
    assert_eq!(rows[0].id, "A");
    assert_eq!(rows[0].name, "Arroz");
    assert_eq!(rows[0].quantity, 2);
    assert_eq!(f32::from_bits(rows[0].price_bits), 2.5);
}

#[test]
fn applying_a_bill_takes_its_quantities_out_of_stock() {
    let mut inv = stock();
    let quantities = {
        let mut bill = Bill::new("c", &inv);
        bill.add_quantity("A", 4).unwrap();
        bill.add_quantity("B", 3).unwrap();
        bill.quantities_map()
    };
    assert_eq!(apply_bill_quantities(&mut inv, &quantities), Ok(()));
    assert_eq!(inv.find("A").unwrap().get_quantity_left(), 6);
    assert_eq!(inv.find("B").unwrap().get_quantity_left(), 0);
    assert_eq!(inv.find("A").unwrap().get_name(), "Arroz");
    assert_eq!(inv.find("B").unwrap().get_provider(), "P2");
    assert_eq!(f32::from_bits(inv.find("A").unwrap().get_price()), 2.5);
    assert_eq!(inv.size(), 2);
}

#[test]
fn applying_stops_at_an_unknown_product() {
    let mut inv = stock();
    let quantities = vec![(String::from("A"), 1), (String::from("Z"), 1), (String::from("B"), 1)];
    assert_eq!(apply_bill_quantities(&mut inv, &quantities), Err(InventoryError::ProductNotFound));
    assert_eq!(inv.find("A").unwrap().get_quantity_left(), 9);
    assert_eq!(inv.find("B").unwrap().get_quantity_left(), 3);
}

#[test]
fn applying_stops_where_stock_runs_out() {
    let mut inv = stock();
    let quantities = vec![(String::from("B"), 2), (String::from("B"), 2)];
    assert_eq!(apply_bill_quantities(&mut inv, &quantities), Err(InventoryError::NotEnoughStock(2)));
    assert_eq!(inv.find("B").unwrap().get_quantity_left(), 1);
}

#[test]
fn applying_nothing_changes_nothing() {
    let mut inv = stock();
    assert_eq!(apply_bill_quantities(&mut inv, &Vec::new()), Ok(()));
    assert_eq!(inv.find("A").unwrap().get_quantity_left(), 10);
}

#[test]
fn billing_in_two_steps_is_billing_the_sum() {
    let inv = stock();
    let mut b1 = Bill::new("c", &inv);
    let mut b2 = Bill::new("c", &inv);
    assert_eq!(b1.add_quantity("A", 2), Ok(()));
    assert_eq!(b1.add_quantity("A", 3), Ok(()));
    assert_eq!(b2.add_quantity("A", 5), Ok(()));
    assert_eq!(b1.quantities_map(), b2.quantities_map());
    let mut b3 = Bill::new("c", &inv);
    let mut b4 = Bill::new("c", &inv);
    assert_eq!(b3.add_quantity("B", 2), Ok(()));
    assert_eq!(b3.add_quantity("B", 2), Err(InventoryError::NotEnoughStock(4)));
    assert_eq!(b4.add_quantity("B", 4), Err(InventoryError::NotEnoughStock(4)));
}

#[test]
fn bill_totals_sum_the_calls_that_succeeded() {
    let inv = stock();
    let mut bill = Bill::new("c", &inv);
    assert!(bill.add_quantity("Z", 1).is_err());
    assert!(bill.add_quantity("A", 0).is_err());
    assert!(bill.is_empty());
    assert!(bill.quantities_map().is_empty());
    assert_eq!(bill.add_quantity("A", 1), Ok(()));
    assert!(bill.add_quantity("B", 9).is_err());
    assert_eq!(bill.add_quantity("A", 4), Ok(()));
    assert_eq!(bill.add_quantity("B", 3), Ok(()));
    assert!(!bill.is_empty());
    assert_eq!(bill.quantities_map(), vec![(String::from("A"), 5), (String::from("B"), 3)]);
}

#[test]
fn distinct_lines_apply_exactly_when_each_fits() {
    let mut inv = stock();
    let too_much = vec![(String::from("A"), 10), (String::from("B"), 4)];
    assert_eq!(apply_bill_quantities(&mut inv, &too_much), Err(InventoryError::NotEnoughStock(4)));
    let mut inv = stock();
    let fits = vec![(String::from("A"), 10), (String::from("B"), 3)];
    assert_eq!(apply_bill_quantities(&mut inv, &fits), Ok(()));
    assert_eq!(inv.find("A").unwrap().get_quantity_left(), 0);
    assert_eq!(inv.find("B").unwrap().get_quantity_left(), 0);
}
