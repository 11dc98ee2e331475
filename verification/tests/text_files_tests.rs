use stocksense::files::{bill_file_name, inventory_export_file_name, sanitize_filename};
use stocksense::menu::Menu;
use stocksense::text::{is_affirmative, is_confirmation, non_empty};

#[test]
fn sanitize_keeps_letters_and_digits() {
    assert_eq!(sanitize_filename("Cliente1"), "Cliente1");
    assert_eq!(sanitize_filename("Juan Pérez/2"), "Juan_P_rez_2");
    assert_eq!(sanitize_filename("a.b-c"), "a_b_c");
}

#[test]
fn sanitize_names_an_empty_text() {
    assert_eq!(sanitize_filename(""), "FACTURA");
    assert_eq!(sanitize_filename(" "), "_");
}

#[test]
fn inventory_export_names() {
    assert_eq!(inventory_export_file_name(2024, 3, 7, 0), "ESTADO_INVENTARIO_2024-3-7.csv");
    assert_eq!(inventory_export_file_name(2024, 12, 31, 2), "ESTADO_INVENTARIO_2024-12-31_(2).csv");
    assert_eq!(inventory_export_file_name(-5, 1, 1, 10), "ESTADO_INVENTARIO_-5-1-1_(10).csv");
    assert_eq!(inventory_export_file_name(i32::MIN, 1, 1, 0), "ESTADO_INVENTARIO_-2147483648-1-1.csv");
}

#[test]
fn bill_file_names() {
    assert_eq!(
        bill_file_name("Ana María", 2025, 1, 9, 14, 5, 0, 0),
        "FACTURA_Ana_Mar_a_2025-1-9_14-5-0.csv"
    );
    assert_eq!(bill_file_name("", 2025, 1, 9, 0, 0, 59, 1), "FACTURA_FACTURA_2025-1-9_0-0-59_(1).csv");
}

#[test]
fn confirmations() {
    assert!(is_confirmation("s"));
    assert!(is_confirmation("si"));
    assert!(is_confirmation("  SI \n"));
    assert!(is_confirmation("S"));
    assert!(!is_confirmation("no"));
    assert!(!is_confirmation("sí"));
    assert!(!is_confirmation("s i"));
    assert!(!is_confirmation(""));
    assert!(is_affirmative("si"));
    assert!(!is_affirmative("SI"));
}

#[test]
fn optional_fields() {
    assert_eq!(non_empty(String::new()), None);
    assert_eq!(non_empty(String::from("x")), Some(String::from("x")));
}

#[test]
fn menu_options_are_numbered_from_one() {
    let menu = Menu::new(vec![(String::from("Uno"), 10), (String::from("Dos"), 20)]);
    assert_eq!(menu.len(), 2);
    assert_eq!(menu.label(1), "Dos");
    assert_eq!(menu.exec(1), Some(&10));
    assert_eq!(menu.exec(2), Some(&20));
    assert_eq!(menu.exec(3), None);
}
