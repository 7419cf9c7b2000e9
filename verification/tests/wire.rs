//! The text format the shims parse.

use devkit_poe_complete::engine::{Directive, Item, ItemKind};
use devkit_poe_complete::wire::render;

fn item(value: &str, display: &str, tooltip: &str, kind: ItemKind) -> Item {
    Item { value: value.to_string(), display: display.to_string(), tooltip: tooltip.to_string(), kind }
}

#[test]
fn renders_items_with_a_header_and_four_columns() {
    let d = Directive::Items(vec![item("build", "build", "Compile", ItemKind::Command)]);
    assert_eq!(render(&d), "items\nbuild\tbuild\tCompile\tcommand\n");
}

#[test]
fn renders_the_sentinels_as_a_bare_header() {
    assert_eq!(render(&Directive::Dirs), "dirs\n");
    assert_eq!(render(&Directive::Files), "files\n");
}

#[test]
fn renders_an_empty_item_list_as_the_header_alone() {
    assert_eq!(render(&Directive::Items(Vec::new())), "items\n");
}

#[test]
fn each_kind_has_a_stable_wire_token() {
    let d = Directive::Items(vec![
        item("a", "a", "t", ItemKind::Command),
        item("b", "b", "t", ItemKind::Param),
        item("c", "c", "t", ItemKind::Value),
    ]);
    let out = render(&d);
    assert!(out.contains("a\ta\tt\tcommand\n"));
    assert!(out.contains("b\tb\tt\tparam\n"));
    assert!(out.contains("c\tc\tt\tvalue\n"));
}

#[test]
fn a_tab_or_newline_in_a_field_cannot_break_the_columns() {
    let d = Directive::Items(vec![item("x", "x", "two\tcols\nand a line", ItemKind::Value)]);
    assert_eq!(render(&d), "items\nx\tx\ttwo cols and a line\tvalue\n");
}

#[test]
fn a_carriage_return_is_neutralised_too() {
    let d = Directive::Items(vec![item("x", "x", "a\r\nb", ItemKind::Value)]);
    assert_eq!(render(&d), "items\nx\tx\ta  b\tvalue\n");
}

#[test]
fn the_inserted_value_is_sanitised_as_well_as_the_help() {
    let d = Directive::Items(vec![item("a\tb", "a\tb", "t", ItemKind::Value)]);
    assert_eq!(render(&d), "items\na b\ta b\tt\tvalue\n");
}

// ---- further cases -------------------------------------------------------------------------

#[test]
fn one_line_per_item_whatever_the_fields_hold() {
    let d = Directive::Items(vec![
        item("a\nb", "c\rd", "e\tf\ng", ItemKind::Param),
        item("x", "y", "z", ItemKind::Command),
    ]);
    let out = render(&d);
    assert_eq!(out.matches('\n').count(), 3);
    for line in out.lines().skip(1) {
        assert_eq!(line.matches('\t').count(), 3);
    }
}

#[test]
fn as_wire_names_each_kind() {
    assert_eq!(ItemKind::Command.as_wire(), "command");
    assert_eq!(ItemKind::Param.as_wire(), "param");
    assert_eq!(ItemKind::Value.as_wire(), "value");
}

#[test]
fn unicode_fields_pass_through_unchanged() {
    let d = Directive::Items(vec![item("café", "café", "ünï", ItemKind::Value)]);
    assert_eq!(render(&d), "items\ncafé\tcafé\tünï\tvalue\n");
}
