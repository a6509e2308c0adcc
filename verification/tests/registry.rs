use voxel_map_editor::parse::parse_u32;
use voxel_map_editor::registry::{
    Dimension, DimensionKind, FieldRegistry, RegistryError, WidgetId,
};

fn wid(index: u32) -> WidgetId {
    WidgetId { index, generation: 0 }
}

#[test]
fn parse_accepts_plain_decimal() {
    assert_eq!(parse_u32("0"), Some(0));
    assert_eq!(parse_u32("4"), Some(4));
    assert_eq!(parse_u32("123"), Some(123));
    assert_eq!(parse_u32("007"), Some(7));
    assert_eq!(parse_u32("4294967295"), Some(u32::MAX));
}

#[test]
fn parse_rejects_everything_else() {
    assert_eq!(parse_u32(""), None);
    assert_eq!(parse_u32("12a"), None);
    assert_eq!(parse_u32("a12"), None);
    assert_eq!(parse_u32("-1"), None);
    assert_eq!(parse_u32("+5"), None);
    assert_eq!(parse_u32(" 5"), None);
    assert_eq!(parse_u32("4294967296"), None);
    assert_eq!(parse_u32("99999999999999999999"), None);
}

#[test]
fn register_and_get() {
    let mut reg = FieldRegistry::new();
    assert_eq!(reg.register(wid(1), DimensionKind::Width), Ok(()));
    assert_eq!(reg.register(wid(2), DimensionKind::Length), Ok(()));
    assert_eq!(reg.get(wid(1)), Some(Dimension::Width(0)));
    assert_eq!(reg.get(wid(2)), Some(Dimension::Length(0)));
    assert_eq!(reg.get(wid(3)), None);
}

#[test]
fn register_rejects_duplicate_widget() {
    let mut reg = FieldRegistry::new();
    assert_eq!(reg.register(wid(1), DimensionKind::Width), Ok(()));
    assert_eq!(
        reg.register(wid(1), DimensionKind::Length),
        Err(RegistryError::DuplicateWidget)
    );
    assert_eq!(reg.get(wid(1)), Some(Dimension::Width(0)));
}

#[test]
fn register_rejects_duplicate_kind() {
    let mut reg = FieldRegistry::new();
    assert_eq!(reg.register(wid(1), DimensionKind::Width), Ok(()));
    assert_eq!(
        reg.register(wid(2), DimensionKind::Width),
        Err(RegistryError::DuplicateKind)
    );
    assert_eq!(reg.get(wid(2)), None);
}

#[test]
fn update_stores_parsed_value_under_same_kind() {
    let mut reg = FieldRegistry::new();
    reg.register(wid(1), DimensionKind::Height).unwrap();
    assert_eq!(reg.update(wid(1), "12"), Ok(()));
    assert_eq!(reg.get(wid(1)), Some(Dimension::Height(12)));
    assert_eq!(reg.update(wid(1), "3"), Ok(()));
    assert_eq!(reg.get(wid(1)), Some(Dimension::Height(3)));
}

#[test]
fn update_unknown_widget_reports_and_preserves() {
    let mut reg = FieldRegistry::new();
    reg.register(wid(1), DimensionKind::Width).unwrap();
    reg.register(wid(2), DimensionKind::Length).unwrap();
    reg.update(wid(1), "9").unwrap();
    assert_eq!(reg.update(wid(7), "5"), Err(RegistryError::UnknownWidget));
    assert_eq!(reg.get(wid(1)), Some(Dimension::Width(9)));
    assert_eq!(reg.get(wid(2)), Some(Dimension::Length(0)));
    assert_eq!(reg.get(wid(7)), None);
}

#[test]
fn stale_generation_is_unknown() {
    let mut reg = FieldRegistry::new();
    reg.register(WidgetId { index: 1, generation: 2 }, DimensionKind::Width).unwrap();
    assert_eq!(
        reg.update(WidgetId { index: 1, generation: 1 }, "5"),
        Err(RegistryError::UnknownWidget)
    );
}

#[test]
fn update_nonnumeric_text_leaves_zero_and_invalid() {
    let mut reg = FieldRegistry::new();
    reg.register(wid(1), DimensionKind::Width).unwrap();
    reg.register(wid(2), DimensionKind::Length).unwrap();
    reg.register(wid(3), DimensionKind::Height).unwrap();
    reg.update(wid(1), "8").unwrap();
    reg.update(wid(2), "8").unwrap();
    reg.update(wid(3), "not a number").unwrap();
    assert_eq!(reg.get(wid(3)), Some(Dimension::Height(0)));
    assert!(!reg.all_valid());
}

#[test]
fn update_overflowing_text_leaves_zero() {
    let mut reg = FieldRegistry::new();
    reg.register(wid(1), DimensionKind::Width).unwrap();
    reg.update(wid(1), "4294967296").unwrap();
    assert_eq!(reg.get(wid(1)), Some(Dimension::Width(0)));
}

#[test]
fn all_valid_empty_registry_is_not_valid() {
    let reg = FieldRegistry::new();
    assert!(!reg.all_valid());
}

#[test]
fn all_valid_needs_every_field_at_least_one() {
    let mut reg = FieldRegistry::new();
    reg.register(wid(1), DimensionKind::Width).unwrap();
    reg.register(wid(2), DimensionKind::Length).unwrap();
    reg.register(wid(3), DimensionKind::Height).unwrap();
    assert!(!reg.all_valid());
    reg.update(wid(1), "1").unwrap();
    reg.update(wid(2), "1").unwrap();
    assert!(!reg.all_valid());
    reg.update(wid(3), "1").unwrap();
    assert!(reg.all_valid());
    reg.update(wid(2), "0").unwrap();
    assert!(!reg.all_valid());
}

#[test]
fn extract_returns_width_length_height_in_order() {
    let mut reg = FieldRegistry::new();
    // Registered out of order on purpose: extraction goes by kind.
    reg.register(wid(5), DimensionKind::Height).unwrap();
    reg.register(wid(6), DimensionKind::Width).unwrap();
    reg.register(wid(7), DimensionKind::Length).unwrap();
    reg.update(wid(6), "4").unwrap();
    reg.update(wid(7), "3").unwrap();
    reg.update(wid(5), "2").unwrap();
    let d = reg.extract();
    assert_eq!(d.width, 4);
    assert_eq!(d.length, 3);
    assert_eq!(d.height, 2);
}

#[test]
fn extract_on_partial_registry_exposes_zeroes() {
    let mut reg = FieldRegistry::new();
    reg.register(wid(1), DimensionKind::Width).unwrap();
    reg.update(wid(1), "4").unwrap();
    let d = reg.extract();
    assert_eq!(d.width, 4);
    assert_eq!(d.length, 0);
    assert_eq!(d.height, 0);
}

#[test]
fn clear_removes_every_entry() {
    let mut reg = FieldRegistry::new();
    reg.register(wid(1), DimensionKind::Width).unwrap();
    reg.register(wid(2), DimensionKind::Length).unwrap();
    reg.clear();
    assert_eq!(reg.get(wid(1)), None);
    assert_eq!(reg.get(wid(2)), None);
    // A cleared registry can be rebuilt with the same identities.
    assert_eq!(reg.register(wid(1), DimensionKind::Width), Ok(()));
}
