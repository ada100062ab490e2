use fractal_explorer::config_ui::{
    precision_step, ConfigEntry, ConfigScalar, ConfigUi, ConfigValue, ControlKind, StepOutcome,
};

fn entry(name: &str, value: ConfigValue) -> ConfigEntry {
    ConfigEntry { name: name.to_string(), value }
}

fn boolean(value: bool) -> ConfigValue {
    ConfigValue::Scalar(ConfigScalar::Boolean(value))
}

fn integer(value: i64) -> ConfigValue {
    ConfigValue::Scalar(ConfigScalar::Integer(value))
}

fn float(value: f64) -> ConfigValue {
    ConfigValue::Scalar(ConfigScalar::Float(value.to_bits()))
}

fn text(value: &str) -> ConfigValue {
    ConfigValue::Scalar(ConfigScalar::Text(value.to_string()))
}

/// The document that the default application settings serialise to, with
/// the keys of each table in the order the TOML writer gives them.
fn default_document() -> ConfigValue {
    let debug = ConfigValue::Table(vec![
        entry("middle_click_coordinate_report", boolean(false)),
        entry("reduced_viewport", boolean(false)),
        entry("reduced_viewport_allocation_ratio", float(0.5)),
        entry("show_allocation_envelope", boolean(false)),
        entry("text_overlay_global", boolean(true)),
        entry("text_overlay_layers", boolean(true)),
        entry("text_overlay_queue", boolean(true)),
        entry("text_overlay_workers", boolean(true)),
    ]);
    let renderer = ConfigValue::Table(vec![
        entry("allocation_ratio", float(1.2)),
        entry("deallocation_ratio", float(0.8)),
        entry("debug", debug),
        entry("height", integer(480)),
        entry("max_apparent_pixel_size_exponent", integer(3)),
        entry("max_iterations", integer(256)),
        entry("min_apparent_pixel_size", float(0.8)),
        entry("palette", text("rainbow")),
        entry("palette_period", float(5.0)),
        entry("perturbation_fallback", boolean(false)),
        entry("precision", integer(1)),
        entry("precision_level", integer(1)),
        entry("precision_technique", text("float")),
        entry("rendering_method", text("f64")),
        entry(
            "starting_point",
            text("x: 0.000000000000000   y: 0.000000000000000   zoom: 3.000000000000000"),
        ),
        entry("width", integer(640)),
        entry("zoom_multiplier", float(1.1)),
    ]);
    let tile = ConfigValue::Table(vec![entry("height", integer(600)), entry("width", integer(800))]);
    let orchestrator = ConfigValue::Table(vec![entry("tile", tile), entry("workers", integer(8))]);
    ConfigValue::Table(vec![
        entry("debug_global", boolean(false)),
        entry("orchestrator", orchestrator),
        entry("renderer", renderer),
    ])
}

fn field_kind(ui: &ConfigUi, path: &str) -> ControlKind {
    ui.fields().iter().find(|field| field.path == path).unwrap().kind
}

fn field_value<'a>(ui: &'a ConfigUi, path: &str) -> &'a ConfigScalar {
    &ui.fields().iter().find(|field| field.path == path).unwrap().value
}

fn document_setting<'a>(document: &'a ConfigValue, path: &str) -> &'a ConfigScalar {
    let mut current = document;
    for part in path.split('.') {
        match current {
            ConfigValue::Table(entries) => {
                current = &entries.iter().find(|entry| entry.name == part).unwrap().value;
            }
            ConfigValue::Scalar(_) => panic!("{path} passes through a setting"),
        }
    }
    match current {
        ConfigValue::Scalar(value) => value,
        ConfigValue::Table(_) => panic!("{path} names a table"),
    }
}

#[test]
fn discovers_nested_properties_and_assigns_control_kinds() {
    let ui = ConfigUi::from_document(default_document());

    assert_eq!(field_kind(&ui, "debug_global"), ControlKind::Checkbox);
    assert_eq!(field_kind(&ui, "renderer.width"), ControlKind::IntegerSpinner);
    assert_eq!(field_kind(&ui, "renderer.precision_level"), ControlKind::IntegerSpinner);
    assert_eq!(field_value(&ui, "renderer.precision_level"), &ConfigScalar::Integer(1));
    assert_eq!(field_kind(&ui, "renderer.allocation_ratio"), ControlKind::FloatSpinner);
    assert_eq!(field_kind(&ui, "renderer.debug.reduced_viewport"), ControlKind::Checkbox);
}

#[test]
fn exposes_unsupported_scalar_properties_as_read_only() {
    let ui = ConfigUi::from_document(default_document());

    assert_eq!(field_kind(&ui, "renderer.starting_point"), ControlKind::ReadOnly);
    assert!(matches!(field_value(&ui, "renderer.starting_point"), ConfigScalar::Text(_)));
}

#[test]
fn edits_boolean_integer_and_float_values_and_applies_them() {
    let mut ui = ConfigUi::from_document(default_document());

    assert!(ui.toggle("debug_global"));
    assert_eq!(ui.step("renderer.width", 1), StepOutcome::Done(true));
    let bits = match ui.step("renderer.allocation_ratio", -1) {
        StepOutcome::Float(bits) => bits,
        other => panic!("a floating-point setting is handed back, not {other:?}"),
    };
    let stepped = f64::from_bits(bits) + -1.0;
    assert!(ui.set_value("renderer.allocation_ratio", ConfigScalar::Float(stepped.to_bits())));

    let document = ui.document();
    assert_eq!(document_setting(document, "debug_global"), &ConfigScalar::Boolean(true));
    assert_eq!(document_setting(document, "renderer.width"), &ConfigScalar::Integer(641));
    match document_setting(document, "renderer.allocation_ratio") {
        ConfigScalar::Float(bits) => assert!((f64::from_bits(*bits) - 0.2).abs() < f64::EPSILON),
        other => panic!("allocation ratio became {other:?}"),
    }
}

#[test]
fn rejects_edits_to_read_only_or_unknown_properties() {
    let mut ui = ConfigUi::from_document(default_document());

    assert!(!ui.toggle("renderer.starting_point"));
    assert_eq!(ui.step("renderer.palette", 1), StepOutcome::Done(false));
    assert_eq!(ui.step("renderer.missing", 1), StepOutcome::Done(false));
}

#[test]
fn config_ui_rejects_non_positive_renderer_precision() {
    let mut ui = ConfigUi::from_document(default_document());

    assert_eq!(ui.step("renderer.precision_level", -1), StepOutcome::Done(false));
    assert_eq!(field_value(&ui, "renderer.precision_level"), &ConfigScalar::Integer(1));
}

#[test]
fn precision_rule_holds_for_direct_edits() {
    let mut ui = ConfigUi::from_document(default_document());

    assert!(!ui.set_value("renderer.precision_level", ConfigScalar::Integer(0)));
    assert!(!ui.set_value("renderer.precision_level", ConfigScalar::Boolean(true)));
    assert!(ui.set_value("renderer.precision_level", ConfigScalar::Integer(7)));
    assert_eq!(field_value(&ui, "renderer.precision_level"), &ConfigScalar::Integer(7));
    assert_eq!(
        document_setting(ui.document(), "renderer.precision_level"),
        &ConfigScalar::Integer(7)
    );
}

#[test]
fn integer_steps_saturate_at_the_bounds() {
    let document = ConfigValue::Table(vec![entry("limit", integer(i64::MAX))]);
    let mut ui = ConfigUi::from_document(document);

    assert_eq!(ui.step("limit", 1), StepOutcome::Done(true));
    assert_eq!(field_value(&ui, "limit"), &ConfigScalar::Integer(i64::MAX));
    assert_eq!(ui.step("limit", -3), StepOutcome::Done(true));
    assert_eq!(field_value(&ui, "limit"), &ConfigScalar::Integer(i64::MAX - 3));
}

#[test]
fn toggling_twice_restores_the_setting() {
    let mut ui = ConfigUi::from_document(default_document());

    assert!(ui.toggle("renderer.debug.reduced_viewport"));
    assert_eq!(field_value(&ui, "renderer.debug.reduced_viewport"), &ConfigScalar::Boolean(true));
    assert!(ui.toggle("renderer.debug.reduced_viewport"));
    assert_eq!(field_value(&ui, "renderer.debug.reduced_viewport"), &ConfigScalar::Boolean(false));
    assert_eq!(ui.document(), &default_document());
}

#[test]
fn a_document_that_is_no_table_has_no_fields() {
    let mut ui = ConfigUi::from_document(boolean(true));

    assert!(ui.fields().is_empty());
    assert!(!ui.toggle("debug_global"));
}

#[test]
fn fields_follow_the_document_order() {
    let ui = ConfigUi::from_document(default_document());
    let paths: Vec<&str> = ui.fields().iter().map(|field| field.path.as_str()).collect();

    assert_eq!(paths.len(), 28);
    assert_eq!(paths[0], "debug_global");
    assert_eq!(paths[1], "orchestrator.tile.height");
    assert_eq!(paths[3], "orchestrator.workers");
    assert_eq!(paths[6], "renderer.debug.middle_click_coordinate_report");
    assert_eq!(paths[27], "renderer.zoom_multiplier");
}

#[test]
fn precision_step_moves_within_the_positive_integers() {
    assert_eq!(precision_step(5, -1), Some(4));
    assert_eq!(precision_step(i64::MIN, -1), None);
}
