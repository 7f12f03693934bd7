use assign_resources::alias::{alias_of_directive, extract_group};
use assign_resources::emit::{collect_aliases, emit_init, emit_type_def};
use assign_resources::parser::parse_annotated;
use assign_resources::{assign_resources, assigned_resources, SchemaError};

/// tests basic usage, type resolution, aliases, and attribute persistence
#[test]
fn basic() {
    let usb_src = "#[allow(non_snake_case)]\n\
                   struct UsbResources {\n\
                   \x20   DP: PA12,\n\
                   \x20   dm: peripherals::PA11,\n\
                   \x20   usb: USB_OTG_FS,\n\
                   }\n";
    let led_src = "struct LedResources {\n\
                   \x20   r: PA2,\n\
                   \x20   g: PA3,\n\
                   \x20   b: PA4,\n\
                   \x20   #[cfg(not(bogus_flag))]\n\
                   \x20   #[alias = PWMTimer]\n\
                   \x20   tim2: TIM2,\n\
                   }\n";
    let usb = extract_group(parse_annotated(usb_src).unwrap()).unwrap();
    let leds = extract_group(parse_annotated(led_src).unwrap()).unwrap();

    let leds_ty = emit_type_def(&leds);
    assert_eq!(leds_ty.fields[0].ty.as_str(), "PA2");
    assert_eq!(leds_ty.fields[1].ty.as_str(), "PA3");
    assert_eq!(leds_ty.fields[2].ty.as_str(), "PA4");
    assert_eq!(leds_ty.fields[3].ty.as_str(), "TIM2");

    // verify type alias: PWMTimer is bound to tim2's resolved type
    let led_group = vec![leds];
    let aliases = collect_aliases(&led_group);
    assert_eq!(aliases.len(), 1);
    assert_eq!(aliases[0].name.as_str(), "PWMTimer");
    assert_eq!(aliases[0].ty[0].as_str(), "TIM2");

    let usb_ty = emit_type_def(&usb);
    assert_eq!(usb_ty.fields[0].ty.as_str(), "PA12");
    assert_eq!(usb_ty.fields[1].ty.as_str(), "PA11");
    assert_eq!(usb_ty.fields[2].ty.as_str(), "USB_OTG_FS");
}

#[test]
fn basic_destinations_and_sources() {
    let led_src = "struct LedResources {\n\
                   \x20   r: PA2,\n\
                   \x20   g: PA3,\n\
                   \x20   b: PA4,\n\
                   \x20   #[cfg(not(bogus_flag))]\n\
                   \x20   #[alias = PWMTimer]\n\
                   \x20   tim2: TIM2,\n\
                   }\n";
    let leds = extract_group(parse_annotated(led_src).unwrap()).unwrap();
    let ty = emit_type_def(&leds);
    let names: Vec<&str> = ty.fields.iter().map(|f| f.name.as_str()).collect();
    assert_eq!(names, vec!["r", "g", "b", "tim2"]);
    let init = emit_init(&leds);
    let sources: Vec<&str> = init.assigns.iter().map(|a| a.source.as_str()).collect();
    assert_eq!(sources, vec!["PA2", "PA3", "PA4", "TIM2"]);
    // the alias directive is stripped; the real directive is preserved
    assert_eq!(ty.fields[3].directives.len(), 1);
    assert_eq!(ty.fields[3].directives[0].as_str(), "cfg(not(bogus_flag))");
}

#[test]
fn annotated_struct_end_to_end() {
    let src = "struct UsbResources {\n\
               \x20   dp: PA12,\n\
               \x20   dm: PA11,\n\
               }\n";
    let out = assigned_resources(src).unwrap();
    let expected = "pub struct UsbResources {\n\
                    \x20   pub dp: PA12,\n\
                    \x20   pub dm: PA11,\n\
                    }\n\
                    pub fn usb_resources(p: Peripherals) -> UsbResources {\n\
                    \x20   UsbResources {\n\
                    \x20       dp: p.PA12,\n\
                    \x20       dm: p.PA11,\n\
                    \x20   }\n\
                    }\n";
    assert_eq!(out.as_str(), expected);
}

#[test]
fn schema_block_end_to_end() {
    let src = "usb: UsbResources {\n\
               \x20   dp: PA12,\n\
               \x20   dm: PA11,\n\
               \x20   usb: USB,\n\
               }\n\
               leds: LedResources {\n\
               \x20   r: PA2,\n\
               \x20   g: PA3,\n\
               \x20   b: PA4,\n\
               \x20   tim2: TIM2 = PWMTimer,\n\
               }\n";
    let out = assign_resources(src).unwrap();
    let expected = "pub type PWMTimer = TIM2;\n\
                    pub struct UsbResources {\n\
                    \x20   pub dp: PA12,\n\
                    \x20   pub dm: PA11,\n\
                    \x20   pub usb: USB,\n\
                    }\n\
                    pub struct LedResources {\n\
                    \x20   pub r: PA2,\n\
                    \x20   pub g: PA3,\n\
                    \x20   pub b: PA4,\n\
                    \x20   pub tim2: TIM2,\n\
                    }\n\
                    pub struct AssignedResources {\n\
                    \x20   pub usb: UsbResources,\n\
                    \x20   pub leds: LedResources,\n\
                    }\n\
                    pub fn split_resources(p: Peripherals) -> AssignedResources {\n\
                    \x20   AssignedResources {\n\
                    \x20       usb: UsbResources {\n\
                    \x20           dp: p.PA12,\n\
                    \x20           dm: p.PA11,\n\
                    \x20           usb: p.USB,\n\
                    \x20       },\n\
                    \x20       leds: LedResources {\n\
                    \x20           r: p.PA2,\n\
                    \x20           g: p.PA3,\n\
                    \x20           b: p.PA4,\n\
                    \x20           tim2: p.TIM2,\n\
                    \x20       },\n\
                    \x20   }\n\
                    }\n";
    assert_eq!(out.as_str(), expected);
}

#[test]
fn alias_directive_both_forms() {
    assert_eq!(alias_of_directive("alias = PWMTimer").as_deref(), Some("PWMTimer"));
    assert_eq!(alias_of_directive("alias(PWMTimer)").as_deref(), Some("PWMTimer"));
    assert_eq!(alias_of_directive("  alias  =  X9  ").as_deref(), Some("X9"));
    assert_eq!(alias_of_directive("alias ( Y )").as_deref(), Some("Y"));
    assert_eq!(alias_of_directive("allow(non_snake_case)"), None);
    assert_eq!(alias_of_directive("alias"), None);
    assert_eq!(alias_of_directive("alias = "), None);
    assert_eq!(alias_of_directive("aliased = X"), None);
}

#[test]
fn qualified_alias_target_keeps_qualification() {
    let src = "struct R {\n\
               \x20   #[alias = Pin]\n\
               \x20   dm: peripherals::PA11,\n\
               }\n";
    let out = assigned_resources(src).unwrap();
    assert!(out.starts_with("pub type Pin = peripherals::PA11;\n"));
    // the declaration rendering strips the qualification
    assert!(out.contains("    pub dm: PA11,\n"));
    // the routine reads the aggregate field named by the bare source identifier
    assert!(out.contains("        dm: p.PA11,\n"));
}

#[test]
fn outer_directives_preserved_in_order() {
    let src = "#[derive(Debug)]\n\
               #[allow(dead_code)]\n\
               struct R {\n\
               \x20   a: PA1,\n\
               }\n";
    let out = assigned_resources(src).unwrap();
    assert!(out.starts_with("#[derive(Debug)]\n#[allow(dead_code)]\npub struct R {\n"));
}

#[test]
fn trailing_comma_permitted_double_comma_fatal() {
    assert!(assign_resources("a: A { x: PA1, }").is_ok());
    assert!(assign_resources("a: A { x: PA1 }").is_ok());
    assert_eq!(
        assign_resources("a: A { x: PA1,, }").unwrap_err(),
        SchemaError::Syntax
    );
}

#[test]
fn empty_group_and_empty_input() {
    let out = assign_resources("a: A { }").unwrap();
    assert!(out.contains("pub struct A {\n}\n"));
    assert_eq!(assign_resources("").unwrap_err(), SchemaError::Syntax);
    assert_eq!(assigned_resources("").unwrap_err(), SchemaError::Syntax);
}

#[test]
fn grammar_violations_are_fatal() {
    assert_eq!(assigned_resources("struct { a: B, }").unwrap_err(), SchemaError::Syntax);
    assert_eq!(assigned_resources("struct R { a, }").unwrap_err(), SchemaError::Syntax);
    assert_eq!(assign_resources("a: A { x: PA1, } trailing").unwrap_err(), SchemaError::Syntax);
    assert_eq!(assign_resources("a A { x: PA1, }").unwrap_err(), SchemaError::Syntax);
    assert_eq!(assigned_resources("struct R { a: B, ").unwrap_err(), SchemaError::Syntax);
    assert_eq!(assigned_resources("struct R { #[oops a: B, }").unwrap_err(), SchemaError::Syntax);
}

#[test]
fn conflicting_alias_requests_rejected() {
    let two_dirs = "struct R {\n\
                    \x20   #[alias = X]\n\
                    \x20   #[alias = Y]\n\
                    \x20   a: PA1,\n\
                    }\n";
    assert_eq!(assigned_resources(two_dirs).unwrap_err(), SchemaError::ConflictingAlias);
    let dir_and_suffix = "a: A {\n\
                          \x20   #[alias = X]\n\
                          \x20   x: PA1 = Y,\n\
                          }\n";
    assert_eq!(assign_resources(dir_and_suffix).unwrap_err(), SchemaError::ConflictingAlias);
}

#[test]
fn duplicate_alias_identifier_rejected() {
    let src = "a: A { x: PA1 = T, y: PA2 = T, }";
    assert_eq!(assign_resources(src).unwrap_err(), SchemaError::DuplicateAlias);
}

#[test]
fn duplicate_destination_rejected() {
    let src = "a: A { x: PA1, x: PA2, }";
    assert_eq!(assign_resources(src).unwrap_err(), SchemaError::DuplicateDest);
}

#[test]
fn duplicate_group_names_rejected() {
    let same_name = "a: A { x: PA1, } a: B { y: PA2, }";
    assert_eq!(assign_resources(same_name).unwrap_err(), SchemaError::DuplicateGroupName);
    let same_ty = "a: T { x: PA1, } b: T { y: PA2, }";
    assert_eq!(assign_resources(same_ty).unwrap_err(), SchemaError::DuplicateGroupType);
}

#[test]
fn disjoint_groups_fully_populated() {
    let src = "one: First { a: PA1, b: PA2, } two: Second { c: PA3, d: PA4, }";
    let out = assign_resources(src).unwrap();
    assert!(out.contains("        one: First {\n            a: p.PA1,\n            b: p.PA2,\n        },\n"));
    assert!(out.contains("        two: Second {\n            c: p.PA3,\n            d: p.PA4,\n        },\n"));
    // each source field is read exactly once
    for field in ["p.PA1", "p.PA2", "p.PA3", "p.PA4"] {
        assert_eq!(out.matches(field).count(), 1);
    }
}

#[test]
fn group_directives_in_block_shape() {
    let src = "#[allow(dead_code)]\n\
               a: A {\n\
               \x20   #[cfg(feature_x)]\n\
               \x20   x: PA1,\n\
               }\n";
    let out = assign_resources(src).unwrap();
    assert!(out.contains("#[allow(dead_code)]\npub struct A {\n    #[cfg(feature_x)]\n    pub x: PA1,\n}\n"));
}
