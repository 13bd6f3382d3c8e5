use log_translator::dispatch::{
    classify, compile_schema, compile_variant, translate, DispatchTable, LogKind, Translation,
};
use log_translator::schema::{
    build_model, field_slots, qualified_name, CompileError, RawVariant, SchemaModel, TypeShape,
};
use log_translator::template::{parse_template, render, Segment};
use log_translator::text::decimal_string;

#[derive(Debug, Clone, Copy, PartialEq, Eq)]
enum Level {
    Info,
    Warning,
    Error,
}

fn level_of(tag: &str) -> Option<Level> {
    match tag {
        "info" => Some(Level::Info),
        "warning" => Some(Level::Warning),
        "error" => Some(Level::Error),
        _ => None,
    }
}

fn s(x: &str) -> String {
    x.to_string()
}

fn raw(
    name: &str,
    fields: &[Option<&str>],
    kind: Option<&str>,
    en: Option<&str>,
    ja: Option<&str>,
) -> RawVariant {
    RawVariant {
        name: s(name),
        fields: fields.iter().map(|f| f.map(s)).collect(),
        kind: kind.map(s),
        en: en.map(s),
        ja: ja.map(s),
    }
}

fn model(variants: Vec<RawVariant>) -> SchemaModel {
    build_model("Log", &TypeShape::Enum(variants)).unwrap()
}

fn compile(variants: Vec<RawVariant>) -> Result<DispatchTable, CompileError> {
    compile_schema(&model(variants))
}

fn run(table: &DispatchTable, variant: usize, lang: &str, values: &[&str]) -> (LogKind<Level>, String) {
    let vals: Vec<String> = values.iter().map(|v| s(v)).collect();
    let t = translate(table, variant, lang, &vals);
    let lookup = match &t {
        Translation::Rendered { kind, .. } => level_of(kind),
        Translation::UnknownLanguage => None,
    };
    classify(t, lookup)
}

fn names(v: &[&str]) -> Vec<String> {
    v.iter().map(|x| s(x)).collect()
}

#[test]
fn retry_positional_placeholder_renders_warning() {
    let table = compile(vec![raw(
        "Retry",
        &[Some("attempt")],
        Some("warning"),
        Some("Retrying, attempt {}"),
        None,
    )])
    .unwrap();
    assert_eq!(run(&table, 0, "en", &["3"]), (LogKind::Known(Level::Warning), s("Retrying, attempt 3")));
}

#[test]
fn missing_language_gives_unknown_language_sentinel() {
    let table = compile(vec![raw("NotFound", &[Some("id")], Some("error"), Some("Item {id} missing"), None)])
        .unwrap();
    assert_eq!(run(&table, 0, "ja", &["7"]), (LogKind::UnknownKind, s("<UNKNOWN_LANGUAGE>")));
    assert_eq!(run(&table, 0, "en", &["7"]), (LogKind::Known(Level::Error), s("Item 7 missing")));
    assert_eq!(run(&table, 0, "fr", &["7"]), (LogKind::UnknownKind, s("<UNKNOWN_LANGUAGE>")));
}

#[test]
fn index_out_of_range_fails_naming_variant() {
    let r = compile(vec![raw("Bad", &[Some("x"), Some("y")], Some("error"), Some("{2} is invalid"), None)]);
    assert_eq!(
        r,
        Err(CompileError::PlaceholderResolution {
            variant: s("Log::Bad"),
            placeholder: s("{2}"),
            slot: Some(2),
            fields: names(&["x", "y"]),
        })
    );
}

#[test]
fn plain_variant_renders_literal() {
    let table = compile(vec![raw("Plain", &[], Some("info"), Some("Done"), None)]).unwrap();
    assert_eq!(run(&table, 0, "en", &[]), (LogKind::Known(Level::Info), s("Done")));
}

#[test]
fn untagged_variant_fails_with_missing_kind() {
    let r = compile(vec![raw("Untagged", &[Some("n")], None, Some("n = {n}"), None)]);
    assert_eq!(r, Err(CompileError::MissingKind { variant: s("Log::Untagged") }));
}

#[test]
fn untagged_variant_without_templates_compiles() {
    let table = compile(vec![raw("Silent", &[Some("n")], None, None, None)]).unwrap();
    assert_eq!(run(&table, 0, "en", &["1"]), (LogKind::UnknownKind, s("<UNKNOWN_LANGUAGE>")));
}

#[test]
fn missing_kind_in_ja_only() {
    let r = compile(vec![raw("JaOnly", &[], None, None, Some("了解"))]);
    assert_eq!(r, Err(CompileError::MissingKind { variant: s("Log::JaOnly") }));
}

#[test]
fn placeholder_failure_comes_before_missing_kind() {
    let r = compile(vec![raw("Both", &[], None, Some("{x}"), None)]);
    assert!(matches!(r, Err(CompileError::PlaceholderResolution { .. })));
}

#[test]
fn first_failing_variant_is_reported() {
    let r = compile(vec![
        raw("Ok1", &[], Some("info"), Some("fine"), None),
        raw("First", &[], None, Some("a"), None),
        raw("Second", &[], Some("info"), Some("{}"), None),
    ]);
    assert_eq!(r, Err(CompileError::MissingKind { variant: s("Log::First") }));
}

#[test]
fn not_an_enum_is_structural_error() {
    let r = build_model("Point", &TypeShape::Other);
    assert_eq!(r.unwrap_err(), CompileError::NotAnEnum { enum_name: s("Point") });
}

#[test]
fn unnamed_fields_get_positional_names() {
    let fields: Vec<Option<String>> = (0..12).map(|_| None).collect();
    let slots = field_slots(&fields);
    assert_eq!(slots[0], "v0");
    assert_eq!(slots[1], "v1");
    assert_eq!(slots[10], "v10");
    assert_eq!(slots[11], "v11");
    let mixed = field_slots(&vec![Some(s("a")), None]);
    assert_eq!(mixed, names(&["a", "v1"]));
}

#[test]
fn tuple_variant_named_by_synthetic_slots() {
    let table = compile(vec![raw("Pair", &[None, None], Some("info"), Some("{v1} then {v0}"), None)]).unwrap();
    assert_eq!(run(&table, 0, "en", &["a", "b"]), (LogKind::Known(Level::Info), s("b then a")));
}

#[test]
fn indexed_placeholders_bind_by_position() {
    let table = compile(vec![raw(
        "Swap",
        &[Some("a"), Some("b")],
        Some("info"),
        Some("{1}-{0}-{1}"),
        None,
    )])
    .unwrap();
    assert_eq!(run(&table, 0, "en", &["x", "y"]), (LogKind::Known(Level::Info), s("y-x-y")));
}

#[test]
fn mixed_forms_resolve_left_to_right() {
    let table = compile(vec![raw(
        "Mix",
        &[Some("a"), Some("b"), Some("c")],
        Some("warning"),
        Some("{} {c} {} {0}"),
        Some("{b}です"),
    )])
    .unwrap();
    assert_eq!(run(&table, 0, "en", &["1", "2", "3"]), (LogKind::Known(Level::Warning), s("1 3 2 1")));
    assert_eq!(run(&table, 0, "ja", &["1", "2", "3"]), (LogKind::Known(Level::Warning), s("2です")));
}

#[test]
fn too_many_positional_placeholders_fail() {
    let r = compile(vec![raw("Few", &[Some("a")], Some("info"), Some("{} and {}"), None)]);
    assert_eq!(
        r,
        Err(CompileError::PlaceholderResolution {
            variant: s("Log::Few"),
            placeholder: s("{}"),
            slot: Some(1),
            fields: names(&["a"]),
        })
    );
}

#[test]
fn unknown_name_fails_without_slot() {
    let r = compile(vec![raw("Named", &[Some("a")], Some("info"), Some("{b}"), None)]);
    assert_eq!(
        r,
        Err(CompileError::PlaceholderResolution {
            variant: s("Log::Named"),
            placeholder: s("{b}"),
            slot: None,
            fields: names(&["a"]),
        })
    );
}

#[test]
fn huge_index_fails_without_slot() {
    let r = compile(vec![raw("Huge", &[Some("a")], Some("info"), Some("{99999999999999999999999}"), None)]);
    assert!(matches!(
        r,
        Err(CompileError::PlaceholderResolution { slot: None, .. })
    ));
}

#[test]
fn unknown_kind_tag_gives_error_sentinel() {
    let table = compile(vec![raw("Odd", &[], Some("verbose"), Some("hi"), None)]).unwrap();
    assert_eq!(run(&table, 0, "en", &[]), (LogKind::ErrorKind, s("<UNKNOWN_LOG_KIND>")));
}

#[test]
fn malformed_braces_stay_literal() {
    let table = compile(vec![raw(
        "Braces",
        &[Some("a")],
        Some("info"),
        Some("{-} {12ab} {a b} { {a}"),
        None,
    )])
    .unwrap();
    assert_eq!(
        run(&table, 0, "en", &["Z"]),
        (LogKind::Known(Level::Info), s("{-} {12ab} {a b} { Z"))
    );
}

#[test]
fn parse_normalizes_placeholders() {
    let p = parse_template("a {x} b {1} {}", &names(&["x", "y"])).unwrap();
    assert_eq!(p.normalized, "a {} b {} {}");
    assert_eq!(
        p.segments,
        vec![
            Segment::Literal(s("a ")),
            Segment::Arg(0),
            Segment::Literal(s(" b ")),
            Segment::Arg(1),
            Segment::Literal(s(" ")),
            Segment::Arg(0),
        ]
    );
    assert_eq!(render(&p, &names(&["X", "Y"])), "a X b Y X");
}

#[test]
fn parse_without_placeholders_is_one_literal() {
    let p = parse_template("héllo wörld", &names(&[])).unwrap();
    assert_eq!(p.segments, vec![Segment::Literal(s("héllo wörld"))]);
    assert_eq!(p.normalized, "héllo wörld");
    let empty = parse_template("", &names(&[])).unwrap();
    assert!(empty.segments.is_empty());
}

#[test]
fn same_field_twice() {
    let table = compile(vec![raw("Twice", &[Some("n")], Some("info"), Some("{n}+{n}={0}{0}"), None)]).unwrap();
    assert_eq!(run(&table, 0, "en", &["1"]), (LogKind::Known(Level::Info), s("1+1=11")));
}

#[test]
fn compile_variant_keeps_name_and_slots() {
    let m = model(vec![raw("T", &[None, Some("b")], Some("info"), Some("{}{}"), None)]);
    let v = compile_variant("Log", &m.variants[0]).unwrap();
    assert_eq!(v.name, "T");
    assert_eq!(v.slots, names(&["v0", "b"]));
    assert_eq!(v.kind, Some(s("info")));
    assert!(v.ja.is_none());
    assert_eq!(v.en.unwrap().segments, vec![Segment::Arg(0), Segment::Arg(1)]);
}

#[test]
fn error_messages_name_the_construct() {
    let e = CompileError::PlaceholderResolution {
        variant: s("Log::Bad"),
        placeholder: s("{2}"),
        slot: Some(2),
        fields: names(&["x", "y"]),
    };
    assert_eq!(
        e.message(),
        "Format argument `{2}` of `Log::Bad` is invalid (no field slot `v2`); its fields are [x, y]."
    );
    let e = CompileError::PlaceholderResolution {
        variant: s("Log::N"),
        placeholder: s("{q}"),
        slot: None,
        fields: names(&[]),
    };
    assert_eq!(e.message(), "Format argument `{q}` of `Log::N` is invalid; its fields are [].");
    let e = CompileError::MissingKind { variant: s("Log::Untagged") };
    assert_eq!(e.message(), "Console log `Log::Untagged` has no kind.");
    let e = CompileError::NotAnEnum { enum_name: s("Point") };
    assert_eq!(e.message(), "`Point` is not an enum: only enums have translations.");
}

#[test]
fn decimal_and_qualified_names() {
    assert_eq!(decimal_string(0), "0");
    assert_eq!(decimal_string(7), "7");
    assert_eq!(decimal_string(1234), "1234");
    assert_eq!(qualified_name("Log", "Retry"), "Log::Retry");
}

#[test]
fn several_variants_dispatch_by_index() {
    let table = compile(vec![
        raw("A", &[], Some("info"), Some("first"), Some("いち")),
        raw("B", &[Some("n")], Some("error"), Some("second {}"), None),
    ])
    .unwrap();
    assert_eq!(run(&table, 0, "ja", &[]), (LogKind::Known(Level::Info), s("いち")));
    assert_eq!(run(&table, 1, "en", &["2"]), (LogKind::Known(Level::Error), s("second 2")));
    assert_eq!(run(&table, 1, "ja", &["2"]), (LogKind::UnknownKind, s("<UNKNOWN_LANGUAGE>")));
}
