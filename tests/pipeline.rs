use cpp_derive::attributes::{insert_attribute_names, insert_derive_lists, insert_name, DerivePattern};
use cpp_derive::builder::{build_classes, capture_role, interpret_match};
use cpp_derive::grouping::group_by_attribute;
use cpp_derive::model::{require_inputs, CaptureRole, Class, CppDeriveError, ParseError, RawCapture};
use cpp_derive::output::{
    assemble_outputs, header_preamble, source_preamble, template_name, OutputPair, RenderedPair,
    Section,
};
use cpp_derive::query::parse_classes;
use cpp_derive::text::{split_at_commas, trimmed};

const CLASSES_QUERY: &str = r#"
(class_specifier
  name: (type_identifier) @name
  body: (field_declaration_list
    (field_declaration
      (attribute_declaration)? @attribute
      type: (_) @type
      declarator: (field_identifier) @decl
      default_value: (_)? @default)))
"#;

fn role_names() -> Vec<String> {
    ["name", "attribute", "decl", "type", "default", "other"]
        .iter()
        .map(|s| s.to_string())
        .collect()
}

fn cap(index: u32, node: usize, text: &str) -> RawCapture {
    RawCapture { index, node, start: 0, end: text.len(), text: Some(text.to_string()) }
}

const NAME: u32 = 0;
const ATTRIBUTE: u32 = 1;
const DECL: u32 = 2;
const TYPE: u32 = 3;
const DEFAULT: u32 = 4;
const OTHER: u32 = 5;

fn field_match(class_node: usize, class: &str, attr: Option<&str>, decl: &str, ty: &str, default: Option<&str>) -> Vec<RawCapture> {
    let mut m = vec![cap(NAME, class_node, class)];
    if let Some(a) = attr {
        m.push(cap(ATTRIBUTE, 900 + class_node, a));
    }
    m.push(cap(TYPE, 1000, ty));
    m.push(cap(DECL, 1001, decl));
    if let Some(d) = default {
        m.push(cap(DEFAULT, 1002, d));
    }
    m
}

fn pattern() -> DerivePattern {
    DerivePattern::new()
}

fn names_of(v: &[String]) -> Vec<&str> {
    v.iter().map(|s| s.as_str()).collect()
}

fn attributes_of(text: &str) -> Vec<String> {
    let mut set = Vec::new();
    insert_attribute_names(&pattern(), &mut set, text);
    set
}

#[test]
fn no_input_file_is_an_error() {
    assert_eq!(require_inputs(0), Err(CppDeriveError::NoInputFile));
    assert_eq!(require_inputs(2), Ok(()));
}

#[test]
fn trimmed_removes_surrounding_whitespace() {
    assert_eq!(trimmed("  Serialize \t\n"), "Serialize");
    assert_eq!(trimmed("a b"), "a b");
    assert_eq!(trimmed("   "), "");
    assert_eq!(trimmed("\u{3000}x\u{a0}"), "x");
}

#[test]
fn split_at_commas_keeps_empty_pieces() {
    assert_eq!(split_at_commas("a, b,,c"), vec!["a", " b", "", "c"]);
    assert_eq!(split_at_commas(""), vec![""]);
    assert_eq!(split_at_commas(","), vec!["", ""]);
}

#[test]
fn derive_list_entries_are_trimmed_and_distinct() {
    assert_eq!(attributes_of("[[derive(Serialize, Debug ,Serialize)]]"), vec!["Serialize", "Debug"]);
    assert_eq!(attributes_of("derive(A,B)"), vec!["A", "B"]);
    assert!(attributes_of("derive()").is_empty());
}

#[test]
fn derive_lists_add_their_entries() {
    let mut set = vec!["B".to_string()];
    let lists = vec![" A , B".to_string(), "".to_string(), "C,,A".to_string()];
    insert_derive_lists(&mut set, &lists);
    assert_eq!(set, vec!["B", "A", "C"]);
}

#[test]
fn direct_attribute_name_is_one_group() {
    assert_eq!(attributes_of("  Serialize "), vec!["Serialize"]);
    assert_eq!(attributes_of("_x9"), vec!["_x9"]);
    assert!(attributes_of("   ").is_empty());
    assert!(attributes_of("[[no_unique_address]]").is_empty());
    assert!(attributes_of("9lives").is_empty());
    assert!(attributes_of("a b").is_empty());
}

#[test]
fn insert_name_skips_present_and_empty() {
    let mut set = vec!["A".to_string()];
    insert_name(&mut set, "A".to_string());
    insert_name(&mut set, String::new());
    insert_name(&mut set, "B".to_string());
    assert_eq!(set, vec!["A", "B"]);
}

#[test]
fn capture_roles_by_name() {
    assert_eq!(capture_role(&"name".to_string()), Some(CaptureRole::Name));
    assert_eq!(capture_role(&"attribute".to_string()), Some(CaptureRole::Attribute));
    assert_eq!(capture_role(&"decl".to_string()), Some(CaptureRole::Decl));
    assert_eq!(capture_role(&"type".to_string()), Some(CaptureRole::Type));
    assert_eq!(capture_role(&"default".to_string()), Some(CaptureRole::Default));
    assert_eq!(capture_role(&"body".to_string()), None);
}

#[test]
fn default_present_and_absent() {
    let names = role_names();
    let with = interpret_match(&names, &field_match(1, "Foo", None, "x", "int", Some("0"))).ok().unwrap();
    let without = interpret_match(&names, &field_match(1, "Foo", None, "y", "int", None)).ok().unwrap();
    assert_eq!(with.field.default_value, Some("0".to_string()));
    assert_eq!(without.field.default_value, None);
}

#[test]
fn missing_decl_or_type_is_a_parse_error() {
    let names = role_names();
    let no_decl = vec![cap(NAME, 1, "Foo"), cap(TYPE, 2, "int")];
    let no_type = vec![cap(NAME, 1, "Foo"), cap(DECL, 2, "x")];
    let no_name = vec![cap(DECL, 2, "x"), cap(TYPE, 3, "int")];
    assert_eq!(interpret_match(&names, &no_decl).err(), Some(ParseError::MissingCapture(CaptureRole::Decl)));
    assert_eq!(interpret_match(&names, &no_type).err(), Some(ParseError::MissingCapture(CaptureRole::Type)));
    assert_eq!(interpret_match(&names, &no_name).err(), Some(ParseError::MissingCapture(CaptureRole::Name)));
}

#[test]
fn unreadable_text_is_a_parse_error() {
    let names = role_names();
    let m = vec![cap(NAME, 1, "Foo"), RawCapture { index: DECL, node: 2, start: 0, end: 1, text: None }, cap(TYPE, 3, "int")];
    assert_eq!(interpret_match(&names, &m).err(), Some(ParseError::InvalidText(CaptureRole::Decl)));
}

#[test]
fn other_captures_are_ignored() {
    let names = role_names();
    let mut m = field_match(1, "Foo", None, "x", "int", None);
    m.push(RawCapture { index: OTHER, node: 7, start: 0, end: 0, text: None });
    m.push(RawCapture { index: 42, node: 8, start: 0, end: 0, text: None });
    let r = interpret_match(&names, &m).ok().unwrap();
    assert_eq!(r.field.field_name, "x");
    assert_eq!(r.field.field_type, "int");
}

#[test]
fn later_field_of_same_name_wins() {
    let names = role_names();
    let ms = vec![
        field_match(1, "Foo", Some("derive(A)"), "x", "int", Some("1")),
        field_match(1, "Foo", None, "x", "float", None),
    ];
    let classes = build_classes(&pattern(), &names, &ms).ok().unwrap();
    assert_eq!(classes.len(), 1);
    assert_eq!(classes[0].fields.len(), 1);
    assert_eq!(classes[0].fields[0].field_type, "float");
    assert_eq!(classes[0].fields[0].default_value, None);
}

#[test]
fn classes_by_identity_in_first_seen_order() {
    let names = role_names();
    let ms = vec![
        field_match(5, "Bar", Some("derive(B)"), "a", "int", None),
        field_match(3, "Foo", Some("derive(A)"), "x", "int", None),
        field_match(5, "Bar", Some("derive(C, B)"), "b", "char", None),
        field_match(3, "Foo", None, "y", "int", None),
        field_match(9, "Foo", None, "z", "int", None),
    ];
    let classes = build_classes(&pattern(), &names, &ms).ok().unwrap();
    let class_names: Vec<&str> = classes.iter().map(|c| c.name.as_str()).collect();
    assert_eq!(class_names, vec!["Bar", "Foo", "Foo"]);
    assert_eq!(names_of(&classes[0].attributes), vec!["B", "C"]);
    let fields: Vec<&str> = classes[1].fields.iter().map(|f| f.field_name.as_str()).collect();
    assert_eq!(fields, vec!["x", "y"]);
    assert!(classes[2].attributes.is_empty());
}

#[test]
fn first_malformed_match_fails_the_build() {
    let names = role_names();
    let ms = vec![
        field_match(1, "Foo", None, "x", "int", None),
        vec![cap(NAME, 1, "Foo"), cap(DECL, 2, "y")],
        vec![cap(NAME, 1, "Foo"), cap(TYPE, 2, "int")],
    ];
    assert_eq!(
        build_classes(&pattern(), &names, &ms).err(),
        Some(ParseError::MissingCapture(CaptureRole::Type))
    );
}

fn class(name: &str, attrs: &[&str]) -> Class {
    Class { name: name.to_string(), attributes: attrs.iter().map(|s| s.to_string()).collect(), fields: Vec::new() }
}

#[test]
fn class_in_each_declared_group_only() {
    let classes = vec![class("P", &["A", "B"]), class("Q", &["C"]), class("R", &["B"])];
    let groups = group_by_attribute(&classes);
    let got: Vec<(&str, Vec<usize>)> = groups.iter().map(|g| (g.attribute.as_str(), g.members.clone())).collect();
    assert_eq!(got, vec![("A", vec![0]), ("B", vec![0, 2]), ("C", vec![1])]);
}

#[test]
fn class_without_attributes_in_no_group() {
    let classes = vec![class("P", &[]), class("Q", &["A"])];
    let groups = group_by_attribute(&classes);
    assert_eq!(groups.len(), 1);
    assert_eq!(groups[0].members, vec![1]);
    assert!(group_by_attribute(&vec![class("P", &[])]).is_empty());
}

#[test]
fn preambles_and_template_names() {
    assert_eq!(header_preamble(), "#pragma once\n");
    assert_eq!(source_preamble("gen"), "#include \"gen.hpp\"\n");
    assert_eq!(template_name("Serialize", Section::Source), "Serialize/source.cpp");
    assert_eq!(template_name("Serialize", Section::Header), "Serialize/header.hpp");
}

fn outputs(r: Result<OutputPair, CppDeriveError>) -> (String, String) {
    let p = r.ok().unwrap();
    (p.source, p.header)
}

#[test]
fn zero_matches_give_preamble_only() {
    let classes = build_classes(&pattern(), &role_names(), &Vec::new()).ok().unwrap();
    let groups = group_by_attribute(&classes);
    let (source, header) = outputs(assemble_outputs("gen", &groups, &Vec::new()));
    assert_eq!(source, "#include \"gen.hpp\"\n");
    assert_eq!(header, "#pragma once\n");
}

#[test]
fn fragments_follow_group_order() {
    let groups = group_by_attribute(&vec![class("P", &["A", "B"])]);
    let rendered = vec![
        Some(RenderedPair { source: "sa;".to_string(), header: "ha;".to_string() }),
        Some(RenderedPair { source: "sb;".to_string(), header: "hb;".to_string() }),
    ];
    let (source, header) = outputs(assemble_outputs("out", &groups, &rendered));
    assert_eq!(source, "#include \"out.hpp\"\nsa;sb;");
    assert_eq!(header, "#pragma once\nha;hb;");
}

#[test]
fn missing_template_fails_the_run() {
    let groups = group_by_attribute(&vec![class("P", &["A", "B"])]);
    let rendered = vec![Some(RenderedPair { source: "s".to_string(), header: "h".to_string() }), None];
    assert_eq!(
        assemble_outputs("out", &groups, &rendered).err(),
        Some(CppDeriveError::Template { attribute: "B".to_string() })
    );
    let short = vec![Some(RenderedPair { source: "s".to_string(), header: "h".to_string() })];
    assert!(assemble_outputs("out", &groups, &short).is_err());
}

fn run(ms: &Vec<Vec<RawCapture>>) -> (String, String) {
    let classes = build_classes(&pattern(), &role_names(), ms).ok().unwrap();
    let groups = group_by_attribute(&classes);
    let rendered: Vec<Option<RenderedPair>> = groups
        .iter()
        .map(|g| Some(RenderedPair { source: format!("{}:{:?};", g.attribute, g.members), header: g.attribute.clone() }))
        .collect();
    outputs(assemble_outputs("gen", &groups, &rendered))
}

#[test]
fn identical_inputs_give_identical_outputs() {
    let ms = vec![
        field_match(1, "Foo", Some("derive(A, B)"), "x", "int", None),
        field_match(2, "Bar", Some("derive(B)"), "y", "int", None),
    ];
    let first = run(&ms);
    let second = run(&ms);
    assert_eq!(first, second);
    assert_eq!(first.0, "#include \"gen.hpp\"\nA:[0];B:[0, 1];");
}

fn class_value(c: &Class) -> tera::Value {
    let fields: Vec<tera::Value> = c
        .fields
        .iter()
        .map(|f| {
            let mut m = tera::Map::new();
            m.insert("field_name".to_string(), tera::Value::String(f.field_name.clone()));
            m.insert("field_type".to_string(), tera::Value::String(f.field_type.clone()));
            let d = match &f.default_value {
                Some(v) => tera::Value::String(v.clone()),
                None => tera::Value::Null,
            };
            m.insert("default_value".to_string(), d);
            tera::Value::Object(m)
        })
        .collect();
    let mut m = tera::Map::new();
    m.insert("name".to_string(), tera::Value::String(c.name.clone()));
    m.insert("fields".to_string(), tera::Value::Array(fields));
    tera::Value::Object(m)
}

#[test]
fn end_to_end_getters_and_initializers() {
    let source = b"class Foo { [[derive(Serialize)]] int x = 0; int y; };".to_vec();
    let language = tree_sitter_cuda::language();
    let mut parser = tree_sitter::Parser::new();
    parser.set_language(&language).unwrap();
    let query = tree_sitter::Query::new(&language, CLASSES_QUERY).unwrap();
    let classes = parse_classes(&mut parser, &source, &query, &pattern()).ok().unwrap();
    assert_eq!(classes.len(), 1);
    assert_eq!(classes[0].name, "Foo");
    assert_eq!(names_of(&classes[0].attributes), vec!["Serialize"]);
    let fields: Vec<(&str, Option<&str>)> =
        classes[0].fields.iter().map(|f| (f.field_name.as_str(), f.default_value.as_deref())).collect();
    assert_eq!(fields, vec![("x", Some("0")), ("y", None)]);

    let groups = group_by_attribute(&classes);
    let mut tera = tera::Tera::default();
    tera.add_raw_template(
        &template_name("Serialize", Section::Source),
        "{% for c in classes %}{% for f in c.fields %}{{ f.field_type }} {{ c.name }}::get_{{ f.field_name }}() { return {% if f.default_value %}{{ f.default_value }}{% else %}{{ f.field_type }}(){% endif %}; }\n{% endfor %}{% endfor %}",
    )
    .unwrap();
    tera.add_raw_template(
        &template_name("Serialize", Section::Header),
        "{% for c in classes %}{% for f in c.fields %}{{ f.field_type }} get_{{ f.field_name }}();\n{% endfor %}{% endfor %}",
    )
    .unwrap();
    let mut rendered = Vec::new();
    for g in &groups {
        let members: Vec<tera::Value> = g.members.iter().map(|i| class_value(&classes[*i])).collect();
        let mut context = tera::Context::new();
        context.insert("classes", &members);
        let source = tera.render(&template_name(&g.attribute, Section::Source), &context).ok();
        let header = tera.render(&template_name(&g.attribute, Section::Header), &context).ok();
        rendered.push(match (source, header) {
            (Some(source), Some(header)) => Some(RenderedPair { source, header }),
            _ => None,
        });
    }
    let (source, header) = outputs(assemble_outputs("gen", &groups, &rendered));
    assert!(header.starts_with("#pragma once\n"));
    assert!(header.contains("int get_x();"));
    assert!(header.contains("int get_y();"));
    assert!(source.starts_with("#include \"gen.hpp\"\n"));
    assert!(source.contains("get_x() { return 0; }"));
    assert!(source.contains("get_y() { return int(); }"));
}
