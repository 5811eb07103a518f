use comfy_i18n_core::ast::Ast;
use comfy_i18n_core::identifier::{Identifier, Path as AstPath};
use comfy_i18n_core::node_value::{CompositeValue, LiteralValue, NodeValue};
use comfy_i18n_core::rust::components::format::{trait_name_of, Format};
use comfy_i18n_core::rust::generator::path::Path;
use comfy_i18n_core::rust::rust_generator::context::Context;
use comfy_i18n_core::rust::rust_generator::ty::RustType;
use comfy_i18n_core::rust::rust_generator::value::RustValue;
use comfy_i18n_core::rust::shared::name::{NamePascalCase, NameSnakeCase};
use comfy_i18n_core::template::{ArgumentKey, ArgumentName, AstRefOrigin, NameRef, Piece, Template, Type};

use comfy_i18n_core::rust::components::strct::{by_path_arm, struct_fields};
use comfy_i18n_core::rust::components::tuple_wrapper::{element_arm, element_name};
use comfy_i18n_core::rust::rust_generator::generator::RustGenerator;
use comfy_i18n_core::rust::components::initialization::Initialization;
use comfy_i18n_core::rust::rust_generator::var_ty::VariableType;

fn field(name: &str) -> Identifier {
    Identifier::Field(name.to_string())
}

fn leaf(name: &str, value: LiteralValue) -> Ast {
    Ast::new(field(name), NodeValue::Literal(value))
}

fn strct(name: &str, children: Vec<Ast>) -> Ast {
    let children = children.into_iter().map(|c| (c.identifier.clone(), c)).collect();
    Ast::new(field(name), NodeValue::Composite { children, value: CompositeValue::Struct })
}

fn context() -> Context {
    let de = strct("DE", vec![
        leaf("value", LiteralValue::Bool(true)),
        strct("nested", vec![leaf("a", LiteralValue::Char('x'))]),
    ]);
    let en = strct("EN", vec![leaf("value", LiteralValue::Bool(false))]);
    Context::new(vec![de, en], NameSnakeCase::from_str("happy"))
}

fn node_id(ctx: &Context, variant: usize, ids: Vec<Identifier>) -> comfy_i18n_core::node_id::NodeId {
    ctx.localizations[variant].by_path(&AstPath(ids)).unwrap().id
}

#[test]
fn context_paths_and_variants() {
    let ctx = context();
    let root = ctx.localizations[0].id;
    let nested = node_id(&ctx, 0, vec![field("nested")]);
    let en_value = node_id(&ctx, 1, vec![field("value")]);

    assert_eq!(ctx.relative_path_to_root(&root).to_text(), "Happy");
    assert_eq!(ctx.relative_path_to_root(&nested).to_text(), "nested::Nested");
    assert_eq!(ctx.context_variant(&en_value), "EN");
    assert_eq!(ctx.context_variant_identifier(&nested), field("DE"));
    assert_eq!(ctx.get_variant_comfy_path(&nested, field("EN")).0, vec![field("EN"), field("nested")]);
    assert_eq!(ctx.context_variants(), vec![field("DE"), field("EN")]);
    assert_eq!(ctx.root_name().as_str(), "happy");
    assert_eq!(ctx.context_key().to_text(), "crate::I18n");
}

#[test]
fn context_available_variants() {
    let ctx = context();
    let value = node_id(&ctx, 0, vec![field("value")]);
    let nested = node_id(&ctx, 0, vec![field("nested")]);

    assert_eq!(ctx.available_context_variants(&value), vec!["DE".to_string(), "EN".to_string()]);
    assert_eq!(ctx.available_context_variants(&nested), vec!["DE".to_string()]);
    assert!(ctx.get_variant(&nested, field("EN")).is_none());
    let en_value = ctx.get_variant(&value, field("EN")).unwrap();
    assert!(matches!(en_value.value, NodeValue::Literal(LiteralValue::Bool(false))));
    assert!(matches!(ctx.get(&value).value, NodeValue::Literal(LiteralValue::Bool(true))));
}

#[test]
fn context_reference_tree_holds_every_node() {
    let ctx = context();
    let tree = ctx.reference_tree();
    assert_eq!(tree.id, ctx.localizations[0].id);
    assert!(tree.get(&field("value")).is_some());
    assert!(tree.get(&field("nested")).is_some());
    assert!(ctx.is_copy(&tree.id));
}

#[test]
fn rust_type_of_nodes() {
    let ctx = context();
    let tree = ctx.reference_tree();
    let value = tree.get(&field("value")).unwrap();
    let nested = tree.get(&field("nested")).unwrap();

    assert_eq!(RustType::new(value, &ctx, &Path::root()).to_text(), "bool");
    assert_eq!(RustType::new(nested, &ctx, &Path::root()).to_text(), "nested::Nested");
    let seen_from_nested = ctx.relative_path_to_root(&nested.id);
    assert_eq!(RustType::new(nested, &ctx, &seen_from_nested).to_text(), "Nested");
    assert_eq!(RustType::Integer { unsigned: true, bits: 16 }.to_text(), "u16");
    assert_eq!(RustType::Float { bits: 64 }.to_text(), "f64");
    assert_eq!(RustType::String.to_text(), "&'static str");
}

#[test]
fn rust_value_by_variant() {
    let ctx = context();
    let tree = ctx.reference_tree();

    match RustValue::by_variant(tree, &ctx, &field("DE")) {
        RustValue::Struct { path, fields } => {
            assert_eq!(path.to_text(), "Happy");
            assert_eq!(fields.len(), 3);
            // fields in the order of their keys: `nested` before `value`
            assert!(matches!(&fields[0], RustValue::SomeValue(b) if matches!(**b, RustValue::Struct { .. })));
            assert!(matches!(&fields[1], RustValue::SomeValue(b) if matches!(**b, RustValue::Bool(true))));
            assert!(matches!(&fields[2], RustValue::ContextVariant { variant, .. } if variant == "DE"));
        },
        _ => panic!("not a struct"),
    }
    match RustValue::by_variant(tree, &ctx, &field("EN")) {
        RustValue::Struct { fields, .. } => {
            assert!(matches!(fields[0], RustValue::NoValue));
            assert!(matches!(&fields[1], RustValue::SomeValue(b) if matches!(**b, RustValue::Bool(false))));
        },
        _ => panic!("not a struct"),
    }
    let nested = tree.get(&field("nested")).unwrap();
    assert!(matches!(RustValue::by_variant(nested, &ctx, &field("EN")), RustValue::NoValue));
    assert!(matches!(RustValue::new(tree.get(&field("value")).unwrap(), &ctx), RustValue::Bool(true)));
}

#[test]
fn format_arguments_sorted_by_key() {
    let key = |k: ArgumentKey| Piece::Argument { name: ArgumentName::ArgumentKey(k), specifier: None };
    let template = Template(vec![
        key(ArgumentKey::Name("b".to_string())),
        Piece::Literal(" ".to_string()),
        key(ArgumentKey::Name("a".to_string())),
        key(ArgumentKey::Index(0)),
    ]);
    let format = Format::new(
        NamePascalCase::from_string("Value".to_string()),
        Path::root(),
        template,
        Path::root(),
        NameSnakeCase::from_str("happy"),
        true,
    );
    let args = format.format_arguments();
    let names: Vec<String> = args.iter().map(|a| a.name.clone()).collect();
    assert_eq!(names, vec!["arg_0", "arg_a", "arg_b"]);
    assert_eq!(args[0].parameter_type(), "&dyn core::fmt::Display");
    assert_eq!(trait_name_of(Type::LowerHex), "LowerHex");
    assert_eq!(format.caller_arguments().len(), 3);
}

#[test]
fn struct_fields_sorted_by_name() {
    let ctx = context();
    let tree = ctx.reference_tree();
    let fields = struct_fields(tree, &ctx, true);
    let names: Vec<&str> = fields.iter().map(|f| f.name.as_str()).collect();
    assert_eq!(names, vec!["nested", "value", "comfy_i18n_context"]);
    assert!(fields[0].optional && !fields[0].public);
    assert_eq!(fields[0].ty.to_text(), "nested::Nested");
    assert_eq!(fields[1].ty.to_text(), "bool");
    assert_eq!(fields[2].ty.to_text(), "crate::I18n");
    assert!(!fields[2].optional);
    assert_eq!(struct_fields(tree, &ctx, false).len(), 2);
    assert_eq!(fields[0].ty.clone().to_text(), "nested::Nested");
}

#[test]
fn module_tree_by_path() {
    let mut generator: RustGenerator<&str> = RustGenerator::new(NameSnakeCase::from_str("root"));
    let ab = Path::root().add_mod(NameSnakeCase::from_str("a")).add_mod(NameSnakeCase::from_str("b"));
    generator.add_root_content("r1");
    generator.add_content(ab.clone(), "x");
    generator.add_contents(ab, vec!["y", "z"]);
    generator.add_root_contents(vec!["r2"]);
    generator.add_content(Path::root().add_mod(NameSnakeCase::from_str("a")), "in_a");
    assert_eq!(generator.root.content, vec!["r1", "r2"]);
    assert_eq!(generator.root.modules.len(), 1);
    let a = &generator.root.modules[0];
    assert_eq!(a.name.as_str(), "a");
    assert_eq!(a.content, vec!["in_a"]);
    assert_eq!(a.modules.len(), 1);
    assert_eq!(a.modules[0].name.as_str(), "b");
    assert_eq!(a.modules[0].content, vec!["x", "y", "z"]);
}

#[test]
fn component_initialization() {
    let init = Initialization::new_const(Path::root(), NameSnakeCase::from_str("de"), RustValue::Bool(true));
    assert!(init.var_ty == VariableType::Const);
    assert_eq!(init.name.as_str(), "de");
    assert_eq!(VariableType::Static.keyword(), "static");
    assert_eq!(VariableType::Const.keyword(), "const");
}

#[test]
fn generated_by_path_arms() {
    assert_eq!(by_path_arm("name", &RustType::String), "\"name\" => self.name()");
    assert_eq!(by_path_arm("fmt", &RustType::Format(Path::root())), "\"fmt\" => self.fmt_value()");
    assert_eq!(by_path_arm("person", &RustType::Struct(Path::root())), "\"person\" => self.person().by_path(path)");
    assert_eq!(element_name(12), "Elem12");
    assert_eq!(element_arm(3), "\"3\" => self.value.3.by_path(path)");
}

fn reference(origin: AstRefOrigin, path: &[&str]) -> Piece {
    Piece::Argument {
        name: ArgumentName::Const(NameRef::Ast { origin, path: path.iter().map(|p| field(p)).collect() }),
        specifier: None,
    }
}

#[test]
fn references_reach_their_values() {
    let template = Template(vec![
        Piece::Literal("Hello ".to_string()),
        reference(AstRefOrigin::SelfNode, &["name"]),
        reference(AstRefOrigin::RootNode, &["person", "name"]),
        reference(AstRefOrigin::ContextNode, &["person", "age"]),
        Piece::Argument { name: ArgumentName::ArgumentKey(ArgumentKey::Name("x".to_string())), specifier: None },
        reference(AstRefOrigin::I18nNode, &["name"]),
    ]);
    assert_eq!(template.to_text(), "Hello {self_name}{root_person_name}{context_person_age}{x}{i18n_name}");
    let format = Format::new(
        NamePascalCase::from_string("Greeting".to_string()),
        Path::root(),
        template,
        Path::root().add_mod(NameSnakeCase::from_str("en")).add_mod(NameSnakeCase::from_str("person")),
        NameSnakeCase::from_str("some_component"),
        false,
    );
    let refs = format.reference_arguments();
    assert_eq!(refs.len(), 4);
    assert_eq!(refs[0].0, "self_name");
    assert_eq!(refs[0].1, "self.context.some_component().en().person().name()");
    assert_eq!(refs[1].0, "root_person_name");
    assert_eq!(refs[1].1, "self.context.some_component().person().name()");
    assert_eq!(refs[2].0, "context_person_age");
    assert_eq!(refs[2].1, "self.context.en().person().person().age()");
    assert_eq!(refs[3].0, "i18n_name");
    assert_eq!(refs[3].1, "crate::I18n::EN.person().name()");
    assert!(matches!(refs[3].2, Type::Display));
}

#[test]
fn cast() {
    let expression = "crate::Language::DE.happy().str_value()";
    let de = strct("DE", vec![leaf(
        "casted_value",
        LiteralValue::Cast { expression: expression.to_string(), ty: "&'static str".to_string() },
    )]);
    let ctx = Context::new(vec![de], NameSnakeCase::from_str("cast"));
    let node = ctx.localizations[0].by_path(&AstPath(vec![field("casted_value")])).unwrap();
    let root = ctx.relative_path_to_root(&ctx.localizations[0].id);
    let ty = RustType::new(node, &ctx, &root);
    assert_eq!(ty.to_text(), "&'static str");
    match RustValue::by_variant(node, &ctx, &field("DE")) {
        RustValue::Cast(e) => assert_eq!(e, expression),
        _ => panic!("a cast is written as its expression"),
    }
    assert!(matches!(RustValue::by_variant(node, &ctx, &field("EN")), RustValue::NoValue));
}

#[test]
fn generated_accessor_texts() {
    assert_eq!(comfy_i18n_core::rust::components::tuple_wrapper::element_getter("happy().pair", 1), "self.context.happy().pair.1()");
    assert_eq!(comfy_i18n_core::rust::components::tuple_wrapper::element_init(2), "Elem2::new(context, value.2)");
    assert_eq!(comfy_i18n_core::rust::generator::path::without_call("happy().value()"), "happy().value");
    assert_eq!(comfy_i18n_core::rust::generator::path::without_call("happy().list[0]"), "happy().list[0]");
    assert!(comfy_i18n_core::rust::components::strct::text_holds("comfy_i18n_context", "comfy_i18n"));
    assert!(!comfy_i18n_core::rust::components::strct::text_holds("comfy", "comfy_i18n"));
}

#[test]
fn field_values_say_whether_they_are_optional() {
    let f = comfy_i18n_core::rust::rust_generator::value::FieldValue::optional(NameSnakeCase::from_str("name"), RustValue::Bool(true));
    assert!(f.optional);
    assert_eq!(f.name.as_str(), "name");
    let g = comfy_i18n_core::rust::rust_generator::value::FieldValue::new(NameSnakeCase::from_str("age"), RustValue::NoValue);
    assert!(!g.optional);
    assert!(matches!(g.value, RustValue::NoValue));
}
