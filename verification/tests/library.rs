use comfy_i18n_core::ast::Ast;
use comfy_i18n_core::identifier::{Identifier, Path as AstPath};
use comfy_i18n_core::node_id::NodeId;
use comfy_i18n_core::node_value::{CompositeValue, IntegerValue, LiteralValue, NodeValue, StringValue};
use comfy_i18n_core::rust::generator::path::Path;
use comfy_i18n_core::rust::name as legacy;
use comfy_i18n_core::rust::shared::name::{NamePascalCase, NameSnakeCase};
use comfy_i18n_core::runtime::{escape, format_template, Component, ContextDecl, I18n, Translations};
use comfy_i18n_core::template::{Alignment, ArgumentKey, ArgumentName, Piece, Precision, Specifier, Template, Type, Width};

use comfy_i18n_core::spanned_ast::{SpannedAst, SpannedValue};
use comfy_i18n_core::rust::initialization::{FieldValue, Initialization, RustValue, VariableType};
use comfy_i18n_core::rust::module::Module;
use comfy_i18n_core::rust::strct::{Field, RustType, Struct, StructVariation};
use comfy_i18n_core::rust::generator::context::Context as FirstContext;

use comfy_i18n_core::rust::initialization::RustValue as LegacyValue;
use comfy_i18n_core::rust::strct::{RustType as LegacyType, StructVariation as Variation};

fn field(name: &str) -> Identifier {
    Identifier::Field(name.to_string())
}

fn leaf(name: &str, value: LiteralValue) -> Ast {
    Ast::new(field(name), NodeValue::Literal(value))
}

fn strct(name: &str, children: Vec<Ast>) -> Ast {
    let children = children.into_iter().map(|c| (c.identifier.clone(), c)).collect();
    Ast::new(field(name), NodeValue::Composite { children, value: CompositeValue::Struct })
}

// identifiers and paths of the tree

#[test]
fn path_append_prepend_remove() {
    let p = AstPath(vec![field("a"), field("b")]);
    assert_eq!(p.len(), 2);
    let p = p.append(Identifier::TupleIndex(1));
    assert_eq!(p.0, vec![field("a"), field("b"), Identifier::TupleIndex(1)]);
    let p = p.prepend(field("DE"));
    assert_eq!(p.root(), field("DE"));
    assert_eq!(p.parent_path().unwrap().0, vec![field("DE"), field("a"), field("b")]);
    let p = p.remove(0).unwrap();
    assert_eq!(p.0, vec![field("a"), field("b"), Identifier::TupleIndex(1)]);
    assert!(p.remove(3).is_none());
    assert!(AstPath(vec![field("a")]).parent_path().is_none());
    assert_eq!(AstPath::from_identifier(field("x")).0, vec![field("x")]);
    assert_eq!(AstPath(vec![field("a"), Identifier::ArrayIndex(7)]).map(|i| i.to_text()), vec!["a".to_string(), "7".to_string()]);
    assert_eq!(AstPath(vec![field("a"), field("b")]).iter().len(), 2);
}

#[test]
fn identifier_order() {
    assert!(field("a").is_less(&field("b")));
    assert!(!field("b").is_less(&field("a")));
    assert!(field("ab").is_less(&field("b")));
    assert!(field("a").is_less(&field("ab")));
    assert!(!field("a").is_less(&field("a")));
    assert!(field("zzz").is_less(&Identifier::TupleIndex(0)));
    assert!(Identifier::TupleIndex(2).is_less(&Identifier::TupleIndex(10)));
    assert!(Identifier::TupleIndex(9).is_less(&Identifier::ArrayIndex(0)));
}

// values

#[test]
fn integer_to_usize() {
    assert_eq!(IntegerValue::I8(5).to_usize(), Some(5));
    assert_eq!(IntegerValue::I8(-1).to_usize(), None);
    assert_eq!(IntegerValue::U128(u128::MAX).to_usize(), None);
    assert_eq!(IntegerValue::I128(42).to_usize(), Some(42));
    assert_eq!(IntegerValue::Usize(7).to_usize(), Some(7));
    assert_eq!(IntegerValue::U16(65535).to_usize(), Some(65535));
}

#[test]
fn node_ids_are_random_v4() {
    let a = NodeId::new();
    let b = NodeId::new();
    assert_ne!(a, b);
    assert_eq!(a.0 & 0xF000C000000000000000, 0x40008000000000000000);
}

// the tree

#[test]
fn tree_lookup_and_maps() {
    let tree = strct("DE", vec![leaf("value", LiteralValue::Bool(true)), strct("nested", vec![leaf("a", LiteralValue::Char('x'))])]);
    let nested = tree.get(&field("nested")).unwrap();
    assert_eq!(nested.parent, Some(tree.id));
    let a = tree.by_path(&AstPath(vec![field("nested"), field("a")])).unwrap();
    assert!(matches!(a.value, NodeValue::Literal(LiteralValue::Char('x'))));
    assert!(tree.by_path(&AstPath(vec![field("missing")])).is_none());
    assert!(tree.by_path(&AstPath(vec![])).is_some());

    assert_eq!(tree.children().unwrap().len(), 2);
    assert!(a.children().is_none());
    assert_eq!(tree.traverse().len(), 4);

    let paths = tree.path_to_node_map();
    assert_eq!(paths.len(), 4);
    assert_eq!(paths[0].0 .0, vec![field("DE")]);
    assert!(paths.iter().any(|(p, n)| p.0 == vec![field("DE"), field("nested"), field("a")] && n.id == a.id));

    let ids = tree.id_to_path_map();
    assert!(ids.iter().any(|(id, p)| *id == a.id && p.0 == vec![field("DE"), field("nested"), field("a")]));
    let back = tree.path_to_node_id_map();
    assert!(back.iter().any(|(p, id)| *id == nested.id && p.0 == vec![field("DE"), field("nested")]));
    let nodes = tree.id_to_node_map();
    assert_eq!(nodes.len(), 4);
    assert_eq!(a.path(&nodes).0, vec![field("DE"), field("nested"), field("a")]);
}

#[test]
fn tree_add_child_and_detach() {
    let mut tree = strct("DE", vec![leaf("value", LiteralValue::Bool(true))]);
    tree.add_child(leaf("value", LiteralValue::Bool(false)));
    tree.add_child(leaf("other", LiteralValue::Char('c')));
    assert_eq!(tree.children().unwrap().len(), 2);
    assert!(matches!(tree.get(&field("value")).unwrap().value, NodeValue::Literal(LiteralValue::Bool(false))));
    assert_eq!(tree.get(&field("other")).unwrap().parent, Some(tree.id));

    let mut kids = tree.children_into().unwrap();
    assert_eq!(kids.len(), 2);
    kids[0].detach_from_parent();
    assert_eq!(kids[0].parent, None);
    let id = NodeId::new();
    kids[0].attach_to_parent(id);
    assert_eq!(kids[0].parent, Some(id));
}

#[test]
fn tree_get_mut_changes_the_child() {
    let mut tree = strct("DE", vec![leaf("value", LiteralValue::Bool(true))]);
    if let Some(child) = tree.get_mut(&field("value")) {
        child.value = NodeValue::Literal(LiteralValue::Char('z'));
    }
    assert!(matches!(tree.get(&field("value")).unwrap().value, NodeValue::Literal(LiteralValue::Char('z'))));
    assert!(tree.get_mut(&field("missing")).is_none());
}

// templates

#[test]
fn template_to_text() {
    let spec = Specifier {
        ty: Type::LowerHex,
        alternate_form: true,
        fill_character: '*',
        alignment: Alignment::Right,
        sign: false,
        pad_zero: true,
        width: Width::Fixed(8),
        precision: Precision::Auto,
    };
    let template = Template(vec![
        Piece::Literal("Hi ".to_string()),
        Piece::BracketOpen,
        Piece::Argument { name: ArgumentName::ArgumentKey(ArgumentKey::Name("n".to_string())), specifier: Some(spec) },
        Piece::BracketClose,
        Piece::Argument { name: ArgumentName::ArgumentKey(ArgumentKey::Index(0)), specifier: None },
    ]);
    assert_eq!(template.to_text(), "Hi {{{n:*>#08x}}}{0}");
    assert_eq!(template.arguments().len(), 2);
    let d = Specifier::default();
    assert!(matches!(d.ty, Type::Display));
    assert!(matches!(d.precision, Precision::Auto));
}

#[test]
fn template_formats_through_dfmt() {
    let template = Template(vec![
        Piece::Literal("Hallo, ".to_string()),
        Piece::Argument { name: ArgumentName::ArgumentKey(ArgumentKey::Name("world".to_string())), specifier: None },
        Piece::BracketOpen,
        Piece::Literal("!".to_string()),
    ]);
    let args = vec![(ArgumentKey::Name("world".to_string()), "Welt".to_string())];
    assert_eq!(format_template(&template, &args).unwrap(), "Hallo, Welt{!");
    // a missing argument: dfmt refuses
    assert!(format_template(&template, &vec![]).is_none());
}

#[test]
fn template_formats_the_widest_width() {
    let spec = Specifier {
        ty: Type::Display,
        alternate_form: false,
        fill_character: '.',
        alignment: Alignment::Right,
        sign: false,
        pad_zero: false,
        width: Width::Fixed(65535),
        precision: Precision::Auto,
    };
    let template = Template(vec![
        Piece::Argument { name: ArgumentName::ArgumentKey(ArgumentKey::Name("w".to_string())), specifier: Some(spec) },
    ]);
    assert_eq!(template.to_text(), "{w:.>65535}");
    let args = vec![(ArgumentKey::Name("w".to_string()), "end".to_string())];
    let text = format_template(&template, &args).unwrap();
    assert_eq!(text.len(), 65535);
    assert!(text.ends_with("..end"));
}

#[test]
fn escape_doubles_braces() {
    assert_eq!(escape("a{b}c"), "a{{b}}c");
    assert_eq!(escape("plain"), "plain");
}

// names of the generated code

#[test]
fn snake_and_pascal_names() {
    assert_eq!(NameSnakeCase::from_str("HelloWorld").as_str(), "hello_world");
    assert_eq!(NameSnakeCase::from_str("Hello_World").as_str(), "hello_world");
    assert_eq!(NameSnakeCase::from_str("value").as_str(), "value");
    assert_eq!(NamePascalCase::from_string("hello_world".to_string()).as_str(), "HelloWorld");
    assert_eq!(NamePascalCase::from_string("I18n".to_string()).as_str(), "I18n");
    assert_eq!(NamePascalCase::from_string("HelloWorld".to_string()).to_snake_case().as_str(), "hello_world");
    assert_eq!(NameSnakeCase::from_str("hello_WORLD").to_pascal_case().as_str(), "HelloWorld");
    for name in ["hello_world", "some_component_de", "ab"] {
        let there = NameSnakeCase::from_str(name).to_pascal_case();
        assert_eq!(there.to_snake_case().as_str(), name);
    }
    assert_eq!(NameSnakeCase::tuple_index(3).as_str(), "tuple_index3");
    assert_eq!(NameSnakeCase::from_identifier(Identifier::ArrayIndex(2)).as_str(), "array_index2");
    assert_eq!(NameSnakeCase::from_str("a").concat(NameSnakeCase::from_str("b")).as_str(), "a_b");
    assert_eq!(NameSnakeCase::from_str("a_b_c").last_part(), "c");
    let joined = NameSnakeCase::from_str("happy").concat(NameSnakeCase::from_str("de"));
    assert_eq!(joined.last_part(), NameSnakeCase::from_str("de").last_part());
    assert_eq!(NameSnakeCase::from_str("happy_de").last_part(), "de");
    assert_eq!(NameSnakeCase::from_str("foo").last_part(), "foo");
    assert_eq!(NameSnakeCase::from_str("foo_").last_part(), "");
    assert_eq!(NameSnakeCase::from_str("ab").to_uppercase().as_str(), "AB");
    assert_eq!(NameSnakeCase::from_str("ab").to_uppercase().to_lowercase().as_str(), "ab");
    assert_eq!(NamePascalCase::from_identifier(field("my_field")).as_str(), "MyField");
}

#[test]
fn legacy_names() {
    assert_eq!(legacy::NameSnakeCase::from_str("HelloWorld").as_str(), "helloworld");
    assert_eq!(legacy::NamePascalCase::from_string("HelloWorld".to_string()).to_snake_case().as_str(), "hello_world");
    assert_eq!(legacy::NameSnakeCase::from_str("a").concat(legacy::NameSnakeCase::from_str("b")).as_str(), "a_b");
    assert_eq!(legacy::NameSnakeCase::from_str("my_name").to_pascal_case().as_str(), "MyName");
}

// paths of the generated code

#[test]
fn generated_paths() {
    let p = Path::from_ast_path(AstPath(vec![field("nested"), Identifier::TupleIndex(1), Identifier::ArrayIndex(4)]));
    assert_eq!(p.to_text(), "nested::tuple_index1::array_index0::ArrayIndex0");
    assert_eq!(p.to_access_path(), "nested().1()[0]");
    assert_eq!(p.len_mods(), 3);
    assert_eq!(p.last_mod().unwrap().as_str(), "array_index0");
    assert_eq!(p.ty().unwrap().as_str(), "ArrayIndex0");

    let root = Path::from_ast_path(AstPath(vec![field("nested")]));
    let rel = p.relative_to(&root);
    assert_eq!(rel.to_text(), "tuple_index1::array_index0::ArrayIndex0");

    let mut q = Path::root().add_mod(NameSnakeCase::from_str("b")).prepend_mod(NameSnakeCase::from_str("a"));
    assert!(!q.has_no_mods());
    assert_eq!(q.iter_mods().len(), 2);
    assert_eq!(q.pop_front().unwrap().as_str(), "a");
    let q = q.set_ty(NamePascalCase::from_string("T".to_string()));
    assert_eq!(q.to_text(), "b::T");
    assert!(Path::root().has_no_mods());
    assert_eq!(Path::root().to_text(), "");
}

// the runtime rules of contexts and fallback

fn two_contexts() -> I18n {
    I18n::new(vec![
        ContextDecl { name: "DE".to_string(), fallback: true },
        ContextDecl { name: "EN".to_string(), fallback: false },
        ContextDecl { name: "ES".to_string(), fallback: false },
    ])
}

#[test]
fn fallback_rules() {
    let i18n = two_contexts();
    // own context first
    assert_eq!(i18n.fallback(2, &[Some(0), Some(2)]), Some(2));
    // then the marked fallback
    assert_eq!(i18n.fallback(1, &[Some(2), Some(0)]), Some(0));
    // then the first available
    assert_eq!(i18n.fallback(1, &[None, Some(2)]), Some(2));
    // nothing available
    assert_eq!(i18n.fallback(1, &[None, None]), None);
    assert_eq!(i18n.amount(), 3);
}

#[test]
fn resolution_laws_on_values() {
    let t = Translations {
        i18n: two_contexts(),
        components: vec![Component {
            name: "c".to_string(),
            localizations: vec![
                strct("ES", vec![leaf("only_es", LiteralValue::Char('e'))]),
                strct("DE", vec![leaf("both", LiteralValue::Char('d'))]),
                strct("EN", vec![leaf("both", LiteralValue::Char('n'))]),
            ],
        }],
    };
    let both = AstPath(vec![field("both")]);
    let only_es = AstPath(vec![field("only_es")]);
    // own value wins
    assert!(matches!(t.resolve(1, 0, &both).unwrap().value, NodeValue::Literal(LiteralValue::Char('n'))));
    // the marked fallback
    assert!(matches!(t.resolve(2, 0, &both).unwrap().value, NodeValue::Literal(LiteralValue::Char('d'))));
    // the only available one
    assert!(matches!(t.resolve(0, 0, &only_es).unwrap().value, NodeValue::Literal(LiteralValue::Char('e'))));
    // none
    assert!(t.resolve(0, 0, &AstPath(vec![field("missing")])).is_none());
    assert_eq!(t.component_index(&"c".to_string()), Some(0));
    assert_eq!(t.context_index(&"EN".to_string()), Some(1));
    assert_eq!(t.context_index(&"FR".to_string()), None);
    assert_eq!(t.components[0].localization(&"DE".to_string()), Some(1));
    assert_eq!(t.components[0].available(&t.i18n, &both), vec![Some(0), Some(1)]);
}

#[test]
fn format_of_a_plain_string_and_of_a_non_string() {
    let t = Translations {
        i18n: two_contexts(),
        components: vec![Component {
            name: "c".to_string(),
            localizations: vec![strct("DE", vec![
                leaf("s", LiteralValue::String(StringValue::Literal("a {b}".to_string()))),
                leaf("n", LiteralValue::Bool(true)),
            ])],
        }],
    };
    assert_eq!(t.format(1, 0, &AstPath(vec![field("s")]), &vec![]).unwrap(), "a {b}");
    assert!(t.format(1, 0, &AstPath(vec![field("n")]), &vec![]).is_none());
}

// ids, spans and the earlier forms of the generator

#[test]
fn unique_ids_of_a_tree() {
    let tree = strct("DE", vec![leaf("a", LiteralValue::Bool(true)), leaf("b", LiteralValue::Bool(false))]);
    assert!(tree.has_unique_ids());
    let a = tree.get(&field("a")).unwrap().clone();
    let twice = strct("DE", vec![a.clone(), {
        let mut b = a;
        b.identifier = field("b");
        b
    }]);
    assert!(!twice.has_unique_ids());
}

#[test]
fn checked_building_refuses_repeated_ids() {
    let a = leaf("a", LiteralValue::Bool(true));
    let mut b = a.clone();
    b.identifier = field("b");
    let repeated = vec![(field("a"), a.clone()), (field("b"), b)];
    assert!(Ast::new_checked(field("DE"), NodeValue::Composite { children: repeated, value: CompositeValue::Struct }).is_none());
    let fresh = vec![(field("a"), a), (field("c"), leaf("c", LiteralValue::Char('c')))];
    let built = Ast::new_checked(field("DE"), NodeValue::Composite { children: fresh, value: CompositeValue::Struct }).unwrap();
    assert!(built.has_unique_ids());
    assert_eq!(built.get(&field("c")).unwrap().parent, Some(built.id));
}

#[test]
fn spanned_tree_converts_to_a_tree() {
    let child = SpannedAst::new(field("a"), (1usize, 2usize), SpannedValue::Literal(LiteralValue::Char('c')));
    let second = SpannedAst::new(field("b"), (3usize, 4usize), SpannedValue::Literal(LiteralValue::Bool(true)));
    let root = SpannedAst::new(
        field("DE"),
        (0usize, 9usize),
        SpannedValue::Composite { children: vec![(field("a"), child), (field("b"), second)], value: CompositeValue::Struct },
    );
    assert_eq!(root.children().unwrap().len(), 2);
    assert_eq!(root.children().unwrap()[0].parent, Some(root.id));
    let order: Vec<(usize, usize)> = root.traverse().iter().map(|n| n.span).collect();
    assert_eq!(order, vec![(0, 9), (3, 4), (1, 2)]);
    let root_id = root.id;
    let ast = Ast::from_spanned(root);
    assert_eq!(ast.id, root_id);
    assert_eq!(ast.get(&field("a")).unwrap().parent, Some(root_id));
    assert!(matches!(ast.get(&field("b")).unwrap().value, NodeValue::Literal(LiteralValue::Bool(true))));
}

#[test]
fn legacy_struct_and_initialization_rename() {
    let s = Struct::new(legacy::NamePascalCase::from_string("Old".to_string()));
    assert!(s.is_empty());
    let s = s.with_fields(vec![Field { name: legacy::NameSnakeCase::from_str("a"), ty: RustType::Bool }]);
    assert!(!s.is_empty());
    let mut module = Module::new(legacy::NameSnakeCase::from_str("old"));
    assert!(module.is_empty());
    module.strcts.push(StructVariation::Struct(s));
    module.initializations.push(Initialization {
        var_ty: VariableType::Const,
        ty: RustType::Struct { mod_names: vec![legacy::NameSnakeCase::from_str("m")], name: legacy::NamePascalCase::from_string("Old".to_string()) },
        name: legacy::NameSnakeCase::from_str("old_de"),
        value: RustValue::Struct {
            mod_names: vec![],
            name: legacy::NamePascalCase::from_string("Old".to_string()),
            fields: vec![FieldValue { name: legacy::NameSnakeCase::from_str("a"), value: RustValue::Bool(true) }],
        },
    });
    assert!(!module.is_empty());
    module.rename(legacy::NameSnakeCase::from_str("new_name"));
    assert_eq!(module.name.as_str(), "new_name");
    match &module.strcts[0] {
        StructVariation::Struct(s) => assert_eq!(s.name.as_str(), "NewName"),
        _ => panic!(),
    }
    let init = &module.initializations[0];
    assert_eq!(init.name.as_str(), "new_name_de");
    assert!(matches!(&init.ty, RustType::Struct { mod_names, name } if mod_names.is_empty() && name.as_str() == "NewName"));
    assert!(matches!(&init.value, RustValue::Struct { fields, .. } if fields.len() == 1));
}

#[test]
fn first_generator_context() {
    let tree = strct("root", vec![
        strct("DE", vec![strct("nested", vec![leaf("a", LiteralValue::Bool(true))])]),
        strct("EN", vec![]),
    ]);
    let ctx = FirstContext::new(tree, NameSnakeCase::from_str("comp"), Path::root());
    assert_eq!(ctx.iter().len(), 2);
    assert_eq!(ctx.main().identifier, field("DE"));
    assert_eq!(ctx.main().parent, None);
    let nested = ctx.main().get(&field("nested")).unwrap().id;
    assert_eq!(ctx.relative_path(&nested).to_text(), "nested::Nested");
    assert_eq!(ctx.relative_path(&ctx.main().id).to_text(), "Comp");
    assert_eq!(ctx.context_variant(&nested), "DE");
    assert!(ctx.context_key().has_no_mods());
}

#[test]
fn first_generator_maps_a_tree_to_modules() {
    let list = |name: &str, a: i32, b: i32| {
        let children = vec![
            (Identifier::ArrayIndex(0), Ast::new(Identifier::ArrayIndex(0), NodeValue::Literal(LiteralValue::Integer(IntegerValue::I32(a))))),
            (Identifier::ArrayIndex(1), Ast::new(Identifier::ArrayIndex(1), NodeValue::Literal(LiteralValue::Integer(IntegerValue::I32(b))))),
        ];
        Ast::new(field(name), NodeValue::Composite { children, value: CompositeValue::List { amount: 2 } })
    };
    let tree = strct("root", vec![
        strct("DE", vec![leaf("value", LiteralValue::Bool(true)), list("list", 1, 2)]),
        strct("EN", vec![leaf("value", LiteralValue::Bool(false)), list("list", 3, 4)]),
    ]);
    let module = comfy_i18n_core::rust::ast_context::map(tree);
    assert_eq!(module.name.as_str(), "de");
    match &module.strcts[0] {
        Variation::Struct(s) => {
            assert_eq!(s.name.as_str(), "De");
            let names: Vec<&str> = s.fields.iter().map(|f| f.name.as_str()).collect();
            assert_eq!(names, vec!["value", "list"]);
            assert!(matches!(s.fields[0].ty, LegacyType::Bool));
            assert!(matches!(&s.fields[1].ty, LegacyType::List { ty, amount: Some(2) } if matches!(**ty, LegacyType::Integer { unsigned: false, bits: 32 })));
        },
        _ => panic!(),
    }
    assert_eq!(module.modules.len(), 1);
    assert_eq!(module.modules[0].name.as_str(), "list");
    assert_eq!(module.initializations.len(), 2);
    assert_eq!(module.initializations[0].name.as_str(), "de_de");
    assert_eq!(module.initializations[1].name.as_str(), "en_en");
    match &module.initializations[1].value {
        LegacyValue::Struct { name, fields, .. } => {
            assert_eq!(name.as_str(), "En");
            let names: Vec<&str> = fields.iter().map(|f| f.name.as_str()).collect();
            assert_eq!(names, vec!["list", "value"]);
            assert!(matches!(&fields[0].value, LegacyValue::ListRepeated { value, amount: 2 } if matches!(**value, LegacyValue::Integer(IntegerValue::I32(3)))));
            assert!(matches!(fields[1].value, LegacyValue::Bool(false)));
        },
        _ => panic!(),
    }
}
