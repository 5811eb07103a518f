use comfy_i18n_core::ast::Ast;
use comfy_i18n_core::identifier::{Identifier, Path};
use comfy_i18n_core::node_value::{CompositeValue, FloatValue, IntegerValue, LiteralValue, NodeValue, StringValue};
use comfy_i18n_core::runtime::{Component, ContextDecl, I18n, Translations};
use comfy_i18n_core::template::{ArgumentKey, ArgumentName, AstRefOrigin, NameRef, Piece, Template};

const DE: usize = 0;
const EN: usize = 1;

fn field(name: &str) -> Identifier {
    Identifier::Field(name.to_string())
}

fn i18n() -> I18n {
    I18n::new(vec![
        ContextDecl { name: "DE".to_string(), fallback: true },
        ContextDecl { name: "EN".to_string(), fallback: false },
    ])
}

fn leaf(id: Identifier, value: LiteralValue) -> Ast {
    Ast::new(id, NodeValue::Literal(value))
}

fn composite(id: Identifier, value: CompositeValue, children: Vec<Ast>) -> Ast {
    let children = children.into_iter().map(|c| (c.identifier.clone(), c)).collect();
    Ast::new(id, NodeValue::Composite { children, value })
}

fn strct(name: &str, children: Vec<Ast>) -> Ast {
    composite(field(name), CompositeValue::Struct, children)
}

fn tuple(id: Identifier, values: Vec<Box<dyn Fn(Identifier) -> Ast>>) -> Ast {
    let children = values.iter().enumerate().map(|(i, f)| f(Identifier::TupleIndex(i))).collect();
    composite(id, CompositeValue::Tuple, children)
}

fn list(id: Identifier, amount: usize, values: Vec<Box<dyn Fn(Identifier) -> Ast>>) -> Ast {
    let children = values.iter().enumerate().map(|(i, f)| f(Identifier::ArrayIndex(i))).collect();
    composite(id, CompositeValue::List { amount }, children)
}

fn int_at(v: IntegerValue) -> Box<dyn Fn(Identifier) -> Ast> {
    Box::new(move |id| leaf(id, LiteralValue::Integer(v.clone())))
}

fn app(components: Vec<(&str, Vec<Ast>)>) -> Translations {
    Translations {
        i18n: i18n(),
        components: components
            .into_iter()
            .map(|(name, localizations)| Component { name: name.to_string(), localizations })
            .collect(),
    }
}

fn path(ids: Vec<Identifier>) -> Path {
    Path(ids)
}

fn read<'a>(t: &'a Translations, key: usize, ids: Vec<Identifier>) -> &'a Ast {
    t.resolve(key, 0, &path(ids)).unwrap()
}

fn literal(node: &Ast) -> &LiteralValue {
    match &node.value {
        NodeValue::Literal(l) => l,
        _ => panic!("not a literal"),
    }
}

fn as_bool(node: &Ast) -> bool {
    match literal(node) {
        LiteralValue::Bool(b) => *b,
        _ => panic!("not a bool"),
    }
}

fn as_char(node: &Ast) -> char {
    match literal(node) {
        LiteralValue::Char(c) => *c,
        _ => panic!("not a char"),
    }
}

fn as_str(node: &Ast) -> String {
    match literal(node) {
        LiteralValue::String(StringValue::Literal(s)) => s.clone(),
        _ => panic!("not a string"),
    }
}

fn as_int(node: &Ast) -> i128 {
    match literal(node) {
        LiteralValue::Integer(IntegerValue::I8(v)) => *v as i128,
        LiteralValue::Integer(IntegerValue::I16(v)) => *v as i128,
        LiteralValue::Integer(IntegerValue::I32(v)) => *v as i128,
        LiteralValue::Integer(IntegerValue::I64(v)) => *v as i128,
        LiteralValue::Integer(IntegerValue::I128(v)) => *v,
        LiteralValue::Integer(IntegerValue::U8(v)) => *v as i128,
        LiteralValue::Integer(IntegerValue::U16(v)) => *v as i128,
        LiteralValue::Integer(IntegerValue::U32(v)) => *v as i128,
        LiteralValue::Integer(IntegerValue::U64(v)) => *v as i128,
        LiteralValue::Integer(IntegerValue::U128(v)) => *v as i128,
        LiteralValue::Integer(IntegerValue::Usize(v)) => *v as i128,
        _ => panic!("not an integer"),
    }
}

fn as_f32(node: &Ast) -> f32 {
    match literal(node) {
        LiteralValue::Float(FloatValue::F32(bits)) => f32::from_bits(*bits),
        _ => panic!("not an f32"),
    }
}

/// The elements of a list node, each read as an integer.
fn list_values(node: &Ast) -> Vec<i128> {
    match &node.value {
        NodeValue::Composite { children, value: CompositeValue::List { amount } } => {
            if children.len() == 1 {
                vec![as_int(&children[0].1); *amount]
            } else {
                children.iter().map(|c| as_int(&c.1)).collect()
            }
        },
        _ => panic!("not a list"),
    }
}

fn text(s: &str) -> Piece {
    Piece::Literal(s.to_string())
}

fn arg(name: &str) -> Piece {
    Piece::Argument { name: ArgumentName::ArgumentKey(ArgumentKey::Name(name.to_string())), specifier: None }
}

fn reference(origin: AstRefOrigin, ids: &[&str]) -> Piece {
    Piece::Argument {
        name: ArgumentName::Const(NameRef::Ast { origin, path: ids.iter().map(|i| field(i)).collect() }),
        specifier: None,
    }
}

fn template(name: &str, pieces: Vec<Piece>) -> Ast {
    leaf(field(name), LiteralValue::String(StringValue::Template(Template(pieces))))
}

fn string(name: &str, s: &str) -> Ast {
    leaf(field(name), LiteralValue::String(StringValue::Literal(s.to_string())))
}

fn args(values: &[(&str, &str)]) -> Vec<(ArgumentKey, String)> {
    values.iter().map(|(k, v)| (ArgumentKey::Name(k.to_string()), v.to_string())).collect()
}

// bool

#[test]
fn bool_happy() {
    let t = app(vec![("happy", vec![
        strct("DE", vec![leaf(field("value"), LiteralValue::Bool(true))]),
        strct("EN", vec![leaf(field("value"), LiteralValue::Bool(false))]),
    ])]);
    assert_eq!(as_bool(read(&t, DE, vec![field("value")])), true);

    assert_eq!(as_bool(read(&t, EN, vec![field("value")])), false);
}

#[test]
fn bool_fallback() {
    let t = app(vec![("fallback_test", vec![strct("DE", vec![leaf(field("value"), LiteralValue::Bool(true))])])]);
    assert_eq!(
        as_bool(read(&t, DE, vec![field("value")])),
        as_bool(read(&t, EN, vec![field("value")]))
    );
}

// char

#[test]
fn chr_happy() {
    let t = app(vec![("happy", vec![
        strct("DE", vec![leaf(field("value"), LiteralValue::Char('A'))]),
        strct("EN", vec![leaf(field("value"), LiteralValue::Char('B'))]),
    ])]);
    assert_eq!(as_char(read(&t, DE, vec![field("value")])), 'A');

    assert_eq!(as_char(read(&t, EN, vec![field("value")])), 'B');
}

#[test]
fn chr_fallback() {
    let t = app(vec![("fallback_test", vec![strct("DE", vec![leaf(field("value"), LiteralValue::Char('A'))])])]);
    assert_eq!(
        as_char(read(&t, DE, vec![field("value")])),
        as_char(read(&t, EN, vec![field("value")]))
    );
}

// composite

#[test]
fn composite_happy() {
    let inner = |id: Identifier| {
        tuple(id, vec![
            int_at(IntegerValue::I32(1)),
            Box::new(|id| composite(id, CompositeValue::Struct, vec![leaf(field("b"), LiteralValue::Char('C'))])),
            Box::new(|id| list(id, 3, vec![int_at(IntegerValue::I32(1)), int_at(IntegerValue::I32(2)), int_at(IntegerValue::I32(3))])),
        ])
    };
    let t = app(vec![("happy", vec![strct("DE", vec![strct("strct", vec![tuple(field("tupl"), vec![
        int_at(IntegerValue::I32(1)),
        Box::new(move |id| composite(id, CompositeValue::Struct, vec![list(field("a"), 2, vec![Box::new(inner)])])),
    ])])])])]);
    let tupl = vec![field("strct"), field("tupl")];
    let at = |rest: Vec<Identifier>| {
        let mut p = tupl.clone();
        p.extend(rest);
        p
    };
    let a0 = vec![Identifier::TupleIndex(1), field("a"), Identifier::ArrayIndex(0)];
    let with = |extra: Vec<Identifier>| {
        let mut p = a0.clone();
        p.extend(extra);
        at(p)
    };
    assert_eq!(as_int(read(&t, DE, at(vec![Identifier::TupleIndex(0)]))), 1);
    assert_eq!(as_int(read(&t, DE, with(vec![Identifier::TupleIndex(0)]))), 1);
    assert_eq!(as_char(read(&t, DE, with(vec![Identifier::TupleIndex(1), field("b")]))), 'C');
    assert_eq!(list_values(read(&t, DE, with(vec![Identifier::TupleIndex(2)]))), vec![1, 2, 3]);
}

// context

#[test]
fn context_values() {
    let i18n = i18n();
    assert_eq!(i18n.context(DE).fallback, true);
    assert_eq!(i18n.context(EN).fallback, false);
}

#[test]
fn amount() {
    assert_eq!(i18n().amount(), 2);
}

#[test]
fn context_fallback() {
    assert_eq!(i18n().fallback(DE, &[Some(EN), None]), Some(EN))
}

// float

#[test]
fn flt_happy() {
    let f = |name: &str, v: f32| leaf(field(name), LiteralValue::Float(FloatValue::F32(v.to_bits())));
    let t = app(vec![("happy", vec![
        strct("DE", vec![f("f32_value", 3.14f32), f("f64_value", 3.14f32)]),
        strct("EN", vec![f("f32_value", 3.15f32), f("f64_value", 3.15f32)]),
    ])]);
    assert_eq!(as_f32(read(&t, DE, vec![field("f32_value")])), 3.14f32);
    assert_eq!(as_f32(read(&t, DE, vec![field("f64_value")])), 3.14f32);

    assert_eq!(as_f32(read(&t, EN, vec![field("f32_value")])), 3.15f32);
    assert_eq!(as_f32(read(&t, EN, vec![field("f64_value")])), 3.15f32);
}

#[test]
fn flt_fallback() {
    let t = app(vec![("fallback_test", vec![strct("DE", vec![
        leaf(field("f32_value"), LiteralValue::Float(FloatValue::F32(3.14f32.to_bits()))),
    ])])]);
    assert_eq!(
        as_f32(read(&t, DE, vec![field("f32_value")])),
        as_f32(read(&t, EN, vec![field("f32_value")]))
    );
}

// format

fn fmt_app() -> Translations {
    app(vec![
        ("happy", vec![
            strct("DE", vec![
                template("value", vec![text("Hallo, "), arg("world"), text("!")]),
                template("fmt2", vec![arg("arg1"), text(" "), arg("arg2")]),
                template("fmt7", vec![
                    arg("arg1"), text(" "), arg("arg2"), text(" "), arg("arg3"), text(" "), arg("arg4"), text(" "),
                    arg("arg5"), text(" "), arg("arg6"), text(" "), arg("arg7"),
                ]),
            ]),
            strct("EN", vec![template("value", vec![text("Hello, "), arg("world"), text("!")])]),
        ]),
        ("fallback_test", vec![strct("DE", vec![template("value", vec![text("Hallo, "), arg("world"), text("!")])])]),
    ])
}

#[test]
fn fmt_happy() {
    let t = fmt_app();
    let value = path(vec![field("value")]);
    assert_eq!(t.format(DE, 0, &value, &args(&[("world", "Welt")])).unwrap(), "Hallo, Welt!");

    assert_eq!(t.format(EN, 0, &value, &args(&[("world", "World")])).unwrap(), "Hello, World!");
}

#[test]
fn fmt_fallback() {
    let t = fmt_app();
    let value = path(vec![field("value")]);
    assert_eq!(t.format(DE, 1, &value, &args(&[("world", "Welt")])).unwrap(), "Hallo, Welt!");

    assert_eq!(t.format(EN, 1, &value, &args(&[("world", "World")])).unwrap(), "Hallo, World!");
}

#[test]
fn fmt2() {
    let t = fmt_app();
    assert_eq!(
        t.format(DE, 0, &path(vec![field("fmt2")]), &args(&[("arg1", "Test1"), ("arg2", "Test2")])).unwrap(),
        "Test1 Test2"
    );
}

#[test]
fn fmt7() {
    let t = fmt_app();
    assert_eq!(
        t.format(DE, 0, &path(vec![field("fmt7")]), &args(&[
            ("arg1", "Test1"), ("arg2", "Test2"), ("arg3", "Test3"), ("arg4", "Test4"),
            ("arg5", "Test5"), ("arg6", "Test6"), ("arg7", "Test7"),
        ])).unwrap(),
        "Test1 Test2 Test3 Test4 Test5 Test6 Test7"
    );
}

#[test]
fn self_ref() {
    let t = app(vec![("references", vec![
        strct("DE", vec![
            template("other_self", vec![reference(AstRefOrigin::SelfNode, &["nested", "world"])]),
            template("context_ref", vec![reference(AstRefOrigin::ContextNode, &["references", "nested", "world"])]),
            template("i18n_ref", vec![reference(AstRefOrigin::I18nNode, &["EN", "references", "nested", "world"])]),
            strct("nested", vec![
                template("value", vec![text("Hallo, "), reference(AstRefOrigin::SelfNode, &["world"]), text("!")]),
                template("value2", vec![text("Hallo, "), reference(AstRefOrigin::RootNode, &["nested", "world"]), text("!")]),
                string("world", "Welt"),
            ]),
        ]),
        strct("EN", vec![string("hello", "Hello")]),
    ])]);
    let none = args(&[]);
    let fmt = |ids: Vec<&str>| t.format(DE, 0, &path(ids.iter().map(|i| field(i)).collect()), &none).unwrap();
    assert_eq!(fmt(vec!["nested", "value"]), "Hallo, Welt!");

    assert_eq!(fmt(vec!["nested", "value2"]), "Hallo, Welt!");
    assert_eq!(fmt(vec!["other_self"]), "Welt");
    assert_eq!(fmt(vec!["context_ref"]), "Welt");
    assert_eq!(fmt(vec!["i18n_ref"]), "Welt");
}

// integers

#[test]
fn int_happy() {
    let ints = |v: i128| {
        vec![
            leaf(field("i8_value"), LiteralValue::Integer(IntegerValue::I8(v as i8))),
            leaf(field("i16_value"), LiteralValue::Integer(IntegerValue::I16(v as i16))),
            leaf(field("i32_value"), LiteralValue::Integer(IntegerValue::I32(v as i32))),
            leaf(field("i64_value"), LiteralValue::Integer(IntegerValue::I64(v as i64))),
            leaf(field("i128_value"), LiteralValue::Integer(IntegerValue::I128(v))),
            leaf(field("u8_value"), LiteralValue::Integer(IntegerValue::U8(v as u8))),
            leaf(field("u16_value"), LiteralValue::Integer(IntegerValue::U16(v as u16))),
            leaf(field("u32_value"), LiteralValue::Integer(IntegerValue::U32(v as u32))),
            leaf(field("u64_value"), LiteralValue::Integer(IntegerValue::U64(v as u64))),
            leaf(field("u128_value"), LiteralValue::Integer(IntegerValue::U128(v as u128))),
            leaf(field("usize_value"), LiteralValue::Integer(IntegerValue::Usize(v as usize))),
        ]
    };
    let t = app(vec![("happy", vec![strct("DE", ints(1)), strct("EN", ints(2))])]);
    let names = [
        "i8_value", "i16_value", "i32_value", "i64_value", "i128_value", "u8_value", "u16_value", "u32_value",
        "u64_value", "u128_value", "usize_value",
    ];
    for name in names {
        assert_eq!(as_int(read(&t, DE, vec![field(name)])), 1);
    }
    for name in names {
        assert_eq!(as_int(read(&t, EN, vec![field(name)])), 2);
    }
}

#[test]
fn int_fallback() {
    let t = app(vec![("fallback_test", vec![strct("DE", vec![
        leaf(field("i8_value"), LiteralValue::Integer(IntegerValue::I8(1))),
    ])])]);
    assert_eq!(
        as_int(read(&t, DE, vec![field("i8_value")])),
        as_int(read(&t, EN, vec![field("i8_value")]))
    );
}

// lists

#[test]
fn list_happy() {
    let ints = |values: &[i32]| values.iter().map(|v| int_at(IntegerValue::I32(*v))).collect::<Vec<_>>();
    let t = app(vec![("happy", vec![
        strct("DE", vec![list(field("list1"), 10, ints(&[1])), list(field("list2"), 4, ints(&[1, 2, 3, 4]))]),
        strct("EN", vec![list(field("list1"), 10, ints(&[2])), list(field("list2"), 4, ints(&[5, 6, 7, 8]))]),
    ])]);
    assert_eq!(list_values(read(&t, DE, vec![field("list1")])), vec![1; 10]);
    assert_eq!(list_values(read(&t, DE, vec![field("list2")])), vec![1, 2, 3, 4]);

    assert_eq!(list_values(read(&t, EN, vec![field("list1")])), vec![2; 10]);
    assert_eq!(list_values(read(&t, EN, vec![field("list2")])), vec![5, 6, 7, 8]);
}

#[test]
fn list_fallback() {
    let t = app(vec![("fallback_test", vec![strct("DE", vec![list(field("list1"), 10, vec![int_at(IntegerValue::I32(1))])])])]);
    assert_eq!(
        list_values(read(&t, DE, vec![field("list1")])),
        list_values(read(&t, EN, vec![field("list1")]))
    );
}

#[test]
fn list_nested() {
    let t = app(vec![("nested", vec![strct("DE", vec![list(field("value"), 1, vec![Box::new(|id| {
        list(id, 2, vec![
            Box::new(|id| list(id, 2, vec![int_at(IntegerValue::I32(2))])),
            Box::new(|id| list(id, 2, vec![int_at(IntegerValue::I32(3))])),
        ])
    })])])])]);
    let at = |i: usize, j: usize| vec![field("value"), Identifier::ArrayIndex(i), Identifier::ArrayIndex(j)];
    assert_eq!(list_values(read(&t, DE, at(0, 0))), vec![2; 2]);
    assert_eq!(list_values(read(&t, DE, at(0, 1))), vec![3; 2]);
}

// structs

#[test]
fn srct_happy() {
    let t = app(vec![("happy", vec![
        strct("DE", vec![strct("value", vec![leaf(field("sth"), LiteralValue::Bool(true))])]),
        strct("EN", vec![strct("value", vec![leaf(field("sth"), LiteralValue::Bool(false))])]),
    ])]);
    assert_eq!(as_bool(read(&t, DE, vec![field("value"), field("sth")])), true);

    assert_eq!(as_bool(read(&t, EN, vec![field("value"), field("sth")])), false);
}

#[test]
fn srct_fallback() {
    let t = app(vec![("fallback_test", vec![strct("DE", vec![strct("value", vec![leaf(field("sth"), LiteralValue::Bool(true))])])])]);
    assert_eq!(
        as_bool(read(&t, DE, vec![field("value"), field("sth")])),
        as_bool(read(&t, EN, vec![field("value"), field("sth")]))
    );
}

#[test]
fn srct_nested() {
    let t = app(vec![("nested", vec![strct("DE", vec![strct("value", vec![strct("sth", vec![
        leaf(field("other"), LiteralValue::Bool(true)),
    ])])])])]);
    assert_eq!(as_bool(read(&t, DE, vec![field("value"), field("sth"), field("other")])), true);
}

// strings

#[test]
fn str_happy() {
    let t = app(vec![("happy", vec![
        strct("DE", vec![string("str_value", "DE VALUE")]),
        strct("EN", vec![string("str_value", "EN VALUE")]),
    ])]);
    assert_eq!(as_str(read(&t, DE, vec![field("str_value")])), "DE VALUE");
    assert_eq!(as_str(read(&t, EN, vec![field("str_value")])), "EN VALUE");
}

#[test]
fn str_fallback() {
    let t = app(vec![("fallback_test", vec![strct("DE", vec![string("str_value", "DE VALUE")])])]);
    assert_eq!(
        as_str(read(&t, DE, vec![field("str_value")])),
        as_str(read(&t, EN, vec![field("str_value")]))
    );
}

#[test]
fn t_macro() {
    assert!(true);
}

// tuples

fn tupl_of(a: i32, b: char, c: &'static str) -> Vec<Box<dyn Fn(Identifier) -> Ast>> {
    vec![
        int_at(IntegerValue::I32(a)),
        Box::new(move |id| leaf(id, LiteralValue::Char(b))),
        Box::new(move |id| leaf(id, LiteralValue::String(StringValue::Literal(c.to_string())))),
    ]
}

#[test]
fn tupl_happy() {
    let t = app(vec![("happy", vec![
        strct("DE", vec![tuple(field("value"), tupl_of(1, '2', "3"))]),
        strct("EN", vec![tuple(field("value"), tupl_of(4, '5', "6"))]),
    ])]);
    let at = |i: usize| vec![field("value"), Identifier::TupleIndex(i)];
    let whole = |key: usize| (as_int(read(&t, key, at(0))), as_char(read(&t, key, at(1))), as_str(read(&t, key, at(2))));
    assert_eq!(as_int(read(&t, DE, at(0))), 1);
    assert_eq!(as_char(read(&t, DE, at(1))), '2');
    assert_eq!(as_str(read(&t, DE, at(2))), "3");
    assert_eq!(whole(DE), (1, '2', "3".to_string()));

    assert_eq!(as_int(read(&t, EN, at(0))), 4);
    assert_eq!(as_char(read(&t, EN, at(1))), '5');
    assert_eq!(as_str(read(&t, EN, at(2))), "6");
    assert_eq!(whole(EN), (4, '5', "6".to_string()));
}

#[test]
fn tupl_fallback() {
    let t = app(vec![("fallback_test", vec![strct("DE", vec![tuple(field("value"), tupl_of(1, '2', "3"))])])]);
    let at = |i: usize| vec![field("value"), Identifier::TupleIndex(i)];
    let whole = |key: usize| (as_int(read(&t, key, at(0))), as_char(read(&t, key, at(1))), as_str(read(&t, key, at(2))));
    assert_eq!(whole(DE), whole(EN));
}

#[test]
fn tupl_nested() {
    fn nest(depth: i32) -> Box<dyn Fn(Identifier) -> Ast> {
        Box::new(move |id| {
            if depth == 5 {
                tuple(id, vec![int_at(IntegerValue::I32(5)), int_at(IntegerValue::I32(6))])
            } else {
                tuple(id, vec![int_at(IntegerValue::I32(depth)), nest(depth + 1)])
            }
        })
    }
    let t = app(vec![("nested", vec![strct("DE", vec![nest(1)(field("value"))])])]);
    let at = |ones: usize, last: usize| {
        let mut p = vec![field("value")];
        p.extend(std::iter::repeat(Identifier::TupleIndex(1)).take(ones));
        p.push(Identifier::TupleIndex(last));
        p
    };
    assert_eq!(as_int(read(&t, DE, at(0, 0))), 1);
    assert_eq!(as_int(read(&t, DE, at(1, 0))), 2);
    assert_eq!(as_int(read(&t, DE, at(2, 0))), 3);
    assert_eq!(as_int(read(&t, DE, at(3, 0))), 4);
    assert_eq!(as_int(read(&t, DE, at(4, 0))), 5);
    assert_eq!(as_int(read(&t, DE, at(4, 1))), 6);
}
