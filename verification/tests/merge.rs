use comfy_i18n_core::ast::Ast;
use comfy_i18n_core::identifier::Identifier;
use comfy_i18n_core::node_value::{CompositeValue, LiteralValue, NodeValue};

fn field(name: &str) -> Identifier {
    Identifier::Field(name.to_string())
}

fn strct(name: &str, children: Vec<Ast>) -> Ast {
    let children = children.into_iter().map(|c| (c.identifier.clone(), c)).collect();
    Ast::new(field(name), NodeValue::Composite { children, value: CompositeValue::Struct })
}

fn chr(name: &str, c: char) -> Ast {
    Ast::new(field(name), NodeValue::Literal(LiteralValue::Char(c)))
}

#[test]
fn merge_add_child() {
    let mut ast1 = strct("a", vec![chr("b", 'C')]);
    let ast2 = strct("a", vec![chr("c", 'C')]);

    ast1.merge(ast2);

    assert!(ast1.get(&field("b")).is_some());
    assert!(ast1.get(&field("c")).is_some());
}

#[test]
fn merge_nested_add_child() {
    let mut ast1 = strct("a", vec![strct("b", vec![])]);
    let ast2 = strct("a", vec![strct("b", vec![chr("c", 'C')])]);

    ast1.merge(ast2);

    let child = ast1.get(&field("b")).unwrap();

    assert!(child.get(&field("c")).is_some());
}

#[test]
fn merge_conflict_keep_b() {
    let mut ast1 = strct("a", vec![chr("b", 'C')]);
    let ast2 = strct("a", vec![chr("b", 'D')]);

    ast1.merge(ast2);

    let child = ast1.get(&field("b")).unwrap();
    if let NodeValue::Literal(LiteralValue::Char(value)) = child.value {
        assert_eq!(value, 'C');
    } else {
        panic!();
    }
}

#[test]
fn merge_keeps_ids_of_the_receiver() {
    let mut ast1 = strct("a", vec![chr("b", 'C')]);
    let ast2 = strct("a", vec![chr("b", 'D'), chr("c", 'E')]);
    let own_id = ast1.get(&field("b")).unwrap().id;
    let added_id = ast2.get(&field("c")).unwrap().id;

    ast1.merge(ast2);

    assert_eq!(ast1.get(&field("b")).unwrap().id, own_id);
    assert_eq!(ast1.get(&field("c")).unwrap().id, added_id);
    assert_eq!(ast1.get(&field("c")).unwrap().parent, Some(ast1.id));
}

#[test]
fn merge_links_taken_over_subtrees() {
    let mut ast1 = strct("a", vec![strct("b", vec![])]);
    let ast2 = strct("a", vec![strct("b", vec![strct("c", vec![chr("d", 'D')])])]);
    let c_id = ast2.get(&field("b")).unwrap().get(&field("c")).unwrap().id;

    ast1.merge(ast2);

    let b = ast1.get(&field("b")).unwrap();
    let c = b.get(&field("c")).unwrap();
    assert_eq!(c.parent, Some(b.id));
    assert_eq!(c.get(&field("d")).unwrap().parent, Some(c_id));
    assert_eq!(b.parent, Some(ast1.id));
}

#[test]
fn traverse_yields_each_node_once() {
    let ast = strct("a", vec![strct("b", vec![chr("c", 'C'), chr("d", 'D')]), chr("e", 'E')]);
    let nodes = ast.traverse();
    assert_eq!(nodes.len(), 5);
    assert_eq!(nodes[0].id, ast.id);
    for (i, n) in nodes.iter().enumerate() {
        for m in nodes.iter().skip(i + 1) {
            assert_ne!(n.id, m.id);
        }
    }
    assert_eq!(ast.id_to_path_map().len(), 5);
    assert_eq!(ast.path_to_node_id_map().len(), 5);
}
