use yavhdl::ast::{AstNode, Scope, ScopeItemName};
use yavhdl::identifier::Identifier;
use yavhdl::objpools::{ObjPool, StringPool};

#[test]
fn scope_basic() {
    let mut sp = StringPool::new();
    let mut op = ObjPool::<AstNode>::new();

    let mut test1_scope = Scope::new();
    let test1_1 = Identifier::new_unicode(&mut sp, "a", false).unwrap();
    let test1_node = op.allocate(AstNode::Invalid);
    test1_scope.add(ScopeItemName::Identifier(test1_1), test1_node);
    let test1_2 = Identifier::new_unicode(&mut sp, "a", false).unwrap();
    let test1_result = test1_scope
        .get(ScopeItemName::Identifier(test1_2))
        .unwrap();
    assert_eq!(test1_result.len(), 1);
    assert_eq!(test1_result[0], test1_node);

    let mut test2_scope = Scope::new();
    let test2_node = op.allocate(AstNode::Invalid);
    test2_scope.add(ScopeItemName::CharLiteral(b'a'), test2_node);
    let test2_result = test2_scope.get(ScopeItemName::CharLiteral(b'a')).unwrap();
    assert_eq!(test2_result.len(), 1);
    assert_eq!(test2_result[0], test2_node);

    let mut test3_scope = Scope::new();
    let test3_1 = sp.add_latin1_str(&b"a".to_vec());
    let test3_node = op.allocate(AstNode::Invalid);
    test3_scope.add(ScopeItemName::StringLiteral(test3_1), test3_node);
    let test3_2 = sp.add_latin1_str(&b"a".to_vec());
    let test3_result = test3_scope
        .get(ScopeItemName::StringLiteral(test3_2))
        .unwrap();
    assert_eq!(test3_result.len(), 1);
    assert_eq!(test3_result[0], test3_node);
}

#[test]
fn scope_type_isolation() {
    let mut sp = StringPool::new();
    let mut op = ObjPool::<AstNode>::new();

    let mut test1_scope = Scope::new();
    let test1_1 =
        ScopeItemName::Identifier(Identifier::new_unicode(&mut sp, "a", false).unwrap());
    let test1_2 = ScopeItemName::CharLiteral(b'a');
    let test1_3 = ScopeItemName::StringLiteral(sp.add_latin1_str(&b"a".to_vec()));
    let test1_node = op.allocate(AstNode::Invalid);
    test1_scope.add(test1_1, test1_node);
    let test1_result1 = test1_scope.get(test1_2);
    let test1_result2 = test1_scope.get(test1_3);
    assert!(test1_result1.is_none());
    assert!(test1_result2.is_none());

    let mut test2_scope = Scope::new();
    let test2_1 =
        ScopeItemName::Identifier(Identifier::new_unicode(&mut sp, "a", false).unwrap());
    let test2_2 = ScopeItemName::CharLiteral(b'a');
    let test2_3 = ScopeItemName::StringLiteral(sp.add_latin1_str(&b"a".to_vec()));
    let test2_node = op.allocate(AstNode::Invalid);
    test2_scope.add(test2_2, test2_node);
    let test2_result1 = test2_scope.get(test2_1);
    let test2_result2 = test2_scope.get(test2_3);
    assert!(test2_result1.is_none());
    assert!(test2_result2.is_none());

    let mut test3_scope = Scope::new();
    let test3_1 =
        ScopeItemName::Identifier(Identifier::new_unicode(&mut sp, "a", false).unwrap());
    let test3_2 = ScopeItemName::CharLiteral(b'a');
    let test3_3 = ScopeItemName::StringLiteral(sp.add_latin1_str(&b"a".to_vec()));
    let test3_node = op.allocate(AstNode::Invalid);
    test3_scope.add(test3_3, test3_node);
    let test3_result1 = test3_scope.get(test3_1);
    let test3_result2 = test3_scope.get(test3_2);
    assert!(test3_result1.is_none());
    assert!(test3_result2.is_none());
}

#[test]
fn scope_overloading() {
    let mut sp = StringPool::new();
    let mut op = ObjPool::<AstNode>::new();
    let _ = sp.add_latin1_str(&b"a".to_vec());

    let mut test1_scope = Scope::new();
    let test1_1 = ScopeItemName::CharLiteral(b'a');
    let test1_node1 = op.allocate(AstNode::Invalid);
    let test1_node2 = op.allocate(AstNode::Invalid);
    let test1_node3 = op.allocate(AstNode::Invalid);
    test1_scope.add(test1_1, test1_node1);
    test1_scope.add(test1_1, test1_node2);
    test1_scope.add(test1_1, test1_node3);
    let test1_2 = ScopeItemName::CharLiteral(b'a');
    let test1_result = test1_scope.get(test1_2).unwrap();
    assert_eq!(test1_result.len(), 3);
    assert_eq!(test1_result[0], test1_node1);
    assert_eq!(test1_result[1], test1_node2);
    assert_eq!(test1_result[2], test1_node3);
}
