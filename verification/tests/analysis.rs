use yavhdl::ast::{AstNode, Scope, ScopeChainNode, ScopeItemName, SourceLoc};
use yavhdl::design::{Fatal, Library};
use yavhdl::driver::{
    try_add_declaration, vhdl_analyze_file, walk_scope_chain, AnalyzerCoreStateBlob,
    DiagnosticKind, ParseTreeNodeType, VhdlParseTreeNode,
};
use yavhdl::identifier::Identifier;
use yavhdl::objpools::StringPool;

fn node(t: ParseTreeNodeType) -> VhdlParseTreeNode {
    VhdlParseTreeNode {
        node_type: t,
        ..Default::default()
    }
}

fn id_node(name: &[u8]) -> VhdlParseTreeNode {
    VhdlParseTreeNode {
        node_type: ParseTreeNodeType::PT_BASIC_ID,
        str1: name.to_vec(),
        ..Default::default()
    }
}

fn boxed(n: VhdlParseTreeNode) -> Option<Box<VhdlParseTreeNode>> {
    Some(Box::new(n))
}

/// `type <name> is (<lit>, <lit>, ...);`
fn enum_type_decl(name: &[u8], lits: &[&[u8]]) -> VhdlParseTreeNode {
    assert!(!lits.is_empty());
    let mut lit_tree = id_node(lits[0]);
    for lit in &lits[1..] {
        let mut list = node(ParseTreeNodeType::PT_ENUM_LITERAL_LIST);
        list.piece0 = boxed(lit_tree);
        list.piece1 = boxed(id_node(lit));
        lit_tree = list;
    }
    let mut typedef = node(ParseTreeNodeType::PT_ENUMERATION_TYPE_DEFINITION);
    typedef.piece0 = boxed(lit_tree);
    let mut decl = node(ParseTreeNodeType::PT_FULL_TYPE_DECLARATION);
    decl.piece0 = boxed(id_node(name));
    decl.piece1 = boxed(typedef);
    decl
}

/// `subtype <name> is <mark>;`
fn subtype_decl(name: &[u8], mark: &[u8]) -> VhdlParseTreeNode {
    let mut si = node(ParseTreeNodeType::PT_SUBTYPE_INDICATION);
    si.piece0 = boxed(id_node(mark));
    let mut decl = node(ParseTreeNodeType::PT_SUBTYPE_DECLARATION);
    decl.piece0 = boxed(id_node(name));
    decl.piece1 = boxed(si);
    decl
}

/// `constant <name> : <mark>;`
fn constant_decl(name: &[u8], mark: &[u8]) -> VhdlParseTreeNode {
    let mut si = node(ParseTreeNodeType::PT_SUBTYPE_INDICATION);
    si.piece0 = boxed(id_node(mark));
    let mut decl = node(ParseTreeNodeType::PT_CONSTANT_DECLARATION);
    decl.piece0 = boxed(id_node(name));
    decl.piece1 = boxed(si);
    decl
}

/// `function <name> return <mark>;`
fn function_decl(name: &[u8], mark: &[u8]) -> VhdlParseTreeNode {
    let mut spec = node(ParseTreeNodeType::PT_FUNCTION_SPECIFICATION);
    spec.piece0 = boxed(id_node(name));
    spec.piece1 = boxed(id_node(mark));
    let mut decl = node(ParseTreeNodeType::PT_SUBPROGRAM_DECLARATION);
    decl.piece0 = boxed(spec);
    decl
}

fn decl_list(decls: Vec<VhdlParseTreeNode>) -> VhdlParseTreeNode {
    let mut iter = decls.into_iter();
    let mut tree = iter.next().expect("at least one declaration");
    for d in iter {
        let mut list = node(ParseTreeNodeType::PT_DECLARATION_LIST);
        list.piece0 = boxed(tree);
        list.piece1 = boxed(d);
        tree = list;
    }
    tree
}

/// A design unit holding `entity <name> ... end [tail];`.
fn entity_unit(
    name: &[u8],
    decls: Option<VhdlParseTreeNode>,
    tail: Option<&[u8]>,
) -> VhdlParseTreeNode {
    let mut ent = node(ParseTreeNodeType::PT_ENTITY);
    ent.piece0 = boxed(id_node(name));
    ent.piece2 = decls.and_then(|d| boxed(d));
    ent.piece4 = tail.and_then(|t| boxed(id_node(t)));
    let mut unit = node(ParseTreeNodeType::PT_DESIGN_UNIT);
    unit.piece0 = boxed(ent);
    unit
}

/// A session with one registered work library.
fn session(lib_name: &str) -> (AnalyzerCoreStateBlob, yavhdl::objpools::ObjPoolIndex<Library>) {
    let mut s = AnalyzerCoreStateBlob::new();
    let lib_id = Identifier::new_unicode(&mut s.sp, lib_name, false).unwrap();
    let work_lib = s.op_l.allocate(Library::new(lib_id));
    s.design_db.populate_builtins();
    s.design_db.add_library(lib_id, work_lib);
    (s, work_lib)
}

#[test]
fn end_to_end_entity_with_enum_type() {
    let (mut s, work_lib) = session("work");
    let unit = entity_unit(b"FOO", Some(enum_type_decl(b"COLOR", &[b"RED", b"GREEN", b"BLUE"])), None);
    let ok = vhdl_analyze_file(&mut s, &unit, work_lib, &b"test.vhd".to_vec()).unwrap();
    assert!(ok);
    assert!(s.errors.is_empty());

    // one design unit named FOO (case-insensitive)
    let foo_id = Identifier::new_unicode(&mut s.sp, "foo", false).unwrap();
    let e_ = s.op_l.get(work_lib).find_design_unit(foo_id).unwrap();
    let (entity_scope, entity_id) = match s.op_n.get(e_) {
        AstNode::Entity { id, scope, .. } => (*scope, *id),
        other => panic!("expected an entity, got {:?}", other.kind()),
    };
    assert_eq!(entity_id, foo_id);

    // its declarative scope holds one type declaration COLOR
    let color_id = Identifier::new_unicode(&mut s.sp, "Color", false).unwrap();
    let found = s
        .op_s
        .get(entity_scope)
        .get(ScopeItemName::Identifier(color_id))
        .unwrap()
        .clone();
    assert_eq!(found.len(), 1);
    let color_ = found[0];
    let literals = match s.op_n.get(color_) {
        AstNode::EnumerationTypeDecl { literals, .. } => literals.clone(),
        other => panic!("expected a type declaration, got {:?}", other.kind()),
    };

    // three literals, positions 0, 1, 2 in textual order, each pointing back
    assert_eq!(literals.len(), 3);
    let expected = ["red", "green", "blue"];
    for (k, lit_) in literals.iter().enumerate() {
        match s.op_n.get(*lit_) {
            AstNode::EnumerationLitDecl {
                lit,
                idx,
                corresponding_type_decl,
            } => {
                assert_eq!(*idx, k as i64);
                assert_eq!(*corresponding_type_decl, color_);
                let want = Identifier::new_unicode(&mut s.sp, expected[k], false).unwrap();
                match lit {
                    yavhdl::ast::EnumerationLiteral::Identifier(id) => assert_eq!(*id, want),
                    other => panic!("expected an identifier literal, got {:?}", other),
                }
            }
            other => panic!("expected an enum literal, got {:?}", other.kind()),
        }
    }
}

#[test]
fn end_to_end_duplicate_design_unit() {
    let (mut s, work_lib) = session("work");
    let unit1 = entity_unit(b"FOO", Some(enum_type_decl(b"COLOR", &[b"RED"])), None);
    assert!(vhdl_analyze_file(&mut s, &unit1, work_lib, &b"a.vhd".to_vec()).unwrap());
    let first = {
        let foo_id = Identifier::new_unicode(&mut s.sp, "foo", false).unwrap();
        s.op_l.get(work_lib).find_design_unit(foo_id).unwrap()
    };

    // a second entity of the same name is rejected and leaves the library as
    // it was
    let unit2 = entity_unit(b"foo", None, None);
    let ok = vhdl_analyze_file(&mut s, &unit2, work_lib, &b"b.vhd".to_vec()).unwrap();
    assert!(!ok);
    assert_eq!(s.errors.len(), 1);
    match &s.errors[0].kind {
        DiagnosticKind::DuplicateDesignUnit(_, prev) => assert!(prev.is_some()),
        other => panic!("expected a duplicate-design-unit diagnostic, got {:?}", other),
    }
    let foo_id = Identifier::new_unicode(&mut s.sp, "FOO", false).unwrap();
    assert_eq!(s.op_l.get(work_lib).find_design_unit(foo_id), Some(first));
    match s.op_l.get(work_lib) {
        Library::X { db_by_order, .. } => assert_eq!(db_by_order.len(), 1),
        Library::Invalid => panic!("library must be valid"),
    }
}

#[test]
fn failed_entity_is_rolled_back() {
    let (mut s, work_lib) = session("work");
    // duplicate enum literal: the whole entity must stay invisible
    let unit = entity_unit(b"FOO", Some(enum_type_decl(b"COLOR", &[b"RED", b"RED"])), None);
    let ok = vhdl_analyze_file(&mut s, &unit, work_lib, &b"a.vhd".to_vec()).unwrap();
    assert!(!ok);
    assert_eq!(s.errors.len(), 1);
    assert!(matches!(
        s.errors[0].kind,
        DiagnosticKind::DuplicateEnumLiteral(_)
    ));
    let foo_id = Identifier::new_unicode(&mut s.sp, "foo", false).unwrap();
    assert_eq!(s.op_l.get(work_lib).find_design_unit(foo_id), None);
    match s.op_l.get(work_lib) {
        Library::X { db_by_order, .. } => assert!(db_by_order.is_empty()),
        Library::Invalid => panic!("library must be valid"),
    }
}

#[test]
fn entity_name_mismatch() {
    let (mut s, work_lib) = session("work");
    let unit = entity_unit(b"FOO", None, Some(b"BAR"));
    let ok = vhdl_analyze_file(&mut s, &unit, work_lib, &b"a.vhd".to_vec()).unwrap();
    assert!(!ok);
    assert!(matches!(s.errors[0].kind, DiagnosticKind::EntityNameMismatch));

    // a case variant of the same name is fine
    let unit = entity_unit(b"FOO", None, Some(b"foo"));
    let ok = vhdl_analyze_file(&mut s, &unit, work_lib, &b"a.vhd".to_vec()).unwrap();
    assert!(ok);
}

#[test]
fn duplicate_declarations_diagnosed() {
    // two types of one name
    let (mut s, work_lib) = session("work");
    let unit = entity_unit(
        b"E1",
        Some(decl_list(vec![
            enum_type_decl(b"COLOR", &[b"RED"]),
            enum_type_decl(b"color", &[b"R2"]),
        ])),
        None,
    );
    assert!(!vhdl_analyze_file(&mut s, &unit, work_lib, &b"a.vhd".to_vec()).unwrap());
    assert!(matches!(
        s.errors.last().unwrap().kind,
        DiagnosticKind::DuplicateTypeDecl(_)
    ));

    // two subtypes of one name
    let (mut s, work_lib) = session("work");
    let unit = entity_unit(
        b"E2",
        Some(decl_list(vec![
            enum_type_decl(b"COLOR", &[b"RED"]),
            subtype_decl(b"S", b"COLOR"),
            subtype_decl(b"s", b"COLOR"),
        ])),
        None,
    );
    assert!(!vhdl_analyze_file(&mut s, &unit, work_lib, &b"a.vhd".to_vec()).unwrap());
    assert!(matches!(
        s.errors.last().unwrap().kind,
        DiagnosticKind::DuplicateSubtypeDecl(_)
    ));

    // two constants of one name
    let (mut s, work_lib) = session("work");
    let unit = entity_unit(
        b"E3",
        Some(decl_list(vec![
            enum_type_decl(b"COLOR", &[b"RED"]),
            constant_decl(b"K", b"COLOR"),
            constant_decl(b"k", b"COLOR"),
        ])),
        None,
    );
    assert!(!vhdl_analyze_file(&mut s, &unit, work_lib, &b"a.vhd".to_vec()).unwrap());
    assert!(matches!(
        s.errors.last().unwrap().kind,
        DiagnosticKind::DuplicateConstantDecl(_)
    ));

    // two functions of one designator
    let (mut s, work_lib) = session("work");
    let unit = entity_unit(
        b"E4",
        Some(decl_list(vec![
            enum_type_decl(b"COLOR", &[b"RED"]),
            function_decl(b"F", b"COLOR"),
            function_decl(b"f", b"COLOR"),
        ])),
        None,
    );
    assert!(!vhdl_analyze_file(&mut s, &unit, work_lib, &b"a.vhd".to_vec()).unwrap());
    assert!(matches!(
        s.errors.last().unwrap().kind,
        DiagnosticKind::DuplicateFunctionDecl(_)
    ));
}

#[test]
fn type_mark_diagnostics() {
    // an unresolvable type mark
    let (mut s, work_lib) = session("work");
    let unit = entity_unit(b"E1", Some(subtype_decl(b"S", b"NOPE")), None);
    assert!(!vhdl_analyze_file(&mut s, &unit, work_lib, &b"a.vhd".to_vec()).unwrap());
    assert!(matches!(
        s.errors.last().unwrap().kind,
        DiagnosticKind::BadTypeMark
    ));

    // a name that is not a type
    let (mut s, work_lib) = session("work");
    let unit = entity_unit(
        b"E2",
        Some(decl_list(vec![
            enum_type_decl(b"COLOR", &[b"RED"]),
            constant_decl(b"K", b"COLOR"),
            subtype_decl(b"S", b"K"),
        ])),
        None,
    );
    assert!(!vhdl_analyze_file(&mut s, &unit, work_lib, &b"a.vhd".to_vec()).unwrap());
    assert!(matches!(
        s.errors.last().unwrap().kind,
        DiagnosticKind::NotAType
    ));

    // a subtype naming itself is invisible to its own indication: the
    // declared name is blacklisted while the indication is analyzed
    let (mut s, work_lib) = session("work");
    let unit = entity_unit(
        b"E4",
        Some(decl_list(vec![
            enum_type_decl(b"S", &[b"RED"]),
            subtype_decl(b"s", b"S"),
        ])),
        None,
    );
    assert!(!vhdl_analyze_file(&mut s, &unit, work_lib, &b"a.vhd".to_vec()).unwrap());
    assert!(matches!(
        s.errors.last().unwrap().kind,
        DiagnosticKind::BadTypeMark
    ));

    // a subtype may be declared in terms of another subtype
    let (mut s, work_lib) = session("work");
    let unit = entity_unit(
        b"E3",
        Some(decl_list(vec![
            enum_type_decl(b"COLOR", &[b"RED"]),
            subtype_decl(b"S", b"COLOR"),
            subtype_decl(b"T", b"S"),
        ])),
        None,
    );
    assert!(vhdl_analyze_file(&mut s, &unit, work_lib, &b"a.vhd".to_vec()).unwrap());
}

#[test]
fn unsupported_shapes_are_fatal() {
    let (mut s, work_lib) = session("work");
    let mut unit = node(ParseTreeNodeType::PT_DESIGN_UNIT);
    unit.piece0 = boxed(node(ParseTreeNodeType::PT_ARCHITECTURE));
    assert_eq!(
        vhdl_analyze_file(&mut s, &unit, work_lib, &b"a.vhd".to_vec()),
        Err(Fatal::UnsupportedParseTree)
    );

    // a context clause is not implemented yet
    let (mut s, work_lib) = session("work");
    let mut unit = entity_unit(b"FOO", None, None);
    unit.piece1 = boxed(node(ParseTreeNodeType::PT_INVALID));
    assert_eq!(
        vhdl_analyze_file(&mut s, &unit, work_lib, &b"a.vhd".to_vec()),
        Err(Fatal::NotYetImplemented)
    );
}

#[test]
fn selected_name_resolution() {
    // entity FOO holding type COLOR, then resolve FOO.COLOR from the root
    // region: the suffix is looked up in the entity's own scope
    let (mut s, work_lib) = session("work");
    let unit = entity_unit(b"FOO", Some(enum_type_decl(b"COLOR", &[b"RED"])), None);
    assert!(vhdl_analyze_file(&mut s, &unit, work_lib, &b"a.vhd".to_vec()).unwrap());

    let mut sel = node(ParseTreeNodeType::PT_NAME_SELECTED);
    sel.piece0 = boxed(id_node(b"foo"));
    sel.piece1 = boxed(id_node(b"color"));
    let found = yavhdl::driver::analyze_name(&mut s, &sel).unwrap().unwrap();
    assert_eq!(found.len(), 1);
    assert!(matches!(
        s.op_n.get(found[0]),
        AstNode::EnumerationTypeDecl { .. }
    ));

    // an unknown suffix is "not found"
    let mut sel = node(ParseTreeNodeType::PT_NAME_SELECTED);
    sel.piece0 = boxed(id_node(b"foo"));
    sel.piece1 = boxed(id_node(b"shape"));
    assert!(yavhdl::driver::analyze_name(&mut s, &sel).unwrap().is_none());

    // a prefix that is not a declarative region is "not found"
    let mut sel = node(ParseTreeNodeType::PT_NAME_SELECTED);
    sel.piece0 = boxed(id_node(b"color"));
    sel.piece1 = boxed(id_node(b"red"));
    assert!(yavhdl::driver::analyze_name(&mut s, &sel).unwrap().is_none());
}

#[test]
fn library_transaction() {
    let mut sp = StringPool::new();
    let mut op = yavhdl::objpools::ObjPool::<AstNode>::new();
    let lib_id = Identifier::new_unicode(&mut sp, "work", false).unwrap();
    let name = Identifier::new_unicode(&mut sp, "foo", false).unwrap();
    let u0 = op.allocate(AstNode::Invalid);
    let u1 = op.allocate(AstNode::Invalid);

    // tentative_add then commit makes the unit findable
    let mut lib = Library::new(lib_id);
    lib.tentative_add(name, u0).unwrap();
    assert_eq!(lib.find_design_unit(name), Some(u0));
    lib.commit();
    assert_eq!(lib.find_design_unit(name), Some(u0));

    // a tentative entry shadows a committed one of the same name, and a
    // second tentative registration is an internal-consistency failure
    lib.tentative_add(name, u1).unwrap();
    assert_eq!(lib.find_design_unit(name), Some(u1));
    assert_eq!(
        lib.tentative_add(name, u0),
        Err(Fatal::InternalConsistency)
    );

    // tentative_add then drop leaves everything as it was
    lib.drop_tentative();
    assert_eq!(lib.find_design_unit(name), Some(u0));
    let other = Identifier::new_unicode(&mut sp, "bar", false).unwrap();
    let mut lib2 = Library::new(lib_id);
    lib2.tentative_add(other, u1).unwrap();
    lib2.drop_tentative();
    assert_eq!(lib2.find_design_unit(other), None);
}

#[test]
fn overload_accumulation_in_one_scope() {
    let mut s = AnalyzerCoreStateBlob::new();
    let scope = s.op_s.allocate(Scope::new());
    let dummy = SourceLoc::default();
    let id = Identifier::new_unicode(&mut s.sp, "t", false).unwrap();
    let t1 = s.op_n.allocate(AstNode::EnumerationTypeDecl {
        loc: dummy,
        id,
        literals: Vec::new(),
    });
    let t2 = s.op_n.allocate(AstNode::EnumerationTypeDecl {
        loc: dummy,
        id,
        literals: Vec::new(),
    });
    let t3 = s.op_n.allocate(AstNode::EnumerationTypeDecl {
        loc: dummy,
        id,
        literals: Vec::new(),
    });
    let name = ScopeItemName::CharLiteral(b'a');
    let mk = |s: &mut AnalyzerCoreStateBlob, t| {
        s.op_n.allocate(AstNode::EnumerationLitDecl {
            lit: yavhdl::ast::EnumerationLiteral::CharLiteral(b'a'),
            idx: 0,
            corresponding_type_decl: t,
        })
    };
    let l1 = mk(&mut s, t1);
    let l2 = mk(&mut s, t2);
    let l3 = mk(&mut s, t3);

    // three overloads with distinct profiles accumulate, in insertion order
    assert_eq!(try_add_declaration(&mut s, name, l1, scope), Ok(true));
    assert_eq!(try_add_declaration(&mut s, name, l2, scope), Ok(true));
    assert_eq!(try_add_declaration(&mut s, name, l3, scope), Ok(true));
    let found = s.op_s.get(scope).get(name).unwrap();
    assert_eq!(found.as_slice(), &[l1, l2, l3]);

    // a fourth one with a profile already present is rejected
    let l4 = mk(&mut s, t2);
    assert_eq!(try_add_declaration(&mut s, name, l4, scope), Ok(false));
    assert_eq!(s.op_s.get(scope).get(name).unwrap().len(), 3);

    // a non-overloadable key accepts exactly one declaration
    let scope2 = s.op_s.allocate(Scope::new());
    let name2 = ScopeItemName::Identifier(id);
    assert_eq!(try_add_declaration(&mut s, name2, t1, scope2), Ok(true));
    assert_eq!(try_add_declaration(&mut s, name2, t2, scope2), Ok(false));
    // and mixing an overloadable with a non-overloadable is a conflict too
    assert_eq!(try_add_declaration(&mut s, name2, l1, scope2), Ok(false));
}

#[test]
fn scope_chain_resolution() {
    let mut s = AnalyzerCoreStateBlob::new();
    let so = s.op_s.allocate(Scope::new());
    let si = s.op_s.allocate(Scope::new());
    let n_out = s.op_sc.allocate(ScopeChainNode::X {
        this_scope: so,
        parent: None,
    });
    let n_in = s.op_sc.allocate(ScopeChainNode::X {
        this_scope: si,
        parent: Some(n_out),
    });
    s.innermost_scope = Some(n_in);
    let dummy = SourceLoc::default();
    let tid = Identifier::new_unicode(&mut s.sp, "t", false).unwrap();
    let t1 = s.op_n.allocate(AstNode::EnumerationTypeDecl {
        loc: dummy,
        id: tid,
        literals: Vec::new(),
    });
    let t2 = s.op_n.allocate(AstNode::EnumerationTypeDecl {
        loc: dummy,
        id: tid,
        literals: Vec::new(),
    });

    // a non-overloadable name in both regions resolves to the inner one only
    let x_in = Identifier::new_unicode(&mut s.sp, "x", false).unwrap();
    let x_out = Identifier::new_unicode(&mut s.sp, "X", false).unwrap();
    s.op_s.get_mut(si).add(ScopeItemName::Identifier(x_in), t1);
    s.op_s.get_mut(so).add(ScopeItemName::Identifier(x_out), t2);
    let got = walk_scope_chain(&s, ScopeItemName::Identifier(x_in)).unwrap();
    assert_eq!(got.unwrap().as_slice(), &[t1]);

    // overloads with distinct profiles merge, inner first
    let name_c = ScopeItemName::CharLiteral(b'c');
    let l_in = s.op_n.allocate(AstNode::EnumerationLitDecl {
        lit: yavhdl::ast::EnumerationLiteral::CharLiteral(b'c'),
        idx: 0,
        corresponding_type_decl: t1,
    });
    let l_out = s.op_n.allocate(AstNode::EnumerationLitDecl {
        lit: yavhdl::ast::EnumerationLiteral::CharLiteral(b'c'),
        idx: 0,
        corresponding_type_decl: t2,
    });
    s.op_s.get_mut(si).add(name_c, l_in);
    s.op_s.get_mut(so).add(name_c, l_out);
    let got = walk_scope_chain(&s, name_c).unwrap();
    assert_eq!(got.unwrap().as_slice(), &[l_in, l_out]);

    // an overload of the same profile is shadowed: inner only
    let name_d = ScopeItemName::CharLiteral(b'd');
    let m_in = s.op_n.allocate(AstNode::EnumerationLitDecl {
        lit: yavhdl::ast::EnumerationLiteral::CharLiteral(b'd'),
        idx: 0,
        corresponding_type_decl: t1,
    });
    let m_out = s.op_n.allocate(AstNode::EnumerationLitDecl {
        lit: yavhdl::ast::EnumerationLiteral::CharLiteral(b'd'),
        idx: 0,
        corresponding_type_decl: t1,
    });
    s.op_s.get_mut(si).add(name_d, m_in);
    s.op_s.get_mut(so).add(name_d, m_out);
    let got = walk_scope_chain(&s, name_d).unwrap();
    assert_eq!(got.unwrap().as_slice(), &[m_in]);

    // an unknown name is not found
    let name_e = ScopeItemName::CharLiteral(b'e');
    assert_eq!(walk_scope_chain(&s, name_e).unwrap(), None);
}
