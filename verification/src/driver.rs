//! The analyzer driver: a recursive-descent walk over the parse tree that
//! allocates AST nodes, populates scopes, performs declaration-conflict
//! checks, resolves names through the scope chain, and registers design
//! units in the work library under a tentative/commit/drop transaction.
//!
//! Recoverable semantic problems become [`Diagnostic`] values and abort only
//! the enclosing declaration or design unit; internal-invariant failures
//! (unimplemented grammar shapes, broken cross-references) become
//! [`Fatal`] values, which the caller treats as an abort of the whole run.

#![allow(non_camel_case_types)]

use crate::ast::name_eq;
use crate::ast::scope_find;
use crate::ast::spec_to_scope_item_name;
use crate::ast::AstNode;
use crate::ast::EnumerationLiteral;
use crate::ast::Scope;
use crate::ast::ScopeChainNode;
use crate::ast::ScopeItemName;
use crate::ast::SourceLoc;
use crate::design::DesignDatabase;
use crate::design::lib_by_name;
use crate::design::lib_by_order;
use crate::design::lib_find;
use crate::design::lib_tentative;
use crate::design::Fatal;
use crate::design::Library;
use crate::identifier::canonicalized;
use crate::identifier::id_text_ok;
use crate::identifier::Identifier;
use crate::objpools::ObjPool;
use crate::objpools::ObjPoolIndex;
use crate::objpools::StringPool;
use crate::objpools::StringPoolIndexOsStr;
use vstd::prelude::*;
use vstd::string::StrSliceExecFns;

verus! {

/// The parse-tree productions the analyzer distinguishes. The parser's
/// grammar is a fixed external contract; anything the analyzer meets outside
/// this set (or in a place it does not implement) is a [`Fatal`] condition.
#[derive(Clone, Copy, PartialEq, Eq, Structural, Debug)]
pub enum ParseTreeNodeType {
    PT_INVALID,
    PT_BASIC_ID,
    PT_EXT_ID,
    PT_LIT_CHAR,
    PT_LIT_STRING,
    PT_NAME_SELECTED,
    PT_ID_LIST_REAL,
    PT_FULL_TYPE_DECLARATION,
    PT_ENUMERATION_TYPE_DEFINITION,
    PT_ENUM_LITERAL_LIST,
    PT_SUBTYPE_DECLARATION,
    PT_SUBTYPE_INDICATION,
    PT_CONSTANT_DECLARATION,
    PT_SUBPROGRAM_DECLARATION,
    PT_FUNCTION_SPECIFICATION,
    PT_DECLARATION_LIST,
    PT_ENTITY,
    PT_ARCHITECTURE,
    PT_PACKAGE_DECLARATION,
    PT_DESIGN_UNIT,
    PT_DESIGN_FILE,
}

/// The declared purity of a function specification.
#[derive(Clone, Copy, PartialEq, Eq, Structural, Debug)]
pub enum ParseTreeFunctionPurity {
    PURITY_UNSPEC,
    PURITY_PURE,
    PURITY_IMPURE,
}

/// A read-only parse-tree node, as the external parser hands it over: a
/// production tag, raw payloads as the production needs them, up to five
/// ordered optional children, and a source span (`-1` when unknown).
pub struct VhdlParseTreeNode {
    pub node_type: ParseTreeNodeType,
    pub str1: Vec<u8>,
    pub str2: Vec<u8>,
    pub chr: u8,
    pub integer: i32,
    pub boolean: bool,
    pub purity: ParseTreeFunctionPurity,
    pub piece0: Option<Box<VhdlParseTreeNode>>,
    pub piece1: Option<Box<VhdlParseTreeNode>>,
    pub piece2: Option<Box<VhdlParseTreeNode>>,
    pub piece3: Option<Box<VhdlParseTreeNode>>,
    pub piece4: Option<Box<VhdlParseTreeNode>>,
    pub first_line: i32,
    pub first_column: i32,
    pub last_line: i32,
    pub last_column: i32,
}

impl Default for VhdlParseTreeNode {
    /// An empty node: no payloads, no children, unknown location.
    fn default() -> (r: VhdlParseTreeNode)
        ensures
            r.node_type == ParseTreeNodeType::PT_INVALID,
            r.str1@ == Seq::<u8>::empty(),
            r.str2@ == Seq::<u8>::empty(),
            r.chr == 0,
            r.integer == 0,
            r.boolean == false,
            r.purity == ParseTreeFunctionPurity::PURITY_UNSPEC,
            r.piece0 is None && r.piece1 is None && r.piece2 is None && r.piece3 is None
                && r.piece4 is None,
            r.first_line == -1 && r.first_column == -1 && r.last_line == -1 && r.last_column == -1,
    {
        VhdlParseTreeNode {
            node_type: ParseTreeNodeType::PT_INVALID,
            str1: Vec::new(),
            str2: Vec::new(),
            chr: 0,
            integer: 0,
            boolean: false,
            purity: ParseTreeFunctionPurity::PURITY_UNSPEC,
            piece0: None,
            piece1: None,
            piece2: None,
            piece3: None,
            piece4: None,
            first_line: -1,
            first_column: -1,
            last_line: -1,
            last_column: -1,
        }
    }
}

/// What a semantic diagnostic reports.
#[derive(Clone, Copy, Debug)]
pub enum DiagnosticKind {
    DuplicateEnumLiteral(EnumerationLiteral),
    DuplicateTypeDecl(Identifier),
    DuplicateSubtypeDecl(Identifier),
    DuplicateConstantDecl(Identifier),
    DuplicateFunctionDecl(ScopeItemName),
    EntityNameMismatch,
    DuplicateDesignUnit(Identifier, Option<SourceLoc>),
    BadTypeMark,
    NotAType,
}

/// One semantic diagnostic: where it happened (`line == -1` when the parse
/// tree carried no span) and what it reports.
#[derive(Clone, Copy, Debug)]
pub struct Diagnostic {
    pub file_name: StringPoolIndexOsStr,
    pub line: i32,
    pub column: i32,
    pub kind: DiagnosticKind,
}

/// The whole session state: the string pool, the arenas, the design
/// database, the diagnostic buffers, and the driver's per-file bookkeeping.
pub struct AnalyzerCoreStateBlob {
    pub sp: StringPool,
    pub op_n: ObjPool<AstNode>,
    pub op_s: ObjPool<Scope>,
    pub op_sc: ObjPool<ScopeChainNode>,
    pub op_l: ObjPool<Library>,
    pub design_db: DesignDatabase,
    pub errors: Vec<Diagnostic>,
    pub warnings: Vec<Diagnostic>,
    pub internal_name_count: u64,
    pub work_lib: Option<ObjPoolIndex<Library>>,
    pub current_file_name: Option<StringPoolIndexOsStr>,
    pub innermost_scope: Option<ObjPoolIndex<ScopeChainNode>>,
    pub blacklisted_names: Vec<ScopeItemName>,
}

/// The scope-chain arena invariant: every link's parent was allocated before
/// the link itself, so every chain is finite.
pub open spec fn chain_parents_decrease(op_sc: Seq<ScopeChainNode>) -> bool {
    forall|i: int|
        0 <= i < op_sc.len() ==> match #[trigger] op_sc[i] {
            ScopeChainNode::X { parent: Some(p), .. } => p.i < i,
            _ => true,
        }
}

/// The state invariant every driver step preserves: the string pool is well
/// formed and scope-chain parents point backwards.
pub open spec fn state_wf(s: AnalyzerCoreStateBlob) -> bool {
    &&& s.sp.wf()
    &&& chain_parents_decrease(s.op_sc@)
}

/// How one driver step may change the state: diagnostics are appended, never
/// rewritten; arenas only grow; interned strings keep their indices and
/// contents.
pub open spec fn state_extends(s0: AnalyzerCoreStateBlob, s1: AnalyzerCoreStateBlob) -> bool {
    &&& s0.errors@.is_prefix_of(s1.errors@)
    &&& s0.warnings@.is_prefix_of(s1.warnings@)
    &&& s1.op_n@.len() >= s0.op_n@.len()
    &&& s1.op_s@.len() >= s0.op_s@.len()
    &&& s1.op_sc@.len() >= s0.op_sc@.len()
    &&& s1.op_l@.len() >= s0.op_l@.len()
    &&& forall|a: int, b: int|
        #[trigger] s0.sp.is_entry(a, b) ==> s1.sp.is_entry(a, b) && s1.sp.str_at(a, b)
            == s0.sp.str_at(a, b)
    &&& s1.work_lib == s0.work_lib
    &&& s1.current_file_name == s0.current_file_name
}

/// Prefixes chain: a prefix of a prefix is a prefix.
pub proof fn lemma_prefix_trans<T>(a: Seq<T>, b: Seq<T>, c: Seq<T>)
    requires
        a.is_prefix_of(b),
        b.is_prefix_of(c),
    ensures
        a.is_prefix_of(c),
{
    assert(a =~= c.subrange(0, a.len() as int)) by {
        assert(forall|i: int| 0 <= i < a.len() ==> a[i] == b.subrange(0, a.len() as int)[i]);
        assert(forall|i: int| 0 <= i < b.len() ==> b[i] == c.subrange(0, b.len() as int)[i]);
    }
}

/// Extension steps chain.
pub proof fn lemma_state_extends_trans(
    a: AnalyzerCoreStateBlob,
    b: AnalyzerCoreStateBlob,
    c: AnalyzerCoreStateBlob,
)
    requires
        state_extends(a, b),
        state_extends(b, c),
    ensures
        state_extends(a, c),
{
    lemma_prefix_trans(a.errors@, b.errors@, c.errors@);
    lemma_prefix_trans(a.warnings@, b.warnings@, c.warnings@);
    assert forall|x: int, y: int| #[trigger] a.sp.is_entry(x, y) implies c.sp.is_entry(x, y)
        && c.sp.str_at(x, y) == a.sp.str_at(x, y) by {
        assert(b.sp.is_entry(x, y));
    }
}

impl AnalyzerCoreStateBlob {
    /// A fresh session: empty pools, empty database, no diagnostics, no file
    /// under analysis.
    pub fn new() -> (r: AnalyzerCoreStateBlob)
        ensures
            state_wf(r),
            r.sp.count() == 0,
            r.op_n@.len() == 0,
            r.op_s@.len() == 0,
            r.op_sc@.len() == 0,
            r.op_l@.len() == 0,
            r.design_db.db_by_name@.len() == 0,
            r.design_db.db_by_order@.len() == 0,
            r.errors@.len() == 0,
            r.warnings@.len() == 0,
            r.internal_name_count == 0,
            r.work_lib is None,
            r.current_file_name is None,
            r.innermost_scope is None,
            r.blacklisted_names@.len() == 0,
    {
        AnalyzerCoreStateBlob {
            sp: StringPool::new(),
            op_n: ObjPool::new(),
            op_s: ObjPool::new(),
            op_sc: ObjPool::new(),
            op_l: ObjPool::new(),
            design_db: DesignDatabase::new(),
            errors: Vec::new(),
            warnings: Vec::new(),
            internal_name_count: 0,
            work_lib: None,
            current_file_name: None,
            innermost_scope: None,
            blacklisted_names: Vec::new(),
        }
    }
}

/// The source span of a parse-tree node, stamped with the file under
/// analysis.
pub open spec fn spec_pt_loc(s: AnalyzerCoreStateBlob, pt: VhdlParseTreeNode) -> SourceLoc {
    SourceLoc {
        first_line: pt.first_line,
        first_column: pt.first_column,
        last_line: pt.last_line,
        last_column: pt.last_column,
        file_name: s.current_file_name,
    }
}

/// Builds the source span of `pt` in the file under analysis.
pub fn pt_loc(s: &AnalyzerCoreStateBlob, pt: &VhdlParseTreeNode) -> (r: SourceLoc)
    ensures
        r == spec_pt_loc(*s, *pt),
{
    SourceLoc {
        first_line: pt.first_line,
        first_column: pt.first_column,
        last_line: pt.last_line,
        last_column: pt.last_column,
        file_name: s.current_file_name,
    }
}

/// The diagnostic recorded at `pt`'s location for `kind`; the line/column
/// pair is kept only when the parse tree carried one.
pub open spec fn diag_at(
    s: AnalyzerCoreStateBlob,
    pt: VhdlParseTreeNode,
    file: StringPoolIndexOsStr,
    kind: DiagnosticKind,
) -> Diagnostic {
    Diagnostic {
        file_name: file,
        line: if pt.first_line != -1 {
            pt.first_line
        } else {
            -1i32
        },
        column: if pt.first_line != -1 {
            pt.first_column
        } else {
            -1i32
        },
        kind: kind,
    }
}

/// Appends one error diagnostic at `pt`'s location.
fn dump_error(s: &mut AnalyzerCoreStateBlob, pt: &VhdlParseTreeNode, kind: DiagnosticKind) -> (r:
    Result<(), Fatal>)
    ensures
        r is Ok <==> old(s).current_file_name is Some,
        r is Ok ==> (*final(s) == (AnalyzerCoreStateBlob {
            errors: final(s).errors,
            ..*old(s)
        }) && final(s).errors@ == old(s).errors@.push(
            diag_at(*old(s), *pt, old(s).current_file_name->0, kind),
        )),
        r is Err ==> (*final(s) == *old(s) && r == Result::<(), Fatal>::Err(
            Fatal::InternalConsistency,
        )),
{
    let file = match s.current_file_name {
        Some(f) => f,
        None => {
            return Err(Fatal::InternalConsistency);
        },
    };
    let (line, column) = if pt.first_line != -1 {
        (pt.first_line, pt.first_column)
    } else {
        (-1, -1)
    };
    s.errors.push(Diagnostic { file_name: file, line, column, kind });
    Ok(())
}

/// Whether a parse-tree node is a (basic or extended) identifier production.
pub open spec fn pt_is_id(pt: VhdlParseTreeNode) -> bool {
    pt.node_type == ParseTreeNodeType::PT_BASIC_ID || pt.node_type == ParseTreeNodeType::PT_EXT_ID
}

/// Whether an identifier production is the extended form.
pub open spec fn pt_id_ext(pt: VhdlParseTreeNode) -> bool {
    pt.node_type == ParseTreeNodeType::PT_EXT_ID
}

/// Everything but the string pool is unchanged.
pub open spec fn only_sp_changed(s0: AnalyzerCoreStateBlob, s1: AnalyzerCoreStateBlob) -> bool {
    s1 == (AnalyzerCoreStateBlob { sp: s1.sp, ..s0 })
}

/// Everything but the scope arena is unchanged, and in it only the scope at
/// `scope` is.
pub open spec fn only_scope_changed(
    s0: AnalyzerCoreStateBlob,
    s1: AnalyzerCoreStateBlob,
    scope: ObjPoolIndex<Scope>,
) -> bool {
    &&& s1 == (AnalyzerCoreStateBlob { op_s: s1.op_s, ..s0 })
    &&& s1.op_s@.len() == s0.op_s@.len()
    &&& forall|j: int| 0 <= j < s0.op_s@.len() && j != scope.i ==> s1.op_s@[j] == s0.op_s@[j]
}

/// Builds an [`Identifier`] from an identifier production. The parser is
/// trusted to reject invalid identifier text, so text that fails validation
/// here is an internal-invariant failure, not a diagnostic.
pub fn analyze_identifier(s: &mut AnalyzerCoreStateBlob, pt: &VhdlParseTreeNode) -> (r: Result<
    Identifier,
    Fatal,
>)
    requires
        state_wf(*old(s)),
    ensures
        state_wf(*final(s)),
        state_extends(*old(s), *final(s)),
        only_sp_changed(*old(s), *final(s)),
        match r {
            Ok(id) => {
                &&& pt_is_id(*pt)
                &&& id_text_ok(pt.str1@, pt_id_ext(*pt))
                &&& id.is_extended_id == pt_id_ext(*pt)
                &&& canonicalized(final(s).sp, id, pt.str1@, pt_id_ext(*pt))
            },
            Err(f) => {
                &&& !pt_is_id(*pt) ==> f == Fatal::UnsupportedParseTree && *final(s) == *old(s)
                &&& pt_is_id(*pt) ==> f == Fatal::AstInvariant && !id_text_ok(
                    pt.str1@,
                    pt_id_ext(*pt),
                )
            },
        },
{
    let ext = match pt.node_type {
        ParseTreeNodeType::PT_BASIC_ID => false,
        ParseTreeNodeType::PT_EXT_ID => true,
        _ => {
            return Err(Fatal::UnsupportedParseTree);
        },
    };
    let sp_idx = s.sp.add_latin1_str(&pt.str1);
    match Identifier::new_latin1(&mut s.sp, sp_idx, ext) {
        Ok(id) => Ok(id),
        Err(_) => Err(Fatal::AstInvariant),
    }
}

/// Whether a parse-tree node is a designator production: an identifier, a
/// string literal (operator symbol), or a character literal.
pub open spec fn pt_is_designator(pt: VhdlParseTreeNode) -> bool {
    pt_is_id(pt) || pt.node_type == ParseTreeNodeType::PT_LIT_STRING || pt.node_type
        == ParseTreeNodeType::PT_LIT_CHAR
}

/// The scope-item name a designator production denotes over pool `sp`: the
/// canonicalized identifier, the interned string literal, or the character.
pub open spec fn designator_denotes(
    sp: StringPool,
    pt: VhdlParseTreeNode,
    n: ScopeItemName,
) -> bool {
    if pt_is_id(pt) {
        &&& n matches ScopeItemName::Identifier(id)
        &&& id_text_ok(pt.str1@, pt_id_ext(pt))
        &&& canonicalized(sp, id, pt.str1@, pt_id_ext(pt))
    } else if pt.node_type == ParseTreeNodeType::PT_LIT_STRING {
        &&& n matches ScopeItemName::StringLiteral(idx)
        &&& sp.is_entry(idx.start as int, idx.end as int)
        &&& sp.str_at(idx.start as int, idx.end as int) == pt.str1@
    } else if pt.node_type == ParseTreeNodeType::PT_LIT_CHAR {
        n == ScopeItemName::CharLiteral(pt.chr)
    } else {
        false
    }
}

/// Builds the scope-item name a designator production denotes.
pub fn analyze_designator(s: &mut AnalyzerCoreStateBlob, pt: &VhdlParseTreeNode) -> (r: Result<
    ScopeItemName,
    Fatal,
>)
    requires
        state_wf(*old(s)),
    ensures
        state_wf(*final(s)),
        state_extends(*old(s), *final(s)),
        only_sp_changed(*old(s), *final(s)),
        match r {
            Ok(n) => pt_is_designator(*pt) && designator_denotes(final(s).sp, *pt, n),
            Err(f) => {
                &&& !pt_is_designator(*pt) ==> f == Fatal::UnsupportedParseTree && *final(s)
                    == *old(s)
                &&& pt_is_designator(*pt) ==> pt_is_id(*pt) && !id_text_ok(
                    pt.str1@,
                    pt_id_ext(*pt),
                ) && f == Fatal::AstInvariant
            },
        },
        pt_is_id(*pt) && id_text_ok(pt.str1@, pt_id_ext(*pt)) ==> r is Ok,
        pt.node_type == ParseTreeNodeType::PT_LIT_STRING ==> r is Ok,
        pt.node_type == ParseTreeNodeType::PT_LIT_CHAR ==> r == Result::<ScopeItemName, Fatal>::Ok(
            ScopeItemName::CharLiteral(pt.chr),
        ),
{
    match pt.node_type {
        ParseTreeNodeType::PT_BASIC_ID | ParseTreeNodeType::PT_EXT_ID => {
            match analyze_identifier(s, pt) {
                Ok(id) => Ok(ScopeItemName::Identifier(id)),
                Err(f) => Err(f),
            }
        },
        ParseTreeNodeType::PT_LIT_STRING => {
            let string_idx = s.sp.add_latin1_str(&pt.str1);
            Ok(ScopeItemName::StringLiteral(string_idx))
        },
        ParseTreeNodeType::PT_LIT_CHAR => Ok(ScopeItemName::CharLiteral(pt.chr)),
        _ => Err(Fatal::UnsupportedParseTree),
    }
}

/// A parameter/result type profile: the ordered parameter types and the
/// optional result type, compared by arena-index equality. Overloads under
/// one name must differ in profile.
pub struct ParameterResultTypeProfile {
    pub result: Option<ObjPoolIndex<AstNode>>,
    pub params: Vec<ObjPoolIndex<AstNode>>,
}

/// The mathematical form of a profile.
pub type Profile = (Option<ObjPoolIndex<AstNode>>, Seq<ObjPoolIndex<AstNode>>);

impl View for ParameterResultTypeProfile {
    type V = Profile;

    open spec fn view(&self) -> Profile {
        (self.result, self.params@)
    }
}

impl PartialEq for ParameterResultTypeProfile {
    fn eq(&self, other: &ParameterResultTypeProfile) -> (r: bool) {
        if self.params.len() != other.params.len() {
            return false;
        }
        let n = self.params.len();
        for i in 0..n
            invariant
                n == self.params@.len(),
                n == other.params@.len(),
                forall|j: int| 0 <= j < i ==> self.params@[j] == other.params@[j],
        {
            if self.params[i] != other.params[i] {
                return false;
            }
        }
        proof {
            assert(self.params@ =~= other.params@);
        }
        match (self.result, other.result) {
            (Some(a), Some(b)) => a == b,
            (None, None) => true,
            _ => false,
        }
    }
}

impl vstd::std_specs::cmp::PartialEqSpecImpl for ParameterResultTypeProfile {
    open spec fn obeys_eq_spec() -> bool {
        true
    }

    open spec fn eq_spec(&self, other: &ParameterResultTypeProfile) -> bool {
        self@ == other@
    }
}

impl Eq for ParameterResultTypeProfile {

}

/// Whether a node has a parameter/result type profile: in the implemented
/// slice, only enumeration-literal declarations have one.
pub open spec fn profile_ok(nodes: Seq<AstNode>, i: ObjPoolIndex<AstNode>) -> bool {
    i.i < nodes.len() && nodes[i.i as int] is EnumerationLitDecl
}

/// The profile of an enumeration-literal declaration: a function of no
/// arguments returning the owning enumeration type.
pub open spec fn spec_profile(nodes: Seq<AstNode>, i: ObjPoolIndex<AstNode>) -> Profile {
    match nodes[i.i as int] {
        AstNode::EnumerationLitDecl { corresponding_type_decl, .. } => (
            Some(corresponding_type_decl),
            Seq::empty(),
        ),
        _ => arbitrary(),
    }
}

/// Computes the parameter/result type profile of a declaration; a node with
/// no notion of profile is an internal-invariant failure.
pub fn get_parameter_result_type_profile(
    s: &AnalyzerCoreStateBlob,
    node_idx: ObjPoolIndex<AstNode>,
) -> (r: Result<ParameterResultTypeProfile, Fatal>)
    ensures
        match r {
            Ok(p) => profile_ok(s.op_n@, node_idx) && p@ == spec_profile(s.op_n@, node_idx),
            Err(f) => !profile_ok(s.op_n@, node_idx) && f == Fatal::AstInvariant,
        },
{
    if node_idx.i >= s.op_n.len() {
        return Err(Fatal::AstInvariant);
    }
    let node = s.op_n.get(node_idx);
    match node {
        AstNode::EnumerationLitDecl { corresponding_type_decl, .. } => {
            let r = ParameterResultTypeProfile {
                result: Some(*corresponding_type_decl),
                params: Vec::new(),
            };
            proof {
                assert(r@ == spec_profile(s.op_n@, node_idx));
            }
            Ok(r)
        },
        _ => Err(Fatal::AstInvariant),
    }
}

/// Whether the profile of some declaration in `existing` (checked in order)
/// equals `newp`; a declaration without a profile is an internal-invariant
/// failure.
pub open spec fn profiles_conflict(
    nodes: Seq<AstNode>,
    existing: Seq<ObjPoolIndex<AstNode>>,
    newp: Profile,
) -> Result<bool, Fatal>
    decreases existing.len(),
{
    if existing.len() == 0 {
        Ok(false)
    } else if !profile_ok(nodes, existing[0]) {
        Err(Fatal::AstInvariant)
    } else if spec_profile(nodes, existing[0]) == newp {
        Ok(true)
    } else {
        profiles_conflict(nodes, existing.drop_first(), newp)
    }
}

/// How a scope changes when `item` is recorded under `name`; mirrors
/// [`Scope::add`].
pub open spec fn scope_add_spec(
    entries: Seq<crate::ast::ScopeEntry>,
    name: ScopeItemName,
    item: ObjPoolIndex<AstNode>,
) -> Seq<crate::ast::ScopeEntry> {
    let p = crate::ast::scope_find_pos(entries, name);
    if p == -1 {
        entries.push((name, seq![item]))
    } else {
        entries.update(p, (entries[p].0, entries[p].1.push(item)))
    }
}

/// The declaration-conflict algorithm over the mathematical scope model.
///
/// A fresh key is inserted unconditionally. Under an existing key, exactly
/// one of the old and new declarations being overloadable is a conflict, as
/// is neither being overloadable; when both are overloadable, it is a
/// conflict exactly when the new declaration's profile equals the profile of
/// one already present. `Ok(Some(..))` carries the new entries, `Ok(None)`
/// is a conflict, `Err(..)` an internal-invariant failure.
pub open spec fn try_add_spec(
    nodes: Seq<AstNode>,
    entries: Seq<crate::ast::ScopeEntry>,
    name: ScopeItemName,
    node: ObjPoolIndex<AstNode>,
) -> Result<Option<Seq<crate::ast::ScopeEntry>>, Fatal> {
    match scope_find(entries, name) {
        None => Ok(Some(scope_add_spec(entries, name, node))),
        Some(existing) => if existing.len() == 0 {
            Err(Fatal::AstInvariant)
        } else if existing[0].i >= nodes.len() {
            Err(Fatal::AstInvariant)
        } else if node.i >= nodes.len() {
            Err(Fatal::AstInvariant)
        } else {
            let existing_over = crate::ast::spec_overloadable(nodes[existing[0].i as int]);
            let this_over = crate::ast::spec_overloadable(nodes[node.i as int]);
            if !(existing_over && this_over) {
                Ok(None)
            } else {
                match profiles_conflict(nodes, existing, spec_profile(nodes, node)) {
                    Err(f) => Err(f),
                    Ok(true) => Ok(None),
                    Ok(false) => Ok(Some(scope_add_spec(entries, name, node))),
                }
            }
        },
    }
}

/// Skipping a non-conflicting prefix does not change whether a conflict
/// exists.
proof fn lemma_profiles_conflict_skip(
    nodes: Seq<AstNode>,
    existing: Seq<ObjPoolIndex<AstNode>>,
    newp: Profile,
    t: int,
)
    requires
        0 <= t <= existing.len(),
        forall|j: int|
            0 <= j < t ==> profile_ok(nodes, #[trigger] existing[j]) && spec_profile(
                nodes,
                existing[j],
            ) != newp,
    ensures
        profiles_conflict(nodes, existing, newp) == profiles_conflict(
            nodes,
            existing.skip(t),
            newp,
        ),
    decreases t,
{
    if t == 0 {
        assert(existing.skip(0) =~= existing);
    } else {
        lemma_profiles_conflict_skip(nodes, existing, newp, t - 1);
        assert(existing.skip(t - 1).drop_first() =~= existing.skip(t));
        assert(existing.skip(t - 1)[0] == existing[t - 1]);
        assert(profile_ok(nodes, existing[t - 1]) && spec_profile(nodes, existing[t - 1]) != newp);
        assert(profiles_conflict(nodes, existing.skip(t - 1), newp) == profiles_conflict(
            nodes,
            existing.skip(t),
            newp,
        ));
    }
}

/// A successful insertion of a non-overloadable declaration can only have
/// used a fresh key, which afterwards maps to exactly that declaration.
proof fn lemma_singular_added(
    nodes: Seq<AstNode>,
    entries: Seq<crate::ast::ScopeEntry>,
    name: ScopeItemName,
    x: ObjPoolIndex<AstNode>,
)
    requires
        x.i < nodes.len(),
        !crate::ast::spec_overloadable(nodes[x.i as int]),
        try_add_spec(nodes, entries, name, x) matches Ok(Some(_)),
    ensures
        scope_find(entries, name) is None,
        scope_find(scope_add_spec(entries, name, x), name) == Some(seq![x]),
{
    lemma_find_after_fresh_add(entries, name, x);
}

/// Tries to record declaration `node` under `name` in the scope at `scope`,
/// per the declaration-conflict algorithm ([`try_add_spec`]). Returns
/// `Ok(true)` on success, `Ok(false)` on a conflict (the caller reports a
/// duplicate-declaration diagnostic); the state is unchanged except for the
/// one scope, and untouched on conflict or failure.
pub fn try_add_declaration(
    s: &mut AnalyzerCoreStateBlob,
    name: ScopeItemName,
    node: ObjPoolIndex<AstNode>,
    scope: ObjPoolIndex<Scope>,
) -> (r: Result<bool, Fatal>)
    requires
        state_wf(*old(s)),
    ensures
        state_wf(*final(s)),
        state_extends(*old(s), *final(s)),
        scope.i >= old(s).op_s@.len() ==> r == Result::<bool, Fatal>::Err(Fatal::AstInvariant)
            && *final(s) == *old(s),
        scope.i < old(s).op_s@.len() ==> (match try_add_spec(
            old(s).op_n@,
            old(s).op_s@[scope.i as int]@,
            name,
            node,
        ) {
            Err(f) => r == Result::<bool, Fatal>::Err(f) && *final(s) == *old(s),
            Ok(None) => r == Result::<bool, Fatal>::Ok(false) && *final(s) == *old(s),
            Ok(Some(entries2)) => r == Result::<bool, Fatal>::Ok(true) && only_scope_changed(
                *old(s),
                *final(s),
                scope,
            ) && final(s).op_s@[scope.i as int]@ == entries2,
        }),
{
    if scope.i >= s.op_s.len() {
        return Err(Fatal::AstInvariant);
    }
    let ghost entries0 = s.op_s@[scope.i as int]@;
    // First decide, reading only; then mutate. `Ok(true)` means insert.
    let decision: Result<bool, Fatal> = {
        let scope_ref = s.op_s.get(scope);
        match scope_ref.get(name) {
            None => Ok(true),
            Some(existing) => {
                if existing.len() == 0 {
                    Err(Fatal::AstInvariant)
                } else if existing[0].i >= s.op_n.len() {
                    Err(Fatal::AstInvariant)
                } else if node.i >= s.op_n.len() {
                    Err(Fatal::AstInvariant)
                } else {
                    let existing_over = s.op_n.get(existing[0]).is_an_overloadable_decl();
                    let this_over = s.op_n.get(node).is_an_overloadable_decl();
                    if !(existing_over && this_over) {
                        Ok(false)
                    } else {
                        match get_parameter_result_type_profile(s, node) {
                            Err(f) => Err(f),
                            Ok(typeprof_of_new) => {
                                let ghost newp = typeprof_of_new@;
                                let m = existing.len();
                                let mut conflict: bool = false;
                                let mut fatal: bool = false;
                                let mut t: usize = 0;
                                while t < m && !conflict && !fatal
                                    invariant
                                        m == existing@.len(),
                                        t <= m,
                                        newp == typeprof_of_new@,
                                        typeprof_of_new@ == spec_profile(s.op_n@, node),
                                        !conflict || !fatal,
                                        (!conflict && !fatal) ==> forall|j: int|
                                            0 <= j < t ==> profile_ok(
                                                s.op_n@,
                                                #[trigger] existing@[j],
                                            ) && spec_profile(s.op_n@, existing@[j]) != newp,
                                        conflict ==> profiles_conflict(s.op_n@, existing@, newp)
                                            == Result::<bool, Fatal>::Ok(true),
                                        fatal ==> profiles_conflict(s.op_n@, existing@, newp)
                                            == Result::<bool, Fatal>::Err(Fatal::AstInvariant),
                                    decreases m - t, (if conflict || fatal {
                                        0int
                                    } else {
                                        1int
                                    }),
                                {
                                    proof {
                                        lemma_profiles_conflict_skip(
                                            s.op_n@,
                                            existing@,
                                            newp,
                                            t as int,
                                        );
                                        assert(existing@.skip(t as int)[0] == existing@[t as int]);
                                    }
                                    match get_parameter_result_type_profile(s, existing[t]) {
                                        Err(_) => {
                                            fatal = true;
                                        },
                                        Ok(typeprof_of_existing) => {
                                            if typeprof_of_new == typeprof_of_existing {
                                                conflict = true;
                                            } else {
                                                t += 1;
                                            }
                                        },
                                    }
                                }
                                proof {
                                    if !conflict && !fatal {
                                        lemma_profiles_conflict_skip(
                                            s.op_n@,
                                            existing@,
                                            newp,
                                            m as int,
                                        );
                                        assert(existing@.skip(m as int) =~= Seq::<
                                            ObjPoolIndex<AstNode>,
                                        >::empty());
                                    }
                                }
                                if fatal {
                                    Err(Fatal::AstInvariant)
                                } else if conflict {
                                    Ok(false)
                                } else {
                                    Ok(true)
                                }
                            },
                        }
                    }
                }
            },
        }
    };
    match decision {
        Err(f) => Err(f),
        Ok(false) => Ok(false),
        Ok(true) => {
            s.op_s.get_mut(scope).add(name, node);
            proof {
                assert(final(s).op_s@[scope.i as int]@ == scope_add_spec(entries0, name, node));
            }
            Ok(true)
        },
    }
}

/// Whether `p` is among the already-used profiles.
pub open spec fn profile_in(used: Seq<Profile>, p: Profile) -> bool {
    exists|j: int| 0 <= j < used.len() && used[j] == p
}

/// The views of a vector of profiles.
pub open spec fn views_of(v: Seq<ParameterResultTypeProfile>) -> Seq<Profile> {
    v.map_values(|p: ParameterResultTypeProfile| p@)
}

/// Merges the declarations `found` at one scope into the resolution result:
/// each one whose profile is not already shadowed (used) is taken, in order,
/// and its profile becomes used. A declaration without a profile is an
/// internal-invariant failure.
pub open spec fn merge_spec(
    nodes: Seq<AstNode>,
    found: Seq<ObjPoolIndex<AstNode>>,
    used: Seq<Profile>,
    acc: Seq<ObjPoolIndex<AstNode>>,
) -> Result<(Seq<Profile>, Seq<ObjPoolIndex<AstNode>>), Fatal>
    decreases found.len(),
{
    if found.len() == 0 {
        Ok((used, acc))
    } else if !profile_ok(nodes, found[0]) {
        Err(Fatal::AstInvariant)
    } else {
        let p = spec_profile(nodes, found[0]);
        if profile_in(used, p) {
            merge_spec(nodes, found.drop_first(), used, acc)
        } else {
            merge_spec(nodes, found.drop_first(), used.push(p), acc.push(found[0]))
        }
    }
}

/// A measure that shrinks as the walk moves outward along the chain.
pub open spec fn cur_rank(cur: Option<ObjPoolIndex<ScopeChainNode>>) -> int {
    match cur {
        Some(h) => h.i + 1,
        None => 0,
    }
}

/// The scope-chain resolution walk, from the link `cur` outward.
///
/// At the first link whose scope knows `name`, the first declaration found
/// decides the mode: a non-overloadable declaration must be alone and is the
/// whole answer (full shadowing); overloadable declarations are merged by
/// profile ([`merge_spec`]) and the walk continues outward, so outer scopes
/// can still contribute overloads whose profile no inner scope has taken.
/// Out-of-range indices, an empty declaration list, and a profile-less
/// declaration in overload mode are internal-invariant failures.
pub open spec fn walk_spec(
    nodes: Seq<AstNode>,
    scopes: Seq<Scope>,
    chain: Seq<ScopeChainNode>,
    cur: Option<ObjPoolIndex<ScopeChainNode>>,
    name: ScopeItemName,
    first_time: bool,
    looking_overloadable: bool,
    used: Seq<Profile>,
    acc: Seq<ObjPoolIndex<AstNode>>,
) -> Result<Seq<ObjPoolIndex<AstNode>>, Fatal>
    decreases cur_rank(cur),
        when chain_parents_decrease(chain)
{
    match cur {
        None => Ok(acc),
        Some(h) => {
            if h.i >= chain.len() {
                Err(Fatal::AstInvariant)
            } else {
                match chain[h.i as int] {
                    ScopeChainNode::Invalid => Err(Fatal::AstInvariant),
                    ScopeChainNode::X { this_scope, parent } => {
                        if this_scope.i >= scopes.len() {
                            Err(Fatal::AstInvariant)
                        } else {
                            match scope_find(scopes[this_scope.i as int]@, name) {
                                None => walk_spec(
                                    nodes,
                                    scopes,
                                    chain,
                                    parent,
                                    name,
                                    first_time,
                                    looking_overloadable,
                                    used,
                                    acc,
                                ),
                                Some(found) => {
                                    if found.len() == 0 {
                                        Err(Fatal::AstInvariant)
                                    } else if first_time && found[0].i >= nodes.len() {
                                        Err(Fatal::AstInvariant)
                                    } else {
                                        let look = if first_time {
                                            crate::ast::spec_overloadable(
                                                nodes[found[0].i as int],
                                            )
                                        } else {
                                            looking_overloadable
                                        };
                                        if !look {
                                            if found.len() != 1 {
                                                Err(Fatal::AstInvariant)
                                            } else {
                                                Ok(acc.push(found[0]))
                                            }
                                        } else {
                                            match merge_spec(nodes, found, used, acc) {
                                                Err(f) => Err(f),
                                                Ok((used2, acc2)) => walk_spec(
                                                    nodes,
                                                    scopes,
                                                    chain,
                                                    parent,
                                                    name,
                                                    false,
                                                    true,
                                                    used2,
                                                    acc2,
                                                ),
                                            }
                                        }
                                    }
                                },
                            }
                        }
                    },
                }
            }
        },
    }
}

/// Merging is stable under arena growth: a merge that succeeded reads only
/// existing declarations, which growth leaves in place.
proof fn lemma_merge_spec_stable(
    nodes0: Seq<AstNode>,
    nodes1: Seq<AstNode>,
    found: Seq<ObjPoolIndex<AstNode>>,
    used: Seq<Profile>,
    acc: Seq<ObjPoolIndex<AstNode>>,
)
    requires
        nodes1.len() >= nodes0.len(),
        forall|j: int| 0 <= j < nodes0.len() ==> nodes1[j] == nodes0[j],
        merge_spec(nodes0, found, used, acc) is Ok,
    ensures
        merge_spec(nodes1, found, used, acc) == merge_spec(nodes0, found, used, acc),
    decreases found.len(),
{
    if found.len() > 0 {
        assert(profile_ok(nodes0, found[0]));
        assert(nodes1[found[0].i as int] == nodes0[found[0].i as int]);
        let p = spec_profile(nodes0, found[0]);
        if profile_in(used, p) {
            lemma_merge_spec_stable(nodes0, nodes1, found.drop_first(), used, acc);
        } else {
            lemma_merge_spec_stable(
                nodes0,
                nodes1,
                found.drop_first(),
                used.push(p),
                acc.push(found[0]),
            );
        }
    }
}

/// Resolution is stable under arena growth: a walk that did not fail reads
/// only existing declarations, which growth leaves in place.
proof fn lemma_walk_spec_stable(
    nodes0: Seq<AstNode>,
    nodes1: Seq<AstNode>,
    scopes: Seq<Scope>,
    chain: Seq<ScopeChainNode>,
    cur: Option<ObjPoolIndex<ScopeChainNode>>,
    name: ScopeItemName,
    first_time: bool,
    looking_overloadable: bool,
    used: Seq<Profile>,
    acc: Seq<ObjPoolIndex<AstNode>>,
)
    requires
        chain_parents_decrease(chain),
        nodes1.len() >= nodes0.len(),
        forall|j: int| 0 <= j < nodes0.len() ==> nodes1[j] == nodes0[j],
        walk_spec(
            nodes0,
            scopes,
            chain,
            cur,
            name,
            first_time,
            looking_overloadable,
            used,
            acc,
        ) is Ok,
    ensures
        walk_spec(nodes1, scopes, chain, cur, name, first_time, looking_overloadable, used, acc)
            == walk_spec(
            nodes0,
            scopes,
            chain,
            cur,
            name,
            first_time,
            looking_overloadable,
            used,
            acc,
        ),
    decreases cur_rank(cur),
{
    if let Some(h) = cur {
        if let ScopeChainNode::X { this_scope, parent } = chain[h.i as int] {
            match scope_find(scopes[this_scope.i as int]@, name) {
                None => {
                    lemma_walk_spec_stable(
                        nodes0,
                        nodes1,
                        scopes,
                        chain,
                        parent,
                        name,
                        first_time,
                        looking_overloadable,
                        used,
                        acc,
                    );
                },
                Some(found) => {
                    if first_time {
                        assert(nodes1[found[0].i as int] == nodes0[found[0].i as int]);
                    }
                    let look = if first_time {
                        crate::ast::spec_overloadable(nodes0[found[0].i as int])
                    } else {
                        looking_overloadable
                    };
                    if look {
                        lemma_merge_spec_stable(nodes0, nodes1, found, used, acc);
                        if let Ok((used2, acc2)) = merge_spec(nodes0, found, used, acc) {
                            lemma_walk_spec_stable(
                                nodes0,
                                nodes1,
                                scopes,
                                chain,
                                parent,
                                name,
                                false,
                                true,
                                used2,
                                acc2,
                            );
                        }
                    }
                },
            }
        }
    }
}

/// Resolution outcomes survive arena growth (and diagnostic appends): they
/// read only the pool, the scopes, the chain, and existing declarations.
proof fn lemma_resolves_to_grows(
    bl: Seq<ScopeItemName>,
    s1: AnalyzerCoreStateBlob,
    s2: AnalyzerCoreStateBlob,
    pt: VhdlParseTreeNode,
)
    requires
        chain_parents_decrease(s1.op_sc@),
        s2.sp == s1.sp,
        s2.op_s@ == s1.op_s@,
        s2.op_sc@ == s1.op_sc@,
        s2.innermost_scope == s1.innermost_scope,
        s2.op_n@.len() >= s1.op_n@.len(),
        forall|j: int| 0 <= j < s1.op_n@.len() ==> s2.op_n@[j] == s1.op_n@[j],
    ensures
        forall|n: ScopeItemName, resv: Option<Seq<ObjPoolIndex<AstNode>>>|
            #[trigger] resolves_to(bl, s1, pt, n, resv) ==> resolves_to(bl, s2, pt, n, resv),
{
    assert forall|n: ScopeItemName, resv: Option<Seq<ObjPoolIndex<AstNode>>>|
        #[trigger] resolves_to(bl, s1, pt, n, resv) implies resolves_to(bl, s2, pt, n, resv) by {
        if !in_blacklist(bl, n) {
            lemma_walk_spec_stable(
                s1.op_n@,
                s2.op_n@,
                s1.op_s@,
                s1.op_sc@,
                s1.innermost_scope,
                n,
                true,
                false,
                Seq::empty(),
                Seq::empty(),
            );
            assert(resolve_spec(s2, n) == resolve_spec(s1, n));
        }
    }
}

/// The walk's result from the innermost link of the current chain.
pub open spec fn resolve_spec(s: AnalyzerCoreStateBlob, name: ScopeItemName) -> Result<
    Seq<ObjPoolIndex<AstNode>>,
    Fatal,
> {
    walk_spec(
        s.op_n@,
        s.op_s@,
        s.op_sc@,
        s.innermost_scope,
        name,
        true,
        false,
        Seq::empty(),
        Seq::empty(),
    )
}

/// Overload accumulation: under one key, overloadable declarations with
/// pairwise distinct profiles accumulate, and a lookup returns all of them
/// in insertion order.
pub proof fn lemma_overload_accumulation(
    nodes: Seq<AstNode>,
    e0: Seq<crate::ast::ScopeEntry>,
    name: ScopeItemName,
    n1: ObjPoolIndex<AstNode>,
    n2: ObjPoolIndex<AstNode>,
    n3: ObjPoolIndex<AstNode>,
)
    requires
        scope_find(e0, name) is None,
        profile_ok(nodes, n1),
        profile_ok(nodes, n2),
        profile_ok(nodes, n3),
        spec_profile(nodes, n1) != spec_profile(nodes, n2),
        spec_profile(nodes, n1) != spec_profile(nodes, n3),
        spec_profile(nodes, n2) != spec_profile(nodes, n3),
    ensures
        ({
            let e1 = scope_add_spec(e0, name, n1);
            let e2 = scope_add_spec(e1, name, n2);
            let e3 = scope_add_spec(e2, name, n3);
            &&& try_add_spec(nodes, e0, name, n1) == Ok::<_, Fatal>(Some(e1))
            &&& try_add_spec(nodes, e1, name, n2) == Ok::<_, Fatal>(Some(e2))
            &&& try_add_spec(nodes, e2, name, n3) == Ok::<_, Fatal>(Some(e3))
            &&& scope_find(e3, name) == Some(seq![n1, n2, n3])
        }),
{
    reveal_with_fuel(profiles_conflict, 4);
    let e1 = scope_add_spec(e0, name, n1);
    let e2 = scope_add_spec(e1, name, n2);
    let e3 = scope_add_spec(e2, name, n3);
    crate::ast::lemma_scope_find_pos_props(e0, name);
    assert(e1 == e0.push((name, seq![n1])));
    lemma_find_after_fresh_add(e0, name, n1);
    let q = e0.len() as int;
    assert(scope_find(e1, name) == Some(seq![n1]));
    // second add: one overloadable entry with a different profile
    assert(seq![n1][0] == n1);
    assert(seq![n1].drop_first() =~= Seq::<ObjPoolIndex<AstNode>>::empty());
    assert(profiles_conflict(nodes, seq![n1], spec_profile(nodes, n2)) == Ok::<bool, Fatal>(false));
    assert(e2 == e1.update(q, (e1[q].0, seq![n1].push(n2))));
    lemma_find_after_grow(e1, name, n2);
    assert(scope_find(e2, name) == Some(seq![n1, n2])) by {
        assert(seq![n1].push(n2) =~= seq![n1, n2]);
    }
    // third add: two overloadable entries, both with different profiles
    assert(seq![n1, n2][0] == n1);
    assert(seq![n1, n2].drop_first() =~= seq![n2]);
    assert(seq![n2].drop_first() =~= Seq::<ObjPoolIndex<AstNode>>::empty());
    assert(profiles_conflict(nodes, seq![n1, n2], spec_profile(nodes, n3)) == Ok::<bool, Fatal>(
        false,
    ));
    lemma_find_after_grow(e2, name, n3);
    assert(scope_find(e3, name) == Some(seq![n1, n2, n3])) by {
        assert(seq![n1, n2].push(n3) =~= seq![n1, n2, n3]);
    }
}

/// A non-overloadable key accepts one declaration: a second declaration
/// under the same key is rejected.
pub proof fn lemma_non_overloadable_rejected(
    nodes: Seq<AstNode>,
    e0: Seq<crate::ast::ScopeEntry>,
    name: ScopeItemName,
    n1: ObjPoolIndex<AstNode>,
    n2: ObjPoolIndex<AstNode>,
)
    requires
        scope_find(e0, name) is None,
        n1.i < nodes.len(),
        n2.i < nodes.len(),
        !crate::ast::spec_overloadable(nodes[n1.i as int]),
    ensures
        try_add_spec(nodes, e0, name, n1) == Ok::<_, Fatal>(Some(scope_add_spec(e0, name, n1))),
        try_add_spec(nodes, scope_add_spec(e0, name, n1), name, n2) == Ok::<
            Option<Seq<crate::ast::ScopeEntry>>,
            Fatal,
        >(None),
{
    lemma_find_after_fresh_add(e0, name, n1);
}

/// After adding `item` under a key the scope did not know, a lookup of the
/// key finds exactly that item.
pub proof fn lemma_find_after_fresh_add_pub(
    e0: Seq<crate::ast::ScopeEntry>,
    name: ScopeItemName,
    item: ObjPoolIndex<AstNode>,
)
    requires
        scope_find(e0, name) is None,
    ensures
        scope_find(scope_add_spec(e0, name, item), name) == Some(seq![item]),
{
    lemma_find_after_fresh_add(e0, name, item);
}

/// After adding `item` under a key the scope did not know, a lookup of the
/// key finds exactly that item.
proof fn lemma_find_after_fresh_add(
    e0: Seq<crate::ast::ScopeEntry>,
    name: ScopeItemName,
    item: ObjPoolIndex<AstNode>,
)
    requires
        scope_find(e0, name) is None,
    ensures
        scope_add_spec(e0, name, item) == e0.push((name, seq![item])),
        crate::ast::scope_find_pos(scope_add_spec(e0, name, item), name) == e0.len(),
        scope_find(scope_add_spec(e0, name, item), name) == Some(seq![item]),
{
    let e1 = scope_add_spec(e0, name, item);
    crate::ast::lemma_scope_find_pos_props(e0, name);
    let q = e0.len() as int;
    assert(forall|j: int| 0 <= j < q ==> (#[trigger] e1[j]) == e0[j]);
    assert(name_eq(e1[q].0, name)) by {
        crate::ast::lemma_name_eq_reflexive(name);
    }
    crate::ast::lemma_scope_find_pos_first(e1, name, q);
}

/// After appending `item` to the entry a key already has, a lookup finds the
/// old items with `item` at the end.
proof fn lemma_find_after_grow(
    e0: Seq<crate::ast::ScopeEntry>,
    name: ScopeItemName,
    item: ObjPoolIndex<AstNode>,
)
    requires
        scope_find(e0, name) is Some,
    ensures
        crate::ast::scope_find_pos(scope_add_spec(e0, name, item), name)
            == crate::ast::scope_find_pos(e0, name),
        scope_find(scope_add_spec(e0, name, item), name) == Some(
            scope_find(e0, name)->0.push(item),
        ),
{
    let p = crate::ast::scope_find_pos(e0, name);
    crate::ast::lemma_scope_find_pos_props(e0, name);
    let e1 = scope_add_spec(e0, name, item);
    assert(e1 == e0.update(p, (e0[p].0, e0[p].1.push(item))));
    assert(forall|j: int| 0 <= j < e0.len() ==> (#[trigger] e1[j]).0 == (#[trigger] e0[j]).0);
    crate::ast::lemma_scope_find_pos_same_keys(e0, e1, name);
}

/// Scope-chain resolution over a two-region chain (`inner` chained to
/// `outer`), with `name` defined in both.
///
/// A non-overloadable inner declaration fully shadows the outer one. An
/// overloadable inner declaration shadows only outer overloads of the same
/// profile: with distinct profiles the result is the union, inner first;
/// with equal profiles it is the inner declaration alone.
pub proof fn lemma_chain_resolution(
    nodes: Seq<AstNode>,
    scopes: Seq<Scope>,
    chain: Seq<ScopeChainNode>,
    h: ObjPoolIndex<ScopeChainNode>,
    hp: ObjPoolIndex<ScopeChainNode>,
    si: ObjPoolIndex<Scope>,
    so: ObjPoolIndex<Scope>,
    name: ScopeItemName,
    ni: ObjPoolIndex<AstNode>,
    no: ObjPoolIndex<AstNode>,
)
    requires
        chain_parents_decrease(chain),
        h.i < chain.len(),
        chain[h.i as int] == (ScopeChainNode::X { this_scope: si, parent: Some(hp) }),
        hp.i < chain.len(),
        chain[hp.i as int] == (ScopeChainNode::X { this_scope: so, parent: None::<
            ObjPoolIndex<ScopeChainNode>,
        > }),
        si.i < scopes.len(),
        so.i < scopes.len(),
        scope_find(scopes[si.i as int]@, name) == Some(seq![ni]),
        scope_find(scopes[so.i as int]@, name) == Some(seq![no]),
        ni.i < nodes.len(),
    ensures
        !crate::ast::spec_overloadable(nodes[ni.i as int]) ==> walk_spec(
            nodes,
            scopes,
            chain,
            Some(h),
            name,
            true,
            false,
            Seq::empty(),
            Seq::empty(),
        ) == Ok::<_, Fatal>(seq![ni]),
        profile_ok(nodes, ni) && profile_ok(nodes, no) && spec_profile(nodes, ni) != spec_profile(
            nodes,
            no,
        ) ==> walk_spec(
            nodes,
            scopes,
            chain,
            Some(h),
            name,
            true,
            false,
            Seq::empty(),
            Seq::empty(),
        ) == Ok::<_, Fatal>(seq![ni, no]),
        profile_ok(nodes, ni) && profile_ok(nodes, no) && spec_profile(nodes, ni) == spec_profile(
            nodes,
            no,
        ) ==> walk_spec(
            nodes,
            scopes,
            chain,
            Some(h),
            name,
            true,
            false,
            Seq::empty(),
            Seq::empty(),
        ) == Ok::<_, Fatal>(seq![ni]),
{
    reveal_with_fuel(merge_spec, 4);
    reveal_with_fuel(walk_spec, 4);
    let empty_acc = Seq::<ObjPoolIndex<AstNode>>::empty();
    let empty_used = Seq::<Profile>::empty();
    if !crate::ast::spec_overloadable(nodes[ni.i as int]) {
        assert(walk_spec(nodes, scopes, chain, Some(h), name, true, false, empty_used, empty_acc)
            == Ok::<_, Fatal>(empty_acc.push(ni)));
        assert(empty_acc.push(ni) =~= seq![ni]);
    } else if profile_ok(nodes, ni) && profile_ok(nodes, no) {
        let pi = spec_profile(nodes, ni);
        let po = spec_profile(nodes, no);
        // the inner scope merges ni
        assert(seq![ni][0] == ni);
        assert(!profile_in(empty_used, pi));
        assert(seq![ni].drop_first() =~= empty_acc);
        let used1 = empty_used.push(pi);
        let acc1 = empty_acc.push(ni);
        assert(merge_spec(nodes, seq![ni], empty_used, empty_acc) == Ok::<_, Fatal>(
            (used1, acc1),
        ));
        // the outer scope merges no or shadows it, by profile
        assert(seq![no][0] == no);
        assert(seq![no].drop_first() =~= empty_acc);
        if pi != po {
            assert(!profile_in(used1, po)) by {
                assert(forall|j: int| 0 <= j < used1.len() ==> used1[j] == pi);
            }
            let used2 = used1.push(po);
            let acc2 = acc1.push(no);
            assert(merge_spec(nodes, seq![no], used1, acc1) == Ok::<_, Fatal>((used2, acc2)));
            assert(walk_spec(nodes, scopes, chain, None, name, false, true, used2, acc2) == Ok::<
                _,
                Fatal,
            >(acc2));
            assert(acc2 =~= seq![ni, no]);
        } else {
            assert(profile_in(used1, po)) by {
                assert(used1[0] == po);
            }
            assert(merge_spec(nodes, seq![no], used1, acc1) == Ok::<_, Fatal>((used1, acc1)));
            assert(walk_spec(nodes, scopes, chain, None, name, false, true, used1, acc1) == Ok::<
                _,
                Fatal,
            >(acc1));
            assert(acc1 =~= seq![ni]);
        }
    }
}

/// Whether `p`'s profile equals one held in `used`.
fn profile_used(used: &Vec<ParameterResultTypeProfile>, p: &ParameterResultTypeProfile) -> (r:
    bool)
    ensures
        r == profile_in(views_of(used@), p@),
{
    let n = used.len();
    for j in 0..n
        invariant
            n == used@.len(),
            forall|k: int| 0 <= k < j ==> views_of(used@)[k] != p@,
    {
        proof {
            assert(views_of(used@)[j as int] == used@[j as int]@);
        }
        if used[j] == *p {
            return true;
        }
    }
    false
}

/// Resolves `name` through the scope chain, from the innermost region
/// outward; see [`walk_spec`]. `Ok(None)` is "not found"; a found result
/// always holds at least one declaration.
#[verifier::loop_isolation(false)]
pub fn walk_scope_chain(s: &AnalyzerCoreStateBlob, item: ScopeItemName) -> (r: Result<
    Option<Vec<ObjPoolIndex<AstNode>>>,
    Fatal,
>)
    requires
        chain_parents_decrease(s.op_sc@),
    ensures
        match resolve_spec(*s, item) {
            Err(f) => r == Result::<Option<Vec<ObjPoolIndex<AstNode>>>, Fatal>::Err(f),
            Ok(v) => if v.len() > 0 {
                r matches Ok(Some(vec)) && vec@ == v
            } else {
                r matches Ok(None)
            },
        },
{
    let mut ret: Vec<ObjPoolIndex<AstNode>> = Vec::new();
    let mut cur_scope_node: Option<ObjPoolIndex<ScopeChainNode>> = s.innermost_scope;
    let mut looking_for_overloadable: bool = false;
    let mut first_time: bool = true;
    let mut done: bool = false;
    let mut used_profiles: Vec<ParameterResultTypeProfile> = Vec::new();
    proof {
        assert(views_of(used_profiles@) =~= Seq::<Profile>::empty());
    }
    while !done && cur_scope_node.is_some()
        invariant
            !done ==> walk_spec(
                s.op_n@,
                s.op_s@,
                s.op_sc@,
                cur_scope_node,
                item,
                first_time,
                looking_for_overloadable,
                views_of(used_profiles@),
                ret@,
            ) == resolve_spec(*s, item),
            done ==> resolve_spec(*s, item) == Result::<Seq<ObjPoolIndex<AstNode>>, Fatal>::Ok(
                ret@,
            ) && ret@.len() > 0,
            first_time ==> ret@.len() == 0,
            !first_time && !done ==> looking_for_overloadable,
        decreases cur_rank(cur_scope_node), (if done {
            0int
        } else {
            1int
        }),
    {
        let ghost uv0 = views_of(used_profiles@);
        let ghost rv0 = ret@;
        let h = cur_scope_node.unwrap();
        if h.i >= s.op_sc.len() {
            return Err(Fatal::AstInvariant);
        }
        let (this_scope, parent) = match s.op_sc.get(h) {
            ScopeChainNode::Invalid => {
                return Err(Fatal::AstInvariant);
            },
            ScopeChainNode::X { this_scope, parent } => (*this_scope, *parent),
        };
        if this_scope.i >= s.op_s.len() {
            return Err(Fatal::AstInvariant);
        }
        match s.op_s.get(this_scope).get(item) {
            None => {
                cur_scope_node = parent;
            },
            Some(maybe_found_thing) => {
                if maybe_found_thing.len() == 0 {
                    return Err(Fatal::AstInvariant);
                }
                if first_time {
                    if maybe_found_thing[0].i >= s.op_n.len() {
                        return Err(Fatal::AstInvariant);
                    }
                    looking_for_overloadable = s.op_n.get(
                        maybe_found_thing[0],
                    ).is_an_overloadable_decl();
                    first_time = false;
                }
                if !looking_for_overloadable {
                    if maybe_found_thing.len() != 1 {
                        return Err(Fatal::AstInvariant);
                    }
                    ret.push(maybe_found_thing[0]);
                    proof {
                        assert(ret@ == rv0.push(maybe_found_thing@[0]));
                    }
                    done = true;
                } else {
                    let m = maybe_found_thing.len();
                    let ghost found = maybe_found_thing@;
                    proof {
                        assert(found.skip(0) =~= found);
                    }
                    for t in 0..m
                        invariant
                            merge_spec(
                                s.op_n@,
                                found.skip(t as int),
                                views_of(used_profiles@),
                                ret@,
                            ) == merge_spec(s.op_n@, found, uv0, rv0),
                        decreases m - t,
                    {
                        proof {
                            assert(found.skip(t as int)[0] == found[t as int]);
                            assert(found.skip(t as int).drop_first() =~= found.skip(t + 1));
                        }
                        let this_profile = match get_parameter_result_type_profile(
                            s,
                            maybe_found_thing[t],
                        ) {
                            Err(f) => {
                                return Err(f);
                            },
                            Ok(p) => p,
                        };
                        if !profile_used(&used_profiles, &this_profile) {
                            let ghost used_pre = used_profiles@;
                            ret.push(maybe_found_thing[t]);
                            used_profiles.push(this_profile);
                            proof {
                                assert(views_of(used_profiles@) =~= views_of(used_pre).push(
                                    this_profile@,
                                ));
                            }
                        }
                    }
                    proof {
                        assert(found.skip(m as int) =~= Seq::<ObjPoolIndex<AstNode>>::empty());
                    }
                    cur_scope_node = parent;
                }
            },
        }
    }
    if ret.len() > 0 {
        Ok(Some(ret))
    } else {
        Ok(None)
    }
}

/// Whether a name is blacklisted (hidden while its own declaration is being
/// analyzed).
pub open spec fn in_blacklist(bl: Seq<ScopeItemName>, n: ScopeItemName) -> bool {
    exists|j: int| 0 <= j < bl.len() && name_eq(bl[j], n)
}

/// Whether `n` is in the blacklist.
fn blacklist_contains(bl: &Vec<ScopeItemName>, n: &ScopeItemName) -> (r: bool)
    ensures
        r == in_blacklist(bl@, *n),
{
    let m = bl.len();
    for j in 0..m
        invariant
            m == bl@.len(),
            forall|k: int| 0 <= k < j ==> !name_eq(bl@[k], *n),
    {
        if bl[j] == *n {
            return true;
        }
    }
    false
}

/// Copies a vector of arena indices.
fn copy_idx_vec(v: &Vec<ObjPoolIndex<AstNode>>) -> (r: Vec<ObjPoolIndex<AstNode>>)
    ensures
        r@ == v@,
{
    let mut out: Vec<ObjPoolIndex<AstNode>> = Vec::new();
    let m = v.len();
    for j in 0..m
        invariant
            m == v@.len(),
            out@ == v@.take(j as int),
    {
        out.push(v[j]);
        proof {
            assert(v@.take(j + 1) =~= v@.take(j as int).push(v@[j as int]));
        }
    }
    proof {
        assert(v@.take(m as int) =~= v@);
    }
    out
}

/// What resolving a simple name (a designator production) yields: `n` is the
/// name the designator denotes over the final pool; a blacklisted name is
/// "not found"; otherwise the scope-chain walk decides, with an empty result
/// meaning "not found".
pub open spec fn resolves_to(
    bl: Seq<ScopeItemName>,
    s1: AnalyzerCoreStateBlob,
    pt: VhdlParseTreeNode,
    n: ScopeItemName,
    res: Option<Seq<ObjPoolIndex<AstNode>>>,
) -> bool {
    &&& designator_denotes(s1.sp, pt, n)
    &&& in_blacklist(bl, n) ==> res is None
    &&& !in_blacklist(bl, n) ==> (resolve_spec(s1, n) matches Ok(v) && (if v.len() > 0 {
        res == Some(v)
    } else {
        res is None
    }))
}

/// What a selected (dotted) name yields from a found prefix resolution `pv`,
/// over the arenas of `s0` and the pool `sp1`: the prefix must be a single
/// declaration (several candidates are a fatal not-implemented condition,
/// never a silent misresolution); a prefix of any kind other than a
/// declarative region is "not found"; for a declarative region the suffix
/// designator is looked up in that region's own scope alone — never in the
/// ambient chain — and yields all its entries, or "not found" when absent.
pub open spec fn selected_outcome(
    s0: AnalyzerCoreStateBlob,
    sp1: StringPool,
    pv: Seq<ObjPoolIndex<AstNode>>,
    suffix_pt: VhdlParseTreeNode,
    res: Option<Seq<ObjPoolIndex<AstNode>>>,
) -> bool {
    &&& pv.len() == 1
    &&& pv[0].i < s0.op_n@.len()
    &&& if crate::ast::spec_kind(s0.op_n@[pv[0].i as int])
        != crate::ast::AstNodeKind::DeclarativeRegion {
        res is None
    } else {
        match crate::ast::spec_scope_of(s0.op_n@[pv[0].i as int]) {
            Some(sc) => sc.i < s0.op_s@.len() && exists|nm: ScopeItemName|
                #[trigger] designator_denotes(sp1, suffix_pt, nm) && (match scope_find(
                    s0.op_s@[sc.i as int]@,
                    nm,
                ) {
                    Some(v) => v.len() > 0 && res == Some(v),
                    None => res is None,
                }),
            None => false,
        }
    }
}

/// Resolves a name production: scope and visibility logic only, no overload
/// selection.
///
/// A simple name (a designator production) resolves through the scope chain
/// ([`walk_spec`]), except that a blacklisted designator is "not found". A
/// selected name resolves its prefix first; a prefix that is a single
/// declarative region has the suffix looked up in that region's own scope
/// alone, any other single-declaration prefix is "not found", and a prefix
/// of several declarations is not implemented. Only the string pool changes
/// (designator interning); a found result holds at least one declaration.
#[verifier::loop_isolation(false)]
pub fn analyze_name(s: &mut AnalyzerCoreStateBlob, pt: &VhdlParseTreeNode) -> (r: Result<
    Option<Vec<ObjPoolIndex<AstNode>>>,
    Fatal,
>)
    requires
        state_wf(*old(s)),
    ensures
        state_wf(*final(s)),
        state_extends(*old(s), *final(s)),
        only_sp_changed(*old(s), *final(s)),
        r matches Ok(Some(v)) ==> v@.len() > 0,
        match r {
            Ok(res) => pt_is_designator(*pt) ==> exists|n: ScopeItemName, resv: Option<Seq<ObjPoolIndex<AstNode>>>|
                #[trigger] resolves_to(old(s).blacklisted_names@, *final(s), *pt, n, resv)
                    && resv == (match res {
                    Some(vec) => Some(vec@),
                    None => None::<Seq<ObjPoolIndex<AstNode>>>,
                }),
            Err(f) => pt_is_designator(*pt) ==> (pt_is_id(*pt) && !id_text_ok(
                pt.str1@,
                pt_id_ext(*pt),
            ) && f == Fatal::AstInvariant) || exists|n: ScopeItemName|
                {
                    &&& #[trigger] designator_denotes(final(s).sp, *pt, n)
                    &&& !in_blacklist(old(s).blacklisted_names@, n)
                    &&& resolve_spec(*final(s), n) == Result::<
                        Seq<ObjPoolIndex<AstNode>>,
                        Fatal,
                    >::Err(f)
                },
        },
        !pt_is_designator(*pt) && pt.node_type != ParseTreeNodeType::PT_NAME_SELECTED ==> r
            == Result::<Option<Vec<ObjPoolIndex<AstNode>>>, Fatal>::Err(
            Fatal::UnsupportedParseTree,
        ),
        // a selected name over a designator prefix: the prefix resolves
        // first, and the found result is owed to the suffix lookup in the
        // prefix region's own scope ([`selected_outcome`])
        pt.node_type == ParseTreeNodeType::PT_NAME_SELECTED && (pt.piece0 matches Some(ppt)
            && pt_is_designator(*ppt)) ==> (match r {
            Ok(res) => pt.piece0 matches Some(ppt) && exists|
                n: ScopeItemName,
                resv: Option<Seq<ObjPoolIndex<AstNode>>>,
            |
                #[trigger] resolves_to(old(s).blacklisted_names@, *final(s), *ppt, n, resv) && (
                match resv {
                    None => res is None,
                    Some(pv) => pt.piece1 matches Some(spt) && selected_outcome(
                        *old(s),
                        final(s).sp,
                        pv,
                        *spt,
                        match res {
                            Some(vec) => Some(vec@),
                            None => None::<Seq<ObjPoolIndex<AstNode>>>,
                        },
                    ),
                }),
            Err(_) => true,
        }),
    decreases *pt,
{
    match pt.node_type {
        ParseTreeNodeType::PT_BASIC_ID | ParseTreeNodeType::PT_EXT_ID
        | ParseTreeNodeType::PT_LIT_STRING | ParseTreeNodeType::PT_LIT_CHAR => {
            let designator = match analyze_designator(s, pt) {
                Ok(d) => d,
                Err(f) => {
                    return Err(f);
                },
            };
            if blacklist_contains(&s.blacklisted_names, &designator) {
                proof {
                    assert(resolves_to(
                        old(s).blacklisted_names@,
                        *s,
                        *pt,
                        designator,
                        None::<Seq<ObjPoolIndex<AstNode>>>,
                    ));
                }
                return Ok(None);
            }
            let r = walk_scope_chain(s, designator);
            proof {
                match r {
                    Ok(Some(ref vec)) => {
                        assert(resolves_to(
                            old(s).blacklisted_names@,
                            *s,
                            *pt,
                            designator,
                            Some(vec@),
                        ));
                    },
                    Ok(None) => {
                        assert(resolves_to(
                            old(s).blacklisted_names@,
                            *s,
                            *pt,
                            designator,
                            None::<Seq<ObjPoolIndex<AstNode>>>,
                        ));
                    },
                    Err(_) => {},
                }
            }
            r
        },
        ParseTreeNodeType::PT_NAME_SELECTED => {
            let prefix_pt = match &pt.piece0 {
                Some(b) => &**b,
                None => {
                    return Err(Fatal::AstInvariant);
                },
            };
            let ghost bl0 = s.blacklisted_names@;
            let prefix = match analyze_name(s, prefix_pt) {
                Ok(Some(v)) => v,
                Ok(None) => {
                    proof {
                        if pt_is_designator(*prefix_pt) {
                            let (n, resv) = choose|
                                n: ScopeItemName,
                                resv: Option<Seq<ObjPoolIndex<AstNode>>>,
                            |
                                #[trigger] resolves_to(bl0, *s, *prefix_pt, n, resv) && resv
                                    == None::<Seq<ObjPoolIndex<AstNode>>>;
                            assert(resolves_to(bl0, *s, *prefix_pt, n, resv) && resv is None);
                        }
                    }
                    return Ok(None);
                },
                Err(f) => {
                    return Err(f);
                },
            };
            let ghost s1 = *s;
            let suffix_pt = match &pt.piece1 {
                Some(b) => &**b,
                None => {
                    return Err(Fatal::AstInvariant);
                },
            };
            let r = analyze_selected_suffix(s, &prefix, suffix_pt);
            proof {
                if pt_is_designator(*prefix_pt) && r is Ok {
                    let (n, resv) = choose|
                        n: ScopeItemName,
                        resv: Option<Seq<ObjPoolIndex<AstNode>>>,
                    |
                        #[trigger] resolves_to(bl0, s1, *prefix_pt, n, resv) && resv == Some(
                            prefix@,
                        );
                    lemma_designator_denotes_stable(s1.sp, s.sp, *prefix_pt, n);
                    assert(resolve_spec(*s, n) == resolve_spec(s1, n));
                    assert(resolves_to(bl0, *s, *prefix_pt, n, resv));
                    let res = r->Ok_0;
                    assert(selected_outcome(
                        *old(s),
                        s.sp,
                        prefix@,
                        *suffix_pt,
                        match res {
                            Some(vec) => Some(vec@),
                            None => None::<Seq<ObjPoolIndex<AstNode>>>,
                        },
                    ));
                }
            }
            r
        },
        _ => Err(Fatal::UnsupportedParseTree),
    }
}

/// Resolves the suffix of a selected (dotted) name against a resolved
/// prefix.
///
/// A prefix of several declarations (a function call or similar) is not
/// implemented and is a fatal condition, never a silent misresolution. A
/// single-declaration prefix of any kind other than a declarative region is
/// "not found". For a declarative region, the suffix designator is looked up
/// in that region's own scope alone — never in the ambient scope chain — and
/// yields all its entries, or "not found" when the key is absent.
pub fn analyze_selected_suffix(
    s: &mut AnalyzerCoreStateBlob,
    prefix: &Vec<ObjPoolIndex<AstNode>>,
    suffix_pt: &VhdlParseTreeNode,
) -> (r: Result<Option<Vec<ObjPoolIndex<AstNode>>>, Fatal>)
    requires
        state_wf(*old(s)),
    ensures
        state_wf(*final(s)),
        state_extends(*old(s), *final(s)),
        only_sp_changed(*old(s), *final(s)),
        r matches Ok(Some(v)) ==> v@.len() > 0,
        prefix@.len() != 1 ==> r == Result::<Option<Vec<ObjPoolIndex<AstNode>>>, Fatal>::Err(
            Fatal::NotYetImplemented,
        ) && *final(s) == *old(s),
        prefix@.len() == 1 && prefix@[0].i >= old(s).op_n@.len() ==> r is Err,
        prefix@.len() == 1 && prefix@[0].i < old(s).op_n@.len() && crate::ast::spec_kind(
            old(s).op_n@[prefix@[0].i as int],
        ) != crate::ast::AstNodeKind::DeclarativeRegion ==> (match r {
            Ok(res) => res is None,
            Err(_) => true,
        }),
        prefix@.len() == 1 && prefix@[0].i < old(s).op_n@.len() && crate::ast::spec_kind(
            old(s).op_n@[prefix@[0].i as int],
        ) == crate::ast::AstNodeKind::DeclarativeRegion ==> (match r {
            Ok(res) => (match crate::ast::spec_scope_of(old(s).op_n@[prefix@[0].i as int]) {
                Some(sc) => sc.i < old(s).op_s@.len() && exists|n: ScopeItemName|
                    #[trigger] designator_denotes(final(s).sp, *suffix_pt, n) && (match scope_find(
                        old(s).op_s@[sc.i as int]@,
                        n,
                    ) {
                        Some(v) => v.len() > 0 && (res matches Some(vec) && vec@ == v),
                        None => res is None,
                    }),
                None => false,
            }),
            Err(f) => true,
        }),
{
    if prefix.len() != 1 {
        return Err(Fatal::NotYetImplemented);
    }
    let prefix0 = prefix[0];
    let designator = match analyze_designator(s, suffix_pt) {
        Ok(d) => d,
        Err(f) => {
            return Err(f);
        },
    };
    if prefix0.i >= s.op_n.len() {
        return Err(Fatal::AstInvariant);
    }
    match s.op_n.get(prefix0).kind() {
        crate::ast::AstNodeKind::DeclarativeRegion => {
            let scope = match s.op_n.get(prefix0).scope() {
                Some(sc) => sc,
                None => {
                    return Err(Fatal::AstInvariant);
                },
            };
            if scope.i >= s.op_s.len() {
                return Err(Fatal::AstInvariant);
            }
            match s.op_s.get(scope).get(designator) {
                Some(maybe_found_thing) => {
                    if maybe_found_thing.len() == 0 {
                        return Err(Fatal::AstInvariant);
                    }
                    Ok(Some(copy_idx_vec(maybe_found_thing)))
                },
                None => Ok(None),
            }
        },
        _ => Ok(None),
    }
}

/// Resolves a type mark: the name must resolve to exactly one declaration,
/// and that declaration must be a type. Each failure appends exactly one
/// diagnostic (`BadTypeMark` for an unresolvable or ambiguous name, `NotAType`
/// for a declaration of the wrong kind) and yields `Ok(None)`; `Ok(Some(t))`
/// leaves the diagnostics alone and `t` is a type declaration.
pub fn analyze_type_mark(
    s: &mut AnalyzerCoreStateBlob,
    pt: &VhdlParseTreeNode,
    pt_for_loc: &VhdlParseTreeNode,
) -> (r: Result<Option<ObjPoolIndex<AstNode>>, Fatal>)
    requires
        state_wf(*old(s)),
    ensures
        state_wf(*final(s)),
        state_extends(*old(s), *final(s)),
        final(s).op_n@ == old(s).op_n@,
        final(s).op_s@ == old(s).op_s@,
        final(s).op_sc@ == old(s).op_sc@,
        final(s).op_l@ == old(s).op_l@,
        final(s).design_db == old(s).design_db,
        final(s).innermost_scope == old(s).innermost_scope,
        final(s).blacklisted_names@ == old(s).blacklisted_names@,
        final(s).internal_name_count == old(s).internal_name_count,
        match r {
            Ok(Some(t)) => {
                &&& final(s).errors@ == old(s).errors@
                &&& t.i < old(s).op_n@.len()
                &&& crate::ast::spec_kind(old(s).op_n@[t.i as int])
                    == crate::ast::AstNodeKind::Type
                &&& pt_is_designator(*pt) ==> exists|nm: ScopeItemName|
                    #[trigger] resolves_to(
                        old(s).blacklisted_names@,
                        *final(s),
                        *pt,
                        nm,
                        Some(seq![t]),
                    )
            },
            Ok(None) => final(s).errors@.len() == old(s).errors@.len() + 1 && (final(
                s).errors@.last().kind matches DiagnosticKind::BadTypeMark || final(
                s).errors@.last().kind matches DiagnosticKind::NotAType) && (pt_is_designator(*pt)
                ==> exists|nm: ScopeItemName, resv: Option<Seq<ObjPoolIndex<AstNode>>>|
                #[trigger] resolves_to(old(s).blacklisted_names@, *final(s), *pt, nm, resv)
                    && match resv {
                    // the name did not resolve
                    None => final(s).errors@.last().kind matches DiagnosticKind::BadTypeMark,
                    Some(v) => (v.len() != 1 && final(s).errors@.last().kind
                        matches DiagnosticKind::BadTypeMark) || (v.len() == 1 && v[0].i < old(
                        s,
                    ).op_n@.len() && crate::ast::spec_kind(old(s).op_n@[v[0].i as int])
                        != crate::ast::AstNodeKind::Type && final(s).errors@.last().kind
                        matches DiagnosticKind::NotAType),
                }),
            Err(_) => true,
        },
{
    let ghost bl0 = s.blacklisted_names@;
    let type_mark_ = match analyze_name(s, pt) {
        Ok(v) => v,
        Err(f) => {
            return Err(f);
        },
    };
    let ghost s_name = *s;
    let type_mark = match type_mark_ {
        None => {
            if let Err(f) = dump_error(s, pt_for_loc, DiagnosticKind::BadTypeMark) {
                return Err(f);
            }
            proof {
                lemma_resolves_to_stable(bl0, s_name, *s, *pt);
            }
            return Ok(None);
        },
        Some(v) => v,
    };
    if type_mark.len() != 1 {
        if let Err(f) = dump_error(s, pt_for_loc, DiagnosticKind::BadTypeMark) {
            return Err(f);
        }
        proof {
            lemma_resolves_to_stable(bl0, s_name, *s, *pt);
        }
        return Ok(None);
    }
    let t = type_mark[0];
    proof {
        if pt_is_designator(*pt) {
            let (nm, resv) = choose|nm: ScopeItemName, resv: Option<Seq<ObjPoolIndex<AstNode>>>|
                #[trigger] resolves_to(bl0, s_name, *pt, nm, resv) && resv == Some(type_mark@);
            assert(type_mark@ =~= seq![t]);
            assert(resolves_to(bl0, s_name, *pt, nm, Some(seq![t])));
        }
    }
    if t.i >= s.op_n.len() {
        return Err(Fatal::AstInvariant);
    }
    let is_type = match s.op_n.get(t).kind() {
        crate::ast::AstNodeKind::Type => true,
        _ => false,
    };
    if !is_type {
        if let Err(f) = dump_error(s, pt_for_loc, DiagnosticKind::NotAType) {
            return Err(f);
        }
        proof {
            lemma_resolves_to_stable(bl0, s_name, *s, *pt);
        }
        return Ok(None);
    }
    Ok(Some(t))
}

/// A resolution outcome only reads the pool and the resolution arenas, so
/// appending diagnostics leaves it intact.
proof fn lemma_resolves_to_stable(
    bl: Seq<ScopeItemName>,
    s1: AnalyzerCoreStateBlob,
    s2: AnalyzerCoreStateBlob,
    pt: VhdlParseTreeNode,
)
    requires
        s2.sp == s1.sp,
        s2.op_n@ == s1.op_n@,
        s2.op_s@ == s1.op_s@,
        s2.op_sc@ == s1.op_sc@,
        s2.innermost_scope == s1.innermost_scope,
    ensures
        forall|n: ScopeItemName, resv: Option<Seq<ObjPoolIndex<AstNode>>>|
            #[trigger] resolves_to(bl, s1, pt, n, resv) ==> resolves_to(bl, s2, pt, n, resv),
{
    assert forall|n: ScopeItemName, resv: Option<Seq<ObjPoolIndex<AstNode>>>|
        #[trigger] resolves_to(bl, s1, pt, n, resv) implies resolves_to(bl, s2, pt, n, resv) by {
        assert(resolve_spec(s2, n) == resolve_spec(s1, n));
    }
}

/// Analyzes a subtype indication: only the plain form (a bare type mark, no
/// resolution indication and no constraint) is implemented. On success a
/// subtype-indication node pointing at the resolved type is allocated;
/// `Ok(None)` means a diagnostic was appended for the type mark.
pub fn analyze_subtype_indication(
    s: &mut AnalyzerCoreStateBlob,
    pt: &VhdlParseTreeNode,
    pt_for_loc: &VhdlParseTreeNode,
) -> (r: Result<Option<ObjPoolIndex<AstNode>>, Fatal>)
    requires
        state_wf(*old(s)),
    ensures
        state_wf(*final(s)),
        state_extends(*old(s), *final(s)),
        final(s).op_s@ == old(s).op_s@,
        final(s).op_sc@ == old(s).op_sc@,
        final(s).op_l@ == old(s).op_l@,
        final(s).design_db == old(s).design_db,
        final(s).innermost_scope == old(s).innermost_scope,
        final(s).blacklisted_names@ == old(s).blacklisted_names@,
        final(s).internal_name_count == old(s).internal_name_count,
        match r {
            Ok(Some(x)) => {
                &&& final(s).errors@ == old(s).errors@
                &&& x.i == old(s).op_n@.len()
                &&& (final(s).op_n@ =~= old(s).op_n@.push(final(s).op_n@.last()))
                &&& final(s).op_n@.last() matches AstNode::SubtypeIndication { type_mark }
                    && type_mark.i < old(s).op_n@.len() && crate::ast::spec_kind(
                    old(s).op_n@[type_mark.i as int],
                ) == crate::ast::AstNodeKind::Type
                &&& match pt.piece0 {
                    Some(tm) => pt_is_designator(*tm) ==> exists|
                        nm: ScopeItemName,
                        resv: Option<Seq<ObjPoolIndex<AstNode>>>,
                    |
                        #[trigger] resolves_to(old(s).blacklisted_names@, *final(s), *tm, nm, resv)
                            && resv is Some,
                    None => true,
                }
            },
            Ok(None) => final(s).op_n@ == old(s).op_n@ && final(s).errors@.len() == old(
                s).errors@.len() + 1 && (final(s).errors@.last().kind
                matches DiagnosticKind::BadTypeMark || final(s).errors@.last().kind
                matches DiagnosticKind::NotAType) && (match pt.piece0 {
                Some(tm) => pt_is_designator(*tm) ==> exists|
                    nm: ScopeItemName,
                    resv: Option<Seq<ObjPoolIndex<AstNode>>>,
                |
                    #[trigger] resolves_to(old(s).blacklisted_names@, *final(s), *tm, nm, resv)
                        && match resv {
                        None => final(s).errors@.last().kind
                            matches DiagnosticKind::BadTypeMark,
                        Some(v) => (v.len() != 1 && final(s).errors@.last().kind
                            matches DiagnosticKind::BadTypeMark) || (v.len() == 1 && v[0].i < old(
                            s,
                        ).op_n@.len() && crate::ast::spec_kind(old(s).op_n@[v[0].i as int])
                            != crate::ast::AstNodeKind::Type && final(s).errors@.last().kind
                            matches DiagnosticKind::NotAType),
                    },
                None => true,
            }),
            Err(_) => true,
        },
{
    match pt.node_type {
        ParseTreeNodeType::PT_SUBTYPE_INDICATION => {
            if pt.piece1.is_some() || pt.piece2.is_some() {
                return Err(Fatal::NotYetImplemented);
            }
            let type_mark_pt = match &pt.piece0 {
                Some(b) => &**b,
                None => {
                    return Err(Fatal::AstInvariant);
                },
            };
            let ghost bl0 = s.blacklisted_names@;
            let type_mark = match analyze_type_mark(s, type_mark_pt, pt_for_loc) {
                Ok(Some(t)) => t,
                Ok(None) => {
                    return Ok(None);
                },
                Err(f) => {
                    return Err(f);
                },
            };
            let ghost s_tm = *s;
            let x_ = s.op_n.allocate(AstNode::SubtypeIndication { type_mark });
            proof {
                if pt_is_designator(*type_mark_pt) {
                    let nm = choose|nm: ScopeItemName|
                        #[trigger] resolves_to(
                            bl0,
                            s_tm,
                            *type_mark_pt,
                            nm,
                            Some(seq![type_mark]),
                        );
                    lemma_resolves_to_grows(bl0, s_tm, *s, *type_mark_pt);
                    assert(resolves_to(bl0, *s, *type_mark_pt, nm, Some(seq![type_mark])));
                }
            }
            Ok(Some(x_))
        },
        _ => Err(Fatal::UnsupportedParseTree),
    }
}

/// The diagnostics a declarative item can produce: duplicate declarations
/// of the four kinds, and the two type-mark failures. Entity-level
/// diagnostics (name mismatch, duplicate design unit) are not among them.
pub open spec fn is_declaration_diag(k: DiagnosticKind) -> bool {
    ||| k matches DiagnosticKind::DuplicateTypeDecl(_)
    ||| k matches DiagnosticKind::DuplicateSubtypeDecl(_)
    ||| k matches DiagnosticKind::DuplicateConstantDecl(_)
    ||| k matches DiagnosticKind::DuplicateFunctionDecl(_)
    ||| k matches DiagnosticKind::DuplicateEnumLiteral(_)
    ||| k matches DiagnosticKind::BadTypeMark
    ||| k matches DiagnosticKind::NotAType
}

/// The declaration analyzers' common frame: the scope-chain arena, the
/// library arena, the database, and the current chain head stay untouched.
pub open spec fn decl_frame(s0: AnalyzerCoreStateBlob, s1: AnalyzerCoreStateBlob) -> bool {
    &&& s1.op_sc@ == s0.op_sc@
    &&& s1.op_l@ == s0.op_l@
    &&& s1.design_db == s0.design_db
    &&& s1.innermost_scope == s0.innermost_scope
}

/// Whether a subtype declaration names itself as its own type mark (up to
/// letter case): `subtype S is S;`. The declared name is blacklisted while
/// its indication is analyzed, so such a mark can never resolve.
pub open spec fn subtype_names_itself(pt: VhdlParseTreeNode) -> bool {
    match (pt.piece0, pt.piece1) {
        (Some(idpt), Some(sipt)) => match sipt.piece0 {
            Some(tm) => {
                &&& pt_is_id(*idpt)
                &&& pt_is_id(*tm)
                &&& id_text_ok(idpt.str1@, pt_id_ext(*idpt))
                &&& id_text_ok(tm.str1@, pt_id_ext(*tm))
                &&& pt_id_ext(*tm) == pt_id_ext(*idpt)
                &&& crate::identifier::canonical_text(tm.str1@, pt_id_ext(*tm))
                    == crate::identifier::canonical_text(idpt.str1@, pt_id_ext(*idpt))
            },
            None => false,
        },
        _ => false,
    }
}

/// Analyzes a subtype declaration: `subtype <id> is <subtype_indication>;`.
/// The declared name is blacklisted while its own indication is analyzed, so
/// a self-referential type mark cannot resolve and the declaration fails.
/// `Ok(false)` (a diagnostic was appended) aborts only this declaration.
#[verifier::loop_isolation(false)]
#[verifier::rlimit(80)]
pub fn analyze_subtype_decl(
    s: &mut AnalyzerCoreStateBlob,
    pt: &VhdlParseTreeNode,
    scope: ObjPoolIndex<crate::ast::Scope>,
) -> (r: Result<bool, Fatal>)
    requires
        state_wf(*old(s)),
    ensures
        state_wf(*final(s)),
        state_extends(*old(s), *final(s)),
        decl_frame(*old(s), *final(s)),
        r == Result::<bool, Fatal>::Ok(true) ==> final(s).errors@ == old(s).errors@ && final(
            s).blacklisted_names@.len() == 0 && ({
            // the scope gained the subtype under its (previously free) name
            &&& scope.i < final(s).op_s@.len()
            &&& exists|id: Identifier|
                {
                    &&& #[trigger] scope_find(
                        final(s).op_s@[scope.i as int]@,
                        ScopeItemName::Identifier(id),
                    ) matches Some(v) && v.len() == 1 && v[0].i < final(s).op_n@.len() && (final(
                        s).op_n@[v[0].i as int] matches AstNode::SubtypeDecl {
                        loc: sloc,
                        id: sid,
                        subtype_indication: ssi,
                    } && crate::identifier::id_eq(sid, id) && sloc == spec_pt_loc(*old(s), *pt)
                        // the declaration carries an indication node over the
                        // resolved type mark
                        && ssi.i < final(s).op_n@.len() && (final(
                        s).op_n@[ssi.i as int] matches AstNode::SubtypeIndication { type_mark }
                        && type_mark.i < final(s).op_n@.len() && crate::ast::spec_kind(
                        final(s).op_n@[type_mark.i as int],
                    ) == crate::ast::AstNodeKind::Type))
                    &&& pt.piece0 matches Some(idpt) && canonicalized(
                        final(s).sp,
                        id,
                        idpt.str1@,
                        pt_id_ext(*idpt),
                    )
                }
        }),
        r == Result::<bool, Fatal>::Ok(false) ==> final(s).errors@.len() > old(s).errors@.len()
            && final(s).op_s@ == old(s).op_s@ && (final(s).errors@.last().kind
            matches DiagnosticKind::DuplicateSubtypeDecl(_) || final(s).errors@.last().kind
            matches DiagnosticKind::BadTypeMark || final(s).errors@.last().kind
            matches DiagnosticKind::NotAType),
        r is Ok && subtype_names_itself(*pt) ==> r == Result::<bool, Fatal>::Ok(false) && (final(
            s).errors@.last().kind matches DiagnosticKind::BadTypeMark),
{
    let id_pt = match &pt.piece0 {
        Some(b) => &**b,
        None => {
            return Err(Fatal::AstInvariant);
        },
    };
    let id = match analyze_identifier(s, id_pt) {
        Ok(id) => id,
        Err(f) => {
            return Err(f);
        },
    };
    let ghost s_id = *s;
    s.blacklisted_names.push(ScopeItemName::Identifier(id));
    proof {
        // the blacklist is not part of the extension relation
        assert(state_extends(*old(s), *s));
    }
    let loc = pt_loc(s, pt);
    let si_pt = match &pt.piece1 {
        Some(b) => &**b,
        None => {
            return Err(Fatal::AstInvariant);
        },
    };
    let ghost s_mid = *s;
    let subtype_indication = match analyze_subtype_indication(s, si_pt, pt) {
        Ok(Some(x)) => x,
        Ok(None) => {
            proof {
                lemma_state_extends_trans(*old(s), s_mid, *s);
                if subtype_names_itself(*pt) {
                    lemma_state_extends_trans(s_id, s_mid, *s);
                    lemma_self_reference_shadowed(s_mid, *s, *pt, id, *si_pt);
                }
            }
            return Ok(false);
        },
        Err(f) => {
            return Err(f);
        },
    };
    proof {
        lemma_state_extends_trans(*old(s), s_mid, *s);
        if subtype_names_itself(*pt) {
            // impossible: the blacklisted name cannot have resolved
            lemma_state_extends_trans(s_id, s_mid, *s);
            lemma_self_reference_shadowed(s_mid, *s, *pt, id, *si_pt);
            assert(false);
        }
    }
    let x_ = s.op_n.allocate(AstNode::SubtypeDecl { loc, id, subtype_indication });
    let ghost entries0 = if scope.i < s.op_s@.len() {
        s.op_s@[scope.i as int]@
    } else {
        Seq::empty()
    };
    let ghost s_add = *s;
    match try_add_declaration(s, ScopeItemName::Identifier(id), x_, scope) {
        Err(f) => {
            return Err(f);
        },
        Ok(false) => {
            if let Err(f) = dump_error(s, pt, DiagnosticKind::DuplicateSubtypeDecl(id)) {
                return Err(f);
            }
            return Ok(false);
        },
        Ok(true) => {},
    }
    s.blacklisted_names.clear();
    proof {
        lemma_state_extends_trans(s_id, s_mid, s_add);
        lemma_state_extends_trans(s_id, s_add, *s);
        // insertion succeeded, and the subtype is non-overloadable, so its
        // name was free and now maps to exactly the new declaration
        let name = ScopeItemName::Identifier(id);
        assert(scope_find(entries0, name) is None) by {
            if scope_find(entries0, name) is Some {
                assert(try_add_spec(s_add.op_n@, entries0, name, x_) matches Ok(Some(_)));
                assert(!crate::ast::spec_overloadable(s_add.op_n@[x_.i as int]));
            }
        }
        lemma_find_after_fresh_add_pub(entries0, name, x_);
        assert(scope_find(s.op_s@[scope.i as int]@, name) == Some(seq![x_]));
        assert(canonicalized(s.sp, id, id_pt.str1@, pt_id_ext(*id_pt)));
    }
    Ok(true)
}

/// The identifier nodes of an identifier-list production, in source
/// (left-to-right) order; the production is left-recursive in the tree.
pub open spec fn pt_id_nodes(pt: VhdlParseTreeNode) -> Seq<VhdlParseTreeNode>
    decreases pt,
{
    if pt.node_type == ParseTreeNodeType::PT_ID_LIST_REAL {
        (match pt.piece0 {
            Some(rest) => pt_id_nodes(*rest),
            None => Seq::empty(),
        }) + (match pt.piece1 {
            Some(idn) => seq![*idn],
            None => Seq::empty(),
        })
    } else {
        seq![pt]
    }
}

/// While a declaration's own name is blacklisted (it is the newest entry),
/// a type mark spelling that name (up to case) can only be "not found".
proof fn lemma_self_reference_shadowed(
    s_mid: AnalyzerCoreStateBlob,
    s_now: AnalyzerCoreStateBlob,
    pt: VhdlParseTreeNode,
    id: Identifier,
    sipt: VhdlParseTreeNode,
)
    requires
        s_now.sp.wf(),
        subtype_names_itself(pt),
        pt.piece1 matches Some(b) && *b == sipt,
        pt.piece0 matches Some(idpt) && canonicalized(s_now.sp, id, idpt.str1@, pt_id_ext(*idpt)),
        s_mid.blacklisted_names@.len() > 0,
        s_mid.blacklisted_names@.last() == ScopeItemName::Identifier(id),
    ensures
        match sipt.piece0 {
            Some(tm) => forall|nm: ScopeItemName, resv: Option<Seq<ObjPoolIndex<AstNode>>>|
                #[trigger] resolves_to(s_mid.blacklisted_names@, s_now, *tm, nm, resv)
                    ==> resv is None,
            None => true,
        },
{
    let idpt = pt.piece0->0;
    if let Some(tm) = sipt.piece0 {
        assert forall|nm: ScopeItemName, resv: Option<Seq<ObjPoolIndex<AstNode>>>|
            #[trigger] resolves_to(s_mid.blacklisted_names@, s_now, *tm, nm, resv) implies resv
            is None by {
            match nm {
                ScopeItemName::Identifier(nid) => {
                    crate::identifier::lemma_canonicalized_deterministic(
                        s_now.sp,
                        nid,
                        id,
                        tm.str1@,
                        idpt.str1@,
                        pt_id_ext(*tm),
                    );
                    let j = s_mid.blacklisted_names@.len() - 1;
                    assert(name_eq(s_mid.blacklisted_names@[j], nm));
                    assert(in_blacklist(s_mid.blacklisted_names@, nm));
                },
                _ => {
                    assert(false);
                },
            }
        }
    }
}

/// The shape of an identifier-list production that owes success: a
/// left-recursive list whose nodes are all valid identifier productions.
pub open spec fn id_list_shape(pt: VhdlParseTreeNode) -> bool
    decreases pt,
{
    if pt.node_type == ParseTreeNodeType::PT_ID_LIST_REAL {
        match (pt.piece0, pt.piece1) {
            (Some(rest), Some(idn)) => id_list_shape(*rest) && pt_is_id(*idn) && id_text_ok(
                idn.str1@,
                pt_id_ext(*idn),
            ),
            _ => false,
        }
    } else {
        pt_is_id(pt) && id_text_ok(pt.str1@, pt_id_ext(pt))
    }
}

/// Collects the identifiers of an identifier-list production: one per
/// identifier node, canonicalized, in source (left-to-right) order.
pub fn analyze_identifier_list(s: &mut AnalyzerCoreStateBlob, pt: &VhdlParseTreeNode) -> (r:
    Result<Vec<Identifier>, Fatal>)
    requires
        state_wf(*old(s)),
    ensures
        state_wf(*final(s)),
        state_extends(*old(s), *final(s)),
        only_sp_changed(*old(s), *final(s)),
        // success is owed to a well-shaped list
        id_list_shape(*pt) ==> r is Ok,
        r matches Ok(v) ==> v@.len() >= 1 && v@.len() == pt_id_nodes(*pt).len() && forall|k: int|
            0 <= k < v@.len() ==> pt_is_id(#[trigger] pt_id_nodes(*pt)[k]) && id_text_ok(
                pt_id_nodes(*pt)[k].str1@,
                pt_id_ext(pt_id_nodes(*pt)[k]),
            ) && canonicalized(
                final(s).sp,
                v@[k],
                pt_id_nodes(*pt)[k].str1@,
                pt_id_ext(pt_id_nodes(*pt)[k]),
            ),
    decreases *pt,
{
    if let ParseTreeNodeType::PT_ID_LIST_REAL = pt.node_type {
        let rest_pt = match &pt.piece0 {
            Some(b) => &**b,
            None => {
                return Err(Fatal::AstInvariant);
            },
        };
        let mut ret = match analyze_identifier_list(s, rest_pt) {
            Ok(v) => v,
            Err(f) => {
                return Err(f);
            },
        };
        let id_pt = match &pt.piece1 {
            Some(b) => &**b,
            None => {
                return Err(Fatal::AstInvariant);
            },
        };
        let ghost s_rest = *s;
        let this_id = match analyze_identifier(s, id_pt) {
            Ok(id) => id,
            Err(f) => {
                return Err(f);
            },
        };
        ret.push(this_id);
        proof {
            assert(pt_id_nodes(*pt) =~= pt_id_nodes(*rest_pt).push(*id_pt));
            assert forall|k: int| 0 <= k < ret@.len() - 1 implies canonicalized(
                s.sp,
                ret@[k],
                pt_id_nodes(*pt)[k].str1@,
                pt_id_ext(pt_id_nodes(*pt)[k]),
            ) by {
                assert(canonicalized(
                    s_rest.sp,
                    ret@[k],
                    pt_id_nodes(*rest_pt)[k].str1@,
                    pt_id_ext(pt_id_nodes(*rest_pt)[k]),
                ));
            }
        }
        Ok(ret)
    } else {
        let final_id = match analyze_identifier(s, pt) {
            Ok(id) => id,
            Err(f) => {
                return Err(f);
            },
        };
        let mut ret: Vec<Identifier> = Vec::new();
        ret.push(final_id);
        Ok(ret)
    }
}

/// Analyzes a constant declaration: one subtype indication shared by every
/// identifier of the list; all the declared names are blacklisted while the
/// indication is analyzed; an initializing expression is not implemented.
#[verifier::loop_isolation(false)]
#[verifier::rlimit(100)]
pub fn analyze_constant_decl(
    s: &mut AnalyzerCoreStateBlob,
    pt: &VhdlParseTreeNode,
    scope: ObjPoolIndex<crate::ast::Scope>,
) -> (r: Result<bool, Fatal>)
    requires
        state_wf(*old(s)),
    ensures
        state_wf(*final(s)),
        state_extends(*old(s), *final(s)),
        decl_frame(*old(s), *final(s)),
        r == Result::<bool, Fatal>::Ok(true) ==> final(s).errors@ == old(s).errors@ && final(
            s).blacklisted_names@.len() == 0 && (pt.piece0 matches Some(idlpt) && ({
            // the scope gained one constant per listed identifier, in source
            // order, all sharing one subtype-indication node and no value
            let ids = pt_id_nodes(*idlpt);
            &&& scope.i < final(s).op_s@.len()
            &&& exists|v: Seq<Identifier>, si: ObjPoolIndex<AstNode>|
                #![trigger v.len(), final(s).op_n@[si.i as int]]
                {
                    &&& v.len() == ids.len()
                    &&& si.i < final(s).op_n@.len()
                    &&& final(s).op_n@[si.i as int] matches AstNode::SubtypeIndication { .. }
                    &&& forall|k: int|
                        0 <= k < ids.len() ==> canonicalized(
                            final(s).sp,
                            #[trigger] v[k],
                            ids[k].str1@,
                            pt_id_ext(ids[k]),
                        )
                    &&& forall|k: int|
                        0 <= k < v.len() ==> (scope_find(
                            final(s).op_s@[scope.i as int]@,
                            ScopeItemName::Identifier(#[trigger] v[k]),
                        ) matches Some(w) && w.len() == 1 && w[0].i < final(s).op_n@.len()
                            // consecutive arena slots right after the shared
                            // indication: the constants are pairwise distinct
                            // nodes, in source order
                            && w[0].i == si.i + 1 + k && (
                        final(s).op_n@[w[0].i as int] matches AstNode::ConstantDecl {
                            loc: cloc,
                            id: cid,
                            subtype_indication: csi,
                            value,
                        } && cloc == spec_pt_loc(*old(s), *pt) && crate::identifier::id_eq(
                            cid,
                            v[k],
                        ) && csi == si && value is None))
                }
        })),
        r == Result::<bool, Fatal>::Ok(false) ==> final(s).errors@.len() > old(s).errors@.len()
            && (final(s).errors@.last().kind matches DiagnosticKind::DuplicateConstantDecl(_)
            || final(s).errors@.last().kind matches DiagnosticKind::BadTypeMark || final(
            s).errors@.last().kind matches DiagnosticKind::NotAType),
{
    let id_list_pt = match &pt.piece0 {
        Some(b) => &**b,
        None => {
            return Err(Fatal::AstInvariant);
        },
    };
    let id_list = match analyze_identifier_list(s, id_list_pt) {
        Ok(v) => v,
        Err(f) => {
            return Err(f);
        },
    };
    let ghost s_ids = *s;
    let n = id_list.len();
    for k in 0..n
        invariant
            n == id_list@.len(),
            state_wf(*s),
            state_extends(*old(s), *s),
            decl_frame(*old(s), *s),
            s.errors@ == old(s).errors@,
            s.op_n@ == old(s).op_n@,
            s.op_s@ == old(s).op_s@,
            s.sp == s_ids.sp,
    {
        s.blacklisted_names.push(ScopeItemName::Identifier(id_list[k]));
    }
    let loc = pt_loc(s, pt);
    let si_pt = match &pt.piece1 {
        Some(b) => &**b,
        None => {
            return Err(Fatal::AstInvariant);
        },
    };
    let ghost s_pre_si = *s;
    proof {
        assert(state_extends(s_ids, s_pre_si));
    }
    let subtype_indication = match analyze_subtype_indication(s, si_pt, pt) {
        Ok(Some(x)) => x,
        Ok(None) => {
            proof {
                lemma_state_extends_trans(*old(s), s_pre_si, *s);
            }
            return Ok(false);
        },
        Err(f) => {
            return Err(f);
        },
    };
    proof {
        lemma_state_extends_trans(*old(s), s_pre_si, *s);
        lemma_state_extends_trans(s_ids, s_pre_si, *s);
    }
    if pt.piece2.is_some() {
        return Err(Fatal::NotYetImplemented);
    }
    if scope.i >= s.op_s.len() {
        return Err(Fatal::AstInvariant);
    }
    let ghost s_si = *s;
    let ghost ids_v = id_list@;
    for k in 0..n
        invariant
            n == id_list@.len(),
            ids_v == id_list@,
            state_wf(*s),
            state_extends(*old(s), *s),
            state_extends(s_si, *s),
            decl_frame(*old(s), *s),
            s.errors@ == old(s).errors@,
            s.sp == s_si.sp,
            s.blacklisted_names@ == s_si.blacklisted_names@,
            scope.i < s.op_s@.len(),
            subtype_indication.i < s.op_n@.len(),
            s.op_n@.len() == subtype_indication.i + 1 + k,
            loc == spec_pt_loc(*old(s), *pt),
            s.op_n@[subtype_indication.i as int] == s_si.op_n@[subtype_indication.i as int],
            s.op_n@[subtype_indication.i as int] matches AstNode::SubtypeIndication { .. },
            forall|j: int|
                0 <= j < k ==> (scope_find(
                    s.op_s@[scope.i as int]@,
                    ScopeItemName::Identifier(#[trigger] ids_v[j]),
                ) matches Some(w) && w.len() == 1 && w[0].i == subtype_indication.i + 1 + j
                    && s.op_n@[w[0].i as int] == (AstNode::ConstantDecl {
                    loc,
                    id: ids_v[j],
                    subtype_indication,
                    value: None,
                })),
    {
        let id = id_list[k];
        let x_ = s.op_n.allocate(
            AstNode::ConstantDecl { loc, id, subtype_indication, value: None },
        );
        let ghost entries_pre = s.op_s@[scope.i as int]@;
        let ghost nodes_pre = s.op_n@;
        match try_add_declaration(s, ScopeItemName::Identifier(id), x_, scope) {
            Err(f) => {
                return Err(f);
            },
            Ok(false) => {
                if let Err(f) = dump_error(s, pt, DiagnosticKind::DuplicateConstantDecl(id)) {
                    return Err(f);
                }
                return Ok(false);
            },
            Ok(true) => {},
        }
        proof {
            let name = ScopeItemName::Identifier(id);
            // the new constant is not overloadable, so its key was free
            assert(scope_find(entries_pre, name) is None) by {
                if scope_find(entries_pre, name) is Some {
                    assert(try_add_spec(nodes_pre, entries_pre, name, x_) matches Ok(Some(_)));
                    assert(!crate::ast::spec_overloadable(nodes_pre[x_.i as int]));
                }
            }
            lemma_find_after_fresh_add_pub(entries_pre, name, x_);
            // lookups of the previously registered constants are untouched
            assert forall|j: int| 0 <= j < k implies (scope_find(
                s.op_s@[scope.i as int]@,
                ScopeItemName::Identifier(#[trigger] ids_v[j]),
            ) matches Some(w) && w.len() == 1 && w[0].i == subtype_indication.i + 1 + j
                && s.op_n@[w[0].i as int] == (AstNode::ConstantDecl {
                loc,
                id: ids_v[j],
                subtype_indication,
                value: None,
            })) by {
                let nj = ScopeItemName::Identifier(ids_v[j]);
                assert(!name_eq(nj, name)) by {
                    if name_eq(nj, name) {
                        crate::ast::lemma_scope_find_pos_respects(entries_pre, nj, name);
                    }
                }
                crate::ast::lemma_scope_add_preserves_other(entries_pre, name, x_, nj);
            }
        }
    }
    s.blacklisted_names.clear();
    proof {
        lemma_state_extends_trans(s_ids, s_si, *s);
        assert forall|k: int| 0 <= k < ids_v.len() implies canonicalized(
            s.sp,
            #[trigger] ids_v[k],
            pt_id_nodes(*id_list_pt)[k].str1@,
            pt_id_ext(pt_id_nodes(*id_list_pt)[k]),
        ) by {
            assert(canonicalized(
                s_ids.sp,
                ids_v[k],
                pt_id_nodes(*id_list_pt)[k].str1@,
                pt_id_ext(pt_id_nodes(*id_list_pt)[k]),
            ));
        }
        assert(s.op_n@[subtype_indication.i as int] matches AstNode::SubtypeIndication { .. });
    }
    Ok(true)
}

/// Literal registration touches only the one scope, and in it only
/// overloadable entries: a lookup that yielded a non-overloadable
/// declaration answers as before.
pub open spec fn scope_preserves_singular(
    s0: AnalyzerCoreStateBlob,
    s1: AnalyzerCoreStateBlob,
    scope: ObjPoolIndex<crate::ast::Scope>,
) -> bool {
    &&& scope.i < s0.op_s@.len()
    &&& s1.op_s@.len() == s0.op_s@.len()
    &&& forall|j: int| 0 <= j < s0.op_s@.len() && j != scope.i ==> s1.op_s@[j] == s0.op_s@[j]
    &&& forall|n: ScopeItemName|
        (#[trigger] scope_find(s0.op_s@[scope.i as int]@, n) matches Some(v) && v.len() > 0
            && v[0].i < s0.op_n@.len() && !crate::ast::spec_overloadable(
            s0.op_n@[v[0].i as int],
        )) ==> scope_find(s1.op_s@[scope.i as int]@, n) == scope_find(
            s0.op_s@[scope.i as int]@,
            n,
        )
}

/// Preservation chains across two steps.
proof fn lemma_scope_preserves_singular_trans(
    s0: AnalyzerCoreStateBlob,
    s1: AnalyzerCoreStateBlob,
    s2: AnalyzerCoreStateBlob,
    scope: ObjPoolIndex<crate::ast::Scope>,
)
    requires
        scope_preserves_singular(s0, s1, scope),
        scope_preserves_singular(s1, s2, scope),
        s1.op_n@.len() >= s0.op_n@.len(),
        forall|j: int|
            0 <= j < s0.op_n@.len() && !crate::ast::spec_overloadable(#[trigger] s0.op_n@[j])
                ==> !crate::ast::spec_overloadable(s1.op_n@[j]),
    ensures
        scope_preserves_singular(s0, s2, scope),
{
    assert forall|n: ScopeItemName|
        (#[trigger] scope_find(s0.op_s@[scope.i as int]@, n) matches Some(v) && v.len() > 0
            && v[0].i < s0.op_n@.len() && !crate::ast::spec_overloadable(
            s0.op_n@[v[0].i as int],
        )) implies scope_find(s2.op_s@[scope.i as int]@, n) == scope_find(
        s0.op_s@[scope.i as int]@,
        n,
    ) by {
        assert(scope_find(s1.op_s@[scope.i as int]@, n) == scope_find(
            s0.op_s@[scope.i as int]@,
            n,
        ));
    }
}

/// The literal nodes of an enumeration-literal-list production, in source
/// (left-to-right) order; the production is left-recursive in the tree.
pub open spec fn pt_enum_lit_nodes(pt: VhdlParseTreeNode) -> Seq<VhdlParseTreeNode>
    decreases pt,
{
    if pt.node_type == ParseTreeNodeType::PT_ENUM_LITERAL_LIST {
        (match pt.piece0 {
            Some(rest) => pt_enum_lit_nodes(*rest),
            None => Seq::empty(),
        }) + (match pt.piece1 {
            Some(l) => seq![*l],
            None => Seq::empty(),
        })
    } else {
        seq![pt]
    }
}

/// Whether declaration `x` is among the entries the scope at `scope` knows
/// under the key `nm`.
pub open spec fn lit_registered(
    s: AnalyzerCoreStateBlob,
    scope: ObjPoolIndex<crate::ast::Scope>,
    nm: ScopeItemName,
    x: ObjPoolIndex<AstNode>,
) -> bool {
    &&& scope.i < s.op_s@.len()
    &&& scope_find(s.op_s@[scope.i as int]@, nm) matches Some(w) && w.contains(x)
}

/// Whether declaration `x` is findable in the scope at `scope` under some
/// key that literal production `lpt` denotes.
pub open spec fn lit_node_registered(
    s: AnalyzerCoreStateBlob,
    scope: ObjPoolIndex<crate::ast::Scope>,
    lpt: VhdlParseTreeNode,
    x: ObjPoolIndex<AstNode>,
) -> bool {
    exists|nm: ScopeItemName|
        #[trigger] designator_denotes(s.sp, lpt, nm) && lit_registered(s, scope, nm, x)
}

/// Recording an item never removes one: a declaration found under a key is
/// still found under it after any addition.
proof fn lemma_scope_add_preserves_membership(
    entries: Seq<crate::ast::ScopeEntry>,
    n_add: ScopeItemName,
    item: ObjPoolIndex<AstNode>,
    n: ScopeItemName,
    y: ObjPoolIndex<AstNode>,
)
    requires
        scope_find(entries, n) matches Some(w) && w.contains(y),
    ensures
        scope_find(scope_add_spec(entries, n_add, item), n) matches Some(w2) && w2.contains(y),
{
    let e1 = scope_add_spec(entries, n_add, item);
    if name_eq(n, n_add) {
        crate::ast::lemma_scope_find_pos_respects(entries, n, n_add);
        lemma_find_after_grow(entries, n_add, item);
        crate::ast::lemma_scope_find_pos_respects(e1, n, n_add);
        let w = scope_find(entries, n_add)->0;
        let j = choose|j: int| 0 <= j < w.len() && w[j] == y;
        assert(w.push(item)[j] == y);
        assert(scope_find(e1, n)->0.contains(y));
    } else {
        crate::ast::lemma_scope_add_preserves_other(entries, n_add, item, n);
    }
}

/// What a designator denotes only reads pool entries, which later interning
/// leaves in place.
proof fn lemma_designator_denotes_stable(
    sp1: StringPool,
    sp2: StringPool,
    pt: VhdlParseTreeNode,
    nm: ScopeItemName,
)
    requires
        designator_denotes(sp1, pt, nm),
        forall|a: int, b: int|
            #[trigger] sp1.is_entry(a, b) ==> sp2.is_entry(a, b) && sp2.str_at(a, b) == sp1.str_at(
                a,
                b,
            ),
    ensures
        designator_denotes(sp2, pt, nm),
{
}

/// A registered literal stays registered across a step that extends the pool
/// and keeps scope memberships.
proof fn lemma_lit_node_registered_stable(
    s1: AnalyzerCoreStateBlob,
    s2: AnalyzerCoreStateBlob,
    scope: ObjPoolIndex<crate::ast::Scope>,
    lpt: VhdlParseTreeNode,
    x: ObjPoolIndex<AstNode>,
)
    requires
        lit_node_registered(s1, scope, lpt, x),
        forall|a: int, b: int|
            #[trigger] s1.sp.is_entry(a, b) ==> s2.sp.is_entry(a, b) && s2.sp.str_at(a, b)
                == s1.sp.str_at(a, b),
        forall|nm: ScopeItemName, y: ObjPoolIndex<AstNode>|
            #[trigger] lit_registered(s1, scope, nm, y) ==> lit_registered(s2, scope, nm, y),
    ensures
        lit_node_registered(s2, scope, lpt, x),
{
    let nm = choose|nm: ScopeItemName|
        #[trigger] designator_denotes(s1.sp, lpt, nm) && lit_registered(s1, scope, nm, x);
    lemma_designator_denotes_stable(s1.sp, s2.sp, lpt, nm);
    assert(designator_denotes(s2.sp, lpt, nm) && lit_registered(s2, scope, nm, x));
}

/// Analyzes one enumeration literal: allocates its declaration at position
/// `*idx`, records it in the scope (overloads permitting), and appends it to
/// the owning type declaration's literal list.
#[verifier::loop_isolation(false)]
pub fn analyze_enum_lit(
    s: &mut AnalyzerCoreStateBlob,
    lit_pt: &VhdlParseTreeNode,
    scope: ObjPoolIndex<crate::ast::Scope>,
    idx: &mut i64,
    e_: ObjPoolIndex<AstNode>,
    pt_for_loc: &VhdlParseTreeNode,
) -> (r: Result<bool, Fatal>)
    requires
        state_wf(*old(s)),
    ensures
        state_wf(*final(s)),
        state_extends(*old(s), *final(s)),
        decl_frame(*old(s), *final(s)),
        final(s).blacklisted_names@ == old(s).blacklisted_names@,
        *final(idx) == *old(idx),
        r == Result::<bool, Fatal>::Ok(true) ==> final(s).errors@ == old(s).errors@
            && scope_preserves_singular(*old(s), *final(s), scope) && ({
            // a fresh literal declaration at position *idx, pointing back at
            // its owning type declaration, whose literal list gained it
            let x = old(s).op_n@.len() as int;
            &&& final(s).op_n@.len() == old(s).op_n@.len() + 1
            &&& (final(s).op_n@[x] matches AstNode::EnumerationLitDecl {
                idx: pos,
                corresponding_type_decl: ctd,
                ..
            } && pos == *old(idx) && ctd == e_)
            &&& e_.i < old(s).op_n@.len()
            &&& (match (old(s).op_n@[e_.i as int], final(s).op_n@[e_.i as int]) {
                (
                    AstNode::EnumerationTypeDecl { literals: l0, loc: loc0, id: id0 },
                    AstNode::EnumerationTypeDecl { literals: l1, loc: loc1, id: id1 },
                ) => l1@.len() == l0@.len() + 1 && l1@.take(l0@.len() as int) == l0@
                    && l1@.last().i == old(s).op_n@.len() && loc1 == loc0 && id1 == id0,
                _ => false,
            })
            &&& forall|j: int|
                0 <= j < old(s).op_n@.len() && j != e_.i ==> final(s).op_n@[j] == old(s).op_n@[j]
        }),
        // the accepted literal is findable in the scope under the designator
        // its own production denotes
        r == Result::<bool, Fatal>::Ok(true) ==> scope.i < old(s).op_s@.len() && (
        match final(s).op_n@[e_.i as int] {
            AstNode::EnumerationTypeDecl { literals: l1, .. } => l1@.len() > 0
                && lit_node_registered(*final(s), scope, *lit_pt, l1@.last()),
            _ => false,
        }),
        r == Result::<bool, Fatal>::Ok(true) ==> forall|
            nm: ScopeItemName,
            y: ObjPoolIndex<AstNode>,
        |
            #[trigger] lit_registered(*old(s), scope, nm, y) ==> lit_registered(
                *final(s),
                scope,
                nm,
                y,
            ),
        r == Result::<bool, Fatal>::Ok(false) ==> final(s).errors@.len() == old(s).errors@.len()
            + 1 && (final(s).errors@.last().kind matches DiagnosticKind::DuplicateEnumLiteral(_))
            && final(s).op_s@ == old(s).op_s@ && final(s).op_n@.len() == old(s).op_n@.len() + 1
            && (forall|j: int| 0 <= j < old(s).op_n@.len() ==> final(s).op_n@[j] == old(s).op_n@[j]),
        // acceptance and rejection are owed to the conflict algorithm over
        // the allocated literal declaration
        r is Ok && scope.i < old(s).op_s@.len() ==> exists|
            lit: EnumerationLiteral,
            x: ObjPoolIndex<AstNode>,
        |
            #![trigger spec_to_scope_item_name(lit), x.i]
            {
                &&& lit_pt.node_type == ParseTreeNodeType::PT_LIT_CHAR ==> lit
                    == EnumerationLiteral::CharLiteral(lit_pt.chr)
                &&& lit_pt.node_type != ParseTreeNodeType::PT_LIT_CHAR ==> (
                lit matches EnumerationLiteral::Identifier(nid) && canonicalized(
                    final(s).sp,
                    nid,
                    lit_pt.str1@,
                    pt_id_ext(*lit_pt),
                ))
                &&& x.i == old(s).op_n@.len()
                &&& match try_add_spec(
                    old(s).op_n@.push(
                        AstNode::EnumerationLitDecl {
                            lit,
                            idx: *old(idx),
                            corresponding_type_decl: e_,
                        },
                    ),
                    old(s).op_s@[scope.i as int]@,
                    spec_to_scope_item_name(lit),
                    x,
                ) {
                    Ok(Some(_)) => r == Result::<bool, Fatal>::Ok(true),
                    Ok(None) => r == Result::<bool, Fatal>::Ok(false),
                    Err(_) => false,
                }
            },
{
    let lit = match lit_pt.node_type {
        ParseTreeNodeType::PT_LIT_CHAR => EnumerationLiteral::CharLiteral(lit_pt.chr),
        _ => {
            match analyze_identifier(s, lit_pt) {
                Ok(id) => EnumerationLiteral::Identifier(id),
                Err(f) => {
                    return Err(f);
                },
            }
        },
    };
    let x_ = s.op_n.allocate(
        AstNode::EnumerationLitDecl { lit, idx: *idx, corresponding_type_decl: e_ },
    );
    match try_add_declaration(s, lit.to_scope_item_name(), x_, scope) {
        Err(f) => {
            return Err(f);
        },
        Ok(false) => {
            if let Err(f) = dump_error(s, pt_for_loc, DiagnosticKind::DuplicateEnumLiteral(lit)) {
                return Err(f);
            }
            return Ok(false);
        },
        Ok(true) => {},
    }
    // Append the literal to the owning type declaration.
    if e_.i >= s.op_n.len() {
        return Err(Fatal::AstInvariant);
    }
    let is_enum_type = match s.op_n.get(e_) {
        AstNode::EnumerationTypeDecl { .. } => true,
        _ => false,
    };
    if !is_enum_type {
        return Err(Fatal::AstInvariant);
    }
    match s.op_n.get_mut(e_) {
        AstNode::EnumerationTypeDecl { literals, .. } => {
            literals.push(x_);
        },
        _ => {
            proof {
                assert(false);
            }
        },
    }
    proof {
        let name = crate::ast::spec_to_scope_item_name(lit);
        let entries0 = old(s).op_s@[scope.i as int]@;
        assert forall|n: ScopeItemName|
            (#[trigger] scope_find(entries0, n) matches Some(v) && v.len() > 0 && v[0].i < old(
                s,
            ).op_n@.len() && !crate::ast::spec_overloadable(
                old(s).op_n@[v[0].i as int],
            )) implies scope_find(s.op_s@[scope.i as int]@, n) == scope_find(entries0, n) by {
            assert(!name_eq(n, name)) by {
                if name_eq(n, name) {
                    crate::ast::lemma_scope_find_pos_respects(entries0, n, name);
                }
            }
            crate::ast::lemma_scope_add_preserves_other(entries0, name, x_, n);
        }
        // the new literal is findable under the designator its production
        // denotes
        assert(s.op_s@[scope.i as int]@ == scope_add_spec(entries0, name, x_));
        if scope_find(entries0, name) is None {
            lemma_find_after_fresh_add_pub(entries0, name, x_);
            assert(seq![x_][0] == x_);
        } else {
            lemma_find_after_grow(entries0, name, x_);
            let w = scope_find(entries0, name)->0;
            assert(w.push(x_)[w.len() as int] == x_);
        }
        assert(designator_denotes(s.sp, *lit_pt, name));
        assert(lit_registered(*s, scope, name, x_));
        assert(lit_node_registered(*s, scope, *lit_pt, x_));
        match s.op_n@[e_.i as int] {
            AstNode::EnumerationTypeDecl { literals: l1, .. } => {
                assert(l1@.last() == x_);
            },
            _ => {
                assert(false);
            },
        }
        // earlier registrations survive the one addition
        assert forall|nm: ScopeItemName, y: ObjPoolIndex<AstNode>| #[trigger] lit_registered(
            *old(s),
            scope,
            nm,
            y,
        ) implies lit_registered(*s, scope, nm, y) by {
            lemma_scope_add_preserves_membership(entries0, name, x_, nm, y);
        }
    }
    Ok(true)
}

/// How a run of literal analyses changes the owning type declaration at
/// `e_`: its literal list is extended, in order, by declarations carrying
/// the consecutive positions `pos0 ..= pos1`, each pointing back at `e_`.
pub open spec fn literals_extended(
    s0: AnalyzerCoreStateBlob,
    s1: AnalyzerCoreStateBlob,
    e_: ObjPoolIndex<AstNode>,
    pos0: i64,
    pos1: i64,
) -> bool {
    &&& e_.i < s0.op_n@.len()
    &&& pos1 >= pos0
    &&& match (s0.op_n@[e_.i as int], s1.op_n@[e_.i as int]) {
        (
            AstNode::EnumerationTypeDecl { literals: l0, loc: loc0, id: id0 },
            AstNode::EnumerationTypeDecl { literals: l1, loc: loc1, id: id1 },
        ) => {
            &&& loc1 == loc0
            &&& id1 == id0
            &&& l1@.len() == l0@.len() + (pos1 - pos0) + 1
            &&& l1@.take(l0@.len() as int) == l0@
            &&& forall|k: int|
                l0@.len() <= k < l1@.len() ==> {
                    let li = #[trigger] l1@[k];
                    &&& li.i < s1.op_n@.len()
                    &&& (s1.op_n@[li.i as int] matches AstNode::EnumerationLitDecl {
                        idx: pos,
                        corresponding_type_decl: ctd,
                        ..
                    } && pos == pos0 + (k - l0@.len()) && ctd == e_)
                }
        },
        _ => false,
    }
}

/// Analyzes an enumeration-literal list left to right, assigning each
/// literal the next 0-based position.
#[verifier::loop_isolation(false)]
#[verifier::rlimit(100)]
pub fn analyze_enum_lits(
    s: &mut AnalyzerCoreStateBlob,
    lit_pt: &VhdlParseTreeNode,
    scope: ObjPoolIndex<crate::ast::Scope>,
    idx: &mut i64,
    e_: ObjPoolIndex<AstNode>,
    pt_for_loc: &VhdlParseTreeNode,
) -> (r: Result<bool, Fatal>)
    requires
        state_wf(*old(s)),
    ensures
        state_wf(*final(s)),
        state_extends(*old(s), *final(s)),
        decl_frame(*old(s), *final(s)),
        final(s).blacklisted_names@ == old(s).blacklisted_names@,
        r == Result::<bool, Fatal>::Ok(true) ==> final(s).errors@ == old(s).errors@
            && scope_preserves_singular(*old(s), *final(s), scope) && (forall|j: int|
            0 <= j < old(s).op_n@.len() && j != e_.i ==> final(s).op_n@[j] == old(s).op_n@[j])
            && literals_extended(*old(s), *final(s), e_, *old(idx), *final(idx)),
        // the run covers exactly the production's literal nodes, and each one
        // is findable in the scope under its own designator
        r == Result::<bool, Fatal>::Ok(true) ==> scope.i < old(s).op_s@.len() && ({
            let lits = pt_enum_lit_nodes(*lit_pt);
            &&& *final(idx) - *old(idx) + 1 == lits.len()
            &&& match (old(s).op_n@[e_.i as int], final(s).op_n@[e_.i as int]) {
                (
                    AstNode::EnumerationTypeDecl { literals: l0, .. },
                    AstNode::EnumerationTypeDecl { literals: l1, .. },
                ) => forall|k: int|
                    #![trigger lits[k]]
                    0 <= k < lits.len() ==> lit_node_registered(
                        *final(s),
                        scope,
                        lits[k],
                        l1@[l0@.len() + k],
                    ),
                _ => false,
            }
        }),
        r == Result::<bool, Fatal>::Ok(true) ==> forall|
            nm: ScopeItemName,
            y: ObjPoolIndex<AstNode>,
        |
            #[trigger] lit_registered(*old(s), scope, nm, y) ==> lit_registered(
                *final(s),
                scope,
                nm,
                y,
            ),
        r == Result::<bool, Fatal>::Ok(false) ==> final(s).errors@.len() > old(s).errors@.len()
            && (final(s).errors@.last().kind matches DiagnosticKind::DuplicateEnumLiteral(_)),
    decreases *lit_pt,
{
    match lit_pt.node_type {
        ParseTreeNodeType::PT_ENUM_LITERAL_LIST => {
            let rest_pt = match &lit_pt.piece0 {
                Some(b) => &**b,
                None => {
                    return Err(Fatal::AstInvariant);
                },
            };
            match analyze_enum_lits(s, rest_pt, scope, idx, e_, pt_for_loc) {
                Ok(true) => {},
                Ok(false) => {
                    return Ok(false);
                },
                Err(f) => {
                    return Err(f);
                },
            }
            if *idx == i64::MAX {
                return Err(Fatal::InternalConsistency);
            }
            let ghost pos_mid = *idx;
            let ghost s_mid = *s;
            *idx = *idx + 1;
            let this_pt = match &lit_pt.piece1 {
                Some(b) => &**b,
                None => {
                    return Err(Fatal::AstInvariant);
                },
            };
            let r = analyze_enum_lit(s, this_pt, scope, idx, e_, pt_for_loc);
            proof {
                lemma_state_extends_trans(*old(s), s_mid, *s);
                if r == Result::<bool, Fatal>::Ok(true) {
                    lemma_literals_extended_step(
                        *old(s),
                        s_mid,
                        *s,
                        e_,
                        *old(idx),
                        pos_mid,
                    );
                    lemma_scope_preserves_singular_trans(*old(s), s_mid, *s, scope);
                    let lits = pt_enum_lit_nodes(*lit_pt);
                    let lits_rest = pt_enum_lit_nodes(*rest_pt);
                    assert(lits =~= lits_rest.push(*this_pt));
                    match (old(s).op_n@[e_.i as int], s_mid.op_n@[e_.i as int], s.op_n@[e_.i as int]) {
                        (
                            AstNode::EnumerationTypeDecl { literals: l0, .. },
                            AstNode::EnumerationTypeDecl { literals: lm, .. },
                            AstNode::EnumerationTypeDecl { literals: l2, .. },
                        ) => {
                            assert forall|k: int| #![trigger lits[k]] 0 <= k
                                < lits.len() implies lit_node_registered(
                                *s,
                                scope,
                                lits[k],
                                l2@[l0@.len() + k],
                            ) by {
                                if k < lits_rest.len() {
                                    assert(lits[k] == lits_rest[k]);
                                    assert(lit_node_registered(
                                        s_mid,
                                        scope,
                                        lits_rest[k],
                                        lm@[l0@.len() + k],
                                    ));
                                    lemma_lit_node_registered_stable(
                                        s_mid,
                                        *s,
                                        scope,
                                        lits_rest[k],
                                        lm@[l0@.len() + k],
                                    );
                                    assert(l2@[l0@.len() + k] == l2@.take(lm@.len() as int)[l0@.len()
                                        + k]);
                                } else {
                                    assert(lits[k] == *this_pt);
                                    assert(l2@[l0@.len() + k] == l2@.last());
                                    assert(lit_node_registered(*s, scope, *this_pt, l2@.last()));
                                }
                            }
                        },
                        _ => {
                            assert(false);
                        },
                    }
                    assert forall|nm: ScopeItemName, y: ObjPoolIndex<AstNode>|
                        #[trigger] lit_registered(*old(s), scope, nm, y) implies lit_registered(
                        *s,
                        scope,
                        nm,
                        y,
                    ) by {
                        assert(lit_registered(s_mid, scope, nm, y));
                    }
                }
            }
            r
        },
        _ => {
            let ghost p = *idx;
            let r = analyze_enum_lit(s, lit_pt, scope, idx, e_, pt_for_loc);
            proof {
                if r == Result::<bool, Fatal>::Ok(true) {
                    lemma_literals_extended_one(*old(s), *s, e_, p);
                    let lits = pt_enum_lit_nodes(*lit_pt);
                    assert(lits =~= seq![*lit_pt]);
                    match (old(s).op_n@[e_.i as int], s.op_n@[e_.i as int]) {
                        (
                            AstNode::EnumerationTypeDecl { literals: l0, .. },
                            AstNode::EnumerationTypeDecl { literals: l1, .. },
                        ) => {
                            assert forall|k: int| #![trigger lits[k]] 0 <= k
                                < lits.len() implies lit_node_registered(
                                *s,
                                scope,
                                lits[k],
                                l1@[l0@.len() + k],
                            ) by {
                                assert(lits[k] == *lit_pt);
                                assert(l1@[l0@.len() + k] == l1@.last());
                                assert(lit_node_registered(*s, scope, *lit_pt, l1@.last()));
                            }
                        },
                        _ => {
                            assert(false);
                        },
                    }
                }
            }
            r
        },
    }
}

/// One literal analysis extends the literal list by one declaration at the
/// current position.
proof fn lemma_literals_extended_one(
    s0: AnalyzerCoreStateBlob,
    s1: AnalyzerCoreStateBlob,
    e_: ObjPoolIndex<AstNode>,
    p: i64,
)
    requires
        s1.op_n@.len() == s0.op_n@.len() + 1,
        e_.i < s0.op_n@.len(),
        (s1.op_n@[s0.op_n@.len() as int] matches AstNode::EnumerationLitDecl {
            idx: pos,
            corresponding_type_decl: ctd,
            ..
        } && pos == p && ctd == e_),
        match (s0.op_n@[e_.i as int], s1.op_n@[e_.i as int]) {
            (
                AstNode::EnumerationTypeDecl { literals: l0, loc: loc0, id: id0 },
                AstNode::EnumerationTypeDecl { literals: l1, loc: loc1, id: id1 },
            ) => l1@.len() == l0@.len() + 1 && l1@.take(l0@.len() as int) == l0@
                && l1@.last().i == s0.op_n@.len() && loc1 == loc0 && id1 == id0,
            _ => false,
        },
    ensures
        literals_extended(s0, s1, e_, p, p),
{
    match (s0.op_n@[e_.i as int], s1.op_n@[e_.i as int]) {
        (
            AstNode::EnumerationTypeDecl { literals: l0, .. },
            AstNode::EnumerationTypeDecl { literals: l1, .. },
        ) => {
            assert(l1@[l0@.len() as int] == l1@.last());
        },
        _ => {
            assert(false);
        },
    }
}

/// Extending the literal list and then analyzing one more literal at the
/// next position extends it by the whole run.
proof fn lemma_literals_extended_step(
    s0: AnalyzerCoreStateBlob,
    s1: AnalyzerCoreStateBlob,
    s2: AnalyzerCoreStateBlob,
    e_: ObjPoolIndex<AstNode>,
    p0: i64,
    p1: i64,
)
    requires
        literals_extended(s0, s1, e_, p0, p1),
        p1 < i64::MAX,
        s2.op_n@.len() == s1.op_n@.len() + 1,
        e_.i < s1.op_n@.len(),
        (s2.op_n@[s1.op_n@.len() as int] matches AstNode::EnumerationLitDecl {
            idx: pos,
            corresponding_type_decl: ctd,
            ..
        } && pos == p1 + 1 && ctd == e_),
        match (s1.op_n@[e_.i as int], s2.op_n@[e_.i as int]) {
            (
                AstNode::EnumerationTypeDecl { literals: l1, loc: loc1, id: id1 },
                AstNode::EnumerationTypeDecl { literals: l2, loc: loc2, id: id2 },
            ) => l2@.len() == l1@.len() + 1 && l2@.take(l1@.len() as int) == l1@
                && l2@.last().i == s1.op_n@.len() && loc2 == loc1 && id2 == id1,
            _ => false,
        },
        forall|j: int| 0 <= j < s1.op_n@.len() && j != e_.i ==> s2.op_n@[j] == s1.op_n@[j],
    ensures
        literals_extended(s0, s2, e_, p0, (p1 + 1) as i64),
{
    match (s0.op_n@[e_.i as int], s1.op_n@[e_.i as int], s2.op_n@[e_.i as int]) {
        (
            AstNode::EnumerationTypeDecl { literals: l0, .. },
            AstNode::EnumerationTypeDecl { literals: l1, .. },
            AstNode::EnumerationTypeDecl { literals: l2, .. },
        ) => {
            assert(l2@.take(l0@.len() as int) =~= l1@.take(l0@.len() as int));
            assert forall|k: int| l0@.len() <= k < l2@.len() implies {
                let li = #[trigger] l2@[k];
                &&& li.i < s2.op_n@.len()
                &&& (s2.op_n@[li.i as int] matches AstNode::EnumerationLitDecl {
                    idx: pos,
                    corresponding_type_decl: ctd,
                    ..
                } && pos == p0 + (k - l0@.len()) && ctd == e_)
            } by {
                if k < l1@.len() {
                    assert(l2@[k] == l2@.take(l1@.len() as int)[k]);
                    let li = l1@[k];
                    assert(s1.op_n@[li.i as int] matches AstNode::EnumerationLitDecl { .. });
                    assert(li.i != e_.i);
                    assert(s2.op_n@[li.i as int] == s1.op_n@[li.i as int]);
                } else {
                    assert(l2@[k] == l2@.last());
                }
            }
        },
        _ => {
            assert(false);
        },
    }
}

/// Analyzes a full type declaration; only enumeration type definitions are
/// implemented. The type is recorded first, then its literals left to right,
/// each pointing back at the type.
#[verifier::loop_isolation(false)]
#[verifier::rlimit(80)]
pub fn analyze_type_decl(
    s: &mut AnalyzerCoreStateBlob,
    pt: &VhdlParseTreeNode,
    scope: ObjPoolIndex<crate::ast::Scope>,
) -> (r: Result<bool, Fatal>)
    requires
        state_wf(*old(s)),
    ensures
        state_wf(*final(s)),
        state_extends(*old(s), *final(s)),
        decl_frame(*old(s), *final(s)),
        final(s).blacklisted_names@ == old(s).blacklisted_names@,
        r == Result::<bool, Fatal>::Ok(true) ==> final(s).errors@ == old(s).errors@ && ({
            // a fresh enumeration-type declaration, registered in the scope
            // under its name, whose literals carry the 0-based positions of
            // their textual order and point back at it
            let d = old(s).op_n@.len() as int;
            &&& d < final(s).op_n@.len()
            &&& scope.i < final(s).op_s@.len()
            &&& match final(s).op_n@[d] {
                AstNode::EnumerationTypeDecl { literals: l, id: tid, .. } => {
                    &&& (pt.piece0 matches Some(idpt) && canonicalized(
                        final(s).sp,
                        tid,
                        idpt.str1@,
                        pt_id_ext(*idpt),
                    ))
                    &&& (scope_find(
                        final(s).op_s@[scope.i as int]@,
                        ScopeItemName::Identifier(tid),
                    ) matches Some(w) && w.len() == 1 && w[0].i == d)
                    &&& l@.len() >= 1
                    &&& forall|k: int|
                        0 <= k < l@.len() ==> {
                            let li = #[trigger] l@[k];
                            &&& li.i < final(s).op_n@.len()
                            &&& (final(s).op_n@[li.i as int]
                                matches AstNode::EnumerationLitDecl {
                                idx: pos,
                                corresponding_type_decl: ctd,
                                ..
                            } && pos == k && ctd.i == d)
                        }
                        // one registered literal per literal node of the
                        // enumeration definition, each findable in the scope
                        // under its own designator
                    &&& (pt.piece1 matches Some(tdpt) && tdpt.piece0 matches Some(lpt) && ({
                        let lits = pt_enum_lit_nodes(*lpt);
                        &&& l@.len() == lits.len()
                        &&& forall|k: int|
                            #![trigger lits[k]]
                            0 <= k < lits.len() ==> lit_node_registered(
                                *final(s),
                                scope,
                                lits[k],
                                l@[k],
                            )
                    }))
                },
                _ => false,
            }
        }),
        r == Result::<bool, Fatal>::Ok(false) ==> final(s).errors@.len() > old(s).errors@.len()
            && ((final(s).errors@.last().kind matches DiagnosticKind::DuplicateTypeDecl(_)) || (
            final(s).errors@.last().kind matches DiagnosticKind::DuplicateEnumLiteral(_))),
{
    let id_pt = match &pt.piece0 {
        Some(b) => &**b,
        None => {
            return Err(Fatal::AstInvariant);
        },
    };
    let id = match analyze_identifier(s, id_pt) {
        Ok(id) => id,
        Err(f) => {
            return Err(f);
        },
    };
    let ghost s_id = *s;
    let typedef_pt = match &pt.piece1 {
        Some(b) => &**b,
        None => {
            return Err(Fatal::AstInvariant);
        },
    };
    match typedef_pt.node_type {
        ParseTreeNodeType::PT_ENUMERATION_TYPE_DEFINITION => {
            let loc = pt_loc(s, pt);
            let d_ = s.op_n.allocate(
                AstNode::EnumerationTypeDecl { loc, id, literals: Vec::new() },
            );
            let ghost s_add = *s;
            match try_add_declaration(s, ScopeItemName::Identifier(id), d_, scope) {
                Err(f) => {
                    return Err(f);
                },
                Ok(false) => {
                    if let Err(f) = dump_error(s, pt, DiagnosticKind::DuplicateTypeDecl(id)) {
                        return Err(f);
                    }
                    return Ok(false);
                },
                Ok(true) => {},
            }
            let lits_pt = match &typedef_pt.piece0 {
                Some(b) => &**b,
                None => {
                    return Err(Fatal::AstInvariant);
                },
            };
            proof {
                // the type itself is not overloadable, so its key was free
                // and now maps to exactly the new declaration
                let name = ScopeItemName::Identifier(id);
                let entries0 = old(s).op_s@[scope.i as int]@;
                assert(scope_find(entries0, name) is None) by {
                    if scope_find(entries0, name) is Some {
                        assert(try_add_spec(s_add.op_n@, entries0, name, d_) matches Ok(Some(_)));
                        assert(!crate::ast::spec_overloadable(s_add.op_n@[d_.i as int]));
                    }
                }
                lemma_find_after_fresh_add_pub(entries0, name, d_);
            }
            let mut idx: i64 = 0;
            let ghost s_lits = *s;
            proof {
                assert(state_extends(s_id, s_lits));
                assert(scope_find(
                    s_lits.op_s@[scope.i as int]@,
                    ScopeItemName::Identifier(id),
                ) == Some(seq![d_]));
            }
            let r = match analyze_enum_lits(s, lits_pt, scope, &mut idx, d_, pt) {
                Ok(true) => Ok(true),
                Ok(false) => Ok(false),
                Err(f) => Err(f),
            };
            proof {
                lemma_state_extends_trans(*old(s), s_lits, *s);
                if r == Result::<bool, Fatal>::Ok(true) {
                    lemma_state_extends_trans(s_id, s_lits, *s);
                    assert(s_lits.op_n@[d_.i as int] matches AstNode::EnumerationTypeDecl {
                        literals: l0,
                        ..
                    } && l0@.len() == 0);
                    assert(canonicalized(s.sp, id, id_pt.str1@, pt_id_ext(*id_pt)));
                    // the type's singular entry survives the literal adds
                    assert(!crate::ast::spec_overloadable(s_lits.op_n@[d_.i as int]));
                    assert(scope_find(
                        s.op_s@[scope.i as int]@,
                        ScopeItemName::Identifier(id),
                    ) == Some(seq![d_]));
                    // the literal run covers exactly the production's nodes
                    match s.op_n@[d_.i as int] {
                        AstNode::EnumerationTypeDecl { literals: l1, .. } => {
                            let lits = pt_enum_lit_nodes(*lits_pt);
                            assert(l1@.len() == lits.len());
                            assert forall|k: int| #![trigger lits[k]] 0 <= k
                                < lits.len() implies lit_node_registered(
                                *s,
                                scope,
                                lits[k],
                                l1@[k],
                            ) by {
                                assert(lit_node_registered(*s, scope, lits[k], l1@[0 + k]));
                            }
                        },
                        _ => {
                            assert(false);
                        },
                    }
                }
            }
            r
        },
        _ => Err(Fatal::UnsupportedParseTree),
    }
}

/// The decimal digits of `n`, most significant first.
pub open spec fn spec_dec(n: u64) -> Seq<u8>
    decreases n,
{
    if n < 10 {
        seq![(0x30 + n) as u8]
    } else {
        spec_dec((n / 10) as u64) + seq![(0x30 + n % 10) as u8]
    }
}

/// Appends the decimal digits of `n`.
fn push_dec(v: &mut Vec<u8>, n: u64)
    ensures
        final(v)@ == old(v)@ + spec_dec(n),
    decreases n,
{
    if n < 10 {
        v.push(0x30 + n as u8);
        proof {
            assert(v@ =~= old(v)@ + spec_dec(n));
        }
    } else {
        push_dec(v, n / 10);
        v.push(0x30 + (n % 10) as u8);
        proof {
            assert(v@ =~= old(v)@ + spec_dec(n));
        }
    }
}

/// Analyzes a function specification: the declared designator becomes a
/// function instantiation of a fresh anonymous generic function declaration
/// (the template/instance split the object model uses for subprograms).
/// The designator is blacklisted while the return type mark is analyzed.
#[verifier::loop_isolation(false)]
#[verifier::rlimit(100)]
pub fn analyze_subprogram_spec(
    s: &mut AnalyzerCoreStateBlob,
    pt: &VhdlParseTreeNode,
    pt_for_loc: &VhdlParseTreeNode,
    scope: ObjPoolIndex<crate::ast::Scope>,
) -> (r: Result<bool, Fatal>)
    requires
        state_wf(*old(s)),
    ensures
        state_wf(*final(s)),
        state_extends(*old(s), *final(s)),
        decl_frame(*old(s), *final(s)),
        r == Result::<bool, Fatal>::Ok(true) ==> final(s).errors@ == old(s).errors@ && final(
            s).blacklisted_names@.len() == 0 && ({
            // the scope gained, under the declared designator, a function
            // instantiation of a fresh anonymous generic template
            &&& scope.i < final(s).op_s@.len()
            &&& pt.piece0 matches Some(dpt) && exists|n: ScopeItemName|
                #[trigger] designator_denotes(final(s).sp, *dpt, n) && (scope_find(
                    final(s).op_s@[scope.i as int]@,
                    n,
                ) matches Some(v) && v.len() == 1 && v[0].i < final(s).op_n@.len() && (final(
                    s).op_n@[v[0].i as int] matches AstNode::FuncInstantiation {
                    generic_func,
                    ..
                } && generic_func.i < final(s).op_n@.len() && (final(
                    s).op_n@[generic_func.i as int] matches AstNode::GenericFunctionDecl {
                    is_pure: gp,
                    ..
                    // the template records the declared purity; an
                    // unspecified purity means pure
                } && gp == (pt.purity != ParseTreeFunctionPurity::PURITY_IMPURE))))
        }),
        r == Result::<bool, Fatal>::Ok(false) ==> final(s).errors@.len() > old(s).errors@.len()
            && ((final(s).errors@.last().kind matches DiagnosticKind::DuplicateFunctionDecl(_))
            || (final(s).errors@.last().kind matches DiagnosticKind::BadTypeMark) || (final(
            s).errors@.last().kind matches DiagnosticKind::NotAType)),
{
    match pt.node_type {
        ParseTreeNodeType::PT_FUNCTION_SPECIFICATION => {
            let is_pure = match pt.purity {
                ParseTreeFunctionPurity::PURITY_IMPURE => false,
                _ => true,
            };
            let loc = pt_loc(s, pt_for_loc);
            let desig_pt = match &pt.piece0 {
                Some(b) => &**b,
                None => {
                    return Err(Fatal::AstInvariant);
                },
            };
            let designator = match analyze_designator(s, desig_pt) {
                Ok(d) => d,
                Err(f) => {
                    return Err(f);
                },
            };
            let ghost s_des = *s;
            s.blacklisted_names.push(designator);
            let rt_pt = match &pt.piece1 {
                Some(b) => &**b,
                None => {
                    return Err(Fatal::AstInvariant);
                },
            };
            let ghost s_mid = *s;
            match analyze_type_mark(s, rt_pt, pt_for_loc) {
                Ok(Some(_)) => {},
                Ok(None) => {
                    proof {
                        lemma_state_extends_trans(*old(s), s_mid, *s);
                    }
                    return Ok(false);
                },
                Err(f) => {
                    proof {
                        lemma_state_extends_trans(*old(s), s_mid, *s);
                    }
                    return Err(f);
                },
            }
            proof {
                lemma_state_extends_trans(*old(s), s_mid, *s);
                assert(state_extends(s_des, s_mid));
                lemma_state_extends_trans(s_des, s_mid, *s);
            }
            if pt.piece2.is_some() || pt.piece3.is_some() {
                return Err(Fatal::NotYetImplemented);
            }
            let ghost s_reg = *s;
            let registered = match register_function(s, loc, designator, is_pure, pt, scope) {
                Ok(b) => b,
                Err(f) => {
                    return Err(f);
                },
            };
            proof {
                lemma_state_extends_trans(*old(s), s_reg, *s);
            }
            if !registered {
                return Ok(false);
            }
            s.blacklisted_names.clear();
            proof {
                lemma_state_extends_trans(s_des, s_reg, *s);
                assert(designator_denotes(s.sp, *desig_pt, designator));
            }
            Ok(true)
        },
        _ => Err(Fatal::UnsupportedParseTree),
    }
}

/// Registers a function under `designator`: a fresh anonymous generic
/// function declaration (the template) plus a function instantiation of it
/// (the declared subprogram), both in the scope at `scope`. A conflict on
/// the declared designator yields `Ok(false)` with a duplicate-function
/// diagnostic appended; a conflict on the fresh internal name cannot come
/// from user code and is an internal-consistency failure.
#[verifier::loop_isolation(false)]
fn register_function(
    s: &mut AnalyzerCoreStateBlob,
    loc: SourceLoc,
    designator: ScopeItemName,
    is_pure: bool,
    pt_for_loc: &VhdlParseTreeNode,
    scope: ObjPoolIndex<crate::ast::Scope>,
) -> (r: Result<bool, Fatal>)
    requires
        state_wf(*old(s)),
    ensures
        state_wf(*final(s)),
        state_extends(*old(s), *final(s)),
        decl_frame(*old(s), *final(s)),
        final(s).blacklisted_names@ == old(s).blacklisted_names@,
        r == Result::<bool, Fatal>::Ok(true) ==> final(s).errors@ == old(s).errors@ && ({
            &&& scope.i < final(s).op_s@.len()
            &&& (scope_find(final(s).op_s@[scope.i as int]@, designator) matches Some(v) && v.len()
                == 1 && v[0].i < final(s).op_n@.len() && (final(
                s).op_n@[v[0].i as int] matches AstNode::FuncInstantiation {
                designator: d2,
                generic_func,
                loc: loc2,
            } && d2 == designator && loc2 == loc && generic_func.i < final(s).op_n@.len() && (
            final(s).op_n@[generic_func.i as int] matches AstNode::GenericFunctionDecl {
                is_pure: gp,
                ..
            } && gp == is_pure)))
        }),
        r == Result::<bool, Fatal>::Ok(false) ==> final(s).errors@.len() == old(s).errors@.len()
            + 1 && (final(s).errors@.last().kind matches DiagnosticKind::DuplicateFunctionDecl(_)),
{
    // A fresh internal name for the anonymous generic piece.
    let mut internal_name: Vec<u8> = "__internal_anon_".as_bytes_vec();
    push_dec(&mut internal_name, s.internal_name_count);
    if s.internal_name_count == u64::MAX {
        return Err(Fatal::InternalConsistency);
    }
    s.internal_name_count = s.internal_name_count + 1;
    let internal_idx = s.sp.add_latin1_str(&internal_name);
    let internal_designator_id = match Identifier::new_latin1(&mut s.sp, internal_idx, true) {
        Ok(id) => id,
        Err(_) => {
            return Err(Fatal::InternalConsistency);
        },
    };
    let internal_designator = ScopeItemName::Identifier(internal_designator_id);
    let ghost s_mid2 = *s;
    // The generic piece.
    let x_ = s.op_n.allocate(
        AstNode::GenericFunctionDecl { loc, designator: internal_designator, is_pure },
    );
    match try_add_declaration(s, internal_designator, x_, scope) {
        Err(f) => {
            return Err(f);
        },
        Ok(false) => {
            return Err(Fatal::InternalConsistency);
        },
        Ok(true) => {},
    }
    // The instantiation.
    let y_ = s.op_n.allocate(AstNode::FuncInstantiation { loc, designator, generic_func: x_ });
    let ghost entries1 = s.op_s@[scope.i as int]@;
    let ghost nodes1 = s.op_n@;
    match try_add_declaration(s, designator, y_, scope) {
        Err(f) => {
            return Err(f);
        },
        Ok(false) => {
            if let Err(f) = dump_error(
                s,
                pt_for_loc,
                DiagnosticKind::DuplicateFunctionDecl(designator),
            ) {
                return Err(f);
            }
            proof {
                lemma_state_extends_trans(*old(s), s_mid2, *s);
            }
            return Ok(false);
        },
        Ok(true) => {},
    }
    proof {
        lemma_state_extends_trans(*old(s), s_mid2, *s);
        lemma_singular_added(nodes1, entries1, designator, y_);
    }
    Ok(true)
}

/// Analyzes a subprogram declaration: its specification carries everything
/// the implemented slice uses.
pub fn analyze_subprogram_decl(
    s: &mut AnalyzerCoreStateBlob,
    pt: &VhdlParseTreeNode,
    scope: ObjPoolIndex<crate::ast::Scope>,
) -> (r: Result<bool, Fatal>)
    requires
        state_wf(*old(s)),
    ensures
        state_wf(*final(s)),
        state_extends(*old(s), *final(s)),
        decl_frame(*old(s), *final(s)),
        r == Result::<bool, Fatal>::Ok(true) ==> final(s).errors@ == old(s).errors@,
        r == Result::<bool, Fatal>::Ok(false) ==> final(s).errors@.len() > old(s).errors@.len()
            && is_declaration_diag(final(s).errors@.last().kind),
{
    let spec_pt = match &pt.piece0 {
        Some(b) => &**b,
        None => {
            return Err(Fatal::AstInvariant);
        },
    };
    analyze_subprogram_spec(s, spec_pt, pt, scope)
}

/// Dispatches one declarative item to its analyzer.
pub fn analyze_declarative_item(
    s: &mut AnalyzerCoreStateBlob,
    pt: &VhdlParseTreeNode,
    decl_scope: ObjPoolIndex<crate::ast::Scope>,
    use_scope: ObjPoolIndex<crate::ast::Scope>,
) -> (r: Result<bool, Fatal>)
    requires
        state_wf(*old(s)),
    ensures
        state_wf(*final(s)),
        state_extends(*old(s), *final(s)),
        decl_frame(*old(s), *final(s)),
        r == Result::<bool, Fatal>::Ok(true) ==> final(s).errors@ == old(s).errors@,
        r == Result::<bool, Fatal>::Ok(false) ==> final(s).errors@.len() > old(s).errors@.len()
            && is_declaration_diag(final(s).errors@.last().kind),
{
    match pt.node_type {
        ParseTreeNodeType::PT_FULL_TYPE_DECLARATION => analyze_type_decl(s, pt, decl_scope),
        ParseTreeNodeType::PT_SUBTYPE_DECLARATION => analyze_subtype_decl(s, pt, decl_scope),
        ParseTreeNodeType::PT_CONSTANT_DECLARATION => analyze_constant_decl(s, pt, decl_scope),
        ParseTreeNodeType::PT_SUBPROGRAM_DECLARATION => analyze_subprogram_decl(
            s,
            pt,
            decl_scope,
        ),
        _ => Err(Fatal::UnsupportedParseTree),
    }
}

/// Walks a declaration list left to right; the first failing declaration
/// aborts the list.
pub fn analyze_declaration_list(
    s: &mut AnalyzerCoreStateBlob,
    pt: &VhdlParseTreeNode,
    decl_scope: ObjPoolIndex<crate::ast::Scope>,
    use_scope: ObjPoolIndex<crate::ast::Scope>,
) -> (r: Result<bool, Fatal>)
    requires
        state_wf(*old(s)),
    ensures
        state_wf(*final(s)),
        state_extends(*old(s), *final(s)),
        decl_frame(*old(s), *final(s)),
        r == Result::<bool, Fatal>::Ok(true) ==> final(s).errors@ == old(s).errors@,
        r == Result::<bool, Fatal>::Ok(false) ==> final(s).errors@.len() > old(s).errors@.len()
            && is_declaration_diag(final(s).errors@.last().kind),
    decreases *pt,
{
    match pt.node_type {
        ParseTreeNodeType::PT_DECLARATION_LIST => {
            let rest_pt = match &pt.piece0 {
                Some(b) => &**b,
                None => {
                    return Err(Fatal::AstInvariant);
                },
            };
            match analyze_declaration_list(s, rest_pt, decl_scope, use_scope) {
                Ok(true) => {},
                Ok(false) => {
                    return Ok(false);
                },
                Err(f) => {
                    return Err(f);
                },
            }
            let item_pt = match &pt.piece1 {
                Some(b) => &**b,
                None => {
                    return Err(Fatal::AstInvariant);
                },
            };
            let ghost s_mid = *s;
            let r = analyze_declarative_item(s, item_pt, decl_scope, use_scope);
            proof {
                lemma_state_extends_trans(*old(s), s_mid, *s);
            }
            r
        },
        _ => analyze_declarative_item(s, pt, decl_scope, use_scope),
    }
}

/// An entity shape that owes a verdict rather than a fatal abort: a valid
/// leading identifier, no declarative part, a trailing identifier absent or
/// itself a valid identifier production, a file under analysis, a sound
/// enclosing chain link, the target scope allocated, and a valid work
/// library with no tentative entry pending whose committed units' indices
/// are in range. Such an entity may still be rejected with a diagnostic,
/// but its analysis never aborts.
pub open spec fn entity_shape_ok(
    pt: VhdlParseTreeNode,
    s: AnalyzerCoreStateBlob,
    tgt_scope: ObjPoolIndex<crate::ast::Scope>,
) -> bool {
    &&& s.current_file_name is Some
    &&& pt.piece0 matches Some(idpt) && pt_is_id(*idpt) && id_text_ok(idpt.str1@, pt_id_ext(*idpt))
    &&& pt.piece2 is None
    &&& match pt.piece4 {
        None => true,
        Some(tpt) => pt_is_id(*tpt) && id_text_ok(tpt.str1@, pt_id_ext(*tpt)),
    }
    &&& match s.innermost_scope {
        Some(h) => h.i < s.op_sc@.len(),
        None => true,
    }
    &&& tgt_scope.i < s.op_s@.len()
    &&& s.work_lib matches Some(w) && w.i < s.op_l@.len() && s.op_l@[w.i as int] is X
        && lib_tentative(s.op_l@[w.i as int]) is None && (forall|j: int|
        0 <= j < lib_by_name(s.op_l@[w.i as int]).len() ==> (#[trigger] lib_by_name(
            s.op_l@[w.i as int],
        )[j]).1.i < s.op_n@.len())
}

/// Analyzes an entity declaration.
///
/// The trailing repeated identifier (when present) must match; a design unit
/// of the same name must not already exist in the work library. The entity
/// gets a fresh use scope and declaration scope chained onto the enclosing
/// region, is registered tentatively, and has its declarative part walked;
/// success commits the registration, and any declaration failure rolls it
/// back, so a partly analyzed entity is never findable afterwards.
#[verifier::loop_isolation(false)]
#[verifier::rlimit(100)]
pub fn analyze_entity(
    s: &mut AnalyzerCoreStateBlob,
    pt: &VhdlParseTreeNode,
    tgt_scope: ObjPoolIndex<crate::ast::Scope>,
) -> (r: Result<bool, Fatal>)
    requires
        state_wf(*old(s)),
    ensures
        state_wf(*final(s)),
        state_extends(*old(s), *final(s)),
        match r {
            Ok(true) => {
                &&& final(s).errors@ == old(s).errors@
                &&& old(s).work_lib matches Some(w) && w.i < old(s).op_l@.len() && ({
                    let l0 = old(s).op_l@[w.i as int];
                    let l1 = final(s).op_l@[w.i as int];
                    &&& lib_by_order(l1).len() == lib_by_order(l0).len() + 1
                    &&& entity_committed(*final(s), l0, l1, *pt)
                })
            },
            Ok(false) => {
                &&& final(s).errors@.len() > old(s).errors@.len()
                &&& match old(s).work_lib {
                    Some(w) => w.i < old(s).op_l@.len() ==> ({
                        let l0 = old(s).op_l@[w.i as int];
                        let l1 = final(s).op_l@[w.i as int];
                        &&& lib_by_name(l1) == lib_by_name(l0)
                        &&& lib_by_order(l1) == lib_by_order(l0)
                        &&& (lib_tentative(l1) == lib_tentative(l0) || lib_tentative(l1) is None)
                    }),
                    None => true,
                }
            },
            Err(_) => true,
        },
        // a trailing identifier that does not repeat the leading one forces
        // rejection with the mismatch diagnostic and an untouched library
        r is Ok && (pt.piece0 matches Some(idpt) && pt.piece4 matches Some(tpt) && id_text_ok(
            idpt.str1@,
            pt_id_ext(*idpt),
        ) && id_text_ok(tpt.str1@, pt_id_ext(*tpt)) && !(pt_id_ext(*tpt) == pt_id_ext(*idpt)
            && crate::identifier::canonical_text(tpt.str1@, pt_id_ext(*tpt))
            == crate::identifier::canonical_text(idpt.str1@, pt_id_ext(*idpt)))) ==> r
            == Result::<bool, Fatal>::Ok(false) && (final(s).errors@.last().kind
            matches DiagnosticKind::EntityNameMismatch) && final(s).op_l@ == old(s).op_l@,
        // success is owed: an entity of the implemented shape is analyzed to
        // a verdict, so a body that always aborts cannot meet this contract
        entity_shape_ok(*pt, *old(s), tgt_scope) ==> r is Ok,
        // a design unit of the same name already in the work library forces
        // rejection with the duplicate diagnostic and an untouched library,
        // whether or not a (matching) trailing identifier is present
        r is Ok ==> match (old(s).work_lib, pt.piece0) {
            (Some(w), Some(idpt)) => w.i < old(s).op_l@.len() ==> forall|du: Identifier|
                (trailing_id_matches(*pt) && #[trigger] canonicalized(
                    final(s).sp,
                    du,
                    idpt.str1@,
                    pt_id_ext(*idpt),
                ) && lib_find(old(s).op_l@[w.i as int], du) is Some) ==> r == Result::<
                    bool,
                    Fatal,
                >::Ok(false) && (final(s).errors@.last().kind
                    matches DiagnosticKind::DuplicateDesignUnit(_, _)) && final(s).op_l@ == old(
                    s,
                ).op_l@,
            _ => true,
        },
{
    let loc = pt_loc(s, pt);
    let id_pt = match &pt.piece0 {
        Some(b) => &**b,
        None => {
            return Err(Fatal::AstInvariant);
        },
    };
    let id = match analyze_identifier(s, id_pt) {
        Ok(id) => id,
        Err(f) => {
            return Err(f);
        },
    };
    let ghost s_id = *s;
    // The trailing identifier, when present, must repeat the leading one.
    if let Some(tail_id_pt) = &pt.piece4 {
        let ghost s_mid = *s;
        let tail_id = match analyze_identifier(s, &**tail_id_pt) {
            Ok(id) => id,
            Err(f) => {
                proof {
                    lemma_state_extends_trans(*old(s), s_mid, *s);
                }
                return Err(f);
            },
        };
        proof {
            lemma_state_extends_trans(*old(s), s_mid, *s);
        }
        if tail_id != id {
            if let Err(f) = dump_error(s, pt, DiagnosticKind::EntityNameMismatch) {
                return Err(f);
            }
            proof {
                // a canonically matching trailing identifier canonicalizes
                // equal to the leading one, so it cannot reach this exit
                if trailing_id_matches(*pt) {
                    assert(canonicalized(s.sp, id, id_pt.str1@, pt_id_ext(*id_pt)));
                    crate::identifier::lemma_canonicalized_deterministic(
                        s.sp,
                        tail_id,
                        id,
                        tail_id_pt.str1@,
                        id_pt.str1@,
                        pt_id_ext(**tail_id_pt),
                    );
                    assert(false);
                }
            }
            return Ok(false);
        }
        proof {
            // an equal trailing identifier has the same canonical text, which
            // refutes the mismatch premise at every later exit
            lemma_state_extends_trans(s_id, s_mid, *s);
            crate::identifier::lemma_identifier_equality(
                s.sp,
                tail_id,
                id,
                tail_id_pt.str1@,
                id_pt.str1@,
                pt_id_ext(**tail_id_pt),
                pt_id_ext(*id_pt),
            );
        }
    }
    // A design unit of the same name must not already exist.
    let w = match s.work_lib {
        Some(w) => w,
        None => {
            return Err(Fatal::InternalConsistency);
        },
    };
    if w.i >= s.op_l.len() {
        return Err(Fatal::AstInvariant);
    }
    let lib_ok = match s.op_l.get(w) {
        Library::X { .. } => true,
        Library::Invalid => false,
    };
    if !lib_ok {
        return Err(Fatal::AstInvariant);
    }
    let old_node_idx = s.op_l.get(w).find_design_unit(id);
    if let Some(old_idx) = old_node_idx {
        proof {
            // under the implemented shape, a found unit's index is in range
            if entity_shape_ok(*pt, *old(s), tgt_scope) {
                let lb = lib_by_name(old(s).op_l@[w.i as int]);
                assert(lib_by_name(s.op_l@[w.i as int]) == lb);
                crate::design::lemma_id_find_pos_props(lb, id);
                let pos = crate::design::id_find_pos(lb, id);
                assert(lb[pos].1.i < old(s).op_n@.len());
            }
        }
        if old_idx.i >= s.op_n.len() {
            return Err(Fatal::AstInvariant);
        }
        let old_loc = s.op_n.get(old_idx).loc();
        if let Err(f) = dump_error(s, pt, DiagnosticKind::DuplicateDesignUnit(id, old_loc)) {
            return Err(f);
        }
        return Ok(false);
    }
    let ghost lib_at_check = s.op_l@[w.i as int];
    proof {
        assert(lib_find(lib_at_check, id) is None);
    }
    // Fresh use and declaration scopes, chained onto the enclosing region.
    if let Some(h) = s.innermost_scope {
        if h.i >= s.op_sc.len() {
            return Err(Fatal::AstInvariant);
        }
    }
    let use_scope = s.op_s.allocate(Scope::new());
    let decl_scope = s.op_s.allocate(Scope::new());
    let ghost sc_before = s.op_sc@;
    let use_sc = s.op_sc.allocate(
        ScopeChainNode::X { this_scope: use_scope, parent: s.innermost_scope },
    );
    let decl_sc = s.op_sc.allocate(
        ScopeChainNode::X { this_scope: decl_scope, parent: Some(use_sc) },
    );
    proof {
        assert forall|i: int| 0 <= i < s.op_sc@.len() implies match #[trigger] s.op_sc@[i] {
            ScopeChainNode::X { parent: Some(p), .. } => p.i < i,
            _ => true,
        } by {
            if i < sc_before.len() {
                assert(s.op_sc@[i] == sc_before[i]);
            }
        }
    }
    s.innermost_scope = Some(decl_sc);
    // The entity object, visible in the enclosing region's scope.
    let e_ = s.op_n.allocate(AstNode::Entity { loc, id, scope: decl_scope, scope_chain: decl_sc });
    if tgt_scope.i >= s.op_s.len() {
        return Err(Fatal::AstInvariant);
    }
    s.op_s.get_mut(tgt_scope).add(ScopeItemName::Identifier(id), e_);
    // Tentative registration: findable from here on, committed only at the
    // end.
    let ghost l0 = s.op_l@[w.i as int];
    match s.op_l.get_mut(w).tentative_add(id, e_) {
        Err(f) => {
            return Err(f);
        },
        Ok(()) => {},
    }
    let ghost s_decl = *s;
    proof {
        assert(state_extends(s_id, s_decl));
    }
    // The declarative part.
    if let Some(decl_pt) = &pt.piece2 {
        let decls_ok = match analyze_declaration_list(s, &**decl_pt, decl_scope, use_scope) {
            Ok(b) => b,
            Err(f) => {
                proof {
                    lemma_state_extends_trans(*old(s), s_decl, *s);
                }
                return Err(f);
            },
        };
        proof {
            lemma_state_extends_trans(*old(s), s_decl, *s);
            lemma_state_extends_trans(s_id, s_decl, *s);
        }
        if !decls_ok {
            // Roll back: the tentative unit vanishes without trace.
            if w.i >= s.op_l.len() {
                return Err(Fatal::AstInvariant);
            }
            let still_ok = match s.op_l.get(w) {
                Library::X { .. } => true,
                Library::Invalid => false,
            };
            if !still_ok {
                return Err(Fatal::AstInvariant);
            }
            let ghost l1b = s.op_l@[w.i as int];
            s.op_l.get_mut(w).drop_tentative();
            proof {
                let l2 = s.op_l@[w.i as int];
                crate::design::lemma_transaction_drop(l0, l1b, l2, id, e_);
                lemma_state_extends_trans(s_id, s_decl, *s);
                lemma_no_duplicate_was_pending(*s, lib_at_check, id, id_pt.str1@, pt_id_ext(*id_pt));
            }
            return Ok(false);
        }
    }
    // Commit: the unit becomes a permanent entry of the library.
    if w.i >= s.op_l.len() {
        return Err(Fatal::AstInvariant);
    }
    let still_ok = match s.op_l.get(w) {
        Library::X { .. } => true,
        Library::Invalid => false,
    };
    if !still_ok {
        return Err(Fatal::AstInvariant);
    }
    let has_tentative = match s.op_l.get(w) {
        Library::X { tentative, .. } => tentative.is_some(),
        Library::Invalid => false,
    };
    if !has_tentative {
        return Err(Fatal::InternalConsistency);
    }
    let ghost l1c = s.op_l@[w.i as int];
    let ghost s_fin = *s;
    s.op_l.get_mut(w).commit();
    proof {
        let l2 = s.op_l@[w.i as int];
        crate::design::lemma_transaction_commit(l0, l1c, l2, id, e_);
        lemma_state_extends_trans(*old(s), s_fin, *s);
        lemma_state_extends_trans(s_id, s_fin, *s);
        assert(canonicalized(s.sp, id, id_pt.str1@, pt_id_ext(*id_pt)));
        assert(lib_by_order(l2) == lib_by_order(l0).push(e_));
        assert(lib_find(l2, id) == Some(e_));
        assert(entity_committed(*s, l0, l2, *pt));
        lemma_no_duplicate_was_pending(*s, lib_at_check, id, id_pt.str1@, pt_id_ext(*id_pt));
    }
    Ok(true)
}

/// Once the duplicate check has passed for the entity's identifier, no
/// identifier canonicalized from the same text finds a unit in the library
/// as it was at the check.
proof fn lemma_no_duplicate_was_pending(
    s1: AnalyzerCoreStateBlob,
    lib: Library,
    id: Identifier,
    text: Seq<u8>,
    ext: bool,
)
    requires
        s1.sp.wf(),
        canonicalized(s1.sp, id, text, ext),
        lib_find(lib, id) is None,
    ensures
        forall|du: Identifier|
            #[trigger] canonicalized(s1.sp, du, text, ext) ==> lib_find(lib, du) is None,
{
    assert forall|du: Identifier| #[trigger] canonicalized(s1.sp, du, text, ext) implies lib_find(
        lib,
        du,
    ) is None by {
        crate::identifier::lemma_canonicalized_deterministic(s1.sp, du, id, text, text, ext);
        crate::design::lemma_lib_find_respects_id_eq(lib, du, id);
    }
}

/// What committing one entity leaves behind: the library gained exactly the
/// unit `e`, findable under the identifier canonicalized from the entity's
/// leading identifier text, with no tentative entry pending.
pub open spec fn entity_committed(
    s1: AnalyzerCoreStateBlob,
    l0: Library,
    l1: Library,
    ent: VhdlParseTreeNode,
) -> bool {
    exists|e: ObjPoolIndex<AstNode>, du: Identifier|
        #![trigger lib_find(l1, du), lib_by_order(l0).push(e)]
        {
            &&& lib_by_order(l1) == lib_by_order(l0).push(e)
            &&& lib_find(l1, du) == Some(e)
            &&& lib_tentative(l1) is None
            &&& e.i < s1.op_n@.len()
            &&& ent.piece0 matches Some(idpt) && canonicalized(
                s1.sp,
                du,
                idpt.str1@,
                pt_id_ext(*idpt),
            )
        }
}

/// Whether an entity's trailing repeated identifier (when present) repeats
/// the leading one up to letter case: absent, or a valid identifier of the
/// same kind with the same canonical text.
pub open spec fn trailing_id_matches(pt: VhdlParseTreeNode) -> bool {
    match (pt.piece0, pt.piece4) {
        (Some(idpt), Some(tpt)) => {
            &&& pt_is_id(*tpt)
            &&& id_text_ok(tpt.str1@, pt_id_ext(*tpt))
            &&& pt_id_ext(*tpt) == pt_id_ext(*idpt)
            &&& crate::identifier::canonical_text(tpt.str1@, pt_id_ext(*tpt))
                == crate::identifier::canonical_text(idpt.str1@, pt_id_ext(*idpt))
        },
        (_, None) => true,
        _ => false,
    }
}

/// The number of design units a (well-shaped) design-file production holds.
pub open spec fn design_unit_count(pt: VhdlParseTreeNode) -> nat
    decreases pt,
{
    if pt.node_type == ParseTreeNodeType::PT_DESIGN_UNIT {
        1
    } else if pt.node_type == ParseTreeNodeType::PT_DESIGN_FILE {
        match pt.piece0 {
            Some(rest) => design_unit_count(*rest) + 1,
            None => 1,
        }
    } else {
        0
    }
}

/// Success at the work library: its committed units grew by exactly `n`.
pub open spec fn lib_grew_by(
    s0: AnalyzerCoreStateBlob,
    s1: AnalyzerCoreStateBlob,
    n: nat,
) -> bool {
    match s0.work_lib {
        Some(w) => w.i < s0.op_l@.len() && lib_by_order(s1.op_l@[w.i as int]).len()
            == lib_by_order(s0.op_l@[w.i as int]).len() + n,
        None => false,
    }
}

/// What attempting one design unit leaves behind: on success the work
/// library committed exactly that unit's entity with no error text; on
/// failure error text was appended. Either way the state only extends.
pub open spec fn unit_attempt(
    s0: AnalyzerCoreStateBlob,
    s1: AnalyzerCoreStateBlob,
    pt: VhdlParseTreeNode,
    ok: bool,
) -> bool {
    &&& state_wf(s1)
    &&& state_extends(s0, s1)
    &&& ok ==> s1.errors@ == s0.errors@ && lib_grew_by(s0, s1, 1) && (match (
        s0.work_lib,
        pt.piece0,
    ) {
        (Some(w), Some(ent)) => w.i < s0.op_l@.len() && entity_committed(
            s1,
            s0.op_l@[w.i as int],
            s1.op_l@[w.i as int],
            *ent,
        ),
        _ => false,
    })
    &&& !ok ==> s1.errors@.len() > s0.errors@.len()
}

/// Every design unit of the file is attempted, in source order, each from
/// the state the previous one left — a failed unit never stops the units
/// after it — and the file succeeds exactly when every unit did.
pub open spec fn design_file_attempted(
    pt: VhdlParseTreeNode,
    s0: AnalyzerCoreStateBlob,
    s1: AnalyzerCoreStateBlob,
    ok: bool,
) -> bool
    decreases pt,
{
    if pt.node_type == ParseTreeNodeType::PT_DESIGN_UNIT {
        unit_attempt(s0, s1, pt, ok)
    } else if pt.node_type == ParseTreeNodeType::PT_DESIGN_FILE {
        // a stage succeeded exactly when it appended no error text, so the
        // per-stage outcomes are recovered from the error buffers
        match (pt.piece0, pt.piece1) {
            (Some(rest), Some(up)) => ok == (s1.errors@ == s0.errors@) && exists|
                sm: AnalyzerCoreStateBlob,
            |
                #[trigger] state_extends(s0, sm) && design_file_attempted(
                    *rest,
                    s0,
                    sm,
                    sm.errors@ == s0.errors@,
                ) && unit_attempt(sm, s1, *up, s1.errors@ == sm.errors@),
            _ => false,
        }
    } else {
        false
    }
}

/// Analyzes one design unit: a fresh root declarative region is opened, and
/// the unit (only entities are implemented) is analyzed against it. Success
/// means exactly one design unit was committed to the work library.
#[verifier::loop_isolation(false)]
pub fn analyze_design_unit(s: &mut AnalyzerCoreStateBlob, pt: &VhdlParseTreeNode) -> (r: Result<
    bool,
    Fatal,
>)
    requires
        state_wf(*old(s)),
    ensures
        state_wf(*final(s)),
        state_extends(*old(s), *final(s)),
        r == Result::<bool, Fatal>::Ok(true) ==> final(s).errors@ == old(s).errors@ && lib_grew_by(
            *old(s),
            *final(s),
            1,
        ) && (match (old(s).work_lib, pt.piece0) {
            (Some(w), Some(ent)) => w.i < old(s).op_l@.len() && entity_committed(
                *final(s),
                old(s).op_l@[w.i as int],
                final(s).op_l@[w.i as int],
                *ent,
            ),
            _ => false,
        }),
        r == Result::<bool, Fatal>::Ok(false) ==> final(s).errors@.len() > old(s).errors@.len(),
        r matches Ok(ok) ==> unit_attempt(*old(s), *final(s), *pt, ok),
{
    let root_decl_region_scope = s.op_s.allocate(Scope::new());
    let ghost sc_before = s.op_sc@;
    let root_decl_region = s.op_sc.allocate(
        ScopeChainNode::X { this_scope: root_decl_region_scope, parent: None },
    );
    proof {
        assert forall|i: int| 0 <= i < s.op_sc@.len() implies match #[trigger] s.op_sc@[i] {
            ScopeChainNode::X { parent: Some(p), .. } => p.i < i,
            _ => true,
        } by {
            if i < sc_before.len() {
                assert(s.op_sc@[i] == sc_before[i]);
            }
        }
    }
    s.innermost_scope = Some(root_decl_region);
    if pt.piece1.is_some() {
        return Err(Fatal::NotYetImplemented);
    }
    let unit_pt = match &pt.piece0 {
        Some(b) => &**b,
        None => {
            return Err(Fatal::AstInvariant);
        },
    };
    match unit_pt.node_type {
        ParseTreeNodeType::PT_ENTITY => analyze_entity(s, unit_pt, root_decl_region_scope),
        _ => Err(Fatal::UnsupportedParseTree),
    }
}

/// Analyzes a design file: every design unit is attempted, in order, and the
/// result is whether none of them produced an error. Success means every
/// design unit of the file was committed to the work library.
#[verifier::loop_isolation(false)]
pub fn analyze_design_file(s: &mut AnalyzerCoreStateBlob, pt: &VhdlParseTreeNode) -> (r: Result<
    bool,
    Fatal,
>)
    requires
        state_wf(*old(s)),
    ensures
        state_wf(*final(s)),
        state_extends(*old(s), *final(s)),
        r == Result::<bool, Fatal>::Ok(true) ==> final(s).errors@ == old(s).errors@ && lib_grew_by(
            *old(s),
            *final(s),
            design_unit_count(*pt),
        ),
        r == Result::<bool, Fatal>::Ok(true) && pt.node_type == ParseTreeNodeType::PT_DESIGN_UNIT
            ==> (match (old(s).work_lib, pt.piece0) {
            (Some(w), Some(ent)) => w.i < old(s).op_l@.len() && entity_committed(
                *final(s),
                old(s).op_l@[w.i as int],
                final(s).op_l@[w.i as int],
                *ent,
            ),
            _ => false,
        }),
        r == Result::<bool, Fatal>::Ok(false) ==> final(s).errors@.len() > old(s).errors@.len(),
        // every unit is attempted in order, whatever earlier units did
        r matches Ok(ok) ==> design_file_attempted(*pt, *old(s), *final(s), ok),
    decreases *pt,
{
    match pt.node_type {
        ParseTreeNodeType::PT_DESIGN_UNIT => analyze_design_unit(s, pt),
        ParseTreeNodeType::PT_DESIGN_FILE => {
            let rest_pt = match &pt.piece0 {
                Some(b) => &**b,
                None => {
                    return Err(Fatal::AstInvariant);
                },
            };
            let no_errors_rest = match analyze_design_file(s, rest_pt) {
                Ok(b) => b,
                Err(f) => {
                    return Err(f);
                },
            };
            let unit_pt = match &pt.piece1 {
                Some(b) => &**b,
                None => {
                    return Err(Fatal::AstInvariant);
                },
            };
            let ghost s_mid = *s;
            let no_errors_unit = match analyze_design_unit(s, unit_pt) {
                Ok(b) => b,
                Err(f) => {
                    return Err(f);
                },
            };
            proof {
                lemma_state_extends_trans(*old(s), s_mid, *s);
                let rest_box = pt.piece0->0;
                let up_box = pt.piece1->0;
                assert(*rest_box == *rest_pt && *up_box == *unit_pt);
                assert(no_errors_rest == (s_mid.errors@ == old(s).errors@)) by {
                    if !no_errors_rest {
                        assert(s_mid.errors@.len() > old(s).errors@.len());
                    }
                }
                assert(no_errors_unit == (s.errors@ == s_mid.errors@)) by {
                    if !no_errors_unit {
                        assert(s.errors@.len() > s_mid.errors@.len());
                    }
                }
                assert((no_errors_rest && no_errors_unit) == (s.errors@ == old(s).errors@)) by {
                    if !no_errors_rest {
                        assert(s_mid.errors@.is_prefix_of(s.errors@));
                        assert(s.errors@.len() > old(s).errors@.len());
                    }
                }
                assert(design_file_attempted(
                    *rest_box,
                    *old(s),
                    s_mid,
                    s_mid.errors@ == old(s).errors@,
                ));
                assert(unit_attempt(s_mid, *s, *up_box, s.errors@ == s_mid.errors@));
                assert(design_file_attempted(
                    *pt,
                    *old(s),
                    *s,
                    no_errors_rest && no_errors_unit,
                ));
            }
            Ok(no_errors_rest && no_errors_unit)
        },
        _ => Err(Fatal::UnsupportedParseTree),
    }
}

/// Analyzes the parse output of one design file into the work library.
///
/// `work_lib` must already be registered in the design database; the state
/// carries everything that possibly exists in the design, so later files see
/// the declarations of earlier ones. Errors and warnings are appended to the
/// state's buffers; `Ok(true)` means the file produced no error.
#[verifier::loop_isolation(false)]
pub fn vhdl_analyze_file(
    s: &mut AnalyzerCoreStateBlob,
    pt: &VhdlParseTreeNode,
    work_lib: ObjPoolIndex<Library>,
    file_name: &Vec<u8>,
) -> (r: Result<bool, Fatal>)
    requires
        state_wf(*old(s)),
    ensures
        state_wf(*final(s)),
        old(s).errors@.is_prefix_of(final(s).errors@),
        final(s).work_lib == Some(work_lib),
        final(s).current_file_name is Some,
        r == Result::<bool, Fatal>::Ok(true) ==> final(s).errors@ == old(s).errors@
            && work_lib.i < old(s).op_l@.len() && lib_by_order(
            final(s).op_l@[work_lib.i as int],
        ).len() == lib_by_order(old(s).op_l@[work_lib.i as int]).len() + design_unit_count(*pt),
        r == Result::<bool, Fatal>::Ok(true) && pt.node_type == ParseTreeNodeType::PT_DESIGN_UNIT
            ==> (match pt.piece0 {
            Some(ent) => work_lib.i < old(s).op_l@.len() && entity_committed(
                *final(s),
                old(s).op_l@[work_lib.i as int],
                final(s).op_l@[work_lib.i as int],
                *ent,
            ),
            None => false,
        }),
        r == Result::<bool, Fatal>::Ok(false) ==> final(s).errors@.len() > old(s).errors@.len(),
        // later design units are still attempted after a failed one: from
        // the state as primed for this file, every unit of the file is
        // walked in order ([`design_file_attempted`])
        r matches Ok(ok) ==> exists|si: AnalyzerCoreStateBlob|
            {
                &&& #[trigger] design_file_attempted(*pt, si, *final(s), ok)
                &&& si == (AnalyzerCoreStateBlob {
                    sp: si.sp,
                    work_lib: Some(work_lib),
                    current_file_name: si.current_file_name,
                    innermost_scope: None,
                    ..*old(s)
                })
                &&& si.current_file_name is Some
            },
{
    let fn_str_idx = s.sp.add_osstr(file_name);
    s.work_lib = Some(work_lib);
    s.current_file_name = Some(fn_str_idx);
    s.innermost_scope = None;
    let ghost si = *s;
    let r = analyze_design_file(s, pt);
    proof {
        if r is Ok {
            assert(design_file_attempted(*pt, si, *s, r->Ok_0));
        }
    }
    r
}

} // verus!
