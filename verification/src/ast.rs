//! The analysis object model: source locations, scope-item names, scopes (a
//! name to declaration-list multimap), scope-chain nodes, and the closed set
//! of AST node variants with their derived classification.

use crate::identifier::id_eq;
use crate::identifier::Identifier;
use crate::objpools::ObjPoolIndex;
use crate::objpools::StringPoolIndexLatin1;
use crate::objpools::StringPoolIndexOsStr;
use vstd::prelude::*;

verus! {

/// A source span; `-1` in a line or column means unknown.
#[derive(Clone, Copy, PartialEq, Eq, Structural, Hash, Debug)]
pub struct SourceLoc {
    pub first_line: i32,
    pub first_column: i32,
    pub last_line: i32,
    pub last_column: i32,
    pub file_name: Option<StringPoolIndexOsStr>,
}

impl Default for SourceLoc {
    /// The unknown location.
    fn default() -> (r: SourceLoc)
        ensures
            r.first_line == -1,
            r.first_column == -1,
            r.last_line == -1,
            r.last_column == -1,
            r.file_name is None,
    {
        SourceLoc {
            first_line: -1,
            first_column: -1,
            last_line: -1,
            last_column: -1,
            file_name: None,
        }
    }
}

/// The key a declaration is known by in a scope: an identifier, a character
/// literal, or a string literal (operator symbol).
#[derive(Clone, Copy, Eq, Debug)]
pub enum ScopeItemName {
    Identifier(Identifier),
    CharLiteral(u8),
    StringLiteral(StringPoolIndexLatin1),
}

/// Scope-item-name equality: identifiers compare by [`id_eq`], the other two
/// kinds by value; different kinds never compare equal.
pub open spec fn name_eq(a: ScopeItemName, b: ScopeItemName) -> bool {
    match (a, b) {
        (ScopeItemName::Identifier(x), ScopeItemName::Identifier(y)) => id_eq(x, y),
        (ScopeItemName::CharLiteral(x), ScopeItemName::CharLiteral(y)) => x == y,
        (ScopeItemName::StringLiteral(x), ScopeItemName::StringLiteral(y)) => x == y,
        _ => false,
    }
}

impl PartialEq for ScopeItemName {
    fn eq(&self, other: &ScopeItemName) -> (r: bool) {
        match (self, other) {
            (ScopeItemName::Identifier(x), ScopeItemName::Identifier(y)) => x == y,
            (ScopeItemName::CharLiteral(x), ScopeItemName::CharLiteral(y)) => x == y,
            (ScopeItemName::StringLiteral(x), ScopeItemName::StringLiteral(y)) => x == y,
            _ => false,
        }
    }
}

impl vstd::std_specs::cmp::PartialEqSpecImpl for ScopeItemName {
    open spec fn obeys_eq_spec() -> bool {
        true
    }

    open spec fn eq_spec(&self, other: &ScopeItemName) -> bool {
        name_eq(*self, *other)
    }
}

/// One scope entry: a key and the declarations known under it, in insertion
/// order.
pub type ScopeEntry = (ScopeItemName, Seq<ObjPoolIndex<AstNode>>);

/// The position of the first entry whose key equals `name`, or `-1`.
pub open spec fn scope_find_pos(entries: Seq<ScopeEntry>, name: ScopeItemName) -> int
    decreases entries.len(),
{
    if entries.len() == 0 {
        -1
    } else if name_eq(entries[0].0, name) {
        0
    } else {
        let r = scope_find_pos(entries.drop_first(), name);
        if r == -1 {
            -1
        } else {
            r + 1
        }
    }
}

/// The declarations known under `name`, or `None` when the key is absent.
pub open spec fn scope_find(entries: Seq<ScopeEntry>, name: ScopeItemName) -> Option<
    Seq<ObjPoolIndex<AstNode>>,
> {
    let p = scope_find_pos(entries, name);
    if p == -1 {
        None
    } else {
        Some(entries[p].1)
    }
}

/// What [`scope_find_pos`] returns: `-1` exactly when no key matches, else
/// the first matching position.
pub proof fn lemma_scope_find_pos_props(entries: Seq<ScopeEntry>, name: ScopeItemName)
    ensures
        scope_find_pos(entries, name) == -1 ==> forall|j: int|
            0 <= j < entries.len() ==> !name_eq((#[trigger] entries[j]).0, name),
        scope_find_pos(entries, name) != -1 ==> {
            let p = scope_find_pos(entries, name);
            &&& 0 <= p < entries.len()
            &&& name_eq(entries[p].0, name)
            &&& forall|j: int| 0 <= j < p ==> !name_eq((#[trigger] entries[j]).0, name)
        },
    decreases entries.len(),
{
    if entries.len() > 0 && !name_eq(entries[0].0, name) {
        lemma_scope_find_pos_props(entries.drop_first(), name);
        let p = scope_find_pos(entries.drop_first(), name);
        if p == -1 {
            assert forall|j: int| 0 <= j < entries.len() implies !name_eq(
                (#[trigger] entries[j]).0,
                name,
            ) by {
                if j > 0 {
                    assert(entries[j] == entries.drop_first()[j - 1]);
                }
            }
        } else {
            assert(entries[p + 1] == entries.drop_first()[p]);
            assert forall|j: int| 0 <= j < p + 1 implies !name_eq(
                (#[trigger] entries[j]).0,
                name,
            ) by {
                if j > 0 {
                    assert(entries[j] == entries.drop_first()[j - 1]);
                }
            }
        }
    }
}

/// If no key before `i` matches `name`, then the first match is at `i` (when
/// `entries[i]` matches) or absent (when `i` is the length).
pub proof fn lemma_scope_find_pos_first(entries: Seq<ScopeEntry>, name: ScopeItemName, i: int)
    requires
        0 <= i <= entries.len(),
        forall|j: int| 0 <= j < i ==> !name_eq((#[trigger] entries[j]).0, name),
    ensures
        i < entries.len() && name_eq(entries[i].0, name) ==> scope_find_pos(entries, name) == i,
        i == entries.len() ==> scope_find_pos(entries, name) == -1,
    decreases i,
{
    if i == 0 {
        if entries.len() == 0 {
        } else if name_eq(entries[0].0, name) {
        } else {
            lemma_scope_find_pos_props(entries, name);
        }
    } else {
        assert(!name_eq(entries[0].0, name));
        assert forall|j: int| 0 <= j < i - 1 implies !name_eq(
            (#[trigger] entries.drop_first()[j]).0,
            name,
        ) by {
            assert(entries.drop_first()[j] == entries[j + 1]);
        }
        lemma_scope_find_pos_first(entries.drop_first(), name, i - 1);
        if i < entries.len() && name_eq(entries[i].0, name) {
            assert(entries.drop_first()[i - 1] == entries[i]);
        }
    }
}

/// A declarative region's multimap from names to declarations. Several
/// declarations under one key are overloads; whether a key may hold several
/// is the caller's (the declaration-conflict algorithm's) business.
#[derive(Debug)]
pub struct Scope {
    pub items: Vec<(ScopeItemName, Vec<ObjPoolIndex<AstNode>>)>,
}

impl View for Scope {
    type V = Seq<ScopeEntry>;

    open spec fn view(&self) -> Seq<ScopeEntry> {
        Seq::new(self.items@.len(), |k: int| (self.items@[k].0, self.items@[k].1@))
    }
}

impl Default for Scope {
    /// An empty scope.
    fn default() -> (r: Scope)
        ensures
            r@ == Seq::<ScopeEntry>::empty(),
    {
        Scope::new()
    }
}

impl Scope {
    /// An empty scope.
    pub fn new() -> (r: Scope)
        ensures
            r@ == Seq::<ScopeEntry>::empty(),
    {
        let r = Scope { items: Vec::new() };
        proof {
            assert(r@ =~= Seq::<ScopeEntry>::empty());
        }
        r
    }

    /// Records `item` under `name`: appended to the entry holding `name` when
    /// one exists, else as a fresh entry at the end.
    pub fn add(&mut self, name: ScopeItemName, item: ObjPoolIndex<AstNode>)
        ensures
            ({
                let p = scope_find_pos(old(self)@, name);
                if p == -1 {
                    final(self)@ == old(self)@.push((name, seq![item]))
                } else {
                    final(self)@ == old(self)@.update(
                        p,
                        (old(self)@[p].0, old(self)@[p].1.push(item)),
                    )
                }
            }),
            scope_find(final(self)@, name) matches Some(v) && v == match scope_find(
                old(self)@,
                name,
            ) {
                Some(v0) => v0.push(item),
                None => seq![item],
            },
    {
        let ghost old_view = self@;
        let n = self.items.len();
        for k in 0..n
            invariant
                n == self.items@.len(),
                self@ == old_view,
                old_view == old(self)@,
                forall|j: int| 0 <= j < k ==> !name_eq((#[trigger] old_view[j]).0, name),
        {
            proof {
                assert(old_view[k as int].0 == self.items@[k as int].0);
            }
            if self.items[k].0 == name {
                proof {
                    lemma_scope_find_pos_first(old_view, name, k as int);
                }
                self.items[k].1.push(item);
                proof {
                    let p = k as int;
                    assert(self@ =~= old_view.update(p, (old_view[p].0, old_view[p].1.push(item))));
                    lemma_scope_find_pos_same_keys(old_view, self@, name);
                }
                return ;
            }
        }
        proof {
            lemma_scope_find_pos_first(old_view, name, old_view.len() as int);
        }
        let mut new_vec = Vec::new();
        new_vec.push(item);
        self.items.push((name, new_vec));
        proof {
            assert(self@ =~= old_view.push((name, seq![item])));
            lemma_scope_find_pos_first(self@, name, old_view.len() as int);
        }
    }

    /// The declarations known under `name`, in insertion order.
    pub fn get(&self, name: ScopeItemName) -> (r: Option<&Vec<ObjPoolIndex<AstNode>>>)
        ensures
            match r {
                Some(v) => scope_find(self@, name) == Some(v@),
                None => scope_find(self@, name) is None,
            },
    {
        let n = self.items.len();
        for k in 0..n
            invariant
                n == self.items@.len(),
                forall|j: int| 0 <= j < k ==> !name_eq((#[trigger] self@[j]).0, name),
        {
            proof {
                assert(self@[k as int].0 == self.items@[k as int].0);
            }
            if self.items[k].0 == name {
                proof {
                    lemma_scope_find_pos_first(self@, name, k as int);
                    assert(self@[k as int].1 == self.items@[k as int].1@);
                }
                return Some(&self.items[k].1);
            }
        }
        proof {
            lemma_scope_find_pos_first(self@, name, self@.len() as int);
        }
        None
    }
}

/// Equality of a name with itself.
pub proof fn lemma_name_eq_reflexive(name: ScopeItemName)
    ensures
        name_eq(name, name),
{
}

/// Two entry lists with pairwise equal keys at each position find a name at
/// the same position.
pub proof fn lemma_scope_find_pos_same_keys(a: Seq<ScopeEntry>, b: Seq<ScopeEntry>, name: ScopeItemName)
    requires
        a.len() == b.len(),
        forall|j: int| 0 <= j < a.len() ==> (#[trigger] a[j]).0 == (#[trigger] b[j]).0,
    ensures
        scope_find_pos(a, name) == scope_find_pos(b, name),
    decreases a.len(),
{
    if a.len() > 0 {
        assert(a[0].0 == b[0].0);
        assert forall|j: int| 0 <= j < a.drop_first().len() implies (#[trigger] a.drop_first()[j]).0
            == (#[trigger] b.drop_first()[j]).0 by {
            assert(a.drop_first()[j] == a[j + 1]);
            assert(b.drop_first()[j] == b[j + 1]);
        }
        lemma_scope_find_pos_same_keys(a.drop_first(), b.drop_first(), name);
    }
}

/// Keys equal under [`name_eq`] find the same position: the relation is an
/// equivalence, so every head test agrees.
pub proof fn lemma_scope_find_pos_respects(
    entries: Seq<ScopeEntry>,
    n1: ScopeItemName,
    n2: ScopeItemName,
)
    requires
        name_eq(n1, n2),
    ensures
        scope_find_pos(entries, n1) == scope_find_pos(entries, n2),
    decreases entries.len(),
{
    if entries.len() > 0 {
        lemma_scope_find_pos_respects(entries.drop_first(), n1, n2);
    }
}

/// Recording an item under one key leaves every other key's lookup alone.
pub proof fn lemma_scope_add_preserves_other(
    entries: Seq<ScopeEntry>,
    n_add: ScopeItemName,
    item: ObjPoolIndex<AstNode>,
    n: ScopeItemName,
)
    requires
        !name_eq(n, n_add),
    ensures
        scope_find(
            {
                let p = scope_find_pos(entries, n_add);
                if p == -1 {
                    entries.push((n_add, seq![item]))
                } else {
                    entries.update(p, (entries[p].0, entries[p].1.push(item)))
                }
            },
            n,
        ) == scope_find(entries, n),
{
    let p_add = scope_find_pos(entries, n_add);
    let p = scope_find_pos(entries, n);
    lemma_scope_find_pos_props(entries, n_add);
    lemma_scope_find_pos_props(entries, n);
    if p_add == -1 {
        let e1 = entries.push((n_add, seq![item]));
        assert(forall|j: int| 0 <= j < entries.len() ==> #[trigger] e1[j] == entries[j]);
        if p == -1 {
            assert(!name_eq(e1[entries.len() as int].0, n));
            lemma_scope_find_pos_first(e1, n, e1.len() as int);
        } else {
            lemma_scope_find_pos_first(e1, n, p);
        }
    } else {
        let e1 = entries.update(p_add, (entries[p_add].0, entries[p_add].1.push(item)));
        assert(forall|j: int|
            0 <= j < entries.len() ==> (#[trigger] e1[j]).0 == (#[trigger] entries[j]).0);
        lemma_scope_find_pos_same_keys(entries, e1, n);
        if p != -1 {
            // the updated entry is under a different key, so it is not the
            // one the lookup returns
            if p == p_add {
                assert(name_eq(entries[p].0, n) && name_eq(entries[p].0, n_add));
                assert(false);
            }
        }
    }
}

/// One link of the scope chain: a scope and the link for the enclosing
/// region, `None` at the outermost region.
#[derive(Debug)]
pub enum ScopeChainNode {
    Invalid,
    X { this_scope: ObjPoolIndex<Scope>, parent: Option<ObjPoolIndex<ScopeChainNode>> },
}

impl Default for ScopeChainNode {
    /// The placeholder value arena slots start from.
    fn default() -> (r: ScopeChainNode)
        ensures
            r is Invalid,
    {
        ScopeChainNode::Invalid
    }
}

/// An enumeration literal: an identifier or a character literal.
#[derive(Clone, Copy, Eq, Debug)]
pub enum EnumerationLiteral {
    Identifier(Identifier),
    CharLiteral(u8),
}

/// Enumeration-literal equality, mirroring [`name_eq`] on the corresponding
/// scope-item names.
pub open spec fn enum_lit_eq(a: EnumerationLiteral, b: EnumerationLiteral) -> bool {
    match (a, b) {
        (EnumerationLiteral::Identifier(x), EnumerationLiteral::Identifier(y)) => id_eq(x, y),
        (EnumerationLiteral::CharLiteral(x), EnumerationLiteral::CharLiteral(y)) => x == y,
        _ => false,
    }
}

impl PartialEq for EnumerationLiteral {
    fn eq(&self, other: &EnumerationLiteral) -> (r: bool) {
        match (self, other) {
            (EnumerationLiteral::Identifier(x), EnumerationLiteral::Identifier(y)) => x == y,
            (EnumerationLiteral::CharLiteral(x), EnumerationLiteral::CharLiteral(y)) => x == y,
            _ => false,
        }
    }
}

impl vstd::std_specs::cmp::PartialEqSpecImpl for EnumerationLiteral {
    open spec fn obeys_eq_spec() -> bool {
        true
    }

    open spec fn eq_spec(&self, other: &EnumerationLiteral) -> bool {
        enum_lit_eq(*self, *other)
    }
}

/// The scope-item name an enumeration literal is declared under.
pub open spec fn spec_to_scope_item_name(lit: EnumerationLiteral) -> ScopeItemName {
    match lit {
        EnumerationLiteral::Identifier(id) => ScopeItemName::Identifier(id),
        EnumerationLiteral::CharLiteral(c) => ScopeItemName::CharLiteral(c),
    }
}

impl EnumerationLiteral {
    /// The scope-item name this literal is declared under.
    pub fn to_scope_item_name(&self) -> (r: ScopeItemName)
        ensures
            r == spec_to_scope_item_name(*self),
    {
        match self {
            EnumerationLiteral::Identifier(id) => ScopeItemName::Identifier(*id),
            EnumerationLiteral::CharLiteral(c) => ScopeItemName::CharLiteral(*c),
        }
    }
}

/// The derived classification of an AST node, used to drive analysis
/// decisions.
#[derive(Clone, Copy, PartialEq, Eq, Structural, Hash, Debug)]
pub enum AstNodeKind {
    Invalid,
    Other,
    Type,
    Object,
    DeclarativeRegion,
    GenericSubprogram,
    InstantiatedSubprogram,
}

/// The closed set of analysis node variants. Cross-references are arena
/// indices, so nodes may reference each other freely (a literal points back
/// at its owning type).
#[derive(Debug)]
pub enum AstNode {
    Invalid,
    EnumerationLitDecl {
        lit: EnumerationLiteral,
        idx: i64,
        corresponding_type_decl: ObjPoolIndex<AstNode>,
    },
    EnumerationTypeDecl { loc: SourceLoc, id: Identifier, literals: Vec<ObjPoolIndex<AstNode>> },
    Entity {
        loc: SourceLoc,
        id: Identifier,
        scope: ObjPoolIndex<Scope>,
        scope_chain: ObjPoolIndex<ScopeChainNode>,
    },
    SubtypeDecl { loc: SourceLoc, id: Identifier, subtype_indication: ObjPoolIndex<AstNode> },
    SubtypeIndication { type_mark: ObjPoolIndex<AstNode> },
    ConstantDecl {
        loc: SourceLoc,
        id: Identifier,
        subtype_indication: ObjPoolIndex<AstNode>,
        value: Option<ObjPoolIndex<AstNode>>,
    },
    GenericFunctionDecl { loc: SourceLoc, designator: ScopeItemName, is_pure: bool },
    FuncInstantiation {
        loc: SourceLoc,
        designator: ScopeItemName,
        generic_func: ObjPoolIndex<AstNode>,
    },
}

impl Default for AstNode {
    /// The placeholder value arena slots start from.
    fn default() -> (r: AstNode)
        ensures
            r is Invalid,
    {
        AstNode::Invalid
    }
}

/// The classification of a node; see [`AstNodeKind`].
pub open spec fn spec_kind(n: AstNode) -> AstNodeKind {
    match n {
        AstNode::Invalid => AstNodeKind::Invalid,
        AstNode::EnumerationTypeDecl { .. } => AstNodeKind::Type,
        AstNode::SubtypeDecl { .. } => AstNodeKind::Type,
        AstNode::Entity { .. } => AstNodeKind::DeclarativeRegion,
        AstNode::ConstantDecl { .. } => AstNodeKind::Object,
        _ => AstNodeKind::Other,
    }
}

/// Whether a node is an overloadable declaration (only enumeration literals
/// are, in the implemented slice).
pub open spec fn spec_overloadable(n: AstNode) -> bool {
    n is EnumerationLitDecl
}

/// The source span of a node, for the variants that carry one.
pub open spec fn spec_loc(n: AstNode) -> Option<SourceLoc> {
    match n {
        AstNode::EnumerationTypeDecl { loc, .. } => Some(loc),
        AstNode::Entity { loc, .. } => Some(loc),
        AstNode::SubtypeDecl { loc, .. } => Some(loc),
        AstNode::ConstantDecl { loc, .. } => Some(loc),
        AstNode::GenericFunctionDecl { loc, .. } => Some(loc),
        AstNode::FuncInstantiation { loc, .. } => Some(loc),
        _ => None,
    }
}

/// The declared identifier of a node, for the variants that carry one.
pub open spec fn spec_id(n: AstNode) -> Option<Identifier> {
    match n {
        AstNode::EnumerationTypeDecl { id, .. } => Some(id),
        AstNode::Entity { id, .. } => Some(id),
        AstNode::SubtypeDecl { id, .. } => Some(id),
        AstNode::ConstantDecl { id, .. } => Some(id),
        _ => None,
    }
}

/// The designator a node is declared under: the explicit designator of the
/// subprogram variants, else the declared identifier.
pub open spec fn spec_designator(n: AstNode) -> Option<ScopeItemName> {
    match n {
        AstNode::GenericFunctionDecl { designator, .. } => Some(designator),
        AstNode::FuncInstantiation { designator, .. } => Some(designator),
        _ => match spec_id(n) {
            Some(id) => Some(ScopeItemName::Identifier(id)),
            None => None,
        },
    }
}

/// The owned scope of a region-introducing node.
pub open spec fn spec_scope_of(n: AstNode) -> Option<ObjPoolIndex<Scope>> {
    match n {
        AstNode::Entity { scope, .. } => Some(scope),
        _ => None,
    }
}

impl AstNode {
    /// The classification used for selection and validation.
    pub fn kind(&self) -> (r: AstNodeKind)
        ensures
            r == spec_kind(*self),
    {
        self.real_kind()
    }

    /// The classification before any aliasing or renaming is applied.
    pub fn real_kind(&self) -> (r: AstNodeKind)
        ensures
            r == spec_kind(*self),
    {
        match self {
            AstNode::Invalid => AstNodeKind::Invalid,
            AstNode::EnumerationTypeDecl { .. } => AstNodeKind::Type,
            AstNode::SubtypeDecl { .. } => AstNodeKind::Type,
            AstNode::Entity { .. } => AstNodeKind::DeclarativeRegion,
            AstNode::ConstantDecl { .. } => AstNodeKind::Object,
            _ => AstNodeKind::Other,
        }
    }

    /// Whether this node may be overloaded.
    pub fn is_an_overloadable_decl(&self) -> (r: bool)
        ensures
            r == spec_overloadable(*self),
    {
        match self {
            AstNode::EnumerationLitDecl { .. } => true,
            _ => false,
        }
    }

    /// The source span, where one is recorded.
    pub fn loc(&self) -> (r: Option<SourceLoc>)
        ensures
            r == spec_loc(*self),
    {
        match self {
            AstNode::EnumerationTypeDecl { loc, .. } => Some(*loc),
            AstNode::Entity { loc, .. } => Some(*loc),
            AstNode::SubtypeDecl { loc, .. } => Some(*loc),
            AstNode::ConstantDecl { loc, .. } => Some(*loc),
            AstNode::GenericFunctionDecl { loc, .. } => Some(*loc),
            AstNode::FuncInstantiation { loc, .. } => Some(*loc),
            _ => None,
        }
    }

    /// The declared identifier, where one is recorded.
    pub fn id(&self) -> (r: Option<Identifier>)
        ensures
            r == spec_id(*self),
    {
        match self {
            AstNode::EnumerationTypeDecl { id, .. } => Some(*id),
            AstNode::Entity { id, .. } => Some(*id),
            AstNode::SubtypeDecl { id, .. } => Some(*id),
            AstNode::ConstantDecl { id, .. } => Some(*id),
            _ => None,
        }
    }

    /// The designator the node is declared under.
    pub fn designator(&self) -> (r: Option<ScopeItemName>)
        ensures
            r == spec_designator(*self),
    {
        match self {
            AstNode::GenericFunctionDecl { designator, .. } => Some(*designator),
            AstNode::FuncInstantiation { designator, .. } => Some(*designator),
            _ => {
                match self.id() {
                    Some(id) => Some(ScopeItemName::Identifier(id)),
                    None => None,
                }
            },
        }
    }

    /// The owned scope of a region-introducing node.
    pub fn scope(&self) -> (r: Option<ObjPoolIndex<Scope>>)
        ensures
            r == spec_scope_of(*self),
    {
        match self {
            AstNode::Entity { scope, .. } => Some(*scope),
            _ => None,
        }
    }
}

} // verus!
