//! Design-unit libraries and the design database.
//!
//! A library maps design-unit names to arena nodes, keeps the units in
//! declaration order, and offers a two-phase registration: a unit is first
//! added tentatively, then either committed (becoming a permanent, queryable
//! entry) or dropped (leaving no trace). At most one tentative entry exists
//! at a time; `find` prefers the tentative entry over a committed one of the
//! same name.

use crate::ast::AstNode;
use crate::identifier::id_eq;
use crate::identifier::Identifier;
use crate::objpools::ObjPoolIndex;
use vstd::prelude::*;

verus! {

/// An internal-invariant failure: a defect in the analyzer or an
/// inconsistency with the parser's grammar contract. Fatal for the whole
/// run, as opposed to a semantic diagnostic, which only aborts the enclosing
/// design unit.
#[derive(Clone, Copy, PartialEq, Eq, Structural, Debug)]
pub enum Fatal {
    /// A parse-tree shape the analyzer does not implement.
    UnsupportedParseTree,
    /// A grammar shape that is recognized but not supported yet.
    NotYetImplemented,
    /// An arena or AST cross-reference did not have the expected shape.
    AstInvariant,
    /// A bookkeeping rule inside the analyzer itself was broken.
    InternalConsistency,
}

impl Fatal {
    /// A short description, for the driver around the analysis.
    pub fn message(&self) -> (r: &'static str) {
        match self {
            Fatal::UnsupportedParseTree => "don't know how to handle this parse tree node",
            Fatal::NotYetImplemented => "not implemented yet",
            Fatal::AstInvariant => "AST invariant violated",
            Fatal::InternalConsistency => "internal consistency failure",
        }
    }
}

/// The position of the first pair whose key equals `name` (by [`id_eq`]), or
/// `-1`.
pub open spec fn id_find_pos<T>(entries: Seq<(Identifier, T)>, name: Identifier) -> int
    decreases entries.len(),
{
    if entries.len() == 0 {
        -1
    } else if id_eq(entries[0].0, name) {
        0
    } else {
        let r = id_find_pos(entries.drop_first(), name);
        if r == -1 {
            -1
        } else {
            r + 1
        }
    }
}

/// The value of the first pair whose key equals `name`.
pub open spec fn id_find<T>(entries: Seq<(Identifier, T)>, name: Identifier) -> Option<T> {
    let p = id_find_pos(entries, name);
    if p == -1 {
        None
    } else {
        Some(entries[p].1)
    }
}

/// What [`id_find_pos`] returns: `-1` exactly when no key matches, else the
/// first matching position.
pub proof fn lemma_id_find_pos_props<T>(entries: Seq<(Identifier, T)>, name: Identifier)
    ensures
        id_find_pos(entries, name) == -1 ==> forall|j: int|
            0 <= j < entries.len() ==> !id_eq((#[trigger] entries[j]).0, name),
        id_find_pos(entries, name) != -1 ==> {
            let p = id_find_pos(entries, name);
            &&& 0 <= p < entries.len()
            &&& id_eq(entries[p].0, name)
            &&& forall|j: int| 0 <= j < p ==> !id_eq((#[trigger] entries[j]).0, name)
        },
    decreases entries.len(),
{
    if entries.len() > 0 && !id_eq(entries[0].0, name) {
        lemma_id_find_pos_props(entries.drop_first(), name);
        let p = id_find_pos(entries.drop_first(), name);
        if p == -1 {
            assert forall|j: int| 0 <= j < entries.len() implies !id_eq(
                (#[trigger] entries[j]).0,
                name,
            ) by {
                if j > 0 {
                    assert(entries[j] == entries.drop_first()[j - 1]);
                }
            }
        } else {
            assert(entries[p + 1] == entries.drop_first()[p]);
            assert forall|j: int| 0 <= j < p + 1 implies !id_eq(
                (#[trigger] entries[j]).0,
                name,
            ) by {
                if j > 0 {
                    assert(entries[j] == entries.drop_first()[j - 1]);
                }
            }
        }
    }
}

/// If no key before `i` matches `name`, the first match is at `i` (when
/// `entries[i]` matches) or absent (when `i` is the length).
pub proof fn lemma_id_find_pos_first<T>(entries: Seq<(Identifier, T)>, name: Identifier, i: int)
    requires
        0 <= i <= entries.len(),
        forall|j: int| 0 <= j < i ==> !id_eq((#[trigger] entries[j]).0, name),
    ensures
        i < entries.len() && id_eq(entries[i].0, name) ==> id_find_pos(entries, name) == i,
        i == entries.len() ==> id_find_pos(entries, name) == -1,
    decreases i,
{
    if i == 0 {
        if entries.len() > 0 && !id_eq(entries[0].0, name) {
            lemma_id_find_pos_props(entries, name);
        }
    } else {
        assert(!id_eq(entries[0].0, name));
        assert forall|j: int| 0 <= j < i - 1 implies !id_eq(
            (#[trigger] entries.drop_first()[j]).0,
            name,
        ) by {
            assert(entries.drop_first()[j] == entries[j + 1]);
        }
        lemma_id_find_pos_first(entries.drop_first(), name, i - 1);
        if i < entries.len() && id_eq(entries[i].0, name) {
            assert(entries.drop_first()[i - 1] == entries[i]);
        }
    }
}

/// Lookups respect identifier equality: equal names find the same pair.
pub proof fn lemma_id_find_pos_respects<T>(
    entries: Seq<(Identifier, T)>,
    n1: Identifier,
    n2: Identifier,
)
    requires
        id_eq(n1, n2),
    ensures
        id_find_pos(entries, n1) == id_find_pos(entries, n2),
    decreases entries.len(),
{
    if entries.len() > 0 {
        lemma_id_find_pos_respects(entries.drop_first(), n1, n2);
    }
}

/// A named collection of design units: by-name and in declaration order,
/// plus the pending tentative entry, if any.
pub enum Library {
    Invalid,
    X {
        id: Identifier,
        db_by_name: Vec<(Identifier, ObjPoolIndex<AstNode>)>,
        db_by_order: Vec<ObjPoolIndex<AstNode>>,
        tentative: Option<(Identifier, ObjPoolIndex<AstNode>)>,
    },
}

impl Default for Library {
    /// The placeholder value arena slots start from.
    fn default() -> (r: Library)
        ensures
            r is Invalid,
    {
        Library::Invalid
    }
}

/// The name of the library.
pub open spec fn lib_id(l: Library) -> Identifier
    recommends
        l is X,
{
    match l {
        Library::X { id, .. } => id,
        Library::Invalid => arbitrary(),
    }
}

/// The committed units by name, as a key-value list in insertion order.
pub open spec fn lib_by_name(l: Library) -> Seq<(Identifier, ObjPoolIndex<AstNode>)> {
    match l {
        Library::X { db_by_name, .. } => db_by_name@,
        Library::Invalid => Seq::empty(),
    }
}

/// The committed units in declaration order.
pub open spec fn lib_by_order(l: Library) -> Seq<ObjPoolIndex<AstNode>> {
    match l {
        Library::X { db_by_order, .. } => db_by_order@,
        Library::Invalid => Seq::empty(),
    }
}

/// The pending tentative entry.
pub open spec fn lib_tentative(l: Library) -> Option<(Identifier, ObjPoolIndex<AstNode>)> {
    match l {
        Library::X { tentative, .. } => tentative,
        Library::Invalid => None,
    }
}

/// What a lookup returns: the tentative entry when it matches (shadowing any
/// committed entry of the same name), else the committed entry.
pub open spec fn lib_find(l: Library, name: Identifier) -> Option<ObjPoolIndex<AstNode>> {
    match lib_tentative(l) {
        Some((tn, tu)) => if id_eq(tn, name) {
            Some(tu)
        } else {
            id_find(lib_by_name(l), name)
        },
        None => id_find(lib_by_name(l), name),
    }
}

/// How [`Library::add_design_unit`] changes a library: the unit is appended
/// to the declaration order; by name it replaces the first entry of an equal
/// key, or is appended. Name and tentative entry stay.
pub open spec fn lib_add_rel(l0: Library, name: Identifier, unit: ObjPoolIndex<AstNode>, l1: Library) -> bool {
    &&& l0 is X
    &&& l1 is X
    &&& lib_id(l1) == lib_id(l0)
    &&& lib_tentative(l1) == lib_tentative(l0)
    &&& lib_by_order(l1) == lib_by_order(l0).push(unit)
    &&& ({
        let p = id_find_pos(lib_by_name(l0), name);
        if p == -1 {
            lib_by_name(l1) == lib_by_name(l0).push((name, unit))
        } else {
            lib_by_name(l1) == lib_by_name(l0).update(p, (lib_by_name(l0)[p].0, unit))
        }
    })
}

/// How [`Library::tentative_add`] changes a library: only the tentative slot
/// is filled, so nothing is committed yet.
pub open spec fn lib_tentative_add_rel(
    l0: Library,
    name: Identifier,
    unit: ObjPoolIndex<AstNode>,
    l1: Library,
) -> bool {
    &&& l0 is X
    &&& l1 is X
    &&& lib_tentative(l0) is None
    &&& lib_tentative(l1) == Some((name, unit))
    &&& lib_id(l1) == lib_id(l0)
    &&& lib_by_name(l1) == lib_by_name(l0)
    &&& lib_by_order(l1) == lib_by_order(l0)
}

/// How [`Library::commit`] changes a library: the tentative entry becomes a
/// committed one and the tentative slot empties.
pub open spec fn lib_commit_rel(l0: Library, l1: Library) -> bool {
    &&& l0 is X
    &&& lib_tentative(l0) matches Some((name, unit)) && {
        &&& l1 is X
        &&& lib_id(l1) == lib_id(l0)
        &&& lib_tentative(l1) is None
        &&& lib_by_order(l1) == lib_by_order(l0).push(unit)
        &&& ({
            let p = id_find_pos(lib_by_name(l0), name);
            if p == -1 {
                lib_by_name(l1) == lib_by_name(l0).push((name, unit))
            } else {
                lib_by_name(l1) == lib_by_name(l0).update(p, (lib_by_name(l0)[p].0, unit))
            }
        })
    }
}

/// How [`Library::drop_tentative`] changes a library: the tentative slot
/// empties and everything else stays.
pub open spec fn lib_drop_rel(l0: Library, l1: Library) -> bool {
    &&& l0 is X
    &&& l1 is X
    &&& lib_id(l1) == lib_id(l0)
    &&& lib_tentative(l1) is None
    &&& lib_by_name(l1) == lib_by_name(l0)
    &&& lib_by_order(l1) == lib_by_order(l0)
}

impl Library {
    /// An empty library named `id`.
    pub fn new(id: Identifier) -> (r: Library)
        ensures
            r is X,
            lib_id(r) == id,
            lib_by_name(r) == Seq::<(Identifier, ObjPoolIndex<AstNode>)>::empty(),
            lib_by_order(r) == Seq::<ObjPoolIndex<AstNode>>::empty(),
            lib_tentative(r) is None,
    {
        Library::X {
            id,
            db_by_name: Vec::new(),
            db_by_order: Vec::new(),
            tentative: None,
        }
    }

    /// The position of `name` among the committed units, if any.
    fn committed_pos(&self, name: Identifier) -> (r: Option<usize>)
        requires
            *self is X,
        ensures
            match r {
                Some(k) => id_find_pos(lib_by_name(*self), name) == k as int,
                None => id_find_pos(lib_by_name(*self), name) == -1,
            },
    {
        match self {
            Library::Invalid => None,
            Library::X { db_by_name, .. } => {
                let n = db_by_name.len();
                for k in 0..n
                    invariant
                        n == db_by_name@.len(),
                        db_by_name@ == lib_by_name(*self),
                        forall|j: int| 0 <= j < k ==> !id_eq((#[trigger] db_by_name@[j]).0, name),
                {
                    if db_by_name[k].0 == name {
                        proof {
                            lemma_id_find_pos_first(db_by_name@, name, k as int);
                        }
                        return Some(k);
                    }
                }
                proof {
                    lemma_id_find_pos_first(db_by_name@, name, db_by_name@.len() as int);
                }
                None
            },
        }
    }

    /// Records a committed design unit under `name`.
    pub fn add_design_unit(&mut self, name: Identifier, unit: ObjPoolIndex<AstNode>)
        requires
            *old(self) is X,
        ensures
            lib_add_rel(*old(self), name, unit, *final(self)),
    {
        let pos = self.committed_pos(name);
        proof {
            lemma_id_find_pos_props(lib_by_name(*self), name);
        }
        match self {
            Library::Invalid => {
                proof {
                    assert(false);
                }
            },
            Library::X { db_by_name, db_by_order, .. } => {
                let ghost old_pairs = db_by_name@;
                match pos {
                    Some(k) => {
                        db_by_name[k].1 = unit;
                        proof {
                            assert(db_by_name@ =~= old_pairs.update(
                                k as int,
                                (old_pairs[k as int].0, unit),
                            ));
                        }
                    },
                    None => {
                        db_by_name.push((name, unit));
                    },
                }
                db_by_order.push(unit);
            },
        }
    }

    /// Looks a design unit up by name; the tentative entry, when its name
    /// matches, shadows any committed entry.
    pub fn find_design_unit(&self, name: Identifier) -> (r: Option<ObjPoolIndex<AstNode>>)
        requires
            *self is X,
        ensures
            r == lib_find(*self, name),
    {
        match self {
            Library::Invalid => {},
            Library::X { tentative, .. } => {
                if let Some((tn, tu)) = tentative {
                    if *tn == name {
                        return Some(*tu);
                    }
                }
            },
        }
        let pos = self.committed_pos(name);
        proof {
            lemma_id_find_pos_props(lib_by_name(*self), name);
        }
        match (pos, self) {
            (_, Library::Invalid) => None,
            (Some(k), Library::X { db_by_name, .. }) => Some(db_by_name[k].1),
            (None, Library::X { .. }) => None,
        }
    }

    /// Registers a unit tentatively: findable, but not committed. A second
    /// tentative registration while one is pending is an internal-consistency
    /// failure and changes nothing.
    pub fn tentative_add(&mut self, name: Identifier, unit: ObjPoolIndex<AstNode>) -> (r: Result<
        (),
        Fatal,
    >)
        requires
            *old(self) is X,
        ensures
            lib_tentative(*old(self)) is Some ==> r == Result::<(), Fatal>::Err(
                Fatal::InternalConsistency,
            ) && *final(self) == *old(self),
            lib_tentative(*old(self)) is None ==> r is Ok && lib_tentative_add_rel(
                *old(self),
                name,
                unit,
                *final(self),
            ),
    {
        match self {
            Library::Invalid => {
                proof {
                    assert(false);
                }
                Err(Fatal::InternalConsistency)
            },
            Library::X { tentative, .. } => {
                if tentative.is_some() {
                    return Err(Fatal::InternalConsistency);
                }
                *tentative = Some((name, unit));
                Ok(())
            },
        }
    }

    /// Promotes the pending tentative entry to a committed design unit.
    pub fn commit(&mut self)
        requires
            *old(self) is X,
            lib_tentative(*old(self)) is Some,
        ensures
            lib_commit_rel(*old(self), *final(self)),
    {
        let (name, unit) = match self {
            Library::Invalid => vstd::pervasive::unreached(),
            Library::X { tentative, .. } => {
                let t = tentative.unwrap();
                *tentative = None;
                t
            },
        };
        self.add_design_unit(name, unit);
    }

    /// Discards the pending tentative entry, leaving no trace of it.
    pub fn drop_tentative(&mut self)
        requires
            *old(self) is X,
        ensures
            lib_drop_rel(*old(self), *final(self)),
            lib_tentative(*old(self)) is None ==> *final(self) == *old(self),
    {
        match self {
            Library::Invalid => {
                proof {
                    assert(false);
                }
            },
            Library::X { tentative, .. } => {
                *tentative = None;
            },
        }
    }
}

/// Design-unit lookups respect identifier equality.
pub proof fn lemma_lib_find_respects_id_eq(l: Library, n1: Identifier, n2: Identifier)
    requires
        id_eq(n1, n2),
    ensures
        lib_find(l, n1) == lib_find(l, n2),
{
    lemma_id_find_pos_respects(lib_by_name(l), n1, n2);
}

/// The library transaction, committed: after `tentative_add` and `commit`,
/// the unit is findable under its name.
pub proof fn lemma_transaction_commit(
    l0: Library,
    l1: Library,
    l2: Library,
    name: Identifier,
    unit: ObjPoolIndex<AstNode>,
)
    requires
        lib_tentative_add_rel(l0, name, unit, l1),
        lib_commit_rel(l1, l2),
    ensures
        lib_find(l2, name) == Some(unit),
        lib_by_order(l2) == lib_by_order(l0).push(unit),
{
    let pairs = lib_by_name(l1);
    let p = id_find_pos(pairs, name);
    lemma_id_find_pos_props(pairs, name);
    if p == -1 {
        assert forall|j: int| 0 <= j < pairs.len() implies !id_eq(
            (#[trigger] lib_by_name(l2)[j]).0,
            name,
        ) by {
            assert(lib_by_name(l2)[j] == pairs[j]);
        }
        lemma_id_find_pos_first(lib_by_name(l2), name, pairs.len() as int);
    } else {
        assert forall|j: int| 0 <= j < p implies !id_eq(
            (#[trigger] lib_by_name(l2)[j]).0,
            name,
        ) by {
            assert(lib_by_name(l2)[j] == pairs[j]);
        }
        lemma_id_find_pos_first(lib_by_name(l2), name, p);
    }
}

/// A directly added design unit is findable under its name, as long as no
/// tentative entry shadows it.
pub proof fn lemma_add_makes_findable(
    l0: Library,
    l1: Library,
    name: Identifier,
    unit: ObjPoolIndex<AstNode>,
)
    requires
        lib_add_rel(l0, name, unit, l1),
        lib_tentative(l0) is None,
    ensures
        lib_find(l1, name) == Some(unit),
{
    let pairs = lib_by_name(l0);
    let p = id_find_pos(pairs, name);
    lemma_id_find_pos_props(pairs, name);
    if p == -1 {
        assert forall|j: int| 0 <= j < pairs.len() implies !id_eq(
            (#[trigger] lib_by_name(l1)[j]).0,
            name,
        ) by {
            assert(lib_by_name(l1)[j] == pairs[j]);
        }
        lemma_id_find_pos_first(lib_by_name(l1), name, pairs.len() as int);
    } else {
        assert forall|j: int| 0 <= j < p implies !id_eq(
            (#[trigger] lib_by_name(l1)[j]).0,
            name,
        ) by {
            assert(lib_by_name(l1)[j] == pairs[j]);
        }
        lemma_id_find_pos_first(lib_by_name(l1), name, p);
    }
}

/// The library transaction, rolled back: after `tentative_add` and
/// `drop_tentative`, every lookup answers as it did before the transaction,
/// so the unit is not findable unless it already was.
pub proof fn lemma_transaction_drop(
    l0: Library,
    l1: Library,
    l2: Library,
    name: Identifier,
    unit: ObjPoolIndex<AstNode>,
)
    requires
        lib_tentative_add_rel(l0, name, unit, l1),
        lib_drop_rel(l1, l2),
    ensures
        forall|n: Identifier| #[trigger] lib_find(l2, n) == lib_find(l0, n),
{
}

/// The library transaction, in flight: while tentative, the unit is findable
/// under its name (shadowing any committed entry of that name), and lookups
/// of other names are unaffected.
pub proof fn lemma_transaction_find_while_tentative(
    l0: Library,
    l1: Library,
    name: Identifier,
    unit: ObjPoolIndex<AstNode>,
)
    requires
        lib_tentative_add_rel(l0, name, unit, l1),
    ensures
        lib_find(l1, name) == Some(unit),
        forall|n: Identifier| !id_eq(name, n) ==> #[trigger] lib_find(l1, n) == lib_find(l0, n),
{
}

/// The name-keyed registry of libraries, insertion-ordered.
pub struct DesignDatabase {
    pub db_by_name: Vec<(Identifier, ObjPoolIndex<Library>)>,
    pub db_by_order: Vec<ObjPoolIndex<Library>>,
}

impl DesignDatabase {
    /// An empty database.
    pub fn new() -> (r: DesignDatabase)
        ensures
            r.db_by_name@ == Seq::<(Identifier, ObjPoolIndex<Library>)>::empty(),
            r.db_by_order@ == Seq::<ObjPoolIndex<Library>>::empty(),
    {
        DesignDatabase { db_by_name: Vec::new(), db_by_order: Vec::new() }
    }

    /// Installs the built-in libraries. The implemented slice has none, so
    /// this changes nothing yet.
    pub fn populate_builtins(&mut self)
        ensures
            *final(self) == *old(self),
    {
    }

    /// Registers a library under `name`.
    pub fn add_library(&mut self, name: Identifier, unit: ObjPoolIndex<Library>)
        ensures
            final(self).db_by_order@ == old(self).db_by_order@.push(unit),
            ({
                let pairs = old(self).db_by_name@;
                let p = id_find_pos(pairs, name);
                if p == -1 {
                    final(self).db_by_name@ == pairs.push((name, unit))
                } else {
                    final(self).db_by_name@ == pairs.update(p, (pairs[p].0, unit))
                }
            }),
    {
        let ghost old_pairs = self.db_by_name@;
        let n = self.db_by_name.len();
        for k in 0..n
            invariant
                n == self.db_by_name@.len(),
                *self == *old(self),
                old_pairs == old(self).db_by_name@,
                forall|j: int| 0 <= j < k ==> !id_eq((#[trigger] old_pairs[j]).0, name),
        {
            if self.db_by_name[k].0 == name {
                proof {
                    lemma_id_find_pos_first(old_pairs, name, k as int);
                }
                self.db_by_name[k].1 = unit;
                self.db_by_order.push(unit);
                proof {
                    assert(self.db_by_name@ =~= old_pairs.update(
                        k as int,
                        (old_pairs[k as int].0, unit),
                    ));
                }
                return ;
            }
        }
        proof {
            lemma_id_find_pos_first(old_pairs, name, old_pairs.len() as int);
        }
        self.db_by_name.push((name, unit));
        self.db_by_order.push(unit);
    }

    /// Looks a library up by name.
    pub fn find_library(&self, name: Identifier) -> (r: Option<ObjPoolIndex<Library>>)
        ensures
            r == id_find(self.db_by_name@, name),
    {
        let n = self.db_by_name.len();
        for k in 0..n
            invariant
                n == self.db_by_name@.len(),
                forall|j: int| 0 <= j < k ==> !id_eq((#[trigger] self.db_by_name@[j]).0, name),
        {
            if self.db_by_name[k].0 == name {
                proof {
                    lemma_id_find_pos_first(self.db_by_name@, name, k as int);
                }
                return Some(self.db_by_name[k].1);
            }
        }
        proof {
            lemma_id_find_pos_first(self.db_by_name@, name, self.db_by_name@.len() as int);
        }
        None
    }
}

} // verus!
