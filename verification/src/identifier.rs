//! Canonicalized, validated identifiers.
//!
//! A basic identifier is case-insensitive: its canonical form is the
//! lower-cased (Latin-1 case table) text, and equality goes by the canonical
//! form. An extended identifier is byte-exact: its canonical form is the
//! original text, and equality is case-sensitive. An extended identifier is
//! never equal to a basic one.

use crate::objpools::{StringPool, StringPoolIndexLatin1};
use crate::util::basic_id_ok;
use crate::util::ext_id_ok;
use crate::util::latin1_lcase;
use crate::util::latin1_to_lower;
use vstd::prelude::*;
use vstd::string::StrSliceExecFns;

verus! {

/// The Latin-1 lower-casing of a whole byte string.
pub open spec fn lcase_seq(s: Seq<u8>) -> Seq<u8> {
    Seq::new(s.len(), |i: int| latin1_lcase(s[i]))
}

/// The canonical text of identifier text `orig`: lower-cased for a basic
/// identifier, byte-exact for an extended one.
pub open spec fn canonical_text(orig: Seq<u8>, ext: bool) -> Seq<u8> {
    if ext {
        orig
    } else {
        lcase_seq(orig)
    }
}

/// Whether identifier text `orig` is acceptable with extendedness `ext`.
pub open spec fn id_text_ok(orig: Seq<u8>, ext: bool) -> bool {
    if ext {
        ext_id_ok(orig)
    } else {
        basic_id_ok(orig)
    }
}

/// A validated name: the original text, the canonical text (both interned in
/// one string pool), and whether it is an extended identifier.
#[derive(Clone, Copy, Eq, Debug)]
pub struct Identifier {
    pub orig_name: StringPoolIndexLatin1,
    pub canonical_name: StringPoolIndexLatin1,
    pub is_extended_id: bool,
}

/// Identifier equality: the canonical text index and the extendedness flag;
/// the original text does not matter.
pub open spec fn id_eq(a: Identifier, b: Identifier) -> bool {
    a.is_extended_id == b.is_extended_id && a.canonical_name == b.canonical_name
}

impl PartialEq for Identifier {
    fn eq(&self, other: &Identifier) -> (r: bool) {
        self.is_extended_id == other.is_extended_id && self.canonical_name == other.canonical_name
    }
}

impl vstd::std_specs::cmp::PartialEqSpecImpl for Identifier {
    open spec fn obeys_eq_spec() -> bool {
        true
    }

    open spec fn eq_spec(&self, other: &Identifier) -> bool {
        id_eq(*self, *other)
    }
}

/// What [`Identifier::new_latin1`] establishes: `id` was built over pool `sp`
/// from original text `orig` with extendedness `ext`. Later interning leaves
/// this intact, because pool entries are never moved or changed.
pub open spec fn canonicalized(sp: StringPool, id: Identifier, orig: Seq<u8>, ext: bool) -> bool {
    &&& id.is_extended_id == ext
    &&& sp.is_entry(id.orig_name.start as int, id.orig_name.end as int)
    &&& sp.str_at(id.orig_name.start as int, id.orig_name.end as int) == orig
    &&& sp.is_entry(id.canonical_name.start as int, id.canonical_name.end as int)
    &&& sp.str_at(id.canonical_name.start as int, id.canonical_name.end as int)
        == canonical_text(orig, ext)
}

impl Identifier {
    /// Builds an identifier from Latin-1 text already interned in `sp`.
    ///
    /// Fails exactly when the text breaks the shape rules for the requested
    /// kind. For a basic identifier the canonical (lower-cased) text is
    /// interned; for an extended identifier the canonical index is the
    /// original index itself and the pool is untouched.
    pub fn new_latin1(sp: &mut StringPool, name: StringPoolIndexLatin1, ext: bool) -> (r: Result<
        Identifier,
        &'static str,
    >)
        requires
            old(sp).wf(),
            old(sp).is_entry(name.start as int, name.end as int),
        ensures
            final(sp).wf(),
            r is Ok <==> id_text_ok(old(sp).str_at(name.start as int, name.end as int), ext),
            r is Err ==> *final(sp) == *old(sp),
            r matches Ok(id) ==> {
                &&& id.orig_name == name
                &&& id.is_extended_id == ext
                &&& canonicalized(
                    *final(sp),
                    id,
                    old(sp).str_at(name.start as int, name.end as int),
                    ext,
                )
            },
            forall|s: int, e: int|
                old(sp).is_entry(s, e) ==> final(sp).is_entry(s, e) && final(sp).str_at(s, e)
                    == old(sp).str_at(s, e),
            ext ==> *final(sp) == *old(sp),
    {
        proof {
            let k = choose|k: int|
                0 <= k < sp.count() && sp.table@[k].start == name.start && sp.table@[k].end
                    == name.end;
        }
        let name_ = sp.retrieve_latin1_str(name);
        if ext {
            if !name_.valid_for_ext_id() {
                return Err("name is unacceptable as an identifier");
            }
            Ok(Identifier { orig_name: name, canonical_name: name, is_extended_id: true })
        } else {
            if !name_.valid_for_basic_id() {
                return Err("name is unacceptable as an identifier");
            }
            let mut lcase_name: Vec<u8> = Vec::new();
            let n = name_.bytes.len();
            for i in 0..n
                invariant
                    n == name_.bytes@.len(),
                    lcase_name@.len() == i,
                    forall|j: int|
                        0 <= j < i ==> lcase_name@[j] == latin1_lcase(#[trigger] name_.bytes@[j]),
            {
                lcase_name.push(latin1_to_lower(name_.bytes[i]));
            }
            proof {
                assert(lcase_name@ =~= lcase_seq(name_.bytes@));
            }
            let canonical_name = sp.add_latin1_str(&lcase_name);
            Ok(Identifier { orig_name: name, canonical_name, is_extended_id: false })
        }
    }

    /// Builds an identifier from Unicode text: every character must lie in
    /// the Latin-1 range, and the resulting bytes must pass the same shape
    /// rules as in [`Identifier::new_latin1`].
    pub fn new_unicode(sp: &mut StringPool, name: &str, ext: bool) -> (r: Result<
        Identifier,
        &'static str,
    >)
        requires
            old(sp).wf(),
        ensures
            final(sp).wf(),
            r is Ok <==> all_latin1(name@) && id_text_ok(latin1_bytes(name@), ext),
            r matches Ok(id) ==> {
                &&& id.is_extended_id == ext
                &&& canonicalized(*final(sp), id, latin1_bytes(name@), ext)
            },
            !all_latin1(name@) ==> *final(sp) == *old(sp),
            forall|s: int, e: int|
                old(sp).is_entry(s, e) ==> final(sp).is_entry(s, e) && final(sp).str_at(s, e)
                    == old(sp).str_at(s, e),
    {
        let mut latin1_name: Vec<u8> = Vec::new();
        let n = name.unicode_len();
        for i in 0..n
            invariant
                n == name@.len(),
                latin1_name@.len() == i,
                *sp == *old(sp),
                old(sp).wf(),
                forall|j: int| 0 <= j < i ==> ((#[trigger] name@[j]) as u32) < 0x100,
                forall|j: int|
                    0 <= j < i ==> latin1_name@[j] == ((#[trigger] name@[j]) as u32) as u8,
        {
            let c = name.get_char(i);
            if (c as u32) >= 0x100 {
                proof {
                    assert(!(((name@[i as int]) as u32) < 0x100));
                }
                return Err("name contains characters outside Latin-1 range");
            }
            latin1_name.push((c as u32) as u8);
        }
        proof {
            assert(all_latin1(name@));
            assert(latin1_name@ =~= latin1_bytes(name@));
        }
        let sp_idx = sp.add_latin1_str(&latin1_name);
        Identifier::new_latin1(sp, sp_idx, ext)
    }
}

/// Whether every character of `s` lies in the Latin-1 range.
pub open spec fn all_latin1(s: Seq<char>) -> bool {
    forall|i: int| 0 <= i < s.len() ==> ((#[trigger] s[i]) as u32) < 0x100
}

/// The Latin-1 bytes of a character sequence (meaningful under
/// [`all_latin1`]).
pub open spec fn latin1_bytes(s: Seq<char>) -> Seq<u8> {
    Seq::new(s.len(), |i: int| (s[i] as u32) as u8)
}

/// Canonicalization is deterministic: two identifiers built over one pool
/// from texts with equal canonical forms, of one kind, are equal.
pub proof fn lemma_canonicalized_deterministic(
    p: StringPool,
    a: Identifier,
    b: Identifier,
    text_a: Seq<u8>,
    text_b: Seq<u8>,
    ext: bool,
)
    requires
        p.wf(),
        canonicalized(p, a, text_a, ext),
        canonicalized(p, b, text_b, ext),
        canonical_text(text_a, ext) == canonical_text(text_b, ext),
    ensures
        id_eq(a, b),
{
    crate::objpools::lemma_pool_entry_injective(
        p,
        a.canonical_name.start as int,
        a.canonical_name.end as int,
        b.canonical_name.start as int,
        b.canonical_name.end as int,
    );
}

/// How identifiers over one pool compare.
///
/// For basic identifiers, any two case variants (texts with equal
/// lower-casings) canonicalize to the same pool entry and are equal; an
/// extended identifier is never equal to a basic one; two extended
/// identifiers with different text are never equal; and conversely, equal
/// identifiers have equal canonical text.
pub proof fn lemma_identifier_equality(
    p: StringPool,
    a: Identifier,
    b: Identifier,
    sa: Seq<u8>,
    sb: Seq<u8>,
    ext_a: bool,
    ext_b: bool,
)
    requires
        p.wf(),
        canonicalized(p, a, sa, ext_a),
        canonicalized(p, b, sb, ext_b),
    ensures
        !ext_a && !ext_b && lcase_seq(sa) == lcase_seq(sb) ==> id_eq(a, b),
        ext_a != ext_b ==> !id_eq(a, b),
        ext_a && ext_b && sa != sb ==> !id_eq(a, b),
        id_eq(a, b) ==> canonical_text(sa, ext_a) == canonical_text(sb, ext_b),
{
    if !ext_a && !ext_b && lcase_seq(sa) == lcase_seq(sb) {
        crate::objpools::lemma_pool_entry_injective(
            p,
            a.canonical_name.start as int,
            a.canonical_name.end as int,
            b.canonical_name.start as int,
            b.canonical_name.end as int,
        );
    }
}

} // verus!
