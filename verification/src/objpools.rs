//! The two storage abstractions everything else is built on: a content-
//! addressed string pool handing out stable `(start, end)` indices into one
//! growing byte buffer, and a generic append-only object arena handing out
//! typed, copyable indices.

use core::marker::PhantomData;
use vstd::prelude::*;

verus! {

/// An index into [`StringPool`] storage, before it is tagged with a domain.
#[derive(Clone, Copy, PartialEq, Eq, Structural, Hash, Debug)]
pub struct StringPoolIndexInternal {
    pub start: usize,
    pub end: usize,
}

/// An index for Latin-1 text held in a [`StringPool`].
///
/// The Latin-1 and OS-string domains share the same backing storage but get
/// distinct index types so values from different domains can never be
/// compared or confused.
#[derive(Clone, Copy, PartialEq, Eq, Structural, Hash, Debug)]
pub struct StringPoolIndexLatin1 {
    pub start: usize,
    pub end: usize,
}

/// An index for OS-level text (file names) held in a [`StringPool`].
#[derive(Clone, Copy, PartialEq, Eq, Structural, Hash, Debug)]
pub struct StringPoolIndexOsStr {
    pub start: usize,
    pub end: usize,
}

/// Interns byte strings: identical byte sequences are stored once and always
/// yield the same index, so indices of one pool can be compared without the
/// pool at hand.
pub struct StringPool {
    /// Every unique byte string ever added, concatenated in first-insertion
    /// order.
    pub storage: Vec<u8>,
    /// The `(start, end)` range of each unique byte string, in first-insertion
    /// order.
    pub table: Vec<StringPoolIndexInternal>,
}

impl StringPool {
    /// The number of distinct byte strings held.
    pub open spec fn count(self) -> int {
        self.table@.len() as int
    }

    /// The bytes of the `k`-th distinct string.
    pub open spec fn str_of(self, k: int) -> Seq<u8> {
        self.storage@.subrange(self.table@[k].start as int, self.table@[k].end as int)
    }

    /// All distinct strings held, in first-insertion order.
    pub open spec fn strs(self) -> Seq<Seq<u8>> {
        Seq::new(self.table@.len(), |k: int| self.str_of(k))
    }

    /// The bytes a `(start, end)` index denotes.
    pub open spec fn str_at(self, start: int, end: int) -> Seq<u8> {
        self.storage@.subrange(start, end)
    }

    /// Whether `(start, end)` is the range of one of the held strings.
    pub open spec fn is_entry(self, start: int, end: int) -> bool {
        exists|k: int|
            0 <= k < self.count() && self.table@[k].start == start && self.table@[k].end == end
    }

    /// Whether the pool already holds `s`.
    pub open spec fn contains_str(self, s: Seq<u8>) -> bool {
        exists|k: int| 0 <= k < self.count() && self.str_of(k) == s
    }

    /// The pool's invariant: the held ranges tile the storage exactly, in
    /// order, and no two held strings are equal.
    pub open spec fn wf(self) -> bool {
        &&& forall|k: int|
            0 <= k < self.count() ==> (#[trigger] self.table@[k]).start <= self.table@[k].end
                <= self.storage@.len()
        &&& forall|k: int|
            0 <= k < self.count() ==> (#[trigger] self.table@[k]).start == (if k == 0 {
                0int
            } else {
                self.table@[k - 1].end as int
            })
        &&& (if self.count() == 0 {
            self.storage@.len() == 0
        } else {
            self.table@[self.count() - 1].end == self.storage@.len()
        })
        &&& forall|k1: int, k2: int|
            0 <= k1 < k2 < self.count() ==> #[trigger] self.str_of(k1) != #[trigger] self.str_of(
                k2,
            )
    }

    /// An empty pool.
    pub fn new() -> (r: StringPool)
        ensures
            r.wf(),
            r.count() == 0,
            r.storage@.len() == 0,
    {
        StringPool { storage: Vec::new(), table: Vec::new() }
    }

    /// Adds a byte string to the pool, reusing the existing range when the
    /// same bytes were added before.
    #[verifier::rlimit(50)]
    fn add_internal_str(&mut self, inp: &Vec<u8>) -> (r: StringPoolIndexInternal)
        requires
            old(self).wf(),
        ensures
            final(self).wf(),
            final(self).is_entry(r.start as int, r.end as int),
            final(self).str_at(r.start as int, r.end as int) == inp@,
            r.start <= r.end <= final(self).storage@.len(),
            old(self).contains_str(inp@) ==> *final(self) == *old(self),
            !old(self).contains_str(inp@) ==> {
                &&& final(self).storage@ == old(self).storage@ + inp@
                &&& final(self).table@ == old(self).table@.push(r)
                &&& r.start == old(self).storage@.len()
                &&& r.end == old(self).storage@.len() + inp@.len()
            },
            final(self).strs() == if old(self).contains_str(inp@) {
                old(self).strs()
            } else {
                old(self).strs().push(inp@)
            },
            forall|s: int, e: int|
                old(self).is_entry(s, e) ==> final(self).is_entry(s, e) && final(self).str_at(
                    s,
                    e,
                ) == old(self).str_at(s, e),
    {
        let n = self.table.len();
        for k in 0..n
            invariant
                self.wf(),
                n == self.count(),
                forall|j: int| 0 <= j < k ==> self.str_of(j) != inp@,
        {
            let e = self.table[k];
            if bytes_range_eq(&self.storage, e.start, e.end, inp) {
                proof {
                    assert(self.str_of(k as int) == inp@);
                }
                return e;
            }
        }
        proof {
            assert(forall|j: int| 0 <= j < self.count() ==> self.str_of(j) != inp@);
            assert(!self.contains_str(inp@));
        }
        let addition_begin = self.storage.len();
        let ghost old_pool = *self;
        let mut j: usize = 0;
        while j < inp.len()
            invariant
                j <= inp@.len(),
                self.table@ == old_pool.table@,
                self.storage@ == old_pool.storage@ + inp@.take(j as int),
                addition_begin == old_pool.storage@.len(),
            decreases inp@.len() - j,
        {
            self.storage.push(inp[j]);
            j += 1;
            proof {
                assert(inp@.take(j as int) =~= inp@.take(j - 1).push(inp@[j - 1]));
            }
        }
        proof {
            assert(inp@.take(inp@.len() as int) =~= inp@);
        }
        let addition_end = self.storage.len();
        let new_idx = StringPoolIndexInternal { start: addition_begin, end: addition_end };
        self.table.push(new_idx);
        proof {
            lemma_add_preserves(old_pool, *self, inp@, new_idx);
        }
        new_idx
    }

    /// Interns Latin-1 text.
    ///
    /// Adding the same bytes twice yields the same index; distinct bytes
    /// yield distinct (disjoint) ranges; storage stays the concatenation of
    /// the unique strings in first-insertion order (all part of [`Self::wf`]).
    pub fn add_latin1_str(&mut self, inp: &Vec<u8>) -> (r: StringPoolIndexLatin1)
        requires
            old(self).wf(),
        ensures
            final(self).wf(),
            final(self).is_entry(r.start as int, r.end as int),
            final(self).str_at(r.start as int, r.end as int) == inp@,
            r.start <= r.end <= final(self).storage@.len(),
            old(self).contains_str(inp@) ==> *final(self) == *old(self),
            !old(self).contains_str(inp@) ==> final(self).storage@ == old(self).storage@ + inp@
                && r.start == old(self).storage@.len(),
            final(self).strs() == if old(self).contains_str(inp@) {
                old(self).strs()
            } else {
                old(self).strs().push(inp@)
            },
            forall|s: int, e: int|
                old(self).is_entry(s, e) ==> final(self).is_entry(s, e) && final(self).str_at(
                    s,
                    e,
                ) == old(self).str_at(s, e),
    {
        let int_idx = self.add_internal_str(inp);
        StringPoolIndexLatin1 { start: int_idx.start, end: int_idx.end }
    }

    /// Reads Latin-1 text back out of the pool (as an owned copy).
    pub fn retrieve_latin1_str(&self, i: StringPoolIndexLatin1) -> (r: crate::util::Latin1Str)
        requires
            i.start <= i.end <= self.storage@.len(),
        ensures
            r.bytes@ == self.str_at(i.start as int, i.end as int),
    {
        crate::util::Latin1Str { bytes: copy_range(&self.storage, i.start, i.end) }
    }

    /// Interns OS-level text (file-name bytes).
    pub fn add_osstr(&mut self, inp: &Vec<u8>) -> (r: StringPoolIndexOsStr)
        requires
            old(self).wf(),
        ensures
            final(self).wf(),
            final(self).is_entry(r.start as int, r.end as int),
            final(self).str_at(r.start as int, r.end as int) == inp@,
            r.start <= r.end <= final(self).storage@.len(),
            old(self).contains_str(inp@) ==> *final(self) == *old(self),
            final(self).strs() == if old(self).contains_str(inp@) {
                old(self).strs()
            } else {
                old(self).strs().push(inp@)
            },
            forall|s: int, e: int|
                old(self).is_entry(s, e) ==> final(self).is_entry(s, e) && final(self).str_at(
                    s,
                    e,
                ) == old(self).str_at(s, e),
    {
        let int_idx = self.add_internal_str(inp);
        StringPoolIndexOsStr { start: int_idx.start, end: int_idx.end }
    }

    /// Reads OS-level text back out of the pool (as an owned copy).
    pub fn retrieve_osstr(&self, i: StringPoolIndexOsStr) -> (r: Vec<u8>)
        requires
            i.start <= i.end <= self.storage@.len(),
        ensures
            r@ == self.str_at(i.start as int, i.end as int),
    {
        copy_range(&self.storage, i.start, i.end)
    }
}

/// Two held strings are equal only at the same table position, hence only
/// under the same index: interning is injective.
pub proof fn lemma_pool_entry_injective(p: StringPool, s1: int, e1: int, s2: int, e2: int)
    requires
        p.wf(),
        p.is_entry(s1, e1),
        p.is_entry(s2, e2),
        p.str_at(s1, e1) == p.str_at(s2, e2),
    ensures
        s1 == s2 && e1 == e2,
{
    let k1 = choose|k: int|
        0 <= k < p.count() && p.table@[k].start == s1 && p.table@[k].end == e1;
    let k2 = choose|k: int|
        0 <= k < p.count() && p.table@[k].start == s2 && p.table@[k].end == e2;
    if k1 != k2 {
        assert(p.str_of(k1) != p.str_of(k2));
    }
}

/// The concatenation of a sequence of byte strings.
pub open spec fn cat_seqs(ss: Seq<Seq<u8>>) -> Seq<u8>
    decreases ss.len(),
{
    if ss.len() == 0 {
        Seq::empty()
    } else {
        cat_seqs(ss.drop_last()) + ss.last()
    }
}

/// In a well-formed pool the storage is the concatenation of the held
/// strings in first-insertion order.
pub proof fn lemma_wf_storage_is_cat(p: StringPool)
    requires
        p.wf(),
    ensures
        p.storage@ == cat_seqs(p.strs()),
{
    lemma_prefix_is_cat(p, p.count());
    if p.count() == 0 {
        assert(p.storage@ =~= cat_seqs(p.strs().take(0)));
    }
    assert(p.strs().take(p.count()) =~= p.strs());
}

/// The storage up to the end of entry `n - 1` is the concatenation of the
/// first `n` held strings.
#[verifier::rlimit(50)]
proof fn lemma_prefix_is_cat(p: StringPool, n: int)
    requires
        p.wf(),
        0 <= n <= p.count(),
    ensures
        n > 0 ==> p.storage@.subrange(0, p.table@[n - 1].end as int) == cat_seqs(p.strs().take(n)),
    decreases n,
{
    if n > 0 {
        lemma_prefix_is_cat(p, n - 1);
        assert(p.strs().take(n).drop_last() =~= p.strs().take(n - 1));
        assert(p.strs().take(n).last() == p.str_of(n - 1));
        if n == 1 {
            assert(p.storage@.subrange(0, p.table@[0].end as int) =~= cat_seqs(p.strs().take(0))
                + p.str_of(0));
        } else {
            assert(p.storage@.subrange(0, p.table@[n - 1].end as int) =~= p.storage@.subrange(
                0,
                p.table@[n - 2].end as int,
            ) + p.str_of(n - 1));
        }
    }
}

/// Appending a fresh string preserves the pool invariant and pushes it onto
/// the list of held strings.
proof fn lemma_add_preserves(
    old_p: StringPool,
    new_p: StringPool,
    s: Seq<u8>,
    idx: StringPoolIndexInternal,
)
    requires
        old_p.wf(),
        !old_p.contains_str(s),
        idx.start == old_p.storage@.len(),
        idx.end == old_p.storage@.len() + s.len(),
        new_p.storage@ == old_p.storage@ + s,
        new_p.table@ == old_p.table@.push(idx),
    ensures
        new_p.wf(),
        new_p.strs() == old_p.strs().push(s),
        new_p.is_entry(idx.start as int, idx.end as int),
        new_p.str_at(idx.start as int, idx.end as int) == s,
        forall|s1: int, e1: int|
            old_p.is_entry(s1, e1) ==> new_p.is_entry(s1, e1) && new_p.str_at(s1, e1)
                == old_p.str_at(s1, e1),
    decreases old_p.count(),
{
    assert forall|s1: int, e1: int| old_p.is_entry(s1, e1) implies new_p.is_entry(s1, e1)
        && new_p.str_at(s1, e1) == old_p.str_at(s1, e1) by {
        let k = choose|k: int|
            0 <= k < old_p.count() && old_p.table@[k].start == s1 && old_p.table@[k].end == e1;
        assert(new_p.table@[k] == old_p.table@[k]);
        assert(new_p.str_at(s1, e1) =~= old_p.str_at(s1, e1));
    }
    assert forall|k: int| 0 <= k < new_p.count() implies #[trigger] new_p.str_of(k) == (if k
        < old_p.count() {
        old_p.str_of(k)
    } else {
        s
    }) by {
        if k < old_p.count() {
            assert(new_p.str_of(k) =~= old_p.str_of(k));
        } else {
            assert(new_p.str_of(k) =~= s);
        }
    }
    assert(new_p.strs() =~= old_p.strs().push(s));
    assert(new_p.str_at(idx.start as int, idx.end as int) =~= s);
    assert(new_p.wf());
}

/// Compares `hay[start..end]` with `needle`, element by element.
fn bytes_range_eq(hay: &Vec<u8>, start: usize, end: usize, needle: &Vec<u8>) -> (r: bool)
    requires
        start <= end <= hay@.len(),
    ensures
        r == (hay@.subrange(start as int, end as int) == needle@),
{
    let m = end - start;
    if m != needle.len() {
        proof {
            assert(hay@.subrange(start as int, end as int).len() == m);
        }
        return false;
    }
    for j in 0..m
        invariant
            start <= end <= hay@.len(),
            m == end - start,
            m == needle@.len(),
            forall|t: int| 0 <= t < j ==> hay@[start + t] == needle@[t],
    {
        if hay[start + j] != needle[j] {
            proof {
                assert(hay@.subrange(start as int, end as int)[j as int] == hay@[start + j]);
            }
            return false;
        }
    }
    proof {
        assert(hay@.subrange(start as int, end as int) =~= needle@);
    }
    true
}

/// Copies `src[start..end]` into a fresh vector.
fn copy_range(src: &Vec<u8>, start: usize, end: usize) -> (r: Vec<u8>)
    requires
        start <= end <= src@.len(),
    ensures
        r@ == src@.subrange(start as int, end as int),
{
    let mut out: Vec<u8> = Vec::new();
    let mut j: usize = start;
    while j < end
        invariant
            start <= j <= end <= src@.len(),
            out@ == src@.subrange(start as int, j as int),
        decreases end - j,
    {
        out.push(src[j]);
        j += 1;
        proof {
            assert(src@.subrange(start as int, j as int) =~= src@.subrange(
                start as int,
                j - 1,
            ).push(src@[j - 1]));
        }
    }
    out
}

/// A typed, copyable handle into an [`ObjPool`]: a position plus a phantom
/// element-type tag, so an index for type `T` can never be used against an
/// arena of type `U`.
#[derive(Hash, Debug)]
pub struct ObjPoolIndex<T> {
    pub i: usize,
    pub type_marker: PhantomData<T>,
}

impl<T> Copy for ObjPoolIndex<T> {

}

impl<T> Clone for ObjPoolIndex<T> {
    fn clone(&self) -> (r: ObjPoolIndex<T>) {
        *self
    }
}

impl<T> PartialEq for ObjPoolIndex<T> {
    fn eq(&self, other: &ObjPoolIndex<T>) -> (r: bool) {
        self.i == other.i
    }
}

impl<T> vstd::std_specs::cmp::PartialEqSpecImpl for ObjPoolIndex<T> {
    open spec fn obeys_eq_spec() -> bool {
        true
    }

    open spec fn eq_spec(&self, other: &ObjPoolIndex<T>) -> bool {
        self.i == other.i
    }
}

impl<T> Eq for ObjPoolIndex<T> {

}

/// Append-only typed storage. Nothing is ever removed, so an index stays
/// valid for the life of the arena and nodes can reference each other freely
/// through indices.
pub struct ObjPool<T> {
    pub storage: Vec<T>,
}

impl<T> View for ObjPool<T> {
    type V = Seq<T>;

    open spec fn view(&self) -> Seq<T> {
        self.storage@
    }
}

impl<T> ObjPool<T> {
    /// An empty arena.
    pub fn new() -> (r: ObjPool<T>)
        ensures
            r@ == Seq::<T>::empty(),
    {
        ObjPool { storage: Vec::new() }
    }

    /// Appends `init` and returns its index.
    pub fn allocate(&mut self, init: T) -> (r: ObjPoolIndex<T>)
        ensures
            final(self)@ == old(self)@.push(init),
            r.i == old(self)@.len(),
    {
        let i = self.storage.len();
        self.storage.push(init);
        ObjPoolIndex::<T> { i, type_marker: PhantomData }
    }

    /// The number of objects held.
    pub fn len(&self) -> (r: usize)
        ensures
            r == self@.len(),
    {
        self.storage.len()
    }

    /// An immutable view of the object at `i`.
    pub fn get(&self, i: ObjPoolIndex<T>) -> (r: &T)
        requires
            i.i < self@.len(),
        ensures
            *r == self@[i.i as int],
    {
        &self.storage[i.i]
    }

    /// A mutable view of the object at `i`.
    pub fn get_mut(&mut self, i: ObjPoolIndex<T>) -> (r: &mut T)
        requires
            i.i < old(self)@.len(),
        ensures
            *r == old(self)@[i.i as int],
            final(self)@ == old(self)@.update(i.i as int, *final(r)),
    {
        &mut self.storage[i.i]
    }
}

} // verus!
