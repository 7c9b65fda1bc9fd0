//! The content store: blobs and trees held by content, the names that
//! identify them, and the conversions between references and objects.

use vstd::prelude::*;
use vstd::string::StringSliceAdditionalSpecFns;
use crate::names::{
    failure, pages, HANDLE_SIZE, PAGE_SIZE, saturating_sum, BlobName, Data, Handle, Object, Pointer, Ref, TreeName,
};

verus! {

/// The saturating sum of the footprints of `elems`, taken from the left.
pub open spec fn resident(elems: Seq<Handle>) -> int
    decreases elems.len(),
{
    if elems.len() == 0 {
        0
    } else {
        saturating_sum(resident(elems.drop_last()), elems.last().cost())
    }
}

/// The footprint of a tree with these elements: the pages of its own
/// encoding, thirty-two bytes an element, and what its elements keep
/// resident, held at the largest `u32`.
pub open spec fn tree_cost(elems: Seq<Handle>) -> int {
    saturating_sum(pages(elems.len() as int * HANDLE_SIZE as int), resident(elems))
}

/// Whether every element is comparable.
pub open spec fn all_comparable(elems: Seq<Handle>) -> bool {
    forall|i: int| 0 <= i < elems.len() ==> (#[trigger] elems[i]).comparable()
}

/// One more than the slot of the accessible tree that a handle holds; zero
/// for every other handle.
pub open spec fn rank(h: Handle) -> nat {
    match h {
        Handle::Data(Data::Object(Object::Tree(t))) => match t.name.slot() {
            Some(k) => (k + 1) as nat,
            None => 0,
        },
        _ => 0,
    }
}

/// An in-memory content store. A pointer stands for the slot at which the
/// content was first created; equal content is held once.
pub struct Store {
    blobs: Vec<Vec<u8>>,
    trees: Vec<Vec<Handle>>,
}

/// Whether two byte sequences are equal.
pub fn same_bytes(a: &[u8], b: &[u8]) -> (r: bool)
    ensures
        r == (a@ == b@),
{
    if a.len() != b.len() {
        return false;
    }
    let mut i: usize = 0;
    while i < a.len()
        invariant
            i <= a@.len(),
            a@.len() == b@.len(),
            forall|j: int| 0 <= j < i ==> a@[j] == b@[j],
        decreases a@.len() - i,
    {
        if a[i] != b[i] {
            return false;
        }
        i += 1;
    }
    assert(a@ =~= b@);
    true
}

/// Whether two sequences of handles are the same, bit for bit.
pub fn same_handles(a: &[Handle], b: &[Handle]) -> (r: bool)
    ensures
        r == (a@ == b@),
{
    if a.len() != b.len() {
        return false;
    }
    let mut i: usize = 0;
    while i < a.len()
        invariant
            i <= a@.len(),
            a@.len() == b@.len(),
            forall|j: int| 0 <= j < i ==> a@[j] == b@[j],
        decreases a@.len() - i,
    {
        if !a[i].same(&b[i]) {
            return false;
        }
        i += 1;
    }
    assert(a@ =~= b@);
    true
}

/// Computes the footprint of a tree with these elements.
pub fn tree_footprint(elems: &[Handle]) -> (r: u32)
    requires
        elems@.len() <= u32::MAX,
    ensures
        r as int == tree_cost(elems@),
{
    let each: u64 = HANDLE_SIZE as u64;
    let page: u64 = PAGE_SIZE as u64;
    assert(each == 32 && page == 65536);
    let bytes: u64 = (elems.len() as u64) * each;
    let own: u64 = (bytes + (page - 1)) / page;
    let mut kept: u32 = 0;
    let mut i: usize = 0;
    while i < elems.len()
        invariant
            i <= elems@.len(),
            kept as int == resident(elems@.take(i as int)),
        decreases elems@.len() - i,
    {
        let one: u32 = elems[i].footprint();
        proof {
            assert(elems@.take(i + 1).drop_last() =~= elems@.take(i as int));
        }
        kept = if one > 0xffff_ffffu32 - kept {
            0xffff_ffffu32
        } else {
            kept + one
        };
        i += 1;
    }
    proof {
        assert(elems@.take(i as int) =~= elems@);
    }
    let own32: u32 = own as u32;
    if kept > 0xffff_ffffu32 - own32 {
        0xffff_ffffu32
    } else {
        own32 + kept
    }
}

/// Whether every element is comparable.
pub fn tree_is_eq(elems: &[Handle]) -> (r: bool)
    ensures
        r == all_comparable(elems@),
{
    let mut i: usize = 0;
    while i < elems.len()
        invariant
            i <= elems@.len(),
            forall|j: int| 0 <= j < i ==> (#[trigger] elems@[j]).comparable(),
        decreases elems@.len() - i,
    {
        if !elems[i].is_eq() {
            return false;
        }
        i += 1;
    }
    true
}

impl Store {
    /// The blobs held, by slot.
    pub closed spec fn blobs(self) -> Seq<Seq<u8>> {
        self.blobs@.map_values(|v: Vec<u8>| v@)
    }

    /// The trees held, by slot.
    pub closed spec fn trees(self) -> Seq<Seq<Handle>> {
        self.trees@.map_values(|v: Vec<Handle>| v@)
    }

    /// The tree that a pointer stands for, if the store holds one there.
    pub open spec fn tree_at(self, p: Pointer) -> Option<Seq<Handle>> {
        match p.slot() {
            Some(k) => if k < self.trees().len() {
                Some(self.trees()[k])
            } else {
                None
            },
            None => None,
        }
    }

    /// The bytes that a pointer stands for, if the store holds some there.
    pub open spec fn blob_at(self, p: Pointer) -> Option<Seq<u8>> {
        match p.slot() {
            Some(k) => if k < self.blobs().len() {
                Some(self.blobs()[k])
            } else {
                None
            },
            None => None,
        }
    }

    /// The bytes that a blob name identifies: those of a literal, or what
    /// the store holds at the pointer.
    pub open spec fn blob_content(self, b: BlobName) -> Option<Seq<u8>> {
        match b {
            BlobName::Literal((storage, length)) => Some(
                BlobName::literal_bytes(storage, length),
            ),
            BlobName::Name((p, _)) => self.blob_at(p),
        }
    }

    /// Whether `t` is the name that the store gives to the tree at its
    /// pointer: size, footprint and comparability as the content has them.
    pub open spec fn describes(self, t: TreeName) -> bool {
        match self.tree_at(t.name) {
            Some(elems) => {
                &&& t.size as int == elems.len()
                &&& t.footprint as int == tree_cost(elems)
                &&& t.eq == all_comparable(elems)
            },
            None => false,
        }
    }

    /// Whether `b` is the name that the store gives to `bytes`: the literal
    /// of at most thirty bytes, a pointer with the length of more.
    pub open spec fn names_blob(self, b: BlobName, bytes: Seq<u8>) -> bool {
        if bytes.len() <= 30 {
            b.is_literal_of(bytes)
        } else {
            match b {
                BlobName::Name((p, length)) => self.blob_at(p) == Some(bytes) && length as int
                    == bytes.len(),
                BlobName::Literal(_) => false,
            }
        }
    }

    /// Whether an accessible tree that the handle holds is in the store.
    /// Every other handle is grounded.
    pub open spec fn grounded(self, h: Handle) -> bool {
        match h {
            Handle::Data(Data::Object(Object::Tree(t))) => self.tree_at(t.name).is_some(),
            _ => true,
        }
    }

    /// Whether the store holds the content that a reference names.
    pub open spec fn knows(self, r: Ref) -> bool {
        match r {
            Ref::Blob(b) => self.blob_content(b).is_some(),
            Ref::Tree(t) => self.tree_at(t.name).is_some(),
        }
    }

    /// Whether some slot holds a tree with these elements.
    pub open spec fn holds_tree(self, elems: Seq<Handle>) -> bool {
        exists|k: int| 0 <= k < self.trees().len() && #[trigger] self.trees()[k] == elems
    }

    /// Whether some slot holds these bytes.
    pub open spec fn holds_blob(self, bytes: Seq<u8>) -> bool {
        exists|k: int| 0 <= k < self.blobs().len() && #[trigger] self.blobs()[k] == bytes
    }

    /// The store's invariant: no tree is longer than a size can say, the
    /// accessible trees among a tree's elements were created before it, and
    /// no content is held twice.
    pub open spec fn wf(self) -> bool {
        &&& forall|k: int| 0 <= k < self.trees().len() ==> (#[trigger] self.trees()[k]).len() <= u32::MAX
        &&& forall|k: int, j: int|
            0 <= k < self.trees().len() && 0 <= j < self.trees()[k].len() ==> rank(
                #[trigger] self.trees()[k][j],
            ) <= k
        &&& forall|a: int, b: int|
            0 <= a < b < self.trees().len() ==> #[trigger] self.trees()[a]
                != #[trigger] self.trees()[b]
        &&& forall|a: int, b: int|
            0 <= a < b < self.blobs().len() ==> #[trigger] self.blobs()[a]
                != #[trigger] self.blobs()[b]
    }

    /// Whether everything that `old` holds, this store holds at the same
    /// slot.
    pub open spec fn extends(self, old: Store) -> bool {
        &&& old.trees().len() <= self.trees().len()
        &&& old.blobs().len() <= self.blobs().len()
        &&& forall|k: int| 0 <= k < old.trees().len() ==> #[trigger] self.trees()[k] == old.trees()[k]
        &&& forall|k: int| 0 <= k < old.blobs().len() ==> #[trigger] self.blobs()[k] == old.blobs()[k]
    }

    /// A store that holds nothing.
    pub fn new() -> (r: Store)
        ensures
            r.wf(),
            r.trees().len() == 0,
            r.blobs().len() == 0,
    {
        Store { blobs: Vec::new(), trees: Vec::new() }
    }

    /// The slot that holds `elems`, if one does.
    fn find_tree(&self, elems: &[Handle]) -> (r: Option<usize>)
        ensures
            match r {
                Some(k) => k < self.trees().len() && self.trees()[k as int] == elems@,
                None => !self.holds_tree(elems@),
            },
    {
        let mut k: usize = 0;
        while k < self.trees.len()
            invariant
                k <= self.trees().len(),
                self.trees().len() == self.trees@.len(),
                forall|j: int| 0 <= j < k ==> #[trigger] self.trees()[j] != elems@,
            decreases self.trees@.len() - k,
        {
            if same_handles(self.trees[k].as_slice(), elems) {
                return Some(k);
            }
            k += 1;
        }
        None
    }

    /// The slot that holds `bytes`, if one does.
    fn find_blob(&self, bytes: &[u8]) -> (r: Option<usize>)
        ensures
            match r {
                Some(k) => k < self.blobs().len() && self.blobs()[k as int] == bytes@,
                None => !self.holds_blob(bytes@),
            },
    {
        let mut k: usize = 0;
        while k < self.blobs.len()
            invariant
                k <= self.blobs().len(),
                self.blobs().len() == self.blobs@.len(),
                forall|j: int| 0 <= j < k ==> #[trigger] self.blobs()[j] != bytes@,
            decreases self.blobs@.len() - k,
        {
            if same_bytes(self.blobs[k].as_slice(), bytes) {
                return Some(k);
            }
            k += 1;
        }
        None
    }

    /// Whether the store holds a tree at the pointer.
    pub fn has_tree(&self, p: &Pointer) -> (r: bool)
        ensures
            r == self.tree_at(*p).is_some(),
    {
        p.high == 0 && p.middle == 0 && p.low < self.trees.len() as u64
    }

    /// Whether the store holds a blob at the pointer.
    pub fn has_blob(&self, p: &Pointer) -> (r: bool)
        ensures
            r == self.blob_at(*p).is_some(),
    {
        p.high == 0 && p.middle == 0 && p.low < self.blobs.len() as u64
    }

    /// Whether an accessible tree that the handle holds is in the store.
    pub fn is_grounded(&self, h: &Handle) -> (r: bool)
        ensures
            r == self.grounded(*h),
    {
        match h {
            Handle::Data(Data::Object(Object::Tree(t))) => self.has_tree(&t.name),
            _ => true,
        }
    }

    /// Whether the store holds the content that the reference names.
    pub fn is_known(&self, r: &Ref) -> (known: bool)
        ensures
            known == self.knows(*r),
    {
        match r {
            Ref::Blob(BlobName::Literal(_)) => true,
            Ref::Blob(BlobName::Name((p, _))) => self.has_blob(p),
            Ref::Tree(t) => self.has_tree(&t.name),
        }
    }

    /// Whether every handle of `elems` is grounded.
    pub fn all_grounded(&self, elems: &[Handle]) -> (r: bool)
        ensures
            r == (forall|i: int| 0 <= i < elems@.len() ==> self.grounded(#[trigger] elems@[i])),
    {
        let mut i: usize = 0;
        while i < elems.len()
            invariant
                i <= elems@.len(),
                forall|j: int| 0 <= j < i ==> self.grounded(#[trigger] elems@[j]),
            decreases elems@.len() - i,
        {
            if !self.is_grounded(&elems[i]) {
                return false;
            }
            i += 1;
        }
        true
    }
}

/// What a name identifies: the bytes of a blob or the elements of a tree.
pub enum Content {
    Bytes(Seq<u8>),
    Elements(Seq<Handle>),
}

impl Store {
    /// The content that a reference names, if the store holds it.
    pub open spec fn content(self, r: Ref) -> Option<Content> {
        match r {
            Ref::Blob(b) => match self.blob_content(b) {
                Some(bytes) => Some(Content::Bytes(bytes)),
                None => None,
            },
            Ref::Tree(t) => match self.tree_at(t.name) {
                Some(elems) => Some(Content::Elements(elems)),
                None => None,
            },
        }
    }

    /// Whether `o` is the accessible view of what `r` names: for a blob the
    /// name that the store gives to its bytes; for a tree the same pointer
    /// and tag, with the metadata that the content has.
    pub open spec fn lifts(self, r: Ref, o: Object) -> bool {
        match (r, o) {
            (Ref::Blob(x), Object::Blob(y)) => match self.blob_content(x) {
                Some(bytes) => self.names_blob(y, bytes),
                None => false,
            },
            (Ref::Tree(x), Object::Tree(y)) => y.name == x.name && y.tag == x.tag
                && self.describes(y),
            _ => false,
        }
    }
}

impl BlobName {
    /// The bytes that the name identifies: those of a literal, or what the
    /// store holds at the pointer; `None` where it holds nothing there.
    pub fn load(&self, store: &Store) -> (r: Option<Vec<u8>>)
        ensures
            match r {
                Some(bytes) => store.blob_content(*self) == Some(bytes@),
                None => store.blob_content(*self).is_none(),
            },
    {
        match self {
            BlobName::Literal((storage, length)) => {
                let kept: usize = if *length <= 30 {
                    *length as usize
                } else {
                    30
                };
                let mut bytes: Vec<u8> = Vec::new();
                let mut i: usize = 0;
                while i < kept
                    invariant
                        i <= kept <= 30,
                        kept as int == if *length <= 30 {
                            *length as int
                        } else {
                            30
                        },
                        *self == BlobName::Literal((*storage, *length)),
                        bytes@ == storage@.take(i as int),
                    decreases kept - i,
                {
                    bytes.push(storage[i]);
                    assert(bytes@ =~= storage@.take(i + 1));
                    i += 1;
                }
                assert(storage@.take(30) =~= storage@);
                assert(bytes@ == BlobName::literal_bytes(*storage, *length));
                Some(bytes)
            },
            BlobName::Name((p, _)) => {
                let held: usize = store.blobs.len();
                if p.high == 0 && p.middle == 0 && p.low < held as u64 {
                    let k: usize = p.low as usize;
                    assert(store.blobs()[k as int] == store.blobs@[k as int]@);
                    Some(vstd::slice::slice_to_vec(store.blobs[k].as_slice()))
                } else {
                    None
                }
            },
        }
    }

    /// The name that the store gives to `blob`, without storing anything:
    /// the literal of at most thirty bytes; the pointer at which longer
    /// bytes are held, or `None` if they are not held.
    pub fn name(store: &Store, blob: &[u8]) -> (r: Option<BlobName>)
        ensures
            match r {
                Some(b) => store.names_blob(b, blob@),
                None => blob@.len() > 30 && !store.holds_blob(blob@),
            },
    {
        if blob.len() <= 30 {
            Some(BlobName::literal(blob))
        } else {
            match store.find_blob(blob) {
                Some(k) => Some(
                    BlobName::Name((Pointer { high: 0, middle: 0, low: k as u64 }, blob.len())),
                ),
                None => None,
            }
        }
    }

    /// Names `blobdata`, storing it unless it is held already or fits in a
    /// literal.
    pub fn create(store: &mut Store, blobdata: Vec<u8>) -> (r: BlobName)
        requires
            old(store).wf(),
        ensures
            final(store).wf(),
            final(store).extends(*old(store)),
            final(store).names_blob(r, blobdata@),
            final(store).trees() == old(store).trees(),
            final(store).blobs() == if blobdata@.len() <= 30 || old(store).holds_blob(blobdata@) {
                old(store).blobs()
            } else {
                old(store).blobs().push(blobdata@)
            },
    {
        match BlobName::name(store, blobdata.as_slice()) {
            Some(b) => b,
            None => {
                let k: usize = store.blobs.len();
                let length: usize = blobdata.len();
                let ghost before = store.blobs();
                store.blobs.push(blobdata);
                proof {
                    let after = store.blobs();
                    assert(after =~= before.push(blobdata@));
                    assert forall|a: int, b: int| 0 <= a < b < after.len() implies #[trigger] after[a]
                        != #[trigger] after[b] by {
                        if b == before.len() {
                            assert(before[a] != blobdata@);
                        } else {
                            assert(before[a] != before[b]);
                        }
                    }
                    assert(store.trees() == old(store).trees());
                }
                BlobName::Name((Pointer { high: 0, middle: 0, low: k as u64 }, length))
            },
        }
    }
}

impl TreeName {
    /// The elements of the tree that the name points at; `None` where the
    /// store holds no tree there.
    pub fn load<'a>(&self, store: &'a Store) -> (r: Option<&'a [Handle]>)
        ensures
            match r {
                Some(elems) => store.tree_at(self.name) == Some(elems@),
                None => store.tree_at(self.name).is_none(),
            },
    {
        let held: usize = store.trees.len();
        if self.name.high == 0 && self.name.middle == 0 && self.name.low < held as u64 {
            let k: usize = self.name.low as usize;
            assert(store.trees()[k as int] == store.trees@[k as int]@);
            Some(store.trees[k].as_slice())
        } else {
            None
        }
    }

    /// The untagged name that the store gives to `tree`, without storing
    /// anything; `None` if the tree is not held.
    pub fn name(store: &Store, tree: &[Handle]) -> (r: Option<TreeName>)
        requires
            store.wf(),
        ensures
            match r {
                Some(t) => store.tree_at(t.name) == Some(tree@) && store.describes(t) && !t.tag,
                None => !store.holds_tree(tree@),
            },
    {
        match store.find_tree(tree) {
            Some(k) => Some(
                TreeName {
                    name: Pointer { high: 0, middle: 0, low: k as u64 },
                    size: tree.len() as u32,
                    footprint: tree_footprint(tree),
                    eq: tree_is_eq(tree),
                    tag: false,
                },
            ),
            None => None,
        }
    }

    /// Names the tree of `treedata` with the tag that the caller gives,
    /// storing it unless it is held already. A tree longer than a size can
    /// say, or one with an accessible tree among its elements that the store
    /// does not hold, is refused and nothing is stored.
    pub fn create(store: &mut Store, treedata: Vec<Handle>, tag: bool) -> (r: Result<
        TreeName,
        Data,
    >)
        requires
            old(store).wf(),
        ensures
            final(store).wf(),
            final(store).extends(*old(store)),
            final(store).blobs() == old(store).blobs(),
            match r {
                Ok(t) => {
                    &&& treedata@.len() <= u32::MAX
                    &&& forall|i: int|
                        0 <= i < treedata@.len() ==> old(store).grounded(#[trigger] treedata@[i])
                    &&& final(store).tree_at(t.name) == Some(treedata@)
                    &&& final(store).describes(t)
                    &&& t.tag == tag
                    &&& final(store).trees() == if old(store).holds_tree(treedata@) {
                        old(store).trees()
                    } else {
                        old(store).trees().push(treedata@)
                    }
                },
                Err(e) => {
                    &&& final(store).trees() == old(store).trees()
                    &&& if treedata@.len() > u32::MAX {
                        e.reports("tree too large".spec_bytes())
                    } else {
                        &&& e.reports("tree element not held".spec_bytes())
                        &&& exists|i: int|
                            0 <= i < treedata@.len() && !old(store).grounded(
                                #[trigger] treedata@[i],
                            )
                    }
                },
            },
    {
        if treedata.len() > 0xffff_ffff {
            return Err(failure("tree too large"));
        }
        if !store.all_grounded(treedata.as_slice()) {
            return Err(failure("tree element not held"));
        }
        match TreeName::name(store, treedata.as_slice()) {
            Some(t) => Ok(
                TreeName { name: t.name, size: t.size, footprint: t.footprint, eq: t.eq, tag },
            ),
            None => {
                let k: usize = store.trees.len();
                let size: u32 = treedata.len() as u32;
                let footprint: u32 = tree_footprint(treedata.as_slice());
                let eq: bool = tree_is_eq(treedata.as_slice());
                let ghost before = store.trees();
                store.trees.push(treedata);
                proof {
                    let after = store.trees();
                    assert(after =~= before.push(treedata@));
                    assert forall|a: int, b: int| 0 <= a < b < after.len() implies #[trigger] after[a]
                        != #[trigger] after[b] by {
                        if b == before.len() {
                            assert(before[a] != treedata@);
                        } else {
                            assert(before[a] != before[b]);
                        }
                    }
                    assert forall|a: int, j: int|
                        0 <= a < after.len() && 0 <= j < after[a].len() implies rank(
                        #[trigger] after[a][j],
                    ) <= a by {
                        if a == before.len() {
                            assert(old(store).grounded(treedata@[j]));
                        } else {
                            assert(rank(before[a][j]) <= a);
                        }
                    }
                    assert forall|a: int| 0 <= a < after.len() implies (#[trigger] after[a]).len()
                        <= u32::MAX by {
                        if a < before.len() {
                            assert(before[a].len() <= u32::MAX);
                        }
                    }
                    assert(store.blobs() == old(store).blobs());
                }
                Ok(
                    TreeName {
                        name: Pointer { high: 0, middle: 0, low: k as u64 },
                        size,
                        footprint,
                        eq,
                        tag,
                    },
                )
            },
        }
    }
}

impl Ref {
    /// Makes the reference accessible: loads what it names and derives the
    /// name from the content again. A tree keeps its tag.
    pub fn lift(&self, store: &Store) -> (r: Object)
        requires
            store.wf(),
            store.knows(*self),
        ensures
            store.lifts(*self, r),
            store.content(r.lowered()) == store.content(*self),
    {
        match self {
            Ref::Blob(x) => {
                match x.load(store) {
                    Some(bytes) => match BlobName::name(store, bytes.as_slice()) {
                        Some(y) => {
                            proof {
                                store.lemma_named_blob(y, bytes@);
                            }
                            Object::Blob(y)
                        },
                        None => {
                            // not reached: the bytes were loaded just now
                            proof {
                                match *x {
                                    BlobName::Name((p, _)) => {
                                        assert(store.blobs()[p.low as int] == bytes@);
                                    },
                                    _ => {},
                                }
                            }
                            Object::Blob(*x)
                        },
                    },
                    None => Object::Blob(*x),
                }
            },
            Ref::Tree(x) => {
                match x.load(store) {
                    Some(elems) => match TreeName::name(store, elems) {
                        Some(t) => Object::Tree(
                            TreeName {
                                name: t.name,
                                size: t.size,
                                footprint: t.footprint,
                                eq: t.eq,
                                tag: x.tag,
                            },
                        ),
                        None => {
                            // not reached: the elements were loaded just now
                            proof {
                                assert(store.trees()[x.name.low as int] == elems@);
                            }
                            Object::Tree(*x)
                        },
                    },
                    None => Object::Tree(*x),
                }
            },
        }
    }
}

impl Data {
    /// The accessible view of the data: an object as it is, a reference
    /// lifted.
    pub fn lift(&self, store: &Store) -> (r: Object)
        requires
            store.wf(),
            self matches Data::Ref(x) ==> store.knows(*x),
        ensures
            match *self {
                Data::Object(x) => r == x,
                Data::Ref(x) => store.lifts(x, r),
            },
            store.content(r.lowered()) == store.content(self.lowered()),
    {
        match self {
            Data::Object(x) => x.relax(),
            Data::Ref(x) => x.lift(store),
        }
    }
}

impl Store {
    /// The name that the store gives to bytes identifies those bytes.
    pub proof fn lemma_named_blob(self, b: BlobName, bytes: Seq<u8>)
        requires
            self.names_blob(b, bytes),
        ensures
            self.blob_content(b) == Some(bytes),
            b.length() == bytes.len(),
    {
        if bytes.len() <= 30 {
            match b {
                BlobName::Literal((storage, length)) => {
                    assert(BlobName::literal_bytes(storage, length) =~= bytes);
                },
                _ => {},
            }
        }
    }
}

impl Store {
    /// Whether a handle is fully evaluated: it is no encode, and if it is an
    /// accessible tree, its name describes a tree that the store holds and
    /// every element of that tree is fully evaluated in turn. References and
    /// thunks are not looked into.
    pub open spec fn evaluated(self, h: Handle) -> bool
        decreases rank(h),
    {
        match h {
            Handle::Encode(_) => false,
            Handle::Data(Data::Object(Object::Tree(t))) => match self.tree_at(t.name) {
                Some(elems) => {
                    &&& self.describes(t)
                    &&& forall|j: int|
                        0 <= j < elems.len() ==> rank(#[trigger] elems[j]) < rank(h)
                            && self.evaluated(elems[j])
                },
                None => false,
            },
            _ => true,
        }
    }

    /// The handle that is reached from `h` by going, index after index,
    /// into the accessible trees on the way; `None` where the way ends
    /// early.
    pub open spec fn reached(self, h: Handle, path: Seq<int>) -> Option<Handle>
        decreases path.len(),
    {
        if path.len() == 0 {
            Some(h)
        } else {
            match h {
                Handle::Data(Data::Object(Object::Tree(t))) => match self.tree_at(t.name) {
                    Some(elems) => if 0 <= path[0] < elems.len() {
                        self.reached(elems[path[0]], path.drop_first())
                    } else {
                        None
                    },
                    None => None,
                },
                _ => None,
            }
        }
    }

    /// Nothing that is reached from a fully evaluated handle through
    /// accessible trees is an encode: all of it is fully evaluated.
    pub proof fn lemma_no_accessible_encode(self, h: Handle, path: Seq<int>)
        requires
            self.evaluated(h),
            self.reached(h, path).is_some(),
        ensures
            !(self.reached(h, path).unwrap() is Encode),
            self.evaluated(self.reached(h, path).unwrap()),
        decreases path.len(),
    {
        if path.len() > 0 {
            match h {
                Handle::Data(Data::Object(Object::Tree(t))) => {
                    let elems = self.tree_at(t.name).unwrap();
                    assert(self.evaluated(elems[path[0]]));
                    self.lemma_no_accessible_encode(elems[path[0]], path.drop_first());
                },
                _ => {},
            }
        }
    }

    /// What is fully evaluated in a store stays so in every store that
    /// extends it.
    pub proof fn lemma_evaluated_stable(self, later: Store, h: Handle)
        requires
            later.extends(self),
            self.evaluated(h),
        ensures
            later.evaluated(h),
        decreases rank(h),
    {
        match h {
            Handle::Data(Data::Object(Object::Tree(t))) => {
                let elems = self.tree_at(t.name).unwrap();
                assert(later.tree_at(t.name) == Some(elems));
                assert forall|j: int| 0 <= j < elems.len() implies rank(#[trigger] elems[j]) < rank(
                    h,
                ) && later.evaluated(elems[j]) by {
                    self.lemma_evaluated_stable(later, elems[j]);
                }
            },
            _ => {},
        }
    }
}

impl TreeName {
    /// Maps a function over the elements of the tree, in order, and names
    /// the tree of the results with the tag of this name; size, footprint
    /// and comparability are those of the results. The first failure of
    /// the function ends the mapping and is returned. Where the function
    /// succeeds on every element, the only failure left is a result that is
    /// an accessible tree which the store does not hold.
    pub fn try_map<F>(&self, store: &mut Store, f: F) -> (r: Result<TreeName, Data>) where
        F: Fn(Handle) -> Result<Handle, Data>,

        requires
            old(store).wf(),
            forall|h: Handle| #[trigger] f.requires((h,)),
        ensures
            final(store).wf(),
            final(store).extends(*old(store)),
            final(store).blobs() == old(store).blobs(),
            match r {
                Ok(t) => {
                    &&& t.tag == self.tag
                    &&& final(store).describes(t)
                    &&& match (old(store).tree_at(self.name), final(store).tree_at(t.name)) {
                        (Some(from), Some(to)) => {
                            &&& to.len() == from.len()
                            &&& forall|i: int|
                                0 <= i < from.len() ==> f.ensures(
                                    (from[i],),
                                    Ok(#[trigger] to[i]),
                                )
                        },
                        _ => false,
                    }
                },
                Err(e) => {
                    &&& final(store).trees() == old(store).trees()
                    &&& match old(store).tree_at(self.name) {
                        Some(from) => exists|done: Seq<Handle>|
                            {
                                &&& #[trigger] done.len() <= from.len()
                                &&& forall|j: int|
                                    0 <= j < done.len() ==> f.ensures(
                                        (from[j],),
                                        Ok(#[trigger] done[j]),
                                    )
                                &&& if done.len() < from.len() {
                                    f.ensures((from[done.len() as int],), Err(e))
                                } else {
                                    e.reports("tree element not held".spec_bytes()) && exists|j: int|
                                        0 <= j < done.len() && !old(store).grounded(
                                            #[trigger] done[j],
                                        )
                                }
                            },
                        None => e.reports("content not held".spec_bytes()),
                    }
                },
            },
    {
        let elems: Vec<Handle> = match self.load(store) {
            Some(loaded) => vstd::slice::slice_to_vec(loaded),
            None => {
                return Err(failure("content not held"));
            },
        };
        let mut out: Vec<Handle> = Vec::new();
        let mut i: usize = 0;
        while i < elems.len()
            invariant
                *store == *old(store),
                store.wf(),
                store.tree_at(self.name) == Some(elems@),
                forall|h: Handle| #[trigger] f.requires((h,)),
                i <= elems@.len(),
                out@.len() == i,
                forall|j: int| 0 <= j < i ==> f.ensures((elems@[j],), Ok(#[trigger] out@[j])),
            decreases elems@.len() - i,
        {
            match f(elems[i]) {
                Ok(mapped) => {
                    out.push(mapped);
                },
                Err(e) => {
                    proof {
                        let from = old(store).tree_at(self.name).unwrap();
                        let done = out@;
                        assert(from == elems@);
                        assert(done.len() <= from.len());
                        assert(f.ensures((from[done.len() as int],), Err::<Handle, Data>(e)));
                    }
                    return Err(e);
                },
            }
            i += 1;
        }
        let ghost mapped = out@;
        match TreeName::create(store, out, self.tag) {
            Ok(t) => Ok(t),
            Err(e) => {
                proof {
                    let from = old(store).tree_at(self.name).unwrap();
                    assert(from == elems@);
                    assert(mapped.len() <= from.len());
                }
                Err(e)
            },
        }
    }
}

/// What the elements of a tree keep resident is never negative and never
/// more than the largest `u32`.
pub proof fn lemma_resident_bounds(elems: Seq<Handle>)
    ensures
        0 <= resident(elems) <= u32::MAX,
    decreases elems.len(),
{
    if elems.len() > 0 {
        lemma_resident_bounds(elems.drop_last());
    }
}

/// The footprint of a tree is at least the pages of its own encoding and
/// never more than the largest `u32`, whatever its elements keep resident.
pub proof fn lemma_cost_floor(elems: Seq<Handle>)
    requires
        elems.len() <= u32::MAX,
    ensures
        pages(elems.len() as int * HANDLE_SIZE as int) <= tree_cost(elems) <= u32::MAX,
{
    lemma_resident_bounds(elems);
}

/// Where no element keeps less resident in `b` than in `a`, the elements of
/// `b` together keep no less resident.
pub proof fn lemma_resident_monotone(a: Seq<Handle>, b: Seq<Handle>)
    requires
        a.len() == b.len(),
        forall|i: int| 0 <= i < a.len() ==> a[i].cost() <= b[i].cost(),
    ensures
        resident(a) <= resident(b),
    decreases a.len(),
{
    if a.len() > 0 {
        lemma_resident_monotone(a.drop_last(), b.drop_last());
    }
}

/// The footprint of a tree does not fall when the footprint of any of its
/// elements rises.
pub proof fn lemma_cost_monotone(a: Seq<Handle>, b: Seq<Handle>)
    requires
        a.len() == b.len(),
        forall|i: int| 0 <= i < a.len() ==> a[i].cost() <= b[i].cost(),
    ensures
        tree_cost(a) <= tree_cost(b),
{
    lemma_resident_monotone(a, b);
}

/// A tree with an element that is not comparable, such as a thunk or an
/// encode, is not comparable; a tree is comparable exactly if each element
/// is.
pub proof fn lemma_comparable_elements(elems: Seq<Handle>, i: int)
    requires
        0 <= i < elems.len(),
    ensures
        all_comparable(elems) ==> elems[i].comparable(),
        !(elems[i] is Data) ==> !all_comparable(elems),
{
}

impl Store {
    /// A tree name that describes what the store holds states a footprint
    /// of at least the pages of the tree's own encoding, and is comparable
    /// exactly if every element of the tree is.
    pub proof fn lemma_described_name(self, t: TreeName)
        requires
            self.wf(),
            self.describes(t),
        ensures
            t.footprint as int >= pages(t.size as int * HANDLE_SIZE as int),
            t.eq <==> all_comparable(self.tree_at(t.name).unwrap()),
    {
        let elems = self.tree_at(t.name).unwrap();
        assert(elems == self.trees()[t.name.low as int]);
        lemma_cost_floor(elems);
    }

    /// Content addressing of blobs: the names that the store gives to two
    /// byte sequences are the same name exactly if the bytes are the same.
    pub proof fn lemma_blob_names_agree(self, a: BlobName, x: Seq<u8>, b: BlobName, y: Seq<u8>)
        requires
            self.wf(),
            self.names_blob(a, x),
            self.names_blob(b, y),
        ensures
            a == b <==> x == y,
    {
        self.lemma_named_blob(a, x);
        self.lemma_named_blob(b, y);
        if x == y {
            match (a, b) {
                (BlobName::Literal((s, _)), BlobName::Literal((t, _))) => {
                    assert(s =~= t);
                },
                (BlobName::Name((p, _)), BlobName::Name((q, _))) => {
                    if p.low != q.low {
                        if p.low < q.low {
                            assert(self.blobs()[p.low as int] != self.blobs()[q.low as int]);
                        } else {
                            assert(self.blobs()[q.low as int] != self.blobs()[p.low as int]);
                        }
                    }
                },
                _ => {},
            }
        }
    }

    /// Content addressing of trees: two names with the same tag that
    /// describe what the store holds are the same name exactly if they
    /// point at trees with the same elements.
    pub proof fn lemma_tree_names_agree(self, t: TreeName, u: TreeName)
        requires
            self.wf(),
            self.describes(t),
            self.describes(u),
            t.tag == u.tag,
        ensures
            t == u <==> self.tree_at(t.name) == self.tree_at(u.name),
    {
        if self.tree_at(t.name) == self.tree_at(u.name) {
            if t.name.low != u.name.low {
                if t.name.low < u.name.low {
                    assert(self.trees()[t.name.low as int] != self.trees()[u.name.low as int]);
                } else {
                    assert(self.trees()[u.name.low as int] != self.trees()[t.name.low as int]);
                }
            }
        }
    }

    /// Lowering an object and lifting the reference gives an object that
    /// names the same content; where the object's name describes what the
    /// store holds, it gives the object back.
    pub proof fn lemma_lower_then_lift(self, o: Object, lifted: Object)
        requires
            self.wf(),
            self.knows(o.lowered()),
            self.lifts(o.lowered(), lifted),
        ensures
            self.content(lifted.lowered()) == self.content(o.lowered()),
            o matches Object::Tree(t) && self.describes(t) ==> lifted == o,
    {
        match (o, lifted) {
            (Object::Blob(x), Object::Blob(y)) => {
                self.lemma_named_blob(y, self.blob_content(x).unwrap());
            },
            _ => {},
        }
    }

    /// Lifting a reference and lowering the object gives a reference to the
    /// same content.
    pub proof fn lemma_lift_then_lower(self, r: Ref, lifted: Object)
        requires
            self.wf(),
            self.knows(r),
            self.lifts(r, lifted),
        ensures
            self.content(lifted.lowered()) == self.content(r),
    {
        match (r, lifted) {
            (Ref::Blob(x), Object::Blob(y)) => {
                self.lemma_named_blob(y, self.blob_content(x).unwrap());
            },
            _ => {},
        }
    }
}

} // verus!
