//! Names, references, objects, thunks, encodes and handles, with the
//! metadata rules (size, footprint, comparability) that need no store.

use vstd::prelude::*;
use vstd::string::StringSliceAdditionalSpecFns;

verus! {

/// Bytes in one unit of estimated memory footprint (64 KiB).
pub const PAGE_SIZE: usize = 65536;

/// Bytes that one handle occupies (256 bits).
pub const HANDLE_SIZE: usize = 32;

/// An opaque 192-bit content identifier.
#[derive(Clone, Copy, Debug)]
pub struct Pointer {
    pub high: u64,
    pub middle: u64,
    pub low: u64,
}

/// The name of an immutable byte sequence: its bytes inline with their
/// count, or a pointer with the length.
#[derive(Clone, Copy, Debug)]
pub enum BlobName {
    Literal(([u8; 30], u8)),
    Name((Pointer, usize)),
}

/// The name of an immutable sequence of handles, with its metadata.
#[derive(Clone, Copy, Debug)]
pub struct TreeName {
    pub name: Pointer,
    pub size: u32,
    pub footprint: u32,
    pub eq: bool,
    pub tag: bool,
}

/// A name whose content is not known to be materialized.
#[derive(Clone, Copy, Debug)]
pub enum Ref {
    Blob(BlobName),
    Tree(TreeName),
}

/// A name whose content is accessible.
#[derive(Clone, Copy, Debug)]
pub enum Object {
    Blob(BlobName),
    Tree(TreeName),
}

/// A reference or an object.
#[derive(Clone, Copy, Debug)]
pub enum Data {
    Ref(Ref),
    Object(Object),
}

/// A deferred computation.
#[derive(Clone, Copy, Debug)]
pub enum Thunk {
    Identification(Data),
    Selection(TreeName),
    Application(TreeName),
}

/// A request to force a thunk and to adjust the accessibility of the result.
#[derive(Clone, Copy, Debug)]
pub struct Encode {
    pub thunk: Thunk,
    pub accessibility: Option<bool>,
}

/// The element kind of every tree.
#[derive(Clone, Copy, Debug)]
pub enum Handle {
    Data(Data),
    Thunk(Thunk),
    Encode(Encode),
}

/// What evaluation returns: data or a deferred thunk, never an encode.
#[derive(Clone, Copy, Debug)]
pub enum Value {
    Data(Data),
    Thunk(Thunk),
}

/// What one reduction step returns.
#[derive(Clone, Copy, Debug)]
pub enum RuntimeValue {
    Data(Data),
    Thunk(Thunk),
}

/// The number of whole pages that `bytes` bytes occupy, rounded up.
pub open spec fn pages(bytes: int) -> int {
    (bytes + PAGE_SIZE as int - 1) / (PAGE_SIZE as int)
}

/// `a + b`, held at the largest `u32`.
pub open spec fn saturating_sum(a: int, b: int) -> int {
    if a + b > u32::MAX as int {
        u32::MAX as int
    } else {
        a + b
    }
}

/// The page count of `bytes`, held at the largest `u32`.
pub fn page_count(bytes: usize) -> (r: u32)
    ensures
        r as int == saturating_sum(pages(bytes as int), 0),
{
    let whole: usize = bytes / PAGE_SIZE;
    let rest: usize = bytes % PAGE_SIZE;
    let count: usize = if rest == 0 {
        whole
    } else {
        whole + 1
    };
    if count > 0xffff_ffff {
        0xffff_ffffu32
    } else {
        count as u32
    }
}

/// Whether two inline storages hold the same thirty bytes.
pub fn same_storage(a: &[u8; 30], b: &[u8; 30]) -> (r: bool)
    ensures
        r == (*a == *b),
{
    let mut i: usize = 0;
    while i < 30
        invariant
            i <= 30,
            forall|j: int| 0 <= j < i ==> a@[j] == b@[j],
        decreases 30 - i,
    {
        if a[i] != b[i] {
            return false;
        }
        i += 1;
    }
    assert(*a =~= *b);
    true
}

impl Pointer {
    /// The slot that the pointer stands for, if it stands for one.
    pub open spec fn slot(self) -> Option<int> {
        if self.high == 0 && self.middle == 0 {
            Some(self.low as int)
        } else {
            None
        }
    }

    /// Whether two pointers are the same 192 bits.
    pub fn same(&self, other: &Pointer) -> (r: bool)
        ensures
            r == (*self == *other),
    {
        self.high == other.high && self.middle == other.middle && self.low == other.low
    }
}

impl BlobName {
    /// The bytes that a literal holds: the first `length` bytes of its
    /// storage, at most all thirty.
    pub open spec fn literal_bytes(storage: [u8; 30], length: u8) -> Seq<u8> {
        if length <= 30 {
            storage@.take(length as int)
        } else {
            storage@
        }
    }

    /// The length that the name states.
    pub open spec fn length(self) -> int {
        match self {
            BlobName::Literal((_, length)) => length as int,
            BlobName::Name((_, length)) => length as int,
        }
    }

    /// The length of the blob, read off the name.
    pub fn size(&self) -> (r: usize)
        ensures
            r as int == self.length(),
    {
        match self {
            BlobName::Literal((_, length)) => *length as usize,
            BlobName::Name((_, length)) => *length,
        }
    }

    /// The pages that a blob of this length occupies, held at the largest
    /// `u32`.
    pub open spec fn cost(self) -> int {
        saturating_sum(pages(self.length()), 0)
    }

    /// The pages that the blob occupies.
    pub fn footprint(&self) -> (r: u32)
        ensures
            r as int == self.cost(),
    {
        page_count(self.size())
    }

    /// The first thirty bytes of `bytes`, filled up with zeroes to thirty.
    pub open spec fn padded(bytes: Seq<u8>) -> Seq<u8> {
        Seq::new(
            30,
            |i: int|
                if i < bytes.len() {
                    bytes[i]
                } else {
                    0u8
                },
        )
    }

    /// Whether the name is the literal of `bytes`: their first thirty
    /// inline, zeroes behind them, and the count of those kept.
    pub open spec fn is_literal_of(self, bytes: Seq<u8>) -> bool {
        match self {
            BlobName::Literal((storage, length)) => {
                &&& storage@ == BlobName::padded(bytes)
                &&& length as int == if bytes.len() <= 30 {
                    bytes.len() as int
                } else {
                    30
                }
            },
            BlobName::Name(_) => false,
        }
    }

    /// Builds the literal name of the first thirty bytes of `bytes`.
    pub fn literal(bytes: &[u8]) -> (r: BlobName)
        ensures
            r.is_literal_of(bytes@),
    {
        let mut storage: [u8; 30] = [0u8;30];
        let kept: usize = if bytes.len() <= 30 {
            bytes.len()
        } else {
            30
        };
        let mut i: usize = 0;
        while i < kept
            invariant
                i <= kept <= 30,
                kept <= bytes@.len(),
                forall|j: int| 0 <= j < i ==> storage@[j] == bytes@[j],
                forall|j: int| i <= j < 30 ==> storage@[j] == 0u8,
            decreases kept - i,
        {
            storage[i] = bytes[i];
            i += 1;
        }
        assert(storage@ =~= BlobName::padded(bytes@));
        BlobName::Literal((storage, kept as u8))
    }

    /// Whether two names are the same bits.
    pub fn same(&self, other: &BlobName) -> (r: bool)
        ensures
            r == (*self == *other),
    {
        match (self, other) {
            (BlobName::Literal((a, m)), BlobName::Literal((b, n))) => {
                *m == *n && same_storage(a, b)
            },
            (BlobName::Name((p, m)), BlobName::Name((q, n))) => p.same(q) && *m == *n,
            _ => false,
        }
    }
}

impl TreeName {
    /// The number of elements, read off the name.
    pub fn size(&self) -> (r: usize)
        ensures
            r as int == self.size as int,
    {
        self.size as usize
    }

    /// The footprint in pages, read off the name.
    pub fn footprint(&self) -> (r: u32)
        ensures
            r == self.footprint,
    {
        self.footprint
    }

    /// Widens the name to the general element kind. The tree is the same
    /// tree: pointer, size, footprint and both flags are kept.
    pub fn relax(self) -> (r: TreeName)
        ensures
            r == self,
            r.tag == self.tag,
    {
        TreeName {
            name: self.name,
            size: self.size,
            footprint: self.footprint,
            eq: self.eq,
            tag: self.tag,
        }
    }

    /// Whether two names are the same bits.
    pub fn same(&self, other: &TreeName) -> (r: bool)
        ensures
            r == (*self == *other),
    {
        self.name.same(&other.name) && self.size == other.size && self.footprint
            == other.footprint && self.eq == other.eq && self.tag == other.tag
    }

    /// What `==` means on tree names: both carry the same tag, both are
    /// comparable, and they point at the same tree.
    pub open spec fn matches(self, other: TreeName) -> bool {
        self.tag == other.tag && self.eq && other.eq && self.name == other.name
    }
}

impl Ref {
    /// Blobs are always comparable; a tree is if its name says so.
    pub open spec fn comparable(self) -> bool {
        match self {
            Ref::Blob(_) => true,
            Ref::Tree(t) => t.eq,
        }
    }

    /// Whether the name can be compared for equality.
    pub fn is_eq(&self) -> (r: bool)
        ensures
            r == self.comparable(),
    {
        match self {
            Ref::Blob(_) => true,
            Ref::Tree(t) => t.eq,
        }
    }

    /// Whether two references are the same bits.
    pub fn same(&self, other: &Ref) -> (r: bool)
        ensures
            r == (*self == *other),
    {
        match (self, other) {
            (Ref::Blob(a), Ref::Blob(b)) => a.same(b),
            (Ref::Tree(a), Ref::Tree(b)) => a.same(b),
            _ => false,
        }
    }
}

impl Object {
    /// The reference to the same name.
    pub open spec fn lowered(self) -> Ref {
        match self {
            Object::Blob(x) => Ref::Blob(x),
            Object::Tree(x) => Ref::Tree(x),
        }
    }

    /// Drops accessibility: the same name as a reference.
    pub fn lower(&self) -> (r: Ref)
        ensures
            r == self.lowered(),
    {
        match *self {
            Object::Blob(x) => Ref::Blob(x),
            Object::Tree(x) => Ref::Tree(x.relax()),
        }
    }

    /// Whether the name can be compared for equality; the lowered reference decides.
    pub fn is_eq(&self) -> (r: bool)
        ensures
            r == self.lowered().comparable(),
    {
        self.lower().is_eq()
    }

    /// Widens the element kind of a tree object; the name is kept.
    pub fn relax(self) -> (r: Object)
        ensures
            r == self,
    {
        match self {
            Object::Blob(x) => Object::Blob(x),
            Object::Tree(x) => Object::Tree(x.relax()),
        }
    }

    /// Whether two objects are the same bits.
    pub fn same(&self, other: &Object) -> (r: bool)
        ensures
            r == (*self == *other),
    {
        match (self, other) {
            (Object::Blob(a), Object::Blob(b)) => a.same(b),
            (Object::Tree(a), Object::Tree(b)) => a.same(b),
            _ => false,
        }
    }
}

impl Data {
    /// The reference to the name that the data holds.
    pub open spec fn lowered(self) -> Ref {
        match self {
            Data::Object(x) => x.lowered(),
            Data::Ref(x) => x,
        }
    }

    /// Drops accessibility: an object lowered, a reference as it is.
    pub fn lower(&self) -> (r: Ref)
        ensures
            r == self.lowered(),
    {
        match *self {
            Data::Object(x) => x.lower(),
            Data::Ref(x) => x,
        }
    }

    /// Whether the name can be compared for equality.
    pub fn is_eq(&self) -> (r: bool)
        ensures
            r == self.lowered().comparable(),
    {
        match self {
            Data::Object(x) => x.is_eq(),
            Data::Ref(x) => x.is_eq(),
        }
    }

    /// The pages that the data keeps resident: those of an accessible blob
    /// or tree, none for a reference.
    pub open spec fn cost(self) -> int {
        match self {
            Data::Object(Object::Blob(x)) => x.cost(),
            Data::Object(Object::Tree(x)) => x.footprint as int,
            Data::Ref(_) => 0,
        }
    }

    /// The pages that the data keeps resident.
    pub fn footprint(&self) -> (r: u32)
        ensures
            r as int == self.cost(),
    {
        match self {
            Data::Object(Object::Blob(x)) => x.footprint(),
            Data::Object(Object::Tree(x)) => x.footprint(),
            _ => 0,
        }
    }

    /// Whether two data are the same bits.
    pub fn same(&self, other: &Data) -> (r: bool)
        ensures
            r == (*self == *other),
    {
        match (self, other) {
            (Data::Ref(a), Data::Ref(b)) => a.same(b),
            (Data::Object(a), Data::Object(b)) => a.same(b),
            _ => false,
        }
    }

    /// What `==` means on data: the two lowered names are blobs with the
    /// same name, or trees whose names match.
    pub open spec fn matches(self, other: Data) -> bool {
        match (self.lowered(), other.lowered()) {
            (Ref::Blob(x), Ref::Blob(y)) => x == y,
            (Ref::Tree(x), Ref::Tree(y)) => x.matches(y),
            _ => false,
        }
    }
}

impl Thunk {
    /// Whether two thunks are the same bits.
    pub fn same(&self, other: &Thunk) -> (r: bool)
        ensures
            r == (*self == *other),
    {
        match (self, other) {
            (Thunk::Identification(a), Thunk::Identification(b)) => a.same(b),
            (Thunk::Selection(a), Thunk::Selection(b)) => a.same(b),
            (Thunk::Application(a), Thunk::Application(b)) => a.same(b),
            _ => false,
        }
    }
}

impl Encode {
    /// Whether two encodes are the same bits.
    pub fn same(&self, other: &Encode) -> (r: bool)
        ensures
            r == (*self == *other),
    {
        let way: bool = match (self.accessibility, other.accessibility) {
            (None, None) => true,
            (Some(a), Some(b)) => a == b,
            _ => false,
        };
        way && self.thunk.same(&other.thunk)
    }
}

impl Handle {
    /// Only data can be comparable; thunks and encodes never are.
    pub open spec fn comparable(self) -> bool {
        match self {
            Handle::Data(x) => x.lowered().comparable(),
            _ => false,
        }
    }

    /// Whether the handle can be compared for equality.
    pub fn is_eq(&self) -> (r: bool)
        ensures
            r == self.comparable(),
    {
        match self {
            Handle::Data(x) => x.is_eq(),
            _ => false,
        }
    }

    /// The pages that the handle keeps resident.
    pub open spec fn cost(self) -> int {
        match self {
            Handle::Data(x) => x.cost(),
            _ => 0,
        }
    }

    /// The pages that the handle keeps resident.
    pub fn footprint(&self) -> (r: u32)
        ensures
            r as int == self.cost(),
    {
        match self {
            Handle::Data(x) => x.footprint(),
            _ => 0,
        }
    }

    /// A handle is of the general kind already.
    pub fn relax(self) -> (r: Handle)
        ensures
            r == self,
    {
        self
    }

    /// Whether two handles are the same bits.
    pub fn same(&self, other: &Handle) -> (r: bool)
        ensures
            r == (*self == *other),
    {
        match (self, other) {
            (Handle::Data(a), Handle::Data(b)) => a.same(b),
            (Handle::Thunk(a), Handle::Thunk(b)) => a.same(b),
            (Handle::Encode(a), Handle::Encode(b)) => a.same(b),
            _ => false,
        }
    }

    /// Data against data by their names; a thunk or an encode equals nothing.
    pub open spec fn matches(self, other: Handle) -> bool {
        match (self, other) {
            (Handle::Data(x), Handle::Data(y)) => x.matches(y),
            _ => false,
        }
    }
}

impl Value {
    /// The handle that holds what the value holds.
    pub open spec fn widened(self) -> Handle {
        match self {
            Value::Data(x) => Handle::Data(x),
            Value::Thunk(x) => Handle::Thunk(x),
        }
    }

    /// Widens a value to the general kind of handle.
    pub fn relax(self) -> (r: Handle)
        ensures
            r == self.widened(),
    {
        match self {
            Value::Thunk(x) => Handle::Thunk(x),
            Value::Data(Data::Ref(x)) => Handle::Data(Data::Ref(x)),
            Value::Data(Data::Object(Object::Blob(x))) => Handle::Data(
                Data::Object(Object::Blob(x)),
            ),
            Value::Data(Data::Object(Object::Tree(x))) => Handle::Data(
                Data::Object(Object::Tree(x.relax())),
            ),
        }
    }

    /// Whether the value can be compared for equality.
    pub fn is_eq(&self) -> (r: bool)
        ensures
            r == self.widened().comparable(),
    {
        match self {
            Value::Data(x) => x.is_eq(),
            _ => false,
        }
    }

    /// The pages that the value keeps resident.
    pub fn footprint(&self) -> (r: u32)
        ensures
            r as int == self.widened().cost(),
    {
        match self {
            Value::Data(x) => x.footprint(),
            _ => 0,
        }
    }
}

impl Data {
    /// Whether the data is a failure report: a reference to the literal
    /// blob of the first thirty bytes of `message`.
    pub open spec fn reports(self, message: Seq<u8>) -> bool {
        match self {
            Data::Ref(Ref::Blob(b)) => b.is_literal_of(message),
            _ => false,
        }
    }
}

/// Builds a failure from a message: the literal blob of its first thirty
/// bytes, as the error of a result. Longer messages are cut, never refused.
pub fn make_err(str: &str) -> (r: Result<Data, Data>)
    ensures
        r matches Err(d) && d.reports(str.spec_bytes()),
{
    Err(failure(str))
}

/// The failure report of a message: a reference to the literal blob of its
/// first thirty bytes.
pub fn failure(message: &str) -> (d: Data)
    ensures
        d.reports(message.spec_bytes()),
{
    Data::Ref(Ref::Blob(BlobName::literal(message.as_bytes())))
}

/// The literal name of at most thirty bytes identifies exactly those bytes
/// and states their count.
pub proof fn lemma_literal_round_trip(name: BlobName, bytes: Seq<u8>)
    requires
        bytes.len() <= 30,
        name.is_literal_of(bytes),
    ensures
        name matches BlobName::Literal((storage, length)) && BlobName::literal_bytes(
            storage,
            length,
        ) == bytes && length as int == bytes.len(),
        name.length() == bytes.len(),
{
    match name {
        BlobName::Literal((storage, length)) => {
            assert(BlobName::literal_bytes(storage, length) =~= bytes);
        },
        _ => {},
    }
}

} // verus!
