//! The address space of messages: a step names a scope, a record id names a
//! slot within it.

use vstd::prelude::*;
use vstd::string::StringSliceAdditionalSpecFns;

verus! {

/// The byte that separates the parts of a step.
pub const SEPARATOR: u8 = 47;

/// One level of a step, chosen from the closed set of a protocol.
pub trait Substep {
    /// The bytes this substep adds to a path.
    spec fn label(&self) -> Seq<u8>;

    /// The label, as bytes.
    fn to_bytes(&self) -> (out: Vec<u8>)
        ensures
            out@ == self.label(),
    ;
}

/// The bytes of a label written as text.
pub fn label_bytes(text: &str) -> (out: Vec<u8>)
    ensures
        out@ == text.spec_bytes(),
{
    let bytes: &[u8] = text.as_bytes();
    let mut out: Vec<u8> = Vec::new();
    let mut i: usize = 0;
    while i < bytes.len()
        invariant
            i <= bytes@.len(),
            out@ == bytes@.take(i as int),
        decreases bytes@.len() - i,
    {
        out.push(bytes[i]);
        assert(out@ =~= bytes@.take(i + 1));
        i = i + 1;
    }
    assert(bytes@.take(i as int) =~= bytes@);
    out
}

/// A substep that goes by a name given as text.
#[derive(Debug, Clone, Copy, PartialEq, Eq)]
pub struct Named(pub &'static str);

impl Substep for Named {
    open spec fn label(&self) -> Seq<u8> {
        self.0.spec_bytes()
    }

    fn to_bytes(&self) -> (out: Vec<u8>) {
        label_bytes(self.0)
    }
}

/// The path of a child step: the parent's path, a separator, the label.
pub open spec fn narrowed(path: Seq<u8>, label: Seq<u8>) -> Seq<u8> {
    path + seq![SEPARATOR] + label
}

/// A path of substeps. The root step is empty; narrowing appends `/child`.
#[derive(Debug, Clone, PartialEq, Eq)]
pub struct Step {
    path: Vec<u8>,
}

impl View for Step {
    type V = Seq<u8>;

    closed spec fn view(&self) -> Seq<u8> {
        self.path@
    }
}

impl Step {
    /// The root step.
    pub fn root() -> (s: Step)
        ensures
            s@ == Seq::<u8>::empty(),
    {
        Step { path: Vec::new() }
    }

    /// The step one level below this one.
    pub fn narrow<S: Substep>(&self, substep: &S) -> (child: Step)
        ensures
            child@ == narrowed(self@, substep.label()),
    {
        let label: Vec<u8> = substep.to_bytes();
        let mut path: Vec<u8> = Vec::new();
        let mut i: usize = 0;
        while i < self.path.len()
            invariant
                i <= self.path@.len(),
                path@ == self.path@.take(i as int),
            decreases self.path@.len() - i,
        {
            path.push(self.path[i]);
            assert(path@ =~= self.path@.take(i + 1));
            i = i + 1;
        }
        assert(self.path@.take(i as int) =~= self.path@);
        path.push(SEPARATOR);
        let mut j: usize = 0;
        while j < label.len()
            invariant
                j <= label@.len(),
                path@ == self.path@ + seq![SEPARATOR] + label@.take(j as int),
            decreases label@.len() - j,
        {
            path.push(label[j]);
            assert(path@ =~= self.path@ + seq![SEPARATOR] + label@.take(j + 1));
            j = j + 1;
        }
        assert(label@.take(j as int) =~= label@);
        Step { path }
    }

    /// The path, as bytes.
    pub fn as_bytes(&self) -> (out: &Vec<u8>)
        ensures
            out@ == self@,
    {
        &self.path
    }

    /// Whether two steps are the same path.
    pub fn same(&self, other: &Step) -> (eq: bool)
        ensures
            eq == (self@ == other@),
    {
        if self.path.len() != other.path.len() {
            return false;
        }
        let mut i: usize = 0;
        while i < self.path.len()
            invariant
                i <= self.path@.len(),
                self.path@.len() == other.path@.len(),
                forall|k: int| 0 <= k < i ==> self.path@[k] == other.path@[k],
            decreases self.path@.len() - i,
        {
            if self.path[i] != other.path[i] {
                return false;
            }
            i = i + 1;
        }
        assert(self.path@ =~= other.path@);
        true
    }

    /// A copy of this step.
    pub fn duplicate(&self) -> (s: Step)
        ensures
            s@ == self@,
    {
        let mut path: Vec<u8> = Vec::new();
        let mut i: usize = 0;
        while i < self.path.len()
            invariant
                i <= self.path@.len(),
                path@ == self.path@.take(i as int),
            decreases self.path@.len() - i,
        {
            path.push(self.path[i]);
            assert(path@ =~= self.path@.take(i + 1));
            i = i + 1;
        }
        assert(self.path@.take(i as int) =~= self.path@);
        Step { path }
    }
}

impl Default for Step {
    /// The root step.
    fn default() -> (s: Step)
        ensures
            s@ == Seq::<u8>::empty(),
    {
        Step::root()
    }
}

/// A narrowed path is longer than its parent and starts with it.
pub proof fn lemma_narrowed_extends(path: Seq<u8>, label: Seq<u8>)
    ensures
        narrowed(path, label).len() == path.len() + 1 + label.len(),
        narrowed(path, label).take(path.len() as int) == path,
        narrowed(path, label) != path,
{
    assert(narrowed(path, label).take(path.len() as int) =~= path);
}

/// The position of a record within a step. Counters are handed out in
/// increasing order and never reused within a step.
#[derive(Debug, Clone, Copy, PartialEq, Eq, Structural)]
pub struct RecordId {
    id: u32,
}

impl View for RecordId {
    type V = int;

    closed spec fn view(&self) -> int {
        self.id as int
    }
}

impl RecordId {
    pub fn from(id: u32) -> (r: RecordId)
        ensures
            r@ == id,
    {
        RecordId { id }
    }

    pub fn as_u32(self) -> (id: u32)
        ensures
            id as int == self@,
    {
        self.id
    }
}

/// How many records a channel will carry, where that is known.
#[derive(Debug, Clone, Copy, PartialEq, Eq, Structural)]
pub enum TotalRecords {
    /// Exactly this many.
    Specified(u32),
    /// Not known in advance; channels flush when told to.
    Indeterminate,
}

} // verus!
