use crate::error::ApplicationError;
use std::io::Write;
use vstd::prelude::*;
use vstd::string::*;

verus! {

/// An owned handle on a file in the system temp location. Dropping the
/// handle deletes the file, so the handle lives inside the artifact cell
/// for as long as any reader may need the path.
#[verifier::external_body]
pub struct TempHandle {
    inner: tempfile::NamedTempFile,
}

/// A materialized temporary file: the handle that keeps it alive and the
/// path it was created under.
pub struct TempFile {
    pub handle: TempHandle,
    pub path: String,
}

/// A rich in-memory value (such as a parsed font source) handed between
/// operations without serialization. The engine never looks inside;
/// operations downcast it to the concrete type they agreed on.
#[verifier::external_body]
pub struct DomainObject {
    inner: std::sync::Arc<dyn std::any::Any + Send + Sync>,
}

impl DomainObject {
    /// Relies on std::sync::Arc::new: wraps the value in a shared handle.
    #[verifier::external_body]
    pub fn new<T: 'static + Send + Sync>(value: T) -> (r: DomainObject) {
        DomainObject { inner: std::sync::Arc::new(value) }
    }

    /// Relies on std::sync::Arc::clone: the copy is a handle to the
    /// very same underlying object, indistinguishable from this one.
    #[verifier::external_body]
    pub fn duplicate(&self) -> (r: DomainObject)
        ensures
            r == *self,
    {
        DomainObject { inner: std::sync::Arc::clone(&self.inner) }
    }

    /// Relies on std::any::Any::downcast_ref: the value back, when `T`
    /// is the type it was created with.
    #[verifier::external_body]
    pub fn value_as<T: 'static>(&self) -> (r: Option<&T>) {
        self.inner.downcast_ref::<T>()
    }
}

/// One artifact cell: the datum flowing along the edges that leave one
/// producing node.
///
/// Named files are externally meaningful paths, durable across runs.
/// Temporary files live in the system temp location and are created lazily,
/// on the first request for a filename. In-memory bytes never touch disk
/// unless a filename is requested, at which point the cell itself is
/// rewritten into a temporary file holding those bytes.
pub enum RawOperationOutput {
    NamedFile(String),
    TemporaryFile(Option<TempFile>),
    InMemoryBytes(Vec<u8>),
    InMemoryObject(DomainObject),
}

/// The ghost image of an artifact cell: the payloads, but no file
/// handles. An object cell carries the opaque object itself, so a
/// contract can say which object a cell holds; two object cells still
/// never compare equal in contents (`art_eq`).
pub enum ArtifactValue {
    File(Seq<char>),
    Temp(Option<Seq<char>>),
    Bytes(Seq<u8>),
    Object(DomainObject),
}

impl View for RawOperationOutput {
    type V = ArtifactValue;

    open spec fn view(&self) -> ArtifactValue {
        match self {
            RawOperationOutput::NamedFile(p) => ArtifactValue::File(p@),
            RawOperationOutput::TemporaryFile(t) => match t {
                Some(f) => ArtifactValue::Temp(Some(f.path@)),
                None => ArtifactValue::Temp(None),
            },
            RawOperationOutput::InMemoryBytes(b) => ArtifactValue::Bytes(b@),
            RawOperationOutput::InMemoryObject(o) => ArtifactValue::Object(*o),
        }
    }
}

impl RawOperationOutput {
    /// A named-file cell for the given path.
    pub fn from_str(s: &str) -> (r: Self)
        ensures
            r@ == ArtifactValue::File(s@),
    {
        RawOperationOutput::NamedFile(s.to_owned())
    }
}

/// Whether two artifact cells hold equal contents: equal paths for named
/// files, equal resolved paths (or both unmaterialized) for temporary
/// files, byte-equal buffers for in-memory bytes. Opaque in-memory
/// objects never compare equal.
pub open spec fn art_eq(a: ArtifactValue, b: ArtifactValue) -> bool {
    match (a, b) {
        (ArtifactValue::File(p), ArtifactValue::File(q)) => p == q,
        (ArtifactValue::Temp(p), ArtifactValue::Temp(q)) => p == q,
        (ArtifactValue::Bytes(p), ArtifactValue::Bytes(q)) => p == q,
        _ => false,
    }
}

/// A shared reference to one artifact cell in an `ArtifactStore`. Edges of
/// the build graph carry these; every holder of an equal reference sees the
/// same cell, including state transitions made by other holders.
#[derive(Clone, Copy, Debug, PartialEq, Eq, Structural)]
pub struct OperationOutput {
    pub id: usize,
}

/// Where the bytes of an artifact are to be had: directly, or by reading
/// the file at a path (the store itself performs no file reads).
#[derive(Debug)]
pub enum ByteSource {
    Ready(Vec<u8>),
    FromFile(String),
}

/// The ghost image of a `ByteSource`.
pub enum ByteSourceModel {
    Ready(Seq<u8>),
    FromFile(Seq<char>),
}

impl View for ByteSource {
    type V = ByteSourceModel;

    open spec fn view(&self) -> ByteSourceModel {
        match self {
            ByteSource::Ready(b) => ByteSourceModel::Ready(b@),
            ByteSource::FromFile(p) => ByteSourceModel::FromFile(p@),
        }
    }
}

/// How `to_filename` resolves a cell: the path is already there, a fresh
/// temporary file is needed, a fresh temporary file filled with bytes is
/// needed, or the cell has no filename at all.
enum Plan {
    Ready(String),
    Materialize,
    MaterializeWith(Vec<u8>),
    NoFilename,
}

/// What remains for the caller to do after storing contents: nothing, or
/// write the bytes to a named file (the store itself writes no named file).
#[derive(Debug)]
pub enum IoAction {
    Done,
    WriteFile { path: String, bytes: Vec<u8> },
}

/// The ghost image of an `IoAction`.
pub enum IoActionModel {
    Done,
    WriteFile(Seq<char>, Seq<u8>),
}

impl View for IoAction {
    type V = IoActionModel;

    open spec fn view(&self) -> IoActionModel {
        match self {
            IoAction::Done => IoActionModel::Done,
            IoAction::WriteFile { path, bytes } => IoActionModel::WriteFile(path@, bytes@),
        }
    }
}

/// Relies on tempfile::NamedTempFile::new: creates a fresh file in the
/// system temp location whose lifetime is tied to the returned handle.
#[verifier::external_body]
fn new_temp_file() -> (r: Result<TempFile, ApplicationError>)
    ensures
        r matches Err(e) ==> e is Other,
{
    match tempfile::NamedTempFile::new() {
        Ok(f) => {
            let path = f.path().to_string_lossy().to_string();
            Ok(TempFile { handle: TempHandle { inner: f }, path })
        },
        Err(e) => Err(ApplicationError::Other(e.to_string())),
    }
}

/// Relies on std::io::Write::write_all through the open handle of a
/// tempfile::NamedTempFile: writes the whole buffer to the temporary file.
#[verifier::external_body]
fn write_temp_file(t: &TempFile, bytes: &[u8]) -> (r: Result<(), ApplicationError>)
    ensures
        r matches Err(e) ==> e is Other,
{
    let mut f = &t.handle.inner;
    match f.write_all(bytes) {
        Ok(()) => Ok(()),
        Err(e) => Err(ApplicationError::Other(e.to_string())),
    }
}

/// The table of artifact cells for one build graph. An `OperationOutput`
/// is an index into this table; sharing the index is sharing the cell.
pub struct ArtifactStore {
    cells: Vec<RawOperationOutput>,
}

impl View for ArtifactStore {
    type V = Seq<ArtifactValue>;

    closed spec fn view(&self) -> Seq<ArtifactValue> {
        self.cells@.map(|i: int, c: RawOperationOutput| c@)
    }
}

impl ArtifactStore {
    pub fn new() -> (r: Self)
        ensures
            r@ == Seq::<ArtifactValue>::empty(),
    {
        ArtifactStore { cells: Vec::new() }
    }

    /// Whether `a` refers to a cell of this store.
    pub open spec fn holds(self, a: OperationOutput) -> bool {
        a.id < self@.len()
    }

    pub fn len(&self) -> (r: usize)
        ensures
            r == self@.len(),
    {
        self.cells.len()
    }

    /// Add a fresh cell and hand back the shared reference to it.
    pub fn add_cell(&mut self, raw: RawOperationOutput) -> (a: OperationOutput)
        ensures
            final(self)@ == old(self)@.push(raw@),
            a.id == old(self)@.len(),
            final(self).holds(a),
    {
        let ghost pre = self@;
        let a = OperationOutput { id: self.cells.len() };
        self.cells.push(raw);
        proof {
            assert(self@ =~= pre.push(raw@));
        }
        a
    }

    /// The current contents of the cell `a` refers to, as a ghost value.
    pub open spec fn value_of(self, a: OperationOutput) -> ArtifactValue {
        self@[a.id as int]
    }

    /// The path of the cell behind `a`, when it holds a named file.
    pub fn cell_path(&self, a: OperationOutput) -> (r: Option<String>)
        requires
            self.holds(a),
        ensures
            match self.value_of(a) {
                ArtifactValue::File(p) => r matches Some(s) && s@ == p,
                _ => r is None,
            },
    {
        match &self.cells[a.id] {
            RawOperationOutput::NamedFile(p) => Some(p.clone()),
            _ => None,
        }
    }

    /// How the cell behind `a` prints in progress lines: the path of a
    /// named file, a fixed placeholder for everything else.
    pub open spec fn spec_describe(v: ArtifactValue) -> Seq<char> {
        match v {
            ArtifactValue::File(p) => p,
            ArtifactValue::Temp(_) => "<temporary file>"@,
            ArtifactValue::Bytes(_) => "<in-memory bytes>"@,
            ArtifactValue::Object(_) => "<in-memory object>"@,
        }
    }

    /// Render the cell behind `a` for human-readable progress lines.
    pub fn describe(&self, a: OperationOutput) -> (r: String)
        requires
            self.holds(a),
        ensures
            r@ == Self::spec_describe(self.value_of(a)),
    {
        match &self.cells[a.id] {
            RawOperationOutput::NamedFile(p) => p.clone(),
            RawOperationOutput::TemporaryFile(_) => String::from_str("<temporary file>"),
            RawOperationOutput::InMemoryBytes(_) => String::from_str("<in-memory bytes>"),
            RawOperationOutput::InMemoryObject(_) => String::from_str("<in-memory object>"),
        }
    }

    /// Whether the cell behind `a` currently holds a named file.
    pub fn is_named_file(&self, a: OperationOutput) -> (r: bool)
        requires
            self.holds(a),
        ensures
            r == (self.value_of(a) is File),
    {
        match &self.cells[a.id] {
            RawOperationOutput::NamedFile(_) => true,
            _ => false,
        }
    }

    /// Whether the cells behind `a` and `b` hold equal contents.
    pub fn outputs_equal(&self, a: OperationOutput, b: OperationOutput) -> (r: bool)
        requires
            self.holds(a),
            self.holds(b),
        ensures
            r == art_eq(self.value_of(a), self.value_of(b)),
    {
        let x = &self.cells[a.id];
        let y = &self.cells[b.id];
        cells_equal(x, y)
    }

    /// Whether the cell behind `a` holds contents equal to the given value.
    pub fn equals_raw(&self, a: OperationOutput, v: &RawOperationOutput) -> (r: bool)
        requires
            self.holds(a),
        ensures
            r == art_eq(self.value_of(a), v@),
    {
        cells_equal(&self.cells[a.id], v)
    }
}

/// The cell contents after `set_contents`: a named file keeps its path
/// (the bytes go to disk), every other cell is rewritten to in-memory
/// bytes.
pub open spec fn after_set_contents(v: ArtifactValue, b: Seq<u8>) -> ArtifactValue {
    match v {
        ArtifactValue::File(p) => ArtifactValue::File(p),
        _ => ArtifactValue::Bytes(b),
    }
}

/// What `set_contents` leaves for the caller to do: write the bytes to
/// the named file, or nothing.
pub open spec fn set_contents_action(v: ArtifactValue, b: Seq<u8>) -> IoActionModel {
    match v {
        ArtifactValue::File(p) => IoActionModel::WriteFile(p, b),
        _ => IoActionModel::Done,
    }
}

/// Where the bytes of a cell are to be had; `None` for an unmaterialized
/// temporary file, which holds no data yet, and for an opaque in-memory
/// object, whose serialization belongs to the operation that made it.
pub open spec fn byte_source_of(v: ArtifactValue) -> Option<ByteSourceModel> {
    match v {
        ArtifactValue::File(p) => Some(ByteSourceModel::FromFile(p)),
        ArtifactValue::Temp(op) => match op {
            Some(p) => Some(ByteSourceModel::FromFile(p)),
            None => None,
        },
        ArtifactValue::Bytes(b) => Some(ByteSourceModel::Ready(b)),
        ArtifactValue::Object(_) => None,
    }
}

impl ArtifactStore {
    /// Resolve the cell behind `a` to a filename on disk.
    ///
    /// A named file returns its path and an already-materialized temporary
    /// file its resolved path, both without touching the store. An
    /// unmaterialized temporary file is created now. In-memory bytes are
    /// written to a fresh temporary file and the cell itself is rewritten
    /// into that temporary file, so every holder of `a` sees the
    /// materialized state from now on.
    pub fn to_filename(&mut self, a: OperationOutput) -> (r: Result<String, ApplicationError>)
        requires
            old(self).holds(a),
        ensures
            final(self)@.len() == old(self)@.len(),
            match r {
                Ok(p) => match old(self).value_of(a) {
                    ArtifactValue::File(q) => p@ == q && final(self)@ == old(self)@,
                    ArtifactValue::Temp(oq) => match oq {
                        Some(q) => p@ == q && final(self)@ == old(self)@,
                        None => final(self)@ == old(self)@.update(
                            a.id as int,
                            ArtifactValue::Temp(Some(p@)),
                        ),
                    },
                    ArtifactValue::Bytes(b) => final(self)@ == old(self)@.update(
                        a.id as int,
                        ArtifactValue::Temp(Some(p@)),
                    ),
                    ArtifactValue::Object(_) => false,
                },
                Err(e) => final(self)@ == old(self)@ && e is Other && match old(self).value_of(
                    a,
                ) {
                    ArtifactValue::File(_) => false,
                    ArtifactValue::Temp(t) => t is None,
                    ArtifactValue::Bytes(_) => true,
                    ArtifactValue::Object(_) => true,
                },
            },
    {
        let ghost pre = self@;
        let plan = match &self.cells[a.id] {
            RawOperationOutput::NamedFile(p) => Plan::Ready(p.clone()),
            RawOperationOutput::TemporaryFile(t) => match t {
                Some(f) => Plan::Ready(f.path.clone()),
                None => Plan::Materialize,
            },
            RawOperationOutput::InMemoryBytes(b) => Plan::MaterializeWith(clone_bytes(b)),
            RawOperationOutput::InMemoryObject(_) => Plan::NoFilename,
        };
        match plan {
            Plan::Ready(p) => Ok(p),
            Plan::Materialize => {
                let t = new_temp_file()?;
                let p = t.path.clone();
                self.cells[a.id] = RawOperationOutput::TemporaryFile(Some(t));
                proof {
                    assert(self@ =~= pre.update(a.id as int, ArtifactValue::Temp(Some(p@))));
                }
                Ok(p)
            },
            Plan::MaterializeWith(bytes) => {
                let t = new_temp_file()?;
                write_temp_file(&t, bytes.as_slice())?;
                let p = t.path.clone();
                self.cells[a.id] = RawOperationOutput::TemporaryFile(Some(t));
                proof {
                    assert(self@ =~= pre.update(a.id as int, ArtifactValue::Temp(Some(p@))));
                }
                Ok(p)
            },
            Plan::NoFilename => Err(
                ApplicationError::Other(
                    String::from_str("An in-memory object has no filename"),
                ),
            ),
        }
    }

    /// Where the bytes of the cell behind `a` are to be had. The store
    /// performs no file read itself: for file-backed cells it hands back
    /// the path to read.
    pub fn to_bytes(&self, a: OperationOutput) -> (r: Result<ByteSource, ApplicationError>)
        requires
            self.holds(a),
        ensures
            match byte_source_of(self.value_of(a)) {
                Some(m) => r matches Ok(s) && s@ == m,
                None => r matches Err(e) && e matches ApplicationError::Other(s) && s@ == (
                if self.value_of(a) is Object {
                    "An in-memory object has no serialized form here"@
                } else {
                    "Temporary file is not set"@
                }),
            },
    {
        match &self.cells[a.id] {
            RawOperationOutput::NamedFile(p) => Ok(ByteSource::FromFile(p.clone())),
            RawOperationOutput::TemporaryFile(t) => match t {
                Some(f) => Ok(ByteSource::FromFile(f.path.clone())),
                None => Err(
                    ApplicationError::Other(String::from_str("Temporary file is not set")),
                ),
            },
            RawOperationOutput::InMemoryBytes(b) => {
                let copy = clone_bytes(b);
                Ok(ByteSource::Ready(copy))
            },
            RawOperationOutput::InMemoryObject(_) => Err(
                ApplicationError::Other(
                    String::from_str("An in-memory object has no serialized form here"),
                ),
            ),
        }
    }

    /// Rewrite the cell behind `a` to hold exactly these in-memory bytes.
    pub fn set_bytes(&mut self, a: OperationOutput, bytes: Vec<u8>)
        requires
            old(self).holds(a),
        ensures
            final(self)@ == old(self)@.update(a.id as int, ArtifactValue::Bytes(bytes@)),
    {
        let ghost pre = self@;
        let ghost b = bytes@;
        self.cells[a.id] = RawOperationOutput::InMemoryBytes(bytes);
        proof {
            assert(self@ =~= pre.update(a.id as int, ArtifactValue::Bytes(b)));
        }
    }

    /// Rewrite the cell behind `a` to hold exactly the given in-memory
    /// object. Every holder of `a` sees the object from now on.
    pub fn set_font_source(&mut self, a: OperationOutput, value: DomainObject)
        requires
            old(self).holds(a),
        ensures
            final(self)@ == old(self)@.update(a.id as int, ArtifactValue::Object(value)),
    {
        let ghost pre = self@;
        let ghost v = value;
        self.cells[a.id] = RawOperationOutput::InMemoryObject(value);
        proof {
            assert(self@ =~= pre.update(a.id as int, ArtifactValue::Object(v)));
        }
    }

    /// The in-memory object behind `a`: a handle to the very object the
    /// cell holds, exactly when it holds one.
    pub fn to_font_source(&self, a: OperationOutput) -> (r: Result<DomainObject, ApplicationError>)
        requires
            self.holds(a),
        ensures
            r is Ok <==> self.value_of(a) is Object,
            r matches Ok(o) ==> self.value_of(a) == ArtifactValue::Object(o),
            r matches Err(e) ==> e is Other,
    {
        match &self.cells[a.id] {
            RawOperationOutput::InMemoryObject(o) => Ok(o.duplicate()),
            _ => Err(
                ApplicationError::Other(
                    String::from_str("This artifact does not hold an in-memory object"),
                ),
            ),
        }
    }

    /// Store produced contents: a named file keeps its identity and the
    /// caller is told to write the bytes to its path; every other cell is
    /// rewritten to hold the bytes in memory.
    pub fn set_contents(&mut self, a: OperationOutput, bytes: Vec<u8>) -> (r: IoAction)
        requires
            old(self).holds(a),
        ensures
            final(self)@ == old(self)@.update(
                a.id as int,
                after_set_contents(old(self).value_of(a), bytes@),
            ),
            r@ == set_contents_action(old(self).value_of(a), bytes@),
    {
        let ghost pre = self@;
        let named = match &self.cells[a.id] {
            RawOperationOutput::NamedFile(p) => Some(p.clone()),
            _ => None,
        };
        match named {
            Some(p) => {
                proof {
                    assert(self@ =~= pre.update(a.id as int, pre[a.id as int]));
                }
                IoAction::WriteFile { path: p, bytes }
            },
            None => {
                self.set_bytes(a, bytes);
                IoAction::Done
            },
        }
    }
}

/// The two artifact laws that relate storing to reading back.
///
/// Storing contents and then asking for the bytes of the same cell gives
/// exactly the stored bytes back when the cell was not a named file; when
/// it was, the caller is told to write the bytes to the very path that a
/// subsequent read is directed at.
pub proof fn lemma_set_contents_round_trip(v: ArtifactValue, b: Seq<u8>)
    ensures
        !(v is File) ==> set_contents_action(v, b) == IoActionModel::Done && byte_source_of(
            after_set_contents(v, b),
        ) == Some(ByteSourceModel::Ready(b)),
        v is File ==> set_contents_action(v, b) == IoActionModel::WriteFile(v->File_0, b)
            && byte_source_of(after_set_contents(v, b)) == Some(
            ByteSourceModel::FromFile(v->File_0),
        ),
{
}

/// Copy a byte buffer.
fn clone_bytes(p: &Vec<u8>) -> (r: Vec<u8>)
    ensures
        r@ == p@,
{
    let mut r: Vec<u8> = Vec::new();
    let mut i: usize = 0;
    while i < p.len()
        invariant
            i <= p.len(),
            r@ == p@.subrange(0, i as int),
        decreases p.len() - i,
    {
        r.push(p[i]);
        proof {
            assert(r@ =~= p@.subrange(0, i + 1 as int));
        }
        i += 1;
    }
    proof {
        assert(r@ =~= p@);
    }
    r
}

/// Compare two artifact cells by contents.
fn cells_equal(x: &RawOperationOutput, y: &RawOperationOutput) -> (r: bool)
    ensures
        r == art_eq(x@, y@),
{
    match (x, y) {
        (RawOperationOutput::NamedFile(p), RawOperationOutput::NamedFile(q)) => p.eq(q),
        (RawOperationOutput::TemporaryFile(p), RawOperationOutput::TemporaryFile(q)) => match (
            p,
            q,
        ) {
            (Some(f), Some(g)) => f.path.eq(&g.path),
            (None, None) => true,
            _ => false,
        },
        (RawOperationOutput::InMemoryBytes(p), RawOperationOutput::InMemoryBytes(q)) => {
            bytes_equal(p, q)
        },
        _ => false,
    }
}

/// Compare two byte buffers element by element.
fn bytes_equal(p: &Vec<u8>, q: &Vec<u8>) -> (r: bool)
    ensures
        r == (p@ == q@),
{
    if p.len() != q.len() {
        proof {
            assert(p@ != q@);
        }
        return false;
    }
    let mut i: usize = 0;
    while i < p.len()
        invariant
            i <= p.len(),
            p@.len() == q@.len(),
            forall|j: int| 0 <= j < i ==> p@[j] == q@[j],
        decreases p.len() - i,
    {
        if p[i] != q[i] {
            return false;
        }
        i += 1;
    }
    proof {
        assert(p@ =~= q@);
    }
    true
}

} // verus!
