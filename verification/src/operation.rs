use vstd::prelude::*;
use vstd::string::*;

verus! {

/// The logical kind of data an operation consumes or produces on a slot.
/// `Any` is a wildcard that matches every kind without conversion.
#[derive(Clone, Copy, Debug, PartialEq, Eq, Structural)]
pub enum DataKind {
    Any,
    /// A filesystem path (named or temporary).
    Path,
    /// Raw in-memory bytes.
    Bytes,
    /// An in-memory source-font object.
    SourceFont,
    /// A binary font.
    BinaryFont,
}

/// What the build graph needs to know about one operation: its names, its
/// declared slot kinds, and whether the orchestrator should announce it.
/// The behaviour behind an operation (running a compiler, fixing a font)
/// stays with the caller; the graph only reads this record.
#[derive(Debug)]
pub struct OpDesc {
    /// A stable human name, also used for conversion-node reuse.
    pub shortname: String,
    /// Stable machine identity including parameters. Two operations with
    /// equal identifiers are interchangeable for graph coalescing.
    pub identifier: String,
    /// A one-line human description for user output.
    pub description: String,
    /// Declared kinds, one per input slot.
    pub input_kinds: Vec<DataKind>,
    /// Declared kinds, one per output slot.
    pub output_kinds: Vec<DataKind>,
    /// Hidden operations are not announced when they run.
    pub hidden: bool,
}

/// The ghost image of an `OpDesc`.
pub struct OpDescModel {
    pub shortname: Seq<char>,
    pub identifier: Seq<char>,
    pub description: Seq<char>,
    pub input_kinds: Seq<DataKind>,
    pub output_kinds: Seq<DataKind>,
    pub hidden: bool,
}

impl View for OpDesc {
    type V = OpDescModel;

    open spec fn view(&self) -> OpDescModel {
        OpDescModel {
            shortname: self.shortname@,
            identifier: self.identifier@,
            description: self.description@,
            input_kinds: self.input_kinds@,
            output_kinds: self.output_kinds@,
            hidden: self.hidden,
        }
    }
}

impl Clone for OpDesc {
    fn clone(&self) -> (r: Self)
        ensures
            r@ == self@,
    {
        OpDesc {
            shortname: self.shortname.clone(),
            identifier: self.identifier.clone(),
            description: self.description.clone(),
            input_kinds: self.input_kinds.clone(),
            output_kinds: self.output_kinds.clone(),
            hidden: self.hidden,
        }
    }
}

/// A node of the build graph: an operation, or one of the two sentinels.
/// Exactly one Source exists per graph; one Sink exists per final target.
#[derive(Debug)]
pub enum BuildNode {
    Source,
    Sink,
    Op(OpDesc),
}

/// The ghost image of a `BuildNode`.
pub enum NodeModel {
    Source,
    Sink,
    Op(OpDescModel),
}

impl View for BuildNode {
    type V = NodeModel;

    open spec fn view(&self) -> NodeModel {
        match self {
            BuildNode::Source => NodeModel::Source,
            BuildNode::Sink => NodeModel::Sink,
            BuildNode::Op(d) => NodeModel::Op(d@),
        }
    }
}

impl NodeModel {
    /// The short name a node reports: sentinels have fixed names.
    pub open spec fn shortname(self) -> Seq<char> {
        match self {
            NodeModel::Source => "Source"@,
            NodeModel::Sink => "Sink"@,
            NodeModel::Op(d) => d.shortname,
        }
    }

    /// Whether this node is an operation whose identifier equals `id`.
    pub open spec fn is_op_with_identifier(self, id: Seq<char>) -> bool {
        match self {
            NodeModel::Op(d) => d.identifier == id,
            _ => false,
        }
    }

    /// The declared output kind of the first slot, if any.
    pub open spec fn first_output_kind(self) -> Option<DataKind> {
        match self {
            NodeModel::Op(d) => if d.output_kinds.len() > 0 {
                Some(d.output_kinds[0])
            } else {
                None
            },
            _ => None,
        }
    }
}

impl BuildNode {
    /// The short name a node reports: sentinels have fixed names.
    pub fn shortname(&self) -> (r: &str)
        ensures
            r@ == self@.shortname(),
    {
        match self {
            BuildNode::Source => "Source",
            BuildNode::Sink => "Sink",
            BuildNode::Op(d) => d.shortname.as_str(),
        }
    }
}

} // verus!
