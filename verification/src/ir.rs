use std::collections::hash_map::DefaultHasher;
use std::hash::Hasher;
use vstd::prelude::*;
use vstd::std_specs::hash::DefaultHasherAdditionalSpecFns;
use vstd::string::*;

verus! {

/// A stable identity for one build job, persistent across runs so it can
/// key caches: it is a digest of the job's output names.
#[derive(Clone, Copy, Debug, Hash, PartialEq, Eq, Structural)]
pub struct BuildId(pub u64);

impl BuildId {
    pub fn new(id: u64) -> (r: Self)
        ensures
            r == BuildId(id),
    {
        BuildId(id)
    }

    /// The raw digest value.
    pub fn value(&self) -> (r: u64)
        ensures
            r == self.0,
    {
        self.0
    }
}

/// The eight little-endian bytes of a length. Fed to the hasher ahead
/// of each name's bytes, so that two output lists whose concatenation
/// coincides (such as two names split at a different point) still get
/// distinct digests.
pub open spec fn le_bytes(n: u64) -> Seq<u8> {
    seq![
        (n & 0xff) as u8,
        ((n >> 8) & 0xff) as u8,
        ((n >> 16) & 0xff) as u8,
        ((n >> 24) & 0xff) as u8,
        ((n >> 32) & 0xff) as u8,
        ((n >> 40) & 0xff) as u8,
        ((n >> 48) & 0xff) as u8,
        ((n >> 56) & 0xff) as u8,
    ]
}

/// The hasher chunks for the first `i` output names: for each name, its
/// UTF-8 length and then its UTF-8 bytes.
pub open spec fn id_chunks(outputs: Seq<Seq<char>>, i: int) -> Seq<Seq<u8>>
    decreases i,
{
    if i <= 0 {
        Seq::empty()
    } else {
        id_chunks(outputs, i - 1) + seq![
            le_bytes(vstd::utf8::encode_utf8(outputs[i - 1]).len() as u64),
            vstd::utf8::encode_utf8(outputs[i - 1]),
        ]
    }
}

/// The digest of a list of output names: each name's UTF-8 length and
/// bytes are fed to the standard hasher in order.
pub open spec fn build_id_of(outputs: Seq<Seq<char>>) -> u64 {
    DefaultHasher::spec_finish(id_chunks(outputs, outputs.len() as int))
}

/// The eight little-endian bytes of a length, as a vector.
fn length_bytes(n: u64) -> (r: Vec<u8>)
    ensures
        r@ == le_bytes(n),
{
    proof {
        assert(n & 0xff < 256 && (n >> 8) & 0xff < 256 && (n >> 16) & 0xff < 256 && (n >> 24)
            & 0xff < 256 && (n >> 32) & 0xff < 256 && (n >> 40) & 0xff < 256 && (n >> 48) & 0xff
            < 256 && (n >> 56) & 0xff < 256) by (bit_vector);
    }
    let mut r: Vec<u8> = Vec::new();
    r.push((n & 0xff) as u8);
    r.push(((n >> 8) & 0xff) as u8);
    r.push(((n >> 16) & 0xff) as u8);
    r.push(((n >> 24) & 0xff) as u8);
    r.push(((n >> 32) & 0xff) as u8);
    r.push(((n >> 40) & 0xff) as u8);
    r.push(((n >> 48) & 0xff) as u8);
    r.push(((n >> 56) & 0xff) as u8);
    proof {
        assert(r@ =~= le_bytes(n));
    }
    r
}

/// One unit of work in a flattened build plan: the files it produces, the
/// rule that produces them, and the jobs it depends on.
#[derive(Clone, Debug)]
pub struct Build {
    id: BuildId,
    outputs: Vec<String>,
    rule: Option<Rule>,
    dependencies: Vec<BuildId>,
}

impl Build {
    /// The job's identity, as a ghost value.
    pub closed spec fn spec_id(self) -> BuildId {
        self.id
    }

    /// The job's output names, as a ghost value.
    pub closed spec fn spec_outputs(self) -> Seq<String> {
        self.outputs@
    }

    /// The job's rule, as a ghost value.
    pub closed spec fn spec_rule(self) -> Option<Rule> {
        self.rule
    }

    /// The job's dependencies, as a ghost value.
    pub closed spec fn spec_dependencies(self) -> Seq<BuildId> {
        self.dependencies@
    }

    /// A job for the given outputs; its id is the digest of their names.
    pub fn new(outputs: Vec<String>, rule: Option<Rule>, dependencies: Vec<BuildId>) -> (r: Self)
        ensures
            r.spec_id() == BuildId(build_id_of(outputs@.map(|i: int, s: String| s@))),
            r.spec_outputs() == outputs@,
            r.spec_rule() == rule,
            r.spec_dependencies() == dependencies@,
    {
        let id = Self::calculate_id(&outputs);
        Build { id, outputs, rule, dependencies }
    }

    pub fn id(&self) -> (r: BuildId)
        ensures
            r == self.spec_id(),
    {
        self.id
    }

    pub fn rule(&self) -> (r: &Option<Rule>)
        ensures
            r == self.spec_rule(),
    {
        &self.rule
    }

    pub fn outputs(&self) -> (r: &Vec<String>)
        ensures
            r@ == self.spec_outputs(),
    {
        &self.outputs
    }

    pub fn dependencies(&self) -> (r: &Vec<BuildId>)
        ensures
            r@ == self.spec_dependencies(),
    {
        &self.dependencies
    }

    /// Digest the output names with the standard hasher: per name, its
    /// UTF-8 length and then its UTF-8 bytes.
    #[verifier::loop_isolation(false)]
    fn calculate_id(outputs: &Vec<String>) -> (r: BuildId)
        ensures
            r == BuildId(build_id_of(outputs@.map(|i: int, s: String| s@))),
    {
        let ghost outm = outputs@.map(|i: int, s: String| s@);
        let mut hasher = DefaultHasher::new();
        let mut i: usize = 0;
        while i < outputs.len()
            invariant
                i <= outputs@.len(),
                hasher@ == id_chunks(outm, i as int),
            decreases outputs@.len() - i,
        {
            let bytes = outputs[i].as_str().as_bytes();
            let lb = length_bytes(bytes.len() as u64);
            hasher.write(lb.as_slice());
            hasher.write(bytes);
            proof {
                assert(hasher@ =~= id_chunks(outm, i as int + 1));
            }
            i += 1;
        }
        BuildId(hasher.finish())
    }
}

/// How a job is carried out: a shell command, with an optional
/// human-readable description.
#[derive(Clone, Debug)]
pub struct Rule {
    command: String,
    description: Option<String>,
}

impl Rule {
    /// The rule's command, as a ghost value.
    pub closed spec fn spec_command(self) -> Seq<char> {
        self.command@
    }

    /// The rule's description, as a ghost value.
    pub closed spec fn spec_description(self) -> Option<String> {
        self.description
    }

    pub fn new(command: String, description: Option<String>) -> (r: Self)
        ensures
            r.spec_command() == command@,
            r.spec_description() == description,
    {
        Rule { command, description }
    }

    pub fn command(&self) -> (r: &str)
        ensures
            r@ == self.spec_command(),
    {
        self.command.as_str()
    }

    pub fn description(&self) -> (r: &Option<String>)
        ensures
            r == self.spec_description(),
    {
        &self.description
    }
}

} // verus!
