use crate::artifact::{
    byte_source_of, ArtifactStore, ByteSource, ByteSourceModel, OperationOutput,
};
use crate::error::ApplicationError;
use crate::operation::{DataKind, OpDesc, OpDescModel};
use vstd::prelude::*;
use vstd::string::*;

verus! {

/// The synthetic operation inserted to bridge a `Path` producer and a
/// `Bytes` consumer: it reads the file behind its input into bytes.
pub struct FileToBytes;

/// The synthetic operation inserted to bridge a `Bytes` producer and a
/// `Path` consumer: it materializes its input bytes as a temporary file.
pub struct BytesToTempFile;

/// The descriptor of the `Path` to `Bytes` converter.
pub open spec fn file_to_bytes_model() -> OpDescModel {
    OpDescModel {
        shortname: "ToBytes"@,
        identifier: "ToBytes"@,
        description: "Convert file path to bytes"@,
        input_kinds: seq![DataKind::Path],
        output_kinds: seq![DataKind::Bytes],
        hidden: true,
    }
}

/// The descriptor of the `Bytes` to `Path` converter.
pub open spec fn bytes_to_temp_file_model() -> OpDescModel {
    OpDescModel {
        shortname: "ToTempFile"@,
        identifier: "ToTempFile"@,
        description: "Convert bytes to temporary file"@,
        input_kinds: seq![DataKind::Bytes],
        output_kinds: seq![DataKind::Path],
        hidden: true,
    }
}

impl FileToBytes {
    /// How this converter appears as a graph node.
    pub fn descriptor() -> (r: OpDesc)
        ensures
            r@ == file_to_bytes_model(),
    {
        let r = OpDesc {
            shortname: String::from_str("ToBytes"),
            identifier: String::from_str("ToBytes"),
            description: String::from_str("Convert file path to bytes"),
            input_kinds: vec![DataKind::Path],
            output_kinds: vec![DataKind::Bytes],
            hidden: true,
        };
        proof {
            assert(r@.input_kinds =~= seq![DataKind::Path]);
            assert(r@.output_kinds =~= seq![DataKind::Bytes]);
        }
        r
    }
}

impl BytesToTempFile {
    /// How this converter appears as a graph node.
    pub fn descriptor() -> (r: OpDesc)
        ensures
            r@ == bytes_to_temp_file_model(),
    {
        let r = OpDesc {
            shortname: String::from_str("ToTempFile"),
            identifier: String::from_str("ToTempFile"),
            description: String::from_str("Convert bytes to temporary file"),
            input_kinds: vec![DataKind::Bytes],
            output_kinds: vec![DataKind::Path],
            hidden: true,
        };
        proof {
            assert(r@.input_kinds =~= seq![DataKind::Bytes]);
            assert(r@.output_kinds =~= seq![DataKind::Path]);
        }
        r
    }
}


/// What a converter asks its driver to do beyond the store itself:
/// nothing, read a file's bytes into an artifact cell, read a file's
/// bytes into a cell and then materialize that cell as a temporary file,
/// or write bytes to a named file.
#[derive(Debug)]
pub enum ConvertStep {
    Done,
    ReadInto { path: String, dest: OperationOutput },
    CopyToTemp { path: String, dest: OperationOutput },
    WriteFile { path: String, bytes: Vec<u8> },
}

impl FileToBytes {
    /// Turn the first input into in-memory bytes on the first output.
    ///
    /// When the input already lives in memory the output cell is filled
    /// at once; when it is file-backed, the driver is asked to read that
    /// file and store the bytes with `apply_read`.
    pub fn execute(
        store: &mut ArtifactStore,
        inputs: &Vec<OperationOutput>,
        outputs: &Vec<OperationOutput>,
    ) -> (r: Result<ConvertStep, ApplicationError>)
        requires
            forall|i: int| 0 <= i < inputs@.len() ==> old(store).holds(#[trigger] inputs@[i]),
            forall|i: int| 0 <= i < outputs@.len() ==> old(store).holds(#[trigger] outputs@[i]),
        ensures
            inputs@.len() == 0 ==> (r matches Err(e) && e matches ApplicationError::WrongInputs(
                s,
            ) && s@ == "No input"@ && final(store)@ == old(store)@),
            inputs@.len() > 0 && outputs@.len() == 0 ==> (r matches Err(e) && e matches
                ApplicationError::WrongOutputs(s) && s@ == "Missing output slot 0"@ && final(store)@ == old(store)@),
            inputs@.len() > 0 && outputs@.len() > 0 ==> match byte_source_of(
                old(store).value_of(inputs@[0]),
            ) {
                Some(m) => match m {
                    ByteSourceModel::Ready(b) => r matches Ok(st) && st is Done && final(store)@
                        == old(store)@.update(
                        outputs@[0].id as int,
                        crate::artifact::ArtifactValue::Bytes(b),
                    ),
                    ByteSourceModel::FromFile(p) => r matches Ok(st) && st matches
                        ConvertStep::ReadInto { path, dest } && path@ == p && dest == outputs@[0]
                        && final(store)@ == old(store)@,
                },
                None => r matches Err(e) && e is Other && final(store)@ == old(store)@,
            },
    {
        if inputs.len() == 0 {
            return Err(ApplicationError::WrongInputs(String::from_str("No input")));
        }
        if outputs.len() == 0 {
            return Err(ApplicationError::WrongOutputs(String::from_str("Missing output slot 0")));
        }
        let input = inputs[0];
        let out = outputs[0];
        match store.to_bytes(input)? {
            ByteSource::Ready(b) => {
                store.set_bytes(out, b);
                Ok(ConvertStep::Done)
            },
            ByteSource::FromFile(p) => Ok(ConvertStep::ReadInto { path: p, dest: out }),
        }
    }
}

impl BytesToTempFile {
    /// Materialize the first input's bytes as a file behind the first
    /// output.
    ///
    /// In-memory bytes are stored in the output cell and at once written
    /// to a fresh temporary file that the cell then holds. A file-backed
    /// input is handed to the driver to copy (`apply_copy`); a named-file
    /// output is handed to the driver to write.
    pub fn execute(
        store: &mut ArtifactStore,
        inputs: &Vec<OperationOutput>,
        outputs: &Vec<OperationOutput>,
    ) -> (r: Result<ConvertStep, ApplicationError>)
        requires
            forall|i: int| 0 <= i < inputs@.len() ==> old(store).holds(#[trigger] inputs@[i]),
            forall|i: int| 0 <= i < outputs@.len() ==> old(store).holds(#[trigger] outputs@[i]),
        ensures
            inputs@.len() == 0 ==> (r matches Err(e) && e matches ApplicationError::WrongInputs(
                s,
            ) && s@ == "No input"@ && final(store)@ == old(store)@),
            inputs@.len() > 0 && outputs@.len() == 0 ==> (r matches Err(e) && e matches
                ApplicationError::WrongOutputs(s) && s@ == "Missing output slot 0"@ && final(store)@ == old(store)@),
            inputs@.len() > 0 && outputs@.len() > 0 ==> match byte_source_of(
                old(store).value_of(inputs@[0]),
            ) {
                Some(m) => match m {
                    ByteSourceModel::Ready(b) => match old(store).value_of(outputs@[0]) {
                        crate::artifact::ArtifactValue::File(p) => r matches Ok(st) && st matches
                            ConvertStep::WriteFile { path, bytes } && path@ == p && bytes@ == b
                            && final(store)@ == old(store)@,
                        _ => match r {
                            Ok(st) => st is Done && (exists|q: Seq<char>|
                                final(store)@ == old(store)@.update(
                                    outputs@[0].id as int,
                                    crate::artifact::ArtifactValue::Temp(Some(q)),
                                )),
                            Err(e) => e is Other && final(store)@ == old(store)@.update(
                                outputs@[0].id as int,
                                crate::artifact::ArtifactValue::Bytes(b),
                            ),
                        },
                    },
                    ByteSourceModel::FromFile(p) => r matches Ok(st) && st matches
                        ConvertStep::CopyToTemp { path, dest } && path@ == p && dest == outputs@[0]
                        && final(store)@ == old(store)@,
                },
                None => r matches Err(e) && e is Other && final(store)@ == old(store)@,
            },
    {
        if inputs.len() == 0 {
            return Err(ApplicationError::WrongInputs(String::from_str("No input")));
        }
        if outputs.len() == 0 {
            return Err(ApplicationError::WrongOutputs(String::from_str("Missing output slot 0")));
        }
        let input = inputs[0];
        let out = outputs[0];
        match store.to_bytes(input)? {
            ByteSource::Ready(b) => {
                match store.cell_path(out) {
                    Some(p) => Ok(ConvertStep::WriteFile { path: p, bytes: b }),
                    None => {
                        let ghost pre = store@;
                        store.set_bytes(out, b);
                        match store.to_filename(out) {
                            Ok(p) => {
                                proof {
                                    assert(store@ =~= pre.update(
                                        out.id as int,
                                        crate::artifact::ArtifactValue::Temp(Some(p@)),
                                    ));
                                }
                                Ok(ConvertStep::Done)
                            },
                            Err(e) => Err(e),
                        }
                    },
                }
            },
            ByteSource::FromFile(p) => Ok(ConvertStep::CopyToTemp { path: p, dest: out }),
        }
    }
}

/// Complete a `ReadInto` step: store the bytes the driver read.
pub fn apply_read(store: &mut ArtifactStore, dest: OperationOutput, bytes: Vec<u8>)
    requires
        old(store).holds(dest),
    ensures
        final(store)@ == old(store)@.update(
            dest.id as int,
            crate::artifact::ArtifactValue::Bytes(bytes@),
        ),
{
    store.set_bytes(dest, bytes);
}

/// Complete a `CopyToTemp` step: store the bytes the driver read, then
/// materialize them as a temporary file behind the same cell.
pub fn apply_copy(store: &mut ArtifactStore, dest: OperationOutput, bytes: Vec<u8>) -> (r: Result<
    String,
    ApplicationError,
>)
    requires
        old(store).holds(dest),
    ensures
        match r {
            Ok(p) => final(store)@ == old(store)@.update(
                dest.id as int,
                crate::artifact::ArtifactValue::Temp(Some(p@)),
            ),
            Err(e) => e is Other && final(store)@ == old(store)@.update(
                dest.id as int,
                crate::artifact::ArtifactValue::Bytes(bytes@),
            ),
        },
{
    store.set_bytes(dest, bytes);
    store.to_filename(dest)
}

} // verus!
