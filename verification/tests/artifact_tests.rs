use gftools_builder::artifact::{
    ArtifactStore, ByteSource, DomainObject, IoAction, OperationOutput, RawOperationOutput,
};
use gftools_builder::convert::{apply_copy, apply_read, BytesToTempFile, ConvertStep, FileToBytes};
use gftools_builder::error::ApplicationError;

fn bytes_cell(store: &mut ArtifactStore, b: &[u8]) -> OperationOutput {
    store.add_cell(RawOperationOutput::InMemoryBytes(b.to_vec()))
}

#[test]
fn set_contents_then_to_bytes_round_trips_in_memory() {
    let mut store = ArtifactStore::new();
    let a = store.add_cell(RawOperationOutput::InMemoryBytes(vec![]));
    let action = store.set_contents(a, b"payload".to_vec());
    assert!(matches!(action, IoAction::Done));
    match store.to_bytes(a).unwrap() {
        ByteSource::Ready(b) => assert_eq!(b, b"payload".to_vec()),
        _ => panic!("expected the stored bytes back"),
    }
}

#[test]
fn set_contents_on_named_file_requests_the_write() {
    let mut store = ArtifactStore::new();
    let a = store.add_cell(RawOperationOutput::from_str("out/x.ttf"));
    let action = store.set_contents(a, vec![1, 2, 3]);
    match action {
        IoAction::WriteFile { path, bytes } => {
            assert_eq!(path, "out/x.ttf");
            assert_eq!(bytes, vec![1, 2, 3]);
        }
        _ => panic!("a named file keeps its identity and asks for a write"),
    }
    // The read side then points at the very same path.
    match store.to_bytes(a).unwrap() {
        ByteSource::FromFile(p) => assert_eq!(p, "out/x.ttf"),
        _ => panic!("expected a file-backed read"),
    }
}

#[test]
fn to_filename_materializes_bytes_into_a_temp_file() {
    let mut store = ArtifactStore::new();
    let a = bytes_cell(&mut store, b"font data");
    assert!(!store.is_named_file(a));
    let path = store.to_filename(a).unwrap();
    assert!(!path.is_empty());
    // The same cell, seen through any holder of the same reference, is
    // now the materialized temporary file.
    let b = a;
    match store.to_bytes(b).unwrap() {
        ByteSource::FromFile(p) => assert_eq!(p, path),
        _ => panic!("the cell must have become a temporary file"),
    }
    // Materialization is stable: asking again returns the same path.
    assert_eq!(store.to_filename(a).unwrap(), path);
}

#[test]
fn to_filename_on_named_file_returns_its_path() {
    let mut store = ArtifactStore::new();
    let a = store.add_cell(RawOperationOutput::from_str("fonts/My.ttf"));
    assert_eq!(store.to_filename(a).unwrap(), "fonts/My.ttf");
    assert!(store.is_named_file(a));
}

#[test]
fn unmaterialized_temp_file_has_no_bytes() {
    let mut store = ArtifactStore::new();
    let a = store.add_cell(RawOperationOutput::TemporaryFile(None));
    let e = store.to_bytes(a).unwrap_err();
    match e {
        ApplicationError::Other(msg) => assert_eq!(msg, "Temporary file is not set"),
        _ => panic!("expected Other"),
    }
}

#[test]
fn outputs_equal_compares_contents() {
    let mut store = ArtifactStore::new();
    let a = store.add_cell(RawOperationOutput::from_str("same.ttf"));
    let b = store.add_cell(RawOperationOutput::from_str("same.ttf"));
    let c = store.add_cell(RawOperationOutput::from_str("other.ttf"));
    let d = bytes_cell(&mut store, b"xy");
    let e = bytes_cell(&mut store, b"xy");
    let f = bytes_cell(&mut store, b"xz");
    assert!(store.outputs_equal(a, b));
    assert!(!store.outputs_equal(a, c));
    assert!(store.outputs_equal(d, e));
    assert!(!store.outputs_equal(d, f));
    assert!(!store.outputs_equal(a, d));
}

#[test]
fn set_bytes_overwrites_any_cell() {
    let mut store = ArtifactStore::new();
    let a = store.add_cell(RawOperationOutput::from_str("was-a-file"));
    store.set_bytes(a, vec![9, 9]);
    assert!(!store.is_named_file(a));
    match store.to_bytes(a).unwrap() {
        ByteSource::Ready(b) => assert_eq!(b, vec![9, 9]),
        _ => panic!("expected in-memory bytes"),
    }
}

#[test]
fn file_to_bytes_copies_in_memory_input() {
    let mut store = ArtifactStore::new();
    let input = bytes_cell(&mut store, b"abc");
    let output = bytes_cell(&mut store, b"");
    let step = FileToBytes::execute(&mut store, &vec![input], &vec![output]).unwrap();
    assert!(matches!(step, ConvertStep::Done));
    match store.to_bytes(output).unwrap() {
        ByteSource::Ready(b) => assert_eq!(b, b"abc".to_vec()),
        _ => panic!("output should hold the input bytes"),
    }
}

#[test]
fn file_to_bytes_asks_to_read_named_files() {
    let mut store = ArtifactStore::new();
    let input = store.add_cell(RawOperationOutput::from_str("in.txt"));
    let output = bytes_cell(&mut store, b"");
    let step = FileToBytes::execute(&mut store, &vec![input], &vec![output]).unwrap();
    match step {
        ConvertStep::ReadInto { path, dest } => {
            assert_eq!(path, "in.txt");
            assert_eq!(dest, output);
            // The driver performs the read and hands the bytes back.
            apply_read(&mut store, dest, b"from disk".to_vec());
        }
        _ => panic!("a named file input must be read by the driver"),
    }
    match store.to_bytes(output).unwrap() {
        ByteSource::Ready(b) => assert_eq!(b, b"from disk".to_vec()),
        _ => panic!("output should hold the read bytes"),
    }
}

#[test]
fn file_to_bytes_rejects_missing_slots() {
    let mut store = ArtifactStore::new();
    let input = bytes_cell(&mut store, b"abc");
    let e = FileToBytes::execute(&mut store, &vec![], &vec![input]).unwrap_err();
    match e {
        ApplicationError::WrongInputs(m) => assert_eq!(m, "No input"),
        _ => panic!("expected WrongInputs"),
    }
    let e = FileToBytes::execute(&mut store, &vec![input], &vec![]).unwrap_err();
    match e {
        ApplicationError::WrongOutputs(m) => assert_eq!(m, "Missing output slot 0"),
        _ => panic!("expected WrongOutputs"),
    }
}

#[test]
fn bytes_to_temp_file_materializes_the_output() {
    let mut store = ArtifactStore::new();
    let input = bytes_cell(&mut store, b"glyph bytes");
    let output = store.add_cell(RawOperationOutput::TemporaryFile(None));
    let step = BytesToTempFile::execute(&mut store, &vec![input], &vec![output]).unwrap();
    assert!(matches!(step, ConvertStep::Done));
    // The output is now a real temporary file with a path.
    let p = store.to_filename(output).unwrap();
    assert!(!p.is_empty());
    match store.to_bytes(output).unwrap() {
        ByteSource::FromFile(q) => assert_eq!(q, p),
        _ => panic!("output should be file-backed"),
    }
}

#[test]
fn bytes_to_temp_file_with_named_output_requests_the_write() {
    let mut store = ArtifactStore::new();
    let input = bytes_cell(&mut store, b"final font");
    let output = store.add_cell(RawOperationOutput::from_str("Out.ttf"));
    let step = BytesToTempFile::execute(&mut store, &vec![input], &vec![output]).unwrap();
    match step {
        ConvertStep::WriteFile { path, bytes } => {
            assert_eq!(path, "Out.ttf");
            assert_eq!(bytes, b"final font".to_vec());
        }
        _ => panic!("a named output is written by the driver"),
    }
}

#[test]
fn bytes_to_temp_file_with_file_input_requests_the_copy() {
    let mut store = ArtifactStore::new();
    let input = store.add_cell(RawOperationOutput::from_str("in.ufo"));
    let output = store.add_cell(RawOperationOutput::TemporaryFile(None));
    let step = BytesToTempFile::execute(&mut store, &vec![input], &vec![output]).unwrap();
    match step {
        ConvertStep::CopyToTemp { path, dest } => {
            assert_eq!(path, "in.ufo");
            let p = apply_copy(&mut store, dest, b"ufo bytes".to_vec()).unwrap();
            assert!(!p.is_empty());
        }
        _ => panic!("a file-backed input is copied by the driver"),
    }
}

#[test]
fn error_messages_match_the_taxonomy() {
    assert_eq!(ApplicationError::Build.message(), "build failed");
    assert_eq!(ApplicationError::MutexPoisoned.message(), "Mutex was poisoned");
    assert_eq!(
        ApplicationError::InvalidRecipe("no steps".to_string()).message(),
        "Recipe is not valid: no steps"
    );
    assert_eq!(
        ApplicationError::WrongInputs("No input".to_string()).message(),
        "Inputs provided to operation are not correct: No input"
    );
    assert_eq!(
        ApplicationError::WrongOutputs("slot 0".to_string()).message(),
        "Outputs provided to operation are not correct: slot 0"
    );
    assert_eq!(
        ApplicationError::FontReadError("bad table".to_string()).message(),
        "Font read error: bad table"
    );
    assert_eq!(ApplicationError::Other("io".to_string()).message(), "io");
    assert_eq!(
        ApplicationError::DefaultOutputNotFound.message(),
        "default output not found"
    );
}

#[test]
fn font_source_round_trips_the_same_object() {
    let mut store = ArtifactStore::new();
    let a = store.add_cell(RawOperationOutput::InMemoryBytes(vec![]));
    store.set_font_source(a, DomainObject::new("parsed font".to_string()));
    let obj = store.to_font_source(a).unwrap();
    assert_eq!(obj.value_as::<String>().unwrap(), "parsed font");
    // Any holder of the same reference sees the object.
    assert_eq!(
        store.to_font_source(a).unwrap().value_as::<String>().unwrap(),
        "parsed font"
    );
    // An object has no filename and no engine-side byte form.
    assert!(store.to_filename(a).is_err());
    assert!(store.to_bytes(a).is_err());
}

#[test]
fn non_object_cells_have_no_font_source() {
    let mut store = ArtifactStore::new();
    let a = store.add_cell(RawOperationOutput::from_str("x.ttf"));
    match store.to_font_source(a) {
        Err(ApplicationError::Other(m)) => {
            assert_eq!(m, "This artifact does not hold an in-memory object")
        }
        Err(_) => panic!("expected Other"),
        Ok(_) => panic!("a named file holds no object"),
    }
}

#[test]
fn describe_names_files_and_hides_payloads() {
    let mut store = ArtifactStore::new();
    let a = store.add_cell(RawOperationOutput::from_str("out.ttf"));
    let b = store.add_cell(RawOperationOutput::TemporaryFile(None));
    let c = bytes_cell(&mut store, b"x");
    let d = store.add_cell(RawOperationOutput::InMemoryBytes(vec![]));
    store.set_font_source(d, DomainObject::new(1u32));
    assert_eq!(store.describe(a), "out.ttf");
    assert_eq!(store.describe(b), "<temporary file>");
    assert_eq!(store.describe(c), "<in-memory bytes>");
    assert_eq!(store.describe(d), "<in-memory object>");
}
