use xiaofeng::error::{
    decimal_string, decimal_string_usize, split_into_chunks, ErrorDescriptor, ErrorKind, Location, PError,
    SurfaceErrorKind, SurfaceFailure, PE,
};

fn descriptor(desc: &str, file: &str, line: u32) -> ErrorDescriptor {
    ErrorDescriptor { desc: desc.to_string(), location: Location { file: file.to_string(), line } }
}

#[test]
fn descriptor_as_string_is_the_description() {
    let d = descriptor("no item with id 3", "src/inventory.rs", 17);
    assert_eq!(d.as_string(), "no item with id 3");
}

#[test]
fn descriptor_as_location_is_file_colon_line() {
    let d = descriptor("x", "src/world.rs", 1042);
    assert_eq!(d.as_location(), "src/world.rs:1042");
    let z = descriptor("x", "a.rs", 0);
    assert_eq!(z.as_location(), "a.rs:0");
}

#[test]
fn decimal_numerals() {
    assert_eq!(decimal_string(0), "0");
    assert_eq!(decimal_string(7), "7");
    assert_eq!(decimal_string(4294967295), "4294967295");
    assert_eq!(decimal_string_usize(120), "120");
    assert_eq!(decimal_string_usize(1000000), "1000000");
}

#[test]
fn error_kinds_have_their_labels() {
    let d = descriptor("boom", "f.rs", 9);
    assert_eq!(PE::NotFound(d.clone()).as_string(), "Not Found Error at f.rs:9: boom");
    assert_eq!(PE::Expected(d.clone()).as_string(), "Expected But Not Found Error at f.rs:9: boom");
    assert_eq!(PE::Invalid(d.clone()).as_string(), "Invalid Error at f.rs:9: boom");
    assert_eq!(PE::InputFailed(d.clone()).as_string(), "Input Failed Error at f.rs:9: boom");
    assert_eq!(PE::Error(d.clone()).as_string(), "Error at f.rs:9: boom");
    assert_eq!(PE::UnwrapFailure(d.clone()).as_string(), "Unwrap Failure at f.rs:9: boom");
    assert_eq!(
        PE::MissingExpectedGlobalSprite(d.clone()).as_string(),
        "Missing Expected Global Sprite at f.rs:9: boom"
    );
    assert_eq!(PE::NoSpace(d.clone()).as_string(), "No Space in Inventory Error at f.rs:9: boom");
    assert_eq!(PE::WrongItemType(d).as_string(), "Wrong Item Type Error at f.rs:9: boom");
    let s = PE::SurfaceError(SurfaceFailure { kind: SurfaceErrorKind::Lost, message: "The swap chain has been lost".to_string() });
    assert_eq!(s.as_string(), "Surface Error: The swap chain has been lost");
}

#[test]
fn raised_error_records_its_origin() {
    let e = PError::raised(ErrorKind::NoSpace, "No space for item".to_string(), "Inventory::add_to_slot");
    assert!(e.trace.is_empty());
    match &e.error {
        PE::NoSpace(d) => {
            assert_eq!(d.desc, "No space for item");
            assert_eq!(d.location.file, "Inventory::add_to_slot");
            assert_eq!(d.location.line, 0);
        }
        other => panic!("unexpected error {:?}", other),
    }
}

#[test]
fn caused_error_traces_its_cause() {
    let inner = PError::new(PE::NotFound(descriptor("gone", "a.rs", 3)), vec!["earlier".to_string()]);
    let outer = PError::caused_by(ErrorKind::Error, "while looking".to_string(), "outer", &inner);
    assert!(matches!(outer.error, PE::Error(_)));
    assert_eq!(outer.trace, vec!["Not Found Error at a.rs:3: gone".to_string(), "earlier".to_string()]);
    assert_eq!(inner.as_trace(), outer.trace);
}

#[test]
fn chunks_of_a_string() {
    assert_eq!(split_into_chunks("abcdefg", 3), vec!["abc", "def", "g"]);
    assert_eq!(split_into_chunks("abcdef", 3), vec!["abc", "def"]);
    assert_eq!(split_into_chunks("", 4), Vec::<String>::new());
    assert_eq!(split_into_chunks("héllo", 2), vec!["hé", "ll", "o"]);
}

#[test]
fn chunks_rejoin_to_the_input() {
    let s = "the quick brown fox jumps over the lazy dog";
    for k in 1..12 {
        let parts = split_into_chunks(s, k);
        assert_eq!(parts.concat(), s);
        assert_eq!(parts.len(), (s.chars().count() + k - 1) / k);
    }
}
