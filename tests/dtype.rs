use carton_bridge::dtype::{resolve, same_text, Dtype};

#[test]
fn table_resolves_every_tag() {
    let table = [
        ("float32", Dtype::Float32, 4),
        ("float64", Dtype::Float64, 8),
        ("int8", Dtype::Int8, 1),
        ("int16", Dtype::Int16, 2),
        ("int32", Dtype::Int32, 4),
        ("int64", Dtype::Int64, 8),
        ("uint8", Dtype::Uint8, 1),
        ("uint16", Dtype::Uint16, 2),
        ("uint32", Dtype::Uint32, 4),
        ("uint64", Dtype::Uint64, 8),
    ];
    for (tag, dtype, width) in table {
        assert_eq!(resolve(tag), Some(dtype));
        assert_eq!(dtype.tag(), tag);
        assert_eq!(dtype.width(), width);
    }
}

#[test]
fn unknown_tags_do_not_resolve() {
    assert_eq!(resolve("string"), None);
    assert_eq!(resolve("complex256"), None);
    assert_eq!(resolve("Float32"), None);
    assert_eq!(resolve(""), None);
}

#[test]
fn same_text_compares_characters() {
    assert!(same_text("int8", "int8"));
    assert!(!same_text("int8", "int16"));
    assert!(!same_text("uint8", "uint9"));
    assert!(same_text("", ""));
}
