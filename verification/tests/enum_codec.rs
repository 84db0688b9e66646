use field_codecs::str_enum::StrEnum;

fn color_table() -> StrEnum {
    StrEnum::new(
        "Color".to_owned(),
        vec!["red".to_owned(), "green".to_owned(), "blue".to_owned()],
    )
    .unwrap()
}

#[test]
fn enum_reads_and_writes_every_declared_pair() {
    let table = color_table();
    for (variant, literal) in [(0usize, "red"), (1, "green"), (2, "blue")] {
        assert_eq!(table.write(variant), literal);
        assert_eq!(table.read(literal).unwrap(), variant);
    }
}

#[test]
fn enum_rejects_unknown_strings() {
    let table = color_table();
    for bad in ["mauve", "", "Red", "red "] {
        let e = table.read(bad).unwrap_err();
        assert_eq!(e.enum_name, "Color");
        assert_eq!(e.value, bad);
    }
}

#[test]
fn enum_refuses_a_table_with_duplicate_literals() {
    let r = StrEnum::new(
        "Broken".to_owned(),
        vec!["x".to_owned(), "y".to_owned(), "x".to_owned()],
    );
    assert!(r.is_none());
}
