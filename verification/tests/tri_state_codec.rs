use field_codecs::optional_nullable::{read_tri_state, write_tri_state};

#[test]
fn tri_state_read_wraps_presence() {
    // The codec is only invoked when the field key exists: a null value
    // reads as present-with-null, a value as present-with-value. The
    // outer-absent state comes from the framework never calling the codec.
    assert_eq!(read_tri_state::<u32>(None), Some(None));
    assert_eq!(read_tri_state(Some(5u32)), Some(Some(5u32)));
}

#[test]
fn tri_state_write_collapses_absent_and_null() {
    assert_eq!(write_tri_state::<u32>(None), None);
    assert_eq!(write_tri_state::<u32>(Some(None)), None);
    assert_eq!(write_tri_state(Some(Some(7u32))), Some(7u32));
}

#[test]
fn tri_state_round_trip_on_values() {
    let v = Some(Some("payload".to_owned()));
    assert_eq!(read_tri_state(write_tri_state(v.clone())), v);
}
