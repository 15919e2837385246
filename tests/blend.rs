use grixy::blend::{clear, destination, source};

#[test]
fn blend_blend_clear_test() {
    let src = 42;
    let dst: i32 = 24;
    let result = clear(src, dst);
    assert_eq!(result, 0);
}

#[test]
fn blend_blend_source_test() {
    let src = 42;
    let dst: i32 = 24;
    let result = source(src, dst);
    assert_eq!(result, 42);
}

#[test]
fn blend_blend_destination_test() {
    let src = 42;
    let dst: i32 = 24;
    let result = destination(src, dst);
    assert_eq!(result, 24);
}
