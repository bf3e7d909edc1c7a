use mlua_stdlib::bytes::BytesBox;
use mlua_stdlib::util::defer;

#[test]
fn bytes_box_keeps_bytes() {
    let b = BytesBox::new(vec![1, 2, 3]);
    assert_eq!(b.as_bytes(), &[1, 2, 3]);
    assert_eq!(b.len(), 3);
    let c: BytesBox = vec![9u8].into();
    assert_eq!(c.as_bytes(), &[9]);
}

#[test]
fn defer_runs_once_on_demand() {
    let mut hits = 0;
    let guard = defer(|| {
        hits += 1;
        hits
    });
    assert_eq!(guard.run(), Some(1));
    assert_eq!(hits, 1);
}
