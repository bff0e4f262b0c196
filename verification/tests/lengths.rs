use chd_codec::DecompressLength;

#[test]
fn lengths_report_what_they_were_made_of() {
    let len = DecompressLength::new(7, 3);
    assert_eq!(len.total_out(), 7);
    assert_eq!(len.total_in(), 3);
}

#[test]
fn default_lengths_are_zero() {
    let len = DecompressLength::default();
    assert_eq!(len.total_out(), 0);
    assert_eq!(len.total_in(), 0);
}

#[test]
fn lengths_add_field_by_field() {
    let sum = DecompressLength::new(2352, 10) + DecompressLength::new(96, 5);
    assert_eq!(sum, DecompressLength::new(2448, 15));
}

#[test]
fn adding_lengths_is_associative() {
    let a = DecompressLength::new(1, 2);
    let b = DecompressLength::new(30, 40);
    let c = DecompressLength::new(500, 600);
    assert_eq!((a + b) + c, a + (b + c));
    assert_eq!((a + b) + c, DecompressLength::new(531, 642));
}

#[test]
fn adding_default_lengths_changes_nothing() {
    let a = DecompressLength::new(9, 8);
    assert_eq!(a + DecompressLength::default(), a);
    assert_eq!(DecompressLength::default() + a, a);
}
