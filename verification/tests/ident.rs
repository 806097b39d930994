use sham::ident::{id_of, new_id};

#[test]
fn ids_are_crockford_digits() {
    assert_eq!(id_of(0), "00000000000000000000000000");
    assert_eq!(id_of(31), "0000000000000000000000000Z");
    assert_eq!(id_of(32), "00000000000000000000000010");
    assert_eq!(
        id_of(0x41414141414141414141414141414141),
        "21850M2GA1850M2GA1850M2GA1"
    );
    assert_eq!(id_of(u128::MAX), "7ZZZZZZZZZZZZZZZZZZZZZZZZZ");
}

#[test]
fn ids_sort_as_their_numbers() {
    let numbers = [0u128, 1, 31, 32, 1023, 1024, 1 << 80, u128::MAX];
    for pair in numbers.windows(2) {
        assert!(id_of(pair[0]) < id_of(pair[1]));
    }
}

#[test]
fn new_ids_are_well_formed_and_differ() {
    let a = new_id();
    let b = new_id();
    assert_eq!(a.len(), 26);
    assert!(a
        .chars()
        .all(|c| "0123456789ABCDEFGHJKMNPQRSTVWXYZ".contains(c)));
    assert_ne!(a, b);
}
