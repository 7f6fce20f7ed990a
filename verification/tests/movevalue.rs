use snowhead::movegen::movevalue::{MoveValue, MoveValues};

#[test]
fn insertion_sort() {
    let mut move_values = MoveValues::<5>::new();
    let moves_list = [
        MoveValue::from_i16(5),
        MoveValue::from_i16(31),
        MoveValue::from_i16(-3),
        MoveValue::from_i16(22),
        MoveValue::from_i16(-180),
    ];

    for move_value in moves_list {
        move_values.insert_sort(move_value);
    }

    // the list sorted by descending value
    let expected = [31i16, 22, 5, -3, -180];
    let got: Vec<i16> = move_values.list().iter().map(|mv| mv.value().0).collect();
    assert_eq!(got, expected.to_vec());
}
