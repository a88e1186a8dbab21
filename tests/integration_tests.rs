use felt_codec::args::{encode_args, JsonValue};
use felt_codec::felt::FieldElement;
use felt_codec::types::{MyStruct, U128, U32};

fn reference_bytes32_words(input: u128) -> u128 {
    (input + 31) / 32
}

#[test]
fn ceil_words_arguments_round_trip() {
    let test_cases = vec![
        ("10", 1),
        ("32", 1),
        ("33", 2),
        ("64", 2),
        ("65", 3),
        ("100", 4),
    ];

    for (input, expected) in test_cases {
        let args = JsonValue::Array(vec![JsonValue::BigInt(input.to_string())]);
        let encoded = encode_args(&args).unwrap();
        let n = U128::try_from_felts(&encoded).unwrap().0;
        let returned = vec![FieldElement::from_u128(reference_bytes32_words(n))];
        let result = U32::try_from_felts(&returned).unwrap();
        assert_eq!(expected, result.0);
    }
}

#[test]
fn my_struct_arguments_round_trip() {
    let args = JsonValue::Array(vec![JsonValue::Number(1), JsonValue::Number(2)]);
    let encoded = encode_args(&args).unwrap();
    let result = MyStruct::try_from_felts(&encoded).unwrap();
    let expected = MyStruct {
        field_0: 1,
        field_1: 2,
    };
    assert_eq!(expected, result);
}
