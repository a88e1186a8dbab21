use felt_codec::args::{encode_args, parse_decimal, ArgError, JsonValue};
use felt_codec::byte_array::encode_byte_array;
use felt_codec::catalog::{
    extract_type_name, extract_types, is_custom_type, CatalogError, GenericArg, TypeDeclaration,
    TypeEntry, TypeInfo,
};
use felt_codec::codegen::generate_types;
use felt_codec::decode::{decode_fields, felt_to_width, DecodeError, IntWidth};
use felt_codec::felt::FieldElement;
use felt_codec::gas::{GasError, GasLimit};
use felt_codec::entry::{select_function, FunctionChoice};
use felt_codec::summary::format_run_result;
use felt_codec::format::{
    format_for_debug, format_next_item, format_short_string, try_format_string, FormattedItem,
};
use felt_codec::list_text::parse_list_text;
use felt_codec::types::{
    encode_fields, from_felt_byte_array, MyStruct, Stack, U128, U16, U32, U64, U8,
};

const MAGIC_HEX: &str = "0x46a6158a16a947e5916b2a2ca68501a45e93d7110e81aa2d6438b1c57c879a3";
const MODULUS_DEC: &str =
    "3618502788666131213697322783095070105623107215331596699973092056135872020481";

fn felts(values: &[u128]) -> Vec<FieldElement> {
    values.iter().map(|v| FieldElement::from_u128(*v)).collect()
}

#[test]
fn field_element_conversions() {
    let f = FieldElement::from_u128(u128::MAX);
    assert_eq!(f.to_u128(), Some(u128::MAX));
    assert_eq!(FieldElement::from_u128(7).to_usize(), Some(7));
    let big = parse_decimal("340282366920938463463374607431768211456").unwrap();
    assert_eq!(big.to_u128(), None);
    assert_eq!(big.to_usize(), None);
    assert!(FieldElement::from_u128(5).same_as(&FieldElement::from_u128(5)));
    assert!(!FieldElement::from_u128(5).same_as(&FieldElement::from_u128(6)));
}

#[test]
fn times_plus_steps() {
    let f = FieldElement::from_u128(12);
    assert_eq!(f.times_ten_plus(3).unwrap().to_u128(), Some(123));
    assert_eq!(f.times_256_plus(1).unwrap().to_u128(), Some(12 * 256 + 1));
}

#[test]
fn decimal_parsing() {
    assert_eq!(parse_decimal("0").unwrap().to_u128(), Some(0));
    assert_eq!(parse_decimal("12345").unwrap().to_u128(), Some(12345));
    assert_eq!(parse_decimal(""), Err(ArgError::InvalidNumber));
    assert_eq!(parse_decimal("12a"), Err(ArgError::InvalidNumber));
    assert_eq!(parse_decimal("-1"), Err(ArgError::InvalidNumber));
    assert_eq!(parse_decimal(MODULUS_DEC), Err(ArgError::FieldElementOutOfRange));
    let below =
        "3618502788666131213697322783095070105623107215331596699973092056135872020480";
    assert!(parse_decimal(below).is_ok());
}

#[test]
fn encode_flattens_depth_first() {
    let v = JsonValue::Array(vec![
        JsonValue::Number(1),
        JsonValue::Tuple(vec![JsonValue::Number(2), JsonValue::BigInt("3".to_string())]),
        JsonValue::Array(vec![JsonValue::Array(vec![JsonValue::Number(4)])]),
    ]);
    let out = encode_args(&v).unwrap();
    let values: Vec<Option<u128>> = out.iter().map(|f| f.to_u128()).collect();
    assert_eq!(values, vec![Some(1), Some(2), Some(3), Some(4)]);
    assert_eq!(encode_args(&JsonValue::Array(vec![])).unwrap().len(), 0);
}

#[test]
fn encode_errors() {
    let v = JsonValue::Array(vec![JsonValue::Number(1), JsonValue::Unsupported]);
    assert_eq!(encode_args(&v).unwrap_err(), ArgError::UnsupportedValue);
    let v = JsonValue::Array(vec![JsonValue::BigInt(MODULUS_DEC.to_string())]);
    assert_eq!(encode_args(&v).unwrap_err(), ArgError::FieldElementOutOfRange);
    let v = JsonValue::BigInt("x".to_string());
    assert_eq!(encode_args(&v).unwrap_err(), ArgError::InvalidNumber);
}

#[test]
fn width_conversion() {
    let f = FieldElement::from_u128(256);
    assert_eq!(felt_to_width(&f, IntWidth::U16), Ok(256));
    assert_eq!(
        felt_to_width(&f, IntWidth::U8),
        Err(DecodeError::OutOfRange { value: f, width: IntWidth::U8 })
    );
    assert_eq!(IntWidth::U32.max_value(), u32::MAX as u128);
}

#[test]
fn struct_round_trip() {
    let values = vec![u128::MAX, 200, u32::MAX as u128, 0];
    let widths = vec![IntWidth::U128, IntWidth::U8, IntWidth::U32, IntWidth::U64];
    let stream = encode_fields(&values);
    assert_eq!(decode_fields(&stream, &widths).unwrap(), values);
}

#[test]
fn slot_count_mismatch() {
    let widths = vec![IntWidth::U128, IntWidth::U32];
    assert_eq!(
        decode_fields(&felts(&[1]), &widths),
        Err(DecodeError::SlotCountMismatch { expected: 2, actual: 1 })
    );
    assert_eq!(decode_fields(&felts(&[1, 2, 99, 98]), &widths).unwrap(), vec![1, 2]);
    assert_eq!(
        MyStruct::try_from_felts(&felts(&[1])),
        Err(DecodeError::SlotCountMismatch { expected: 2, actual: 1 })
    );
}

#[test]
fn pair_scenario() {
    let result = MyStruct::try_from_felts(&felts(&[1, 2])).unwrap();
    assert_eq!(result, MyStruct { field_0: 1, field_1: 2 });
    let too_wide = felts(&[1, 1u128 << 32]);
    assert!(matches!(
        MyStruct::try_from_felts(&too_wide),
        Err(DecodeError::OutOfRange { width: IntWidth::U32, .. })
    ));
}

#[test]
fn single_value_types() {
    assert_eq!(U8::try_from_felts(&felts(&[255])), Ok(U8(255)));
    assert!(U8::try_from_felts(&felts(&[256])).is_err());
    assert_eq!(U16::try_from_felts(&felts(&[65535])), Ok(U16(65535)));
    assert_eq!(U32::try_from_felts(&felts(&[1])), Ok(U32(1)));
    assert_eq!(U64::try_from_felts(&felts(&[u64::MAX as u128])), Ok(U64(u64::MAX)));
    assert_eq!(U128::try_from_felts(&felts(&[u128::MAX])), Ok(U128(u128::MAX)));
    assert_eq!(
        U32::try_from_felts(&felts(&[1, 2])),
        Err(DecodeError::SlotCountMismatch { expected: 1, actual: 2 })
    );
    assert_eq!(
        U32::try_from_felts(&felts(&[])),
        Err(DecodeError::SlotCountMismatch { expected: 1, actual: 0 })
    );
}

fn list_stream(items: &[u128]) -> Vec<FieldElement> {
    encode_byte_array(&format!("{:?}", items).into_bytes())
}

fn text_stream(text: &str) -> Vec<FieldElement> {
    encode_byte_array(&text.as_bytes().to_vec())
}

#[test]
fn stack_push_pop() {
    let items = vec![5u128, u128::MAX, 0];
    let decoded = Stack::try_from_felts(&list_stream(&items)).unwrap();
    assert_eq!(decoded, Stack::from_array(items.clone()));

    let mut pushed = items.clone();
    pushed.push(42);
    let decoded = Stack::try_from_felts(&list_stream(&pushed)).unwrap();
    assert_eq!(decoded, Stack::from_array(vec![5, u128::MAX, 0, 42]));

    let mut popped = items.clone();
    let top = popped.pop().unwrap();
    let decoded = Stack::try_from_felts(&list_stream(&popped)).unwrap();
    assert_eq!(decoded, Stack::from_array(vec![5, u128::MAX]));
    assert_eq!(U128::try_from_felts(&felts(&[top])), Ok(U128(0)));

    assert_eq!(Stack::try_from_felts(&list_stream(&[])).unwrap(), Stack::from_array(vec![]));
}

#[test]
fn list_text_decoding() {
    assert_eq!(from_felt_byte_array(&felts(&[])).unwrap(), Vec::<u128>::new());
    assert_eq!(from_felt_byte_array(&text_stream("[1,2 , +3]")).unwrap(), vec![1, 2, 3]);
    assert_eq!(from_felt_byte_array(&text_stream("[[7]]")).unwrap(), vec![7]);
    assert_eq!(from_felt_byte_array(&text_stream("[1, x]")), Err(DecodeError::InvalidListText));
    assert_eq!(from_felt_byte_array(&text_stream("[1,]")), Err(DecodeError::InvalidListText));
    assert_eq!(from_felt_byte_array(&text_stream("[ ]")), Err(DecodeError::InvalidListText));
    assert_eq!(
        from_felt_byte_array(&text_stream("[340282366920938463463374607431768211456]")),
        Err(DecodeError::InvalidListText)
    );
    assert_eq!(
        from_felt_byte_array(&text_stream("[340282366920938463463374607431768211455]")).unwrap(),
        vec![u128::MAX]
    );
    assert_eq!(from_felt_byte_array(&felts(&[1])), Err(DecodeError::InvalidListText));
}

#[test]
fn list_text_parsing() {
    assert_eq!(parse_list_text("[1, 2, 3]"), Some(vec![1, 2, 3]));
    assert_eq!(parse_list_text("]["), Some(vec![]));
    assert_eq!(parse_list_text(""), Some(vec![]));
    assert_eq!(parse_list_text("\t4\n"), Some(vec![4]));
    assert_eq!(parse_list_text("+"), None);
    assert_eq!(parse_list_text("1 2"), None);
}

#[test]
fn short_string_formatting() {
    assert_eq!(format_short_string(&FieldElement::from_u128(0x41)), "0x41 ('A')");
    assert_eq!(format_short_string(&FieldElement::from_u128(0x6869)), "0x6869 ('hi')");
    assert_eq!(format_short_string(&FieldElement::from_u128(1)), "0x1");
    assert_eq!(format_short_string(&FieldElement::from_u128(255)), "0xff");
}

#[test]
fn debug_numeric_items() {
    let out = format_for_debug(&felts(&[0x41, 1]));
    assert_eq!(out, "0x41 ('A')\n0x1\n");
    assert_eq!(format_for_debug(&felts(&[])), "");
}

fn byte_array_round_trip(s: &str) {
    let stream = encode_byte_array(&s.as_bytes().to_vec());
    assert_eq!(format_for_debug(&stream), s);
}

#[test]
fn byte_array_strings() {
    byte_array_round_trip("hello");
    byte_array_round_trip("");
    byte_array_round_trip("abcdefghijklmnopqrstuvwxyz01234");
    byte_array_round_trip("abcdefghijklmnopqrstuvwxyz0123456789abcdefghijklmnopqrstuvwxyz");
    byte_array_round_trip("The quick brown fox jumps over the lazy dog, twice over.");
}

#[test]
fn byte_array_layout() {
    let stream = encode_byte_array(&"abcdefghijklmnopqrstuvwxyz01234!".as_bytes().to_vec());
    assert_eq!(stream.len(), 5);
    assert_eq!(stream[1].to_u128(), Some(1));
    assert_eq!(stream[3].to_u128(), Some(0x21));
    assert_eq!(stream[4].to_u128(), Some(1));
}

#[test]
fn byte_array_fallback() {
    let mut stream = encode_byte_array(&b"hi".to_vec());
    stream.truncate(3);
    let out = format_for_debug(&stream);
    assert_eq!(out, format!("{MAGIC_HEX}\n0x0 ('')\n0x6869 ('hi')\n"));

    let mut pos = 1usize;
    assert_eq!(try_format_string(&stream, &mut pos), None);
    assert_eq!(pos, 1);

    let mut pos = 0usize;
    let item = format_next_item(&stream, &mut pos).unwrap();
    assert_eq!(pos, 1);
    assert!(!item.is_string());
    assert_eq!(item.get(), MAGIC_HEX);
}

#[test]
fn byte_array_then_number() {
    let mut stream = encode_byte_array(&b"ok".to_vec());
    stream.push(FieldElement::from_u128(1));
    assert_eq!(format_for_debug(&stream), "ok\n0x1\n");
    let mut pos = 0usize;
    let item = format_next_item(&stream, &mut pos).unwrap();
    assert_eq!(pos, 4);
    assert_eq!(item.quote_if_string(), "\"ok\"");
}

#[test]
fn formatted_item_accessors() {
    let s = FormattedItem::new("abc".to_string(), true);
    assert_eq!(s.quote_if_string(), "\"abc\"");
    let n = FormattedItem::new("0x1".to_string(), false);
    assert_eq!(n.quote_if_string(), "0x1");
    assert_eq!(FormattedItem::new("x".to_string(), true).get(), "x");
}

#[test]
fn custom_type_names() {
    assert!(is_custom_type("sample::Pair"));
    assert!(!is_custom_type("core::integer::u128"));
    assert!(!is_custom_type("Tuple<u128, u32>"));
    assert!(!is_custom_type("felt252"));
    assert_eq!(extract_type_name("sample::shapes::Pair"), "Pair");
    assert_eq!(extract_type_name("u128"), "u128");
    assert_eq!(extract_type_name("a:::b"), ":b");
    assert_eq!(extract_type_name("a::"), "");
}

fn decl(id: u64, name: &str, kind: &str, args: Vec<GenericArg>) -> TypeDeclaration {
    TypeDeclaration {
        id: Some(id),
        debug_name: Some(name.to_string()),
        generic_id: Some(kind.to_string()),
        generic_args: args,
    }
}

#[test]
fn catalog_extraction() {
    let decls = vec![
        decl(0, "core::integer::u128", "u128", vec![]),
        decl(
            7,
            "sample::Pair",
            "Struct",
            vec![
                GenericArg::Other,
                GenericArg::Type(Some("core::integer::u128".to_string())),
                GenericArg::Type(Some("core::integer::u32".to_string())),
            ],
        ),
        decl(9, "Tuple<u128>", "Struct", vec![]),
    ];
    let entries = extract_types(&decls).unwrap();
    assert_eq!(entries.len(), 1);
    assert_eq!(entries[0].id, 7);
    assert_eq!(entries[0].info.name, "Pair");
    assert_eq!(entries[0].info.kind, "Struct");
    assert_eq!(entries[0].info.fields, vec!["u128".to_string(), "u32".to_string()]);
}

#[test]
fn catalog_repeated_id() {
    let decls = vec![
        decl(1, "a::First", "Struct", vec![]),
        decl(2, "a::Second", "Enum", vec![]),
        decl(1, "a::Again", "Struct", vec![GenericArg::Type(Some("core::felt252".to_string()))]),
    ];
    let entries = extract_types(&decls).unwrap();
    assert_eq!(entries.len(), 2);
    assert_eq!(entries[0].id, 1);
    assert_eq!(entries[0].info.name, "Again");
    assert_eq!(entries[0].info.fields, vec!["felt252".to_string()]);
    assert_eq!(entries[1].info.name, "Second");
}

#[test]
fn catalog_malformed() {
    let mut missing_name = decl(3, "x", "Struct", vec![]);
    missing_name.debug_name = None;
    let decls = vec![decl(0, "core::felt252", "felt252", vec![]), missing_name];
    assert!(matches!(
        extract_types(&decls),
        Err(CatalogError::MalformedCatalog { index: 1 })
    ));
    let mut missing_id = decl(3, "core::felt252", "felt252", vec![]);
    missing_id.id = None;
    assert!(matches!(
        extract_types(&vec![missing_id]),
        Err(CatalogError::MalformedCatalog { index: 0 })
    ));
    let nameless = decl(4, "a::B", "Struct", vec![GenericArg::Type(None)]);
    assert!(matches!(
        extract_types(&vec![nameless]),
        Err(CatalogError::MalformedCatalog { index: 0 })
    ));
}

fn entry(id: u64, name: &str, kind: &str, fields: &[&str]) -> TypeEntry {
    TypeEntry {
        id,
        info: TypeInfo {
            name: name.to_string(),
            kind: kind.to_string(),
            fields: fields.iter().map(|f| f.to_string()).collect(),
        },
    }
}

#[test]
fn generate_struct() {
    let out = generate_types(&vec![entry(1, "Pair", "Struct", &["u128", "u32"])]);
    let expected = [
        "use starknet_types_core::felt::Felt;\n",
        "#[derive(Debug, PartialEq, Eq)]\n",
        "pub struct Pair {\n",
        "    pub field_0: u128,\n",
        "    pub field_1: u32,\n",
        "}\n\n",
        "impl TryFrom<Vec<Felt>> for Pair {\n",
        "    type Error = String;\n",
        "    fn try_from(vec: Vec<Felt>) -> Result<Self, String> {\n",
        "        if vec.len() < 2 {\n",
        "            return Err(format!(\"Pair: expected 2 values, got {}\", vec.len()));\n",
        "        }\n",
        "        Ok(Self {\n",
        "            field_0: vec[0].try_into().map_err(|_| format!(\"Pair.field_0: value {} does not fit u128\", vec[0]))?,\n",
        "            field_1: vec[1].try_into().map_err(|_| format!(\"Pair.field_1: value {} does not fit u32\", vec[1]))?,\n",
        "        })\n",
        "    }\n",
        "}\n\n",
    ]
    .concat();
    assert_eq!(out, expected);
}

#[test]
fn generate_enum_and_alias() {
    let fields: Vec<String> = (0..12).map(|i| format!("T{i}")).collect();
    let field_refs: Vec<&str> = fields.iter().map(|s| s.as_str()).collect();
    let out = generate_types(&vec![
        entry(2, "Choice", "Enum", &field_refs),
        entry(3, "Box", "Box", &[]),
    ]);
    assert!(out.starts_with("use starknet_types_core::felt::Felt;\n#[derive(Debug)]\npub enum Choice {\n    Variant0(T0),\n"));
    assert!(out.contains("    Variant11(T11),\n}\n\n"));
    assert!(out.ends_with("type Box = Box;\n\n"));
    assert_eq!(generate_types(&vec![]), "use starknet_types_core::felt::Felt;\n");
}

#[test]
fn hex_numerals() {
    assert_eq!(FieldElement::from_u128(0).to_hex(), "0x0");
    assert_eq!(FieldElement::from_u128(0xabc).to_hex(), "0xabc");
    assert_eq!(FieldElement::byte_array_magic().to_hex(), MAGIC_HEX);
}

#[test]
fn gas_limits() {
    assert_eq!(GasLimit::parse(None), GasLimit::Unlimited);
    assert_eq!(GasLimit::parse(Some(0)), GasLimit::Disabled);
    assert_eq!(GasLimit::parse(Some(9)), GasLimit::Limited(9));
    assert_eq!(GasLimit::Limited(9).value(), Some(9));
    assert_eq!(GasLimit::Unlimited.value(), Some(usize::MAX));
    assert_eq!(GasLimit::Disabled.value(), None);
    assert!(GasLimit::Disabled.is_disabled());
    assert!(!GasLimit::Unlimited.is_defined());
    assert!(GasLimit::Limited(1).is_defined());
    assert_eq!(GasLimit::Limited(3).with_gas_enabled(true), Ok(GasLimit::Limited(3)));
    assert_eq!(GasLimit::Unlimited.with_gas_enabled(false), Ok(GasLimit::Disabled));
    assert_eq!(
        GasLimit::Limited(3).with_gas_enabled(false),
        Err(GasError::LimitWithGasDisabled)
    );
}

#[test]
fn run_reports() {
    assert_eq!(
        format_run_result(&felts(&[1, 2]), false),
        "Run completed successfully, returning [1, 2]"
    );
    assert_eq!(format_run_result(&felts(&[]), false), "Run completed successfully, returning []");
    assert_eq!(format_run_result(&felts(&[0x41, 1]), true), "Run panicked with [65 ('A'), 1]");
    assert_eq!(FieldElement::from_u128(1234567).to_decimal(), "1234567");
    assert_eq!(
        parse_decimal(MODULUS_DEC.strip_suffix('1').map(|s| format!("{s}0")).unwrap().as_str())
            .unwrap()
            .to_decimal(),
        "3618502788666131213697322783095070105623107215331596699973092056135872020480"
    );
}

#[test]
fn function_selection() {
    let exes = vec![Some("pkg::other".to_string()), None, Some("pkg::bytes32_words".to_string())];
    assert_eq!(select_function(&exes, Some("bytes32_words")), FunctionChoice::Executable(2));
    assert_eq!(
        select_function(&exes, Some("missing")),
        FunctionChoice::BySuffix("::missing".to_string())
    );
    assert_eq!(
        select_function(&exes, None),
        FunctionChoice::Ambiguous(
            "multiple executable functions found\nplease choose a function to run from the list:\n`pkg::other`, `pkg::bytes32_words`"
                .to_string()
        )
    );
    assert_eq!(
        select_function(&vec![None, None], None),
        FunctionChoice::Ambiguous(
            "multiple executable functions found\nplease only mark a single function as executable or enable debug ids and choose function by name"
                .to_string()
        )
    );
    assert_eq!(select_function(&vec![None], None), FunctionChoice::Executable(0));
    assert_eq!(select_function(&vec![], None), FunctionChoice::BySuffix("::main".to_string()));
}

#[test]
fn byte_array_grammar_failures() {
    let magic = FieldElement::byte_array_magic();
    // a pending length above a word
    let stream = vec![magic, FieldElement::from_u128(0), FieldElement::from_u128(0x41), FieldElement::from_u128(32)];
    let mut pos = 1usize;
    assert_eq!(try_format_string(&stream, &mut pos), None);
    assert_eq!(pos, 1);
    // a pending word longer than its length
    let stream = vec![magic, FieldElement::from_u128(0), FieldElement::from_u128(0x4142), FieldElement::from_u128(1)];
    let mut pos = 0usize;
    let item = format_next_item(&stream, &mut pos).unwrap();
    assert_eq!(pos, 1);
    assert!(!item.is_string());
    // a full word of 32 bytes
    let big = parse_decimal("452312848583266388373324160190187140051835877600158453279131187530910662656").unwrap();
    let stream = vec![magic, FieldElement::from_u128(1), big, FieldElement::from_u128(0), FieldElement::from_u128(0)];
    let mut pos = 1usize;
    assert_eq!(try_format_string(&stream, &mut pos), None);
    assert_eq!(pos, 1);
    // the same layout with valid parts is read whole
    let stream = vec![magic, FieldElement::from_u128(0), FieldElement::from_u128(0x4142), FieldElement::from_u128(2), FieldElement::from_u128(7)];
    let mut pos = 1usize;
    assert_eq!(try_format_string(&stream, &mut pos), Some("AB".to_string()));
    assert_eq!(pos, 4);
}
