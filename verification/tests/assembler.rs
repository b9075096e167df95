use quartz_nbt::{NbtCompound, NbtList, NbtTag};
use schematic_writer::assembler::{make_schematic, split_line, Line, LineParseError, NbtError};
use schematic_writer::blocks::FILL_NAME;
use schematic_writer::clock::{signed_millis, unix_millis};
use schematic_writer::text::{chars_of, find_space, parse_u16, IntErrorKind};

fn parse_all(lines: &[&str]) -> Result<Vec<Line>, LineParseError> {
    let mut parsed = Vec::new();
    for line in lines {
        parsed.push(Line::parse(line)?);
    }
    Ok(parsed)
}

#[test]
fn plain_placement() {
    let line = Line::parse("1 2 3 minecraft:stone").unwrap();
    assert_eq!(line.position, (1, 2, 3));
    assert_eq!(line.block_id, "minecraft:stone");
    assert!(line.nbt.is_none());
}

#[test]
fn placement_with_data() {
    let line =
        Line::parse("65535 0 7 minecraft:chest {Lock: \"a key\", Items: [{Slot: 0b}]}").unwrap();
    assert_eq!(line.position, (65535, 0, 7));
    assert_eq!(line.block_id, "minecraft:chest");
    let data = line.nbt.unwrap();
    assert_eq!(data.len(), 2);
    assert_eq!(data.get::<_, &str>("Lock").unwrap(), "a key");
    let items = data.get::<_, &NbtList>("Items").unwrap();
    assert_eq!(items.len(), 1);
    assert_eq!(
        items.get::<&NbtCompound>(0).unwrap().get::<_, &NbtTag>("Slot").unwrap(),
        &NbtTag::Byte(0)
    );
}

#[test]
fn line_that_ends_early() {
    assert!(matches!(Line::parse("1"), Err(LineParseError::EarlyEnd)));
    assert!(matches!(Line::parse("1 2"), Err(LineParseError::EarlyEnd)));
    assert!(matches!(Line::parse("1 2 3"), Err(LineParseError::EarlyEnd)));
}

#[test]
fn line_with_a_bad_number() {
    assert!(matches!(
        Line::parse(""),
        Err(LineParseError::IntParseError(IntErrorKind::Empty))
    ));
    assert!(matches!(
        Line::parse("1  3 stone"),
        Err(LineParseError::IntParseError(IntErrorKind::Empty))
    ));
    assert!(matches!(
        Line::parse("x 2 3 stone"),
        Err(LineParseError::IntParseError(IntErrorKind::InvalidDigit))
    ));
    assert!(matches!(
        Line::parse("1 -2 3 stone"),
        Err(LineParseError::IntParseError(IntErrorKind::InvalidDigit))
    ));
    assert!(matches!(
        Line::parse("1 2 65536 stone"),
        Err(LineParseError::IntParseError(IntErrorKind::PosOverflow))
    ));
    // The first fault from the left is the one reported.
    assert!(matches!(
        Line::parse("70000 x"),
        Err(LineParseError::IntParseError(IntErrorKind::PosOverflow))
    ));
    assert!(matches!(
        Line::parse("7 x"),
        Err(LineParseError::IntParseError(IntErrorKind::InvalidDigit))
    ));
}

#[test]
fn line_with_bad_data() {
    assert!(matches!(
        Line::parse("1 2 3 stone {"),
        Err(LineParseError::NbtParseError(NbtError::Parser(_)))
    ));
    assert!(matches!(
        Line::parse("1 2 3 stone "),
        Err(LineParseError::NbtParseError(NbtError::Parser(_)))
    ));
    assert!(matches!(
        Line::parse("1 2 3 stone not data"),
        Err(LineParseError::NbtParseError(NbtError::Parser(_)))
    ));
    assert!(matches!(
        Line::parse("1 2 3 stone {a:'\\x'}"),
        Err(LineParseError::NbtParseError(NbtError::Parser(_)))
    ));
}

#[test]
fn line_with_data_kept_from_the_parser() {
    assert!(matches!(
        Line::parse("1 2 3 stone {a:'\\\u{20ac}'}"),
        Err(LineParseError::NbtParseError(NbtError::Refused))
    ));
    assert!(matches!(
        Line::parse("1 2 3 stone {a:'\\\\\\\u{20ac}'}"),
        Err(LineParseError::NbtParseError(NbtError::Refused))
    ));
    let mut deep = String::from("1 2 3 stone {a:");
    for _ in 0..512 {
        deep.push('[');
    }
    for _ in 0..512 {
        deep.push(']');
    }
    deep.push('}');
    assert!(matches!(
        Line::parse(&deep),
        Err(LineParseError::NbtParseError(NbtError::Refused))
    ));
}

#[test]
fn bad_data_with_many_brackets_are_bad_data() {
    let mut line = String::from("1 2 3 a ");
    for _ in 0..513 {
        line.push('[');
    }
    assert!(matches!(
        Line::parse(&line),
        Err(LineParseError::NbtParseError(_))
    ));
    line.pop();
    assert!(matches!(
        Line::parse(&line),
        Err(LineParseError::NbtParseError(NbtError::Parser(_)))
    ));
}

#[test]
fn escaped_backslash_before_a_wide_character_is_read() {
    let line = Line::parse("1 2 3 stone {a:'\\\\\u{20ac}'}").unwrap();
    assert_eq!(
        line.nbt.unwrap().get::<_, &str>("a").unwrap(),
        "\\\u{20ac}"
    );
    let line = Line::parse("1 2 3 stone {a:'\\\\\\\\\u{10348}\\n'}").unwrap();
    assert_eq!(
        line.nbt.unwrap().get::<_, &str>("a").unwrap(),
        "\\\\\u{10348}\n"
    );
}

#[test]
fn line_with_data_at_the_limits() {
    // A two-byte character behind a backslash is handed on, and refused there.
    assert!(matches!(
        Line::parse("1 2 3 stone {a:'\\\u{e9}'}"),
        Err(LineParseError::NbtParseError(_))
    ));
    // A wide character that no backslash stands before is read.
    let line = Line::parse("1 2 3 stone {a:'\u{20ac}'}").unwrap();
    assert_eq!(line.nbt.unwrap().get::<_, &str>("a").unwrap(), "\u{20ac}");
    // 512 opening brackets are within the limit.
    let mut deep = String::from("1 2 3 stone {a:");
    for _ in 0..511 {
        deep.push('[');
    }
    for _ in 0..511 {
        deep.push(']');
    }
    deep.push('}');
    let line = Line::parse(&deep).unwrap();
    let mut list = line.nbt.as_ref().unwrap().get::<_, &NbtList>("a").unwrap();
    let mut levels = 1;
    while !list.is_empty() {
        list = list.get::<&NbtList>(0).unwrap();
        levels += 1;
    }
    assert_eq!(levels, 511);
    let mut deep = String::from("1 2 3 stone ");
    for _ in 0..512 {
        deep.push_str("{a:");
    }
    deep.push_str("1b");
    for _ in 0..512 {
        deep.push('}');
    }
    let line = Line::parse(&deep).unwrap();
    let mut compound = line.nbt.as_ref().unwrap();
    let mut levels = 1;
    while let Ok(inner) = compound.get::<_, &NbtCompound>("a") {
        compound = inner;
        levels += 1;
    }
    assert_eq!(levels, 512);
    assert_eq!(compound.get::<_, &NbtTag>("a").unwrap(), &NbtTag::Byte(1));
}

#[test]
fn fifth_field_keeps_its_spaces() {
    let line = Line::parse("0 0 0 sign {Text: 'a b  c'}").unwrap();
    assert_eq!(
        line.nbt.unwrap().get::<_, &str>("Text").unwrap(),
        "a b  c"
    );
}

#[test]
fn numbers_take_a_plus_sign_and_leading_zeros() {
    let line = Line::parse("+1 007 000000000000000000065535 stone").unwrap();
    assert_eq!(line.position, (1, 7, 65535));
    let chars = chars_of("+ ++1 1+ 12a");
    assert_eq!(find_space(&chars, 0), 1);
    assert_eq!(find_space(&chars, 2), 5);
    assert_eq!(find_space(&chars, 9), 12);
    assert_eq!(find_space(&chars, 12), 12);
    assert_eq!(parse_u16(&chars, 0, 1), Err(IntErrorKind::InvalidDigit));
    assert_eq!(parse_u16(&chars, 2, 5), Err(IntErrorKind::InvalidDigit));
    assert_eq!(parse_u16(&chars, 3, 5), Ok(1));
    assert_eq!(parse_u16(&chars, 6, 8), Err(IntErrorKind::InvalidDigit));
    assert_eq!(parse_u16(&chars, 9, 11), Ok(12));
    assert_eq!(parse_u16(&chars, 9, 12), Err(IntErrorKind::InvalidDigit));
    assert_eq!(parse_u16(&chars, 5, 5), Err(IntErrorKind::Empty));
}

#[test]
fn characters_are_read_one_by_one() {
    assert_eq!(chars_of(""), Vec::<char>::new());
    assert_eq!(chars_of("a\u{e9}\u{20ac} b"), vec!['a', '\u{e9}', '\u{20ac}', ' ', 'b']);
}

#[test]
fn one_bad_line_rejects_all() {
    let good = ["0 0 0 stone", "1 0 0 dirt", "2 0 0 chest {Lock: key}"];
    assert_eq!(parse_all(&good).unwrap().len(), 3);
    let truncated = ["0 0 0 stone", "1 0 0", "2 0 0 chest"];
    assert!(matches!(parse_all(&truncated), Err(LineParseError::EarlyEnd)));
    let unparsable = ["0 0 0 stone", "1 0 0 dirt", "2 zero 0 chest"];
    assert!(matches!(
        parse_all(&unparsable),
        Err(LineParseError::IntParseError(IntErrorKind::InvalidDigit))
    ));
    let bad_data = ["0 0 0 stone {Lock: key", "1 0 0 dirt"];
    assert!(matches!(
        parse_all(&bad_data),
        Err(LineParseError::NbtParseError(_))
    ));
}

#[test]
fn schematic_from_lines() {
    let lines = parse_all(&[
        "0 0 0 minecraft:stone",
        "0 0 1 minecraft:stone",
        "1 0 0 minecraft:stone",
        "1 0 1 minecraft:chest {Lock: key}",
    ])
    .unwrap();
    let schematic = make_schematic(lines).unwrap();
    let nbt = schematic.to_nbt_at(42);
    assert_eq!(nbt.len(), 7);
    assert_eq!(nbt.get::<_, &NbtTag>("Width").unwrap(), &NbtTag::Short(2));
    assert_eq!(nbt.get::<_, &NbtTag>("Height").unwrap(), &NbtTag::Short(1));
    assert_eq!(nbt.get::<_, &NbtTag>("Length").unwrap(), &NbtTag::Short(2));
    let meta = nbt.get::<_, &NbtCompound>("Metadata").unwrap();
    assert_eq!(meta.get::<_, &str>("Name").unwrap(), "Schematic");
    assert_eq!(meta.get::<_, &str>("Author").unwrap(), "schematic_assembler");
    assert_eq!(meta.get::<_, i64>("Date").unwrap(), 42);
    assert_eq!(meta.get::<_, &NbtList>("RequiredMods").unwrap().len(), 0);
    let blocks = nbt.get::<_, &NbtCompound>("Blocks").unwrap();
    let palette = blocks.get::<_, &NbtCompound>("Palette").unwrap();
    assert_eq!(palette.len(), 3);
    assert_eq!(palette.get::<_, i32>("minecraft:stone").unwrap(), 0);
    assert_eq!(palette.get::<_, i32>("minecraft:chest").unwrap(), 1);
    assert_eq!(palette.get::<_, i32>(FILL_NAME).unwrap(), 2);
    assert_eq!(blocks.get::<_, &[i8]>("Data").unwrap(), &[0, 0, 0, 1]);
    let entities = blocks.get::<_, &NbtList>("BlockEntities").unwrap();
    assert_eq!(entities.len(), 1);
    let entity = entities.get::<&NbtCompound>(0).unwrap();
    assert_eq!(entity.get::<_, &[i32]>("Pos").unwrap(), &[1, 0, 1]);
    assert_eq!(entity.get::<_, &str>("Id").unwrap(), "minecraft:chest");
    assert_eq!(
        entity
            .get::<_, &NbtCompound>("Data")
            .unwrap()
            .get::<_, &str>("Lock")
            .unwrap(),
        "key"
    );
}

#[test]
fn schematic_from_no_lines() {
    let schematic = make_schematic(Vec::new()).unwrap();
    let nbt = schematic.to_nbt_at(0);
    assert_eq!(nbt.get::<_, &NbtTag>("Width").unwrap(), &NbtTag::Short(1));
    assert_eq!(nbt.get::<_, &NbtTag>("Height").unwrap(), &NbtTag::Short(1));
    assert_eq!(nbt.get::<_, &NbtTag>("Length").unwrap(), &NbtTag::Short(1));
    let blocks = nbt.get::<_, &NbtCompound>("Blocks").unwrap();
    assert_eq!(blocks.get::<_, &[i8]>("Data").unwrap(), &[0]);
}

#[test]
fn line_built_by_hand() {
    let line = Line::with_data((1, 2, 3), "chest".to_string(), Ok(NbtCompound::new())).unwrap();
    assert_eq!(line.position, (1, 2, 3));
    assert_eq!(line.block_id, "chest");
    assert_eq!(line.nbt, Some(NbtCompound::new()));
    let error = NbtCompound::from_snbt("{").unwrap_err();
    assert!(matches!(
        Line::with_data((1, 2, 3), "chest".to_string(), Err(error)),
        Err(LineParseError::NbtParseError(_))
    ));
    let error = NbtCompound::from_snbt("").unwrap_err();
    assert!(matches!(
        LineParseError::from(error),
        LineParseError::NbtParseError(_)
    ));
}

#[test]
fn clock_runs_forward_from_the_present() {
    let first = unix_millis();
    let second = unix_millis();
    // Later than the first of January 2020.
    assert!(first > 1577836800000);
    assert!(second >= first);
}

#[test]
fn numbers_are_read_as_the_standard_library_reads_them() {
    let texts = [
        "",
        "+",
        "-",
        "0",
        "+0",
        "-0",
        "-1",
        "00",
        "7",
        "65535",
        "65536",
        "+65535",
        "+65536",
        "99999",
        "999999x",
        "9x",
        "x9",
        "9x99999",
        "++1",
        "+-1",
        "1+",
        "1_0",
        "0x10",
        "1e3",
        "1.0",
        "4294967296",
        "18446744073709551616",
        "000000000000000000000000000065535",
        "000000000000000000000000000065536",
        "+00065535",
        "\u{661}",
        "1\u{661}",
        "\u{ff11}",
    ];
    for text in texts {
        let chars = chars_of(text);
        let ours = parse_u16(&chars, 0, chars.len());
        let theirs = text.parse::<u16>();
        match (ours, theirs) {
            (Ok(a), Ok(b)) => assert_eq!(a, b, "{:?}", text),
            (Err(kind), Err(error)) => {
                let expected = match error.kind() {
                    std::num::IntErrorKind::Empty => IntErrorKind::Empty,
                    std::num::IntErrorKind::InvalidDigit => IntErrorKind::InvalidDigit,
                    std::num::IntErrorKind::PosOverflow => IntErrorKind::PosOverflow,
                    other => panic!("{:?} gives {:?}", text, other),
                };
                assert_eq!(kind, expected, "{:?}", text);
            }
            (ours, theirs) => panic!("{:?} gives {:?} and {:?}", text, ours, theirs),
        }
    }
}

#[test]
fn fields_are_parted_as_the_standard_library_parts_them() {
    let texts = [
        "",
        " ",
        "a",
        "a b",
        "a  b",
        " a b ",
        "1 2 3 stone",
        "1 2 3 stone ",
        "1 2 3 stone {a: 1}",
        "1 2 3 stone {a: 1, b: 'x y z'}  ",
        "     ",
        "a\u{20ac} b\u{e9} c",
        "a b c d e f g",
        "    x",
        "a b c d ",
        "a b c d",
    ];
    for text in texts {
        let chars = chars_of(text);
        let ours: Vec<String> = split_line(&chars)
            .iter()
            .map(|(start, end)| chars[*start..*end].iter().collect())
            .collect();
        let theirs: Vec<String> = text.splitn(5, ' ').map(|field| field.to_string()).collect();
        assert_eq!(ours, theirs, "{:?}", text);
    }
}

#[test]
fn dates_are_held_to_the_range() {
    assert_eq!(signed_millis(0, false), 0);
    assert_eq!(signed_millis(0, true), 0);
    assert_eq!(signed_millis(1577836800000, false), 1577836800000);
    assert_eq!(signed_millis(1577836800000, true), -1577836800000);
    assert_eq!(signed_millis(i64::MAX as u128, false), i64::MAX);
    assert_eq!(signed_millis(i64::MAX as u128, true), -i64::MAX);
    assert_eq!(signed_millis(i64::MAX as u128 + 1, false), i64::MAX);
    assert_eq!(signed_millis(i64::MAX as u128 + 1, true), i64::MIN);
    assert_eq!(signed_millis(u128::MAX, false), i64::MAX);
    assert_eq!(signed_millis(u128::MAX, true), i64::MIN);
}

#[test]
fn schematic_beyond_the_size_that_a_document_states() {
    let lines = parse_all(&["65535 0 0 stone"]).unwrap();
    assert!(make_schematic(lines).is_none());
    let lines = parse_all(&["0 65535 0 stone"]).unwrap();
    assert!(make_schematic(lines).is_none());
    let lines = parse_all(&["0 0 65535 stone", "1 1 0 dirt"]).unwrap();
    assert!(make_schematic(lines).is_none());
    let lines = parse_all(&["65534 0 0 stone"]).unwrap();
    let nbt = make_schematic(lines).unwrap().to_nbt_at(0);
    assert_eq!(nbt.get::<_, &NbtTag>("Width").unwrap(), &NbtTag::Short(-1));
    assert_eq!(nbt.get::<_, i16>("Width").unwrap() as u16, 65535);
    assert_eq!(
        nbt.get::<_, &NbtCompound>("Blocks")
            .unwrap()
            .get::<_, &[i8]>("Data")
            .unwrap()
            .len(),
        65535
    );
}

#[test]
fn deepest_data_go_through_to_the_document() {
    let mut text = String::from("1 2 3 chest ");
    for _ in 0..512 {
        text.push_str("{a:");
    }
    text.push_str("1b");
    for _ in 0..512 {
        text.push('}');
    }
    let line = Line::parse(&text).unwrap();
    let schematic = make_schematic(vec![line]).unwrap();
    let nbt = schematic.to_nbt_at(1);
    let copy = nbt.clone();
    assert!(nbt == copy);
    let entities = nbt
        .get::<_, &NbtCompound>("Blocks")
        .unwrap()
        .get::<_, &NbtList>("BlockEntities")
        .unwrap();
    let mut compound = entities
        .get::<&NbtCompound>(0)
        .unwrap()
        .get::<_, &NbtCompound>("Data")
        .unwrap();
    let mut levels = 1;
    while let Ok(inner) = compound.get::<_, &NbtCompound>("a") {
        compound = inner;
        levels += 1;
    }
    assert_eq!(levels, 512);
}
