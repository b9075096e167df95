use quartz_nbt::NbtTag;
use schematic_writer::palette::Palette;

#[test]
fn test_palette() {
    let mut p = Palette::new();
    assert_eq!(p.get_id("minecraft:stone"), None);
    assert_eq!(p.get_id_or_insert("minecraft:stone"), 0);
}

#[test]
fn ids_follow_first_seen_order() {
    let mut palette = Palette::new();
    assert_eq!(palette.get_id_or_insert("a"), 0);
    assert_eq!(palette.get_id_or_insert("b"), 1);
    assert_eq!(palette.get_id_or_insert("a"), 0);
    assert_eq!(palette.get_id_or_insert("c"), 2);
    assert_eq!(palette.get_id_or_insert("b"), 1);
    assert_eq!(palette.len(), 3);
    assert_eq!(palette.get_id("a"), Some(0));
    assert_eq!(palette.get_id("b"), Some(1));
    assert_eq!(palette.get_id("c"), Some(2));
    assert_eq!(palette.get_id("d"), None);
}

#[test]
fn interning_twice_keeps_id_and_size() {
    let mut palette = Palette::new();
    palette.get_id_or_insert("other");
    let first = palette.get_id_or_insert("minecraft:stone");
    let size = palette.len();
    let second = palette.get_id_or_insert("minecraft:stone");
    assert_eq!(first, 1);
    assert_eq!(second, first);
    assert_eq!(palette.len(), size);
    assert_eq!(size, 2);
}

#[test]
fn contains_tells_what_was_interned() {
    let mut palette = Palette::new();
    assert!(!palette.contains("a"));
    palette.get_id_or_insert("a");
    assert!(palette.contains("a"));
    assert!(!palette.contains("A"));
    assert!(!palette.contains(""));
    palette.get_id_or_insert("");
    assert!(palette.contains(""));
    assert_eq!(palette.get_id(""), Some(1));
}

#[test]
fn same_names_give_same_ids() {
    let names = ["x", "y", "x", "z", "y", "w"];
    let mut one = Palette::new();
    let mut other = Palette::new();
    let ids_one: Vec<u32> = names.iter().map(|name| one.get_id_or_insert(name)).collect();
    let ids_other: Vec<u32> = names.iter().map(|name| other.get_id_or_insert(name)).collect();
    assert_eq!(ids_one, vec![0, 1, 0, 2, 1, 3]);
    assert_eq!(ids_one, ids_other);
    assert_eq!(one.to_nbt(), other.to_nbt());
}

#[test]
fn palette_document_holds_each_name_with_its_id() {
    let mut palette = Palette::new();
    palette.get_id_or_insert("stone");
    palette.get_id_or_insert("dirt");
    palette.get_id_or_insert("stone");
    let copy = palette.clone();
    let nbt = palette.into_nbt();
    assert_eq!(nbt.len(), 2);
    assert_eq!(nbt.get::<_, &NbtTag>("stone").unwrap(), &NbtTag::Int(0));
    assert_eq!(nbt.get::<_, &NbtTag>("dirt").unwrap(), &NbtTag::Int(1));
    assert_eq!(copy.to_nbt(), nbt);
    assert_eq!(Palette::new().into_nbt().len(), 0);
}
