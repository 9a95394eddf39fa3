use rotext::executing::extensions::{
    bytes_eq, new_demo_block_extension_map_for_test, new_demo_inline_extension_map_for_test,
    Extension, ExtensionElementMapperParameterMappingTo,
    ExtensionElementMapperVerbatimParameterMappingTo, NameMap, NameSet,
};

fn tag_of<'a>(map: &'a NameMap<'a, Extension<'a>>, name: &str) -> Option<&'a [u8]> {
    match map.get(name.as_bytes()) {
        Some(Extension::ElementMapper(m)) => Some(m.tag_name),
        _ => None,
    }
}

fn alias_of<'a>(map: &'a NameMap<'a, Extension<'a>>, name: &str) -> Option<&'a [u8]> {
    match map.get(name.as_bytes()) {
        Some(Extension::Alias { to }) => Some(*to),
        _ => None,
    }
}

#[test]
fn demo_block_extensions_are_found_by_name_and_alias() {
    let map = new_demo_block_extension_map_for_test();
    assert_eq!(tag_of(&map, "Div"), Some(&b"div"[..]));
    assert_eq!(tag_of(&map, "Collapse"), Some(&b"x-collapse"[..]));
    assert_eq!(alias_of(&map, "折叠"), Some(&b"Collapse"[..]));
    for (name, variant, alias) in [
        ("Note", "note", "注"),
        ("Tip", "tip", "提示"),
        ("Important", "important", "重要"),
        ("Warning", "warning", "警告"),
        ("Caution", "caution", "当心"),
    ] {
        match map.get(name.as_bytes()) {
            Some(Extension::ElementMapper(m)) => {
                assert_eq!(m.tag_name, &b"x-callout"[..]);
                assert_eq!(m.variant, Some(variant.as_bytes()));
                assert!(m.required_parameters.contains(b"1"));
            }
            _ => panic!("{} is no element mapper", name),
        }
        assert_eq!(alias_of(&map, alias), Some(name.as_bytes()));
    }
    assert!(map.get(b"Unknown").is_none());
    assert_eq!(map.entries.len(), 13);
}

#[test]
fn demo_inline_extensions_are_found_by_name_and_alias() {
    let map = new_demo_inline_extension_map_for_test();
    assert_eq!(tag_of(&map, "Span"), Some(&b"span"[..]));
    assert_eq!(tag_of(&map, "ScratchOff"), Some(&b"x-scratch-off"[..]));
    assert_eq!(alias_of(&map, "刮开"), Some(&b"ScratchOff"[..]));
    assert_eq!(map.entries.len(), 3);
}

#[test]
fn parameters_are_found_through_their_other_names() {
    let map = new_demo_block_extension_map_for_test();
    let collapse = match map.get(b"Collapse") {
        Some(Extension::ElementMapper(m)) => m,
        _ => panic!("Collapse is no element mapper"),
    };
    match collapse.get_real_verbatim_parameter("标题".as_bytes()) {
        Some((name, p)) => {
            assert_eq!(name, &b"title"[..]);
            assert!(matches!(
                p.mapping_to,
                ExtensionElementMapperVerbatimParameterMappingTo::Attribute(a) if a == &b"title"[..]
            ));
        }
        None => panic!("标题 is not found"),
    }
    match collapse.get_real_verbatim_parameter(b"open") {
        Some((name, p)) => {
            assert_eq!(name, &b"open"[..]);
            assert!(matches!(
                p.mapping_to,
                ExtensionElementMapperVerbatimParameterMappingTo::Attribute(a) if a == &b"open-by-default"[..]
            ));
        }
        None => panic!("open is not found"),
    }
    assert!(collapse.get_real_verbatim_parameter(b"unknown").is_none());
    match collapse.get_real_parameter(b"1") {
        Some((name, p)) => {
            assert_eq!(name, &b"1"[..]);
            assert!(matches!(
                p.mapping_to,
                ExtensionElementMapperParameterMappingTo::UnnamedSlot
            ));
        }
        None => panic!("1 is not found"),
    }
    assert!(collapse.get_real_parameter(b"2").is_none());
}

#[test]
fn a_name_inserted_again_takes_the_new_value() {
    let mut map: NameMap<u32> = NameMap::new();
    map.insert(b"a", 1);
    map.insert(b"b", 2);
    map.insert(b"a", 3);
    assert_eq!(map.get(b"a"), Some(&3));
    assert_eq!(map.get(b"b"), Some(&2));
    assert_eq!(map.get(b"c"), None);
    assert_eq!(map.entries.len(), 2);

    let mut set = NameSet::new();
    set.insert(b"x");
    set.insert(b"x");
    assert!(set.contains(b"x"));
    assert!(!set.contains(b"y"));
    assert_eq!(set.map.entries.len(), 1);
}

#[test]
fn byte_strings_compare_by_content() {
    assert!(bytes_eq(b"abc", b"abc"));
    assert!(!bytes_eq(b"abc", b"abd"));
    assert!(!bytes_eq(b"ab", b"abc"));
    assert!(bytes_eq(b"", b""));
}
