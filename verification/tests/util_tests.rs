use ttlcache::decimal::{i32_to_dec, u64_to_dec};
use ttlcache::strmap::StringMap;
use ttlcache::utils::{
    camel_to_snake, chunk, deep_merge, flatten, format_data, process_and_format, safe_get,
    snake_to_camel, transform_keys, validate_not_empty, DataTransformer,
};

#[test]
fn test_snake_to_camel() {
    assert_eq!(snake_to_camel("hello_world"), "helloWorld");
    assert_eq!(snake_to_camel("some_long_name"), "someLongName");
}

#[test]
fn test_camel_to_snake() {
    assert_eq!(camel_to_snake("helloWorld"), "hello_world");
    assert_eq!(camel_to_snake("someLongName"), "some_long_name");
}

#[test]
fn test_case_conversion_edges() {
    assert_eq!(snake_to_camel(""), "");
    assert_eq!(snake_to_camel("alreadyCamel"), "alreadyCamel");
    assert_eq!(snake_to_camel("_x"), "X");
    assert_eq!(camel_to_snake(""), "");
    assert_eq!(camel_to_snake("X"), "x");
    assert_eq!(camel_to_snake("ABc"), "a_bc");
}

#[test]
fn test_validate_not_empty() {
    assert_eq!(validate_not_empty(""), Err("Value cannot be empty".to_string()));
    assert_eq!(validate_not_empty("x"), Ok(()));
}

#[test]
fn test_deep_merge() {
    let mut base = StringMap::new();
    base.insert("a".to_string(), "1".to_string());
    base.insert("b".to_string(), "2".to_string());
    let mut updates = StringMap::new();
    updates.insert("b".to_string(), "20".to_string());
    updates.insert("c".to_string(), "30".to_string());
    let merged = deep_merge(base, updates);
    assert_eq!(merged.get("a"), Some(&"1".to_string()));
    assert_eq!(merged.get("b"), Some(&"20".to_string()));
    assert_eq!(merged.get("c"), Some(&"30".to_string()));
    assert_eq!(merged.len(), 3);
}

#[test]
fn test_flatten() {
    let nested = vec![vec![1, 2], vec![], vec![3], vec![4, 5]];
    assert_eq!(flatten(nested), vec![1, 2, 3, 4, 5]);
    let empty: Vec<Vec<u8>> = Vec::new();
    assert_eq!(flatten(empty), Vec::<u8>::new());
}

#[test]
fn test_chunk() {
    let chunks = chunk(vec![1, 2, 3, 4, 5], 2);
    assert_eq!(chunks, vec![vec![1, 2], vec![3, 4], vec![5]]);
    let exact = chunk(vec![1, 2, 3, 4], 2);
    assert_eq!(exact, vec![vec![1, 2], vec![3, 4]]);
    let none: Vec<Vec<u8>> = chunk(Vec::new(), 3);
    assert!(none.is_empty());
}

#[test]
fn test_safe_get() {
    let mut map = StringMap::new();
    map.insert("k".to_string(), "v".to_string());
    assert_eq!(safe_get(&map, "k"), Some(&"v".to_string()));
    assert_eq!(safe_get(&map, "missing"), None);
}

#[test]
fn test_string_map_lookup_among_keys() {
    let mut map = StringMap::new();
    map.insert("first".to_string(), "1".to_string());
    map.insert("second".to_string(), "2".to_string());
    map.insert("third".to_string(), "3".to_string());
    assert_eq!(map.get("second"), Some(&"2".to_string()));
    assert_eq!(map.get("third"), Some(&"3".to_string()));
    map.insert("second".to_string(), "22".to_string());
    assert_eq!(map.get("second"), Some(&"22".to_string()));
    assert_eq!(map.len(), 3);
    map.clear();
    assert_eq!(map.len(), 0);
}

#[test]
fn test_transform_keys() {
    let mut map = StringMap::new();
    map.insert("user_name".to_string(), "ada".to_string());
    map.insert("user_age".to_string(), "36".to_string());
    let transformed = transform_keys(map, |k: &str| snake_to_camel(k));
    assert_eq!(transformed.get("userName"), Some(&"ada".to_string()));
    assert_eq!(transformed.get("userAge"), Some(&"36".to_string()));
    assert_eq!(transformed.get("user_name"), None);
}

#[test]
fn test_decimal_rendering() {
    assert_eq!(u64_to_dec(0), "0");
    assert_eq!(u64_to_dec(7), "7");
    assert_eq!(u64_to_dec(1234), "1234");
    assert_eq!(u64_to_dec(u64::MAX), "18446744073709551615");
    assert_eq!(i32_to_dec(0), "0");
    assert_eq!(i32_to_dec(42), "42");
    assert_eq!(i32_to_dec(-56), "-56");
    assert_eq!(i32_to_dec(i32::MIN), "-2147483648");
}

fn exclaim(s: String) -> String {
    let mut s = s;
    s.push('!');
    s
}

fn question(s: String) -> String {
    let mut s = s;
    s.push('?');
    s
}

#[test]
fn test_data_transformer() {
    let mut transformer: DataTransformer<fn(String) -> String> = DataTransformer::new();
    transformer.add_transformation(exclaim);
    transformer.add_transformation(question);
    assert_eq!(transformer.transform("hey".to_string()), "hey!?");
    transformer.clear();
    assert_eq!(transformer.transform("hey".to_string()), "hey");
}

#[test]
fn test_format_data() {
    assert_eq!(format_data(&7u32), "7");
    assert_eq!(process_and_format(&(1u8, 2u8)), "(1, 2)");
}
