use sixtyfive::linker::{arg, category, item, not_arg_end, read_linker_from_string};

#[test]
fn test_read_linker_from_string() {
    let (rest, file) = read_linker_from_string("MEMORY { ZP: file = \"\", start = $0002; }")
        .unwrap();
    assert_eq!(rest, "");
    let memory = file.get("MEMORY").unwrap();
    let zp = memory.get("ZP").unwrap();
    assert_eq!(zp.get("file").unwrap(), "\"\"");
    assert_eq!(zp.get("start").unwrap(), "$0002");
    assert!(memory.get("SEGMENTS").is_none());
    assert!(file.get("SEGMENTS").is_none());
}

#[test]
fn test_item() {
    let (rest, (name, parsed)) = item("ZP: file = \"\", start = $0002;").unwrap();
    assert_eq!(rest, "");
    assert_eq!(name, "ZP");
    assert_eq!(parsed.get("file").unwrap(), "\"\"");
    assert_eq!(parsed.get("start").unwrap(), "$0002");
    assert!(parsed.get("size").is_none());
}

#[test]
fn test_arg() {
    assert_eq!(arg("file = \"\";").unwrap(), (";".to_string(), ("file".to_string(), "\"\"".to_string())));
    assert_eq!(arg("file=%O,").unwrap(), (",".to_string(), ("file".to_string(), "%O".to_string())));
    let err = arg("file=;").unwrap_err();
    assert_eq!(err.context(), "arg");
}

#[test]
fn arg_name_must_be_alphabetic() {
    assert!(arg("= 1;").is_err());
    assert!(arg("1x = 1;").is_err());
}

#[test]
fn not_arg_end_takes_until_punctuation() {
    assert_eq!(
        not_arg_end("$0002; }").unwrap(),
        ("; }".to_string(), "$0002".to_string())
    );
    assert!(not_arg_end(";rest").is_err());
    assert!(not_arg_end("").is_err());
}

#[test]
fn category_keeps_unparsed_rest() {
    let (rest, (name, cat)) = category("MEM { A: x = 1; } trailing").unwrap();
    assert_eq!(name, "MEM");
    assert_eq!(rest, " trailing");
    assert_eq!(cat.get("A").unwrap().get("x").unwrap(), "1");
}

#[test]
fn later_duplicate_argument_wins() {
    let (_, (_, parsed)) = item("ZP: file = a, file = b;").unwrap();
    assert_eq!(parsed.get("file").unwrap(), "b");
}

#[test]
fn two_categories_parse_in_sequence() {
    let input = "MEM { A: x = 1; }MAP { B: y = 2; }";
    let (rest, file) = read_linker_from_string(input).unwrap();
    assert_eq!(rest, "");
    assert_eq!(file.get("MEM").unwrap().get("A").unwrap().get("x").unwrap(), "1");
    assert_eq!(file.get("MAP").unwrap().get("B").unwrap().get("y").unwrap(), "2");
}

#[test]
fn malformed_category_stops_the_file() {
    // the second block does not parse as a category: it stays as the rest
    let input = "MEM { A: x = 1; } { B: y = 2; }";
    let (rest, file) = read_linker_from_string(input).unwrap();
    assert_eq!(rest, " { B: y = 2; }");
    assert!(file.get("MEM").is_some());
}

#[test]
fn newlines_are_allowed_around_structure() {
    let input = "MEMORY\n{\n  ZP:\n    file = \"\", start = $0002; }";
    let (rest, file) = read_linker_from_string(input).unwrap();
    assert_eq!(rest, "");
    let zp = file.get("MEMORY").unwrap().get("ZP").unwrap();
    assert_eq!(zp.get("start").unwrap(), "$0002");
}
