use teenytiny::emitter::Emitter;
use teenytiny::names::NameSet;

#[test]
fn new_emitter_is_empty() {
    let e = Emitter::new("out.c");
    assert_eq!(e.full_path, "out.c");
    assert_eq!(e.header, "");
    assert_eq!(e.code, "");
    assert_eq!(e.contents(), "");
}

#[test]
fn emit_appends_to_the_body() {
    let mut e = Emitter::new("out.c");
    e.emit("a");
    e.emit("b");
    assert_eq!(e.code, "ab");
    assert_eq!(e.header, "");
}

#[test]
fn emit_line_adds_a_terminator() {
    let mut e = Emitter::new("out.c");
    e.emit("x = ");
    e.emit_line("1;");
    e.emit_line("");
    assert_eq!(e.code, "x = 1;\n\n");
    assert_eq!(e.header, "");
}

#[test]
fn header_line_goes_to_the_header() {
    let mut e = Emitter::new("out.c");
    e.header_line("float x;");
    e.emit_line("x = 1;");
    e.header_line("float y;");
    assert_eq!(e.header, "float x;\nfloat y;\n");
    assert_eq!(e.code, "x = 1;\n");
    assert_eq!(e.full_path, "out.c");
}

#[test]
fn contents_is_header_then_body() {
    let mut e = Emitter::new("out.c");
    e.emit_line("body");
    e.header_line("head");
    assert_eq!(e.contents(), "head\nbody\n");
}

#[test]
fn name_set_keeps_each_name_once() {
    let mut set = NameSet::new();
    assert!(!set.contains("x"));
    assert!(set.insert(String::from("x")));
    assert!(set.contains("x"));
    assert!(!set.insert(String::from("x")));
    assert!(set.insert(String::from("y")));
    assert!(set.contains("y"));
    assert!(!set.contains("z"));
}

#[test]
fn first_missing_name_goes_by_insertion_order() {
    let mut wanted = NameSet::new();
    wanted.insert(String::from("a"));
    wanted.insert(String::from("b"));
    wanted.insert(String::from("c"));
    let mut have = NameSet::new();
    assert_eq!(wanted.first_missing_from(&have), Some(String::from("a")));
    have.insert(String::from("a"));
    have.insert(String::from("c"));
    assert_eq!(wanted.first_missing_from(&have), Some(String::from("b")));
    have.insert(String::from("b"));
    assert_eq!(wanted.first_missing_from(&have), None);
    assert_eq!(NameSet::new().first_missing_from(&have), None);
}
