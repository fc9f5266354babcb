use better_routes::encode::{percent_decode, percent_encode};
use better_routes::path::{parse_path, PathError, PathSegment};
use better_routes::render::{captures_from_path, format_str_from_path, render_path};

fn bv(s: &str) -> Vec<u8> {
    s.as_bytes().to_vec()
}

fn segments(path: &str) -> Vec<PathSegment> {
    match parse_path(&bv(path)) {
        Ok(segs) => segs,
        Err(_) => panic!("path template should parse"),
    }
}

#[test]
fn parses_static_and_capture_segments() {
    let segs = segments("/product/:id");
    assert_eq!(segs.len(), 3);
    match &segs[0] {
        PathSegment::Static(t) => assert!(t.is_empty()),
        _ => panic!("root segment must be static"),
    }
    match &segs[1] {
        PathSegment::Static(t) => assert_eq!(*t, bv("product")),
        _ => panic!("literal segment must be static"),
    }
    match &segs[2] {
        PathSegment::Capture { name, greedy } => {
            assert_eq!(*name, bv("id"));
            assert!(!greedy);
        }
        _ => panic!("`:id` must be a capture"),
    }
}

#[test]
fn parses_trailing_wildcard() {
    let segs = segments("/*rest");
    assert_eq!(segs.len(), 2);
    match &segs[1] {
        PathSegment::Capture { name, greedy } => {
            assert_eq!(*name, bv("rest"));
            assert!(*greedy);
        }
        _ => panic!("`*rest` must be a greedy capture"),
    }
}

#[test]
fn parses_root() {
    let segs = segments("/");
    assert_eq!(segs.len(), 2);
    for seg in &segs {
        match seg {
            PathSegment::Static(t) => assert!(t.is_empty()),
            _ => panic!("root has only empty static segments"),
        }
    }
}

#[test]
fn rejects_empty_path() {
    assert!(matches!(parse_path(&bv("")), Err(PathError::Empty)));
}

#[test]
fn rejects_path_without_leading_slash() {
    assert!(matches!(
        parse_path(&bv("about")),
        Err(PathError::NoLeadingSlash)
    ));
}

#[test]
fn format_string_replaces_captures_with_placeholders() {
    assert_eq!(
        format_str_from_path(&segments("/product/:id")),
        bv("/product/{id}")
    );
    assert_eq!(format_str_from_path(&segments("/*rest")), bv("/{rest}"));
    assert_eq!(format_str_from_path(&segments("/")), bv("/"));
}

#[test]
fn capture_names_in_segment_order() {
    let names = captures_from_path(&segments("/:a/x/:b/*c"));
    assert_eq!(names, vec![bv("a"), bv("b"), bv("c")]);
    assert!(captures_from_path(&segments("/about")).is_empty());
}

#[test]
fn render_substitutes_encoded_values() {
    let segs = segments("/product/:id");
    let rendered = render_path(&segs, &vec![bv("ab c")]);
    assert_eq!(rendered, Some(bv("/product/ab%20c")));
}

#[test]
fn render_requires_one_value_per_capture() {
    let segs = segments("/product/:id");
    assert_eq!(render_path(&segs, &Vec::new()), None);
    assert_eq!(render_path(&segs, &vec![bv("1"), bv("2")]), None);
}

#[test]
fn rendered_path_reparses_to_static_segments() {
    let segs = segments("/:name");
    let rendered = match render_path(&segs, &vec![bv("a/b")]) {
        Some(p) => p,
        None => panic!("arity matches"),
    };
    assert_eq!(rendered, bv("/a%2Fb"));
    let reparsed = match parse_path(&rendered) {
        Ok(s) => s,
        Err(_) => panic!("a rendered path is a valid template"),
    };
    assert_eq!(reparsed.len(), 2);
    match &reparsed[1] {
        PathSegment::Static(t) => assert_eq!(*t, bv("a%2Fb")),
        _ => panic!("an encoded value reads back as static text"),
    }
}

#[test]
fn encode_exact_bytes() {
    assert_eq!(percent_encode(&bv("AZaz09-._~")), bv("AZaz09-._~"));
    assert_eq!(percent_encode(&bv("a b/c%")), bv("a%20b%2Fc%25"));
    assert_eq!(percent_encode(&Vec::new()), Vec::<u8>::new());
}

#[test]
fn decode_inverts_encode() {
    let mut blob: Vec<u8> = Vec::new();
    let mut b: u16 = 0;
    while b < 256 {
        blob.push(b as u8);
        b += 1;
    }
    assert_eq!(percent_decode(&percent_encode(&blob)), Some(blob));
}

#[test]
fn decode_exact_values() {
    assert_eq!(percent_decode(&bv("%41%62c")), Some(bv("Abc")));
    assert_eq!(percent_decode(&bv("%2f")), Some(bv("/")));
    assert_eq!(percent_decode(&bv("plain")), Some(bv("plain")));
}

#[test]
fn decode_rejects_malformed_escapes() {
    assert_eq!(percent_decode(&bv("%zz")), None);
    assert_eq!(percent_decode(&bv("abc%4")), None);
    assert_eq!(percent_decode(&bv("%")), None);
}
