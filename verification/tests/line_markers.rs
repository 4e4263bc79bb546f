use linc::line_markers::{parse_line_marker, FileOriginMap, OriginFilter, SourceOrigin};
#[test]
fn parse_simple_line_marker() {
    let m = parse_line_marker("# 1 \"zlib.h\"").unwrap();
    assert_eq!(m.file, "zlib.h");
    assert!(!m.is_system);
    assert_eq!(m.line_num, 1);
}

#[test]
fn parse_system_header_marker() {
    let m = parse_line_marker("# 42 \"/usr/include/stdio.h\" 1 3 4").unwrap();
    assert_eq!(m.file, "/usr/include/stdio.h");
    assert!(m.is_system);
}

#[test]
fn parse_non_system_include() {
    let m = parse_line_marker("# 1 \"mylib.h\" 1").unwrap();
    assert_eq!(m.file, "mylib.h");
    assert!(!m.is_system);
}

#[test]
fn parse_return_marker() {
    let m = parse_line_marker("# 10 \"zlib.h\" 2").unwrap();
    assert_eq!(m.file, "zlib.h");
    assert!(!m.is_system);
}

#[test]
fn non_marker_lines_ignored() {
    assert!(parse_line_marker("int foo(void);").is_none());
    assert!(parse_line_marker("// comment").is_none());
    assert!(parse_line_marker("").is_none());
}

#[test]
fn file_origin_map_basic() {
    let source = "# 1 \"zlib.h\"\nint deflate(void);\n# 1 \"/usr/include/stdio.h\" 1 3 4\nint printf(const char *fmt, ...);\n# 5 \"zlib.h\" 2\nint inflate(void);\n";
    let map = FileOriginMap::parse(source, &["zlib.h"]);

    // deflate is in zlib.h (entry)
    let offset_deflate = source.find("int deflate").unwrap();
    assert_eq!(map.origin_at(offset_deflate), SourceOrigin::Entry);

    // printf is in stdio.h (system)
    let offset_printf = source.find("int printf").unwrap();
    assert_eq!(map.origin_at(offset_printf), SourceOrigin::System);

    // inflate is back in zlib.h (entry)
    let offset_inflate = source.find("int inflate").unwrap();
    assert_eq!(map.origin_at(offset_inflate), SourceOrigin::Entry);
}

#[test]
fn file_origin_map_reports_source_locations() {
    let source = "# 7 \"mylib.h\"\nint foo(void);\nint bar(void);\n";
    let map = FileOriginMap::parse(source, &["mylib.h"]);

    let offset_foo = source.find("foo").unwrap();
    let foo = map.location_at(offset_foo).unwrap();
    assert_eq!(foo.file, "mylib.h");
    assert_eq!(foo.line, Some(7));
    assert_eq!(foo.column, Some(5));

    let offset_bar = source.find("bar").unwrap();
    let bar = map.location_at(offset_bar).unwrap();
    assert_eq!(bar.line, Some(8));
    assert_eq!(bar.column, Some(5));
}

#[test]
fn file_origin_map_user_include() {
    let source = "# 1 \"mylib.h\"\nint foo(void);\n# 1 \"helper.h\" 1\nint bar(void);\n# 3 \"mylib.h\" 2\nint baz(void);\n";
    let map = FileOriginMap::parse(source, &["mylib.h"]);

    let offset_foo = source.find("int foo").unwrap();
    assert_eq!(map.origin_at(offset_foo), SourceOrigin::Entry);

    let offset_bar = source.find("int bar").unwrap();
    assert_eq!(map.origin_at(offset_bar), SourceOrigin::UserInclude);

    let offset_baz = source.find("int baz").unwrap();
    assert_eq!(map.origin_at(offset_baz), SourceOrigin::Entry);
}

#[test]
fn origin_filter_default() {
    let filter = OriginFilter::default();
    assert!(filter.accepts(&SourceOrigin::Entry));
    assert!(filter.accepts(&SourceOrigin::UserInclude));
    assert!(!filter.accepts(&SourceOrigin::System));
    assert!(filter.accepts(&SourceOrigin::Unknown));
}

#[test]
fn origin_filter_system_included() {
    let filter = OriginFilter {
        include_entry: true,
        include_user: true,
        include_system: true,
    };
    assert!(filter.accepts(&SourceOrigin::System));
}

#[test]
fn unknown_offset_returns_unknown() {
    let map = FileOriginMap::parse("", &["test.h"]);
    assert_eq!(map.origin_at(0), SourceOrigin::Unknown);
}
