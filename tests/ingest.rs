use citypop::coerce::{
    coerce_coord, coerce_population, coerce_text, is_decimal_literal, is_nan_literal,
    is_number_literal, parse_u32, Coord,
};
use citypop::driver::{ingest, Fatal, Ingested, Ingestion, Variant};
use citypop::row::{parse_line_bytes, parse_line_text, parse_record_schema, Reject, Row};
use citypop::split::{body_len, field_bounds};
use citypop::table::CityPop;

const ALL: [Variant; 3] = [Variant::Schema, Variant::ManualSplit, Variant::ByteSplit];

fn as_f64(c: &Coord) -> f64 {
    match c {
        Coord::NaN => f64::NAN,
        Coord::Num(b) => std::str::from_utf8(b).unwrap().parse().unwrap(),
    }
}

fn run(src: &[u8], v: Variant) -> Ingested {
    ingest(Some(src), v, true).unwrap()
}

fn num(s: &str) -> Coord {
    Coord::Num(s.as_bytes().to_vec())
}

#[test]
fn single_row_scenario() {
    let src = b"city,state,population,latitude,longitude\nSpringfield,IL,12000,39.78,-89.65\n";
    for v in ALL {
        let r = run(src, v);
        assert_eq!(r.table.len(), 1);
        assert_eq!(r.table.city()[0], "Springfield");
        assert_eq!(r.table.state()[0], "IL");
        assert_eq!(r.table.population()[0], Some(12000));
        assert_eq!(as_f64(&r.table.latitude()[0]), 39.78);
        assert_eq!(as_f64(&r.table.longitude()[0]), -89.65);
        assert_eq!(r.skipped, 0);
        assert_eq!(r.rejected, 0);
    }
}

#[test]
fn empty_numeric_fields_scenario() {
    let src = b"city,state,population,latitude,longitude\nNowhere,ZZ,,,\n";
    for v in [Variant::ManualSplit, Variant::ByteSplit] {
        let r = run(src, v);
        assert_eq!(r.table.len(), 1);
        assert_eq!(r.table.city()[0], "Nowhere");
        assert_eq!(r.table.state()[0], "ZZ");
        assert_eq!(r.table.population()[0], None);
        assert!(as_f64(&r.table.latitude()[0]).is_nan());
        assert!(as_f64(&r.table.longitude()[0]).is_nan());
        assert_eq!(r.skipped, 0);
    }
    // the schema declares the coordinates as numbers, so it refuses the line
    let r = run(src, Variant::Schema);
    assert_eq!(r.table.len(), 0);
    assert_eq!(r.rejected, 1);
    assert_eq!(r.skipped, 0);
}

#[test]
fn unopened_source_is_fatal() {
    for v in ALL {
        assert!(matches!(ingest(None, v, true), Err(Fatal::Unopened)));
    }
}

#[test]
fn strategies_agree_on_well_formed_input() {
    let src = "city,state,population,latitude,longitude\r\n\
Springfield,IL,12000,39.78,-89.65\r\n\
Davenport,IA,,41.52,-90.57\n\
Peoria,IL,+113150,4.07e1,-89.6\n\
Nome,AK,3500,nan,inf\n\
Z\u{fc}rich,ZH,421878,47.37,8.54\n".as_bytes();
    let a = run(src, Variant::Schema);
    let b = run(src, Variant::ManualSplit);
    let c = run(src, Variant::ByteSplit);
    assert_eq!(a.table.len(), 5);
    assert_eq!(a.table.city()[4], "Z\u{fc}rich");
    assert_eq!(a.table, b.table);
    assert_eq!(b.table, c.table);
    assert_eq!(b.table.population(), &vec![Some(12000), None, Some(113150), Some(3500), Some(421878)]);
    assert_eq!(b.table.latitude()[2], num("4.07e1"));
    assert_eq!(b.table.latitude()[3], Coord::NaN);
    assert_eq!(b.table.longitude()[3], num("inf"));
    assert_eq!(b.table.longitude()[0], num("-89.65"));
}

#[test]
fn row_count_accounts_for_header_and_skips() {
    let mut src: Vec<u8> = b"city,state,population,latitude,longitude\nA,X,1,2,3\n".to_vec();
    src.extend_from_slice(b"B\xff,Y,1,2,3\n");
    src.extend_from_slice(b"C,Z,1,2\n");
    let m = run(&src, Variant::ManualSplit);
    assert_eq!(m.table.len(), 2);
    assert_eq!(m.skipped, 1);
    assert_eq!(m.table.city().len(), m.table.longitude().len());
    let s = run(&src, Variant::Schema);
    assert_eq!(s.table.len(), 1);
    assert_eq!(s.rejected, 2);
    let b = run(&src, Variant::ByteSplit);
    assert_eq!(b.table.len(), 3);
    assert_eq!(b.table.city()[1], "B\u{FFFD}");
    let no_header = ingest(Some(&src), Variant::ByteSplit, false).unwrap();
    assert_eq!(no_header.table.len(), 4);
    assert_eq!(no_header.table.city()[0], "city");
}

#[test]
fn reingesting_gives_equal_tables() {
    let src = b"h\nA,X,1,2,3\nB,Y,zz,4,5\n,,,,\n";
    for v in ALL {
        let a = run(src, v);
        let b = run(src, v);
        assert_eq!(a.table, b.table);
        assert_eq!(a.skipped, b.skipped);
        assert_eq!(a.rejected, b.rejected);
    }
}

#[test]
fn non_numeric_latitude_falls_back() {
    for r in [parse_line_text("Town,ST,12000,north,-89.5\n"), parse_line_bytes(b"Town,ST,12000,north,-89.5\n")] {
        assert_eq!(r.latitude, Coord::NaN);
        assert_eq!(r.population, Some(12000));
        assert_eq!(r.longitude, num("-89.5"));
    }
}

#[test]
fn non_numeric_population_falls_back() {
    for r in [parse_line_text("Town,ST,many,39.5,-89.5"), parse_line_bytes(b"Town,ST,many,39.5,-89.5")] {
        assert_eq!(r.population, None);
        assert_eq!(r.latitude, num("39.5"));
        assert_eq!(r.longitude, num("-89.5"));
    }
    assert_eq!(parse_record_schema(b"Town,ST,many,39.5,-89.5"), Err(Reject::Population));
}

#[test]
fn missing_trailing_fields_fall_back() {
    for r in [parse_line_text("Town\n"), parse_line_bytes(b"Town\n")] {
        assert_eq!(r.city, "Town");
        assert_eq!(r.state, "None");
        assert_eq!(r.population, None);
        assert_eq!(r.latitude, Coord::NaN);
        assert_eq!(r.longitude, Coord::NaN);
    }
    for r in [parse_line_text("Town,ST,5\r\n"), parse_line_bytes(b"Town,ST,5\r\n")] {
        assert_eq!(r.state, "ST");
        assert_eq!(r.population, Some(5));
        assert_eq!(r.latitude, Coord::NaN);
    }
    let r = parse_line_bytes(b"");
    assert_eq!(r.city, "");
    assert_eq!(r.state, "None");
}

#[test]
fn empty_text_is_kept() {
    let r = parse_line_text(",,1,2,3");
    assert_eq!(r.city, "");
    assert_eq!(r.state, "");
}

#[test]
fn extra_fields_are_ignored_by_split_strategies() {
    let r = parse_line_text("A,B,1,2,3,extra");
    assert_eq!(r.longitude, num("3"));
    assert_eq!(parse_line_bytes(b"A,B,1,2,3,extra"), r);
    assert_eq!(parse_record_schema(b"A,B,1,2,3,extra"), Err(Reject::FieldCount));
}

#[test]
fn line_terminator_is_trimmed_before_parsing() {
    let r = parse_line_text("A,B,1,2,-3.5\r\n");
    assert_eq!(r.longitude, num("-3.5"));
    let r = parse_line_bytes(b"A,B,1,2,-3.5 \n");
    assert_eq!(r.longitude, Coord::NaN);
}

#[test]
fn schema_rejections() {
    assert_eq!(parse_record_schema(b"a,b,c\n"), Err(Reject::FieldCount));
    assert_eq!(parse_record_schema(b"a,b,1,x,2\n"), Err(Reject::Coordinate));
    assert_eq!(parse_record_schema(b"a,b,1,2,\n"), Err(Reject::Coordinate));
    assert_eq!(parse_record_schema(b"\xff,b,1,2,3\n"), Err(Reject::Malformed));
    assert_eq!(parse_record_schema(b"\n"), Err(Reject::Malformed));
}

#[test]
fn schema_reads_quoted_fields() {
    let r: Row = parse_record_schema(b"\"Spring, field\",IL,,1.5,NaN\n").unwrap();
    assert_eq!(r.city, "Spring, field");
    assert_eq!(r.state, "IL");
    assert_eq!(r.population, None);
    assert_eq!(r.latitude, num("1.5"));
    assert_eq!(r.longitude, Coord::NaN);
}

#[test]
fn u32_parsing() {
    assert_eq!(parse_u32(b"12000"), Some(12000));
    assert_eq!(parse_u32(b"+7"), Some(7));
    assert_eq!(parse_u32(b"4294967295"), Some(u32::MAX));
    assert_eq!(parse_u32(b"4294967296"), None);
    assert_eq!(parse_u32(b"99999999999999999999"), None);
    assert_eq!(parse_u32(b"-1"), None);
    assert_eq!(parse_u32(b"+"), None);
    assert_eq!(parse_u32(b""), None);
    assert_eq!(parse_u32(b"12a"), None);
    assert_eq!(parse_u32(b"007"), Some(7));
}

#[test]
fn float_literal_grammar() {
    for s in ["1", "1.", ".5", "1.5", "1e5", "1E-5", "2.5e+3", "-0.0", "+3", "inf", "-Infinity", "INF"] {
        assert!(is_number_literal(s.as_bytes()), "{}", s);
        assert!(s.parse::<f64>().unwrap().is_finite() || s.to_lowercase().contains("inf"));
    }
    for s in ["", ".", "e5", "1e", "1e+", "--1", "1.2.3", " 1", "1 ", "nan", "infinit", "0x10"] {
        assert!(!is_number_literal(s.as_bytes()), "{}", s);
    }
    assert!(is_decimal_literal(b"12.5e3"));
    assert!(!is_decimal_literal(b"+12"));
    assert!(is_nan_literal(b"NaN"));
    assert!(is_nan_literal(b"-nan"));
    assert!(!is_nan_literal(b"nan1"));
}

#[test]
fn coercion_policy() {
    assert_eq!(coerce_text(None), "None");
    assert_eq!(coerce_text(Some("")), "");
    assert_eq!(coerce_population(Some(b"42")), Some(42));
    assert_eq!(coerce_population(Some(b"x")), None);
    assert_eq!(coerce_population(None), None);
    assert_eq!(coerce_coord(Some(b"39.78")), num("39.78"));
    assert_eq!(coerce_coord(Some(b"39.78\n")), Coord::NaN);
    assert_eq!(coerce_coord(None), Coord::NaN);
}

#[test]
fn splitting_helpers() {
    assert_eq!(body_len(b"ab\r\n"), 2);
    assert_eq!(body_len(b"ab\n"), 2);
    assert_eq!(body_len(b"ab\r"), 3);
    assert_eq!(field_bounds(b"a,,bc"), vec![(0, 1), (2, 2), (3, 5)]);
    assert_eq!(field_bounds(b""), vec![(0, 0)]);
}

#[test]
fn table_appends_rows_in_order() {
    let mut t = CityPop::new(2);
    t.reserve(10);
    t.add_entry("A".to_string(), "X".to_string(), Some(1), num("1"), Coord::NaN);
    t.add_record(Row {
        city: "B".to_string(),
        state: "Y".to_string(),
        population: None,
        latitude: Coord::NaN,
        longitude: num("2"),
    });
    assert_eq!(t.len(), 2);
    assert_eq!(t.city(), &vec!["A".to_string(), "B".to_string()]);
    assert_eq!(t.state(), &vec!["X".to_string(), "Y".to_string()]);
    assert_eq!(t.population(), &vec![Some(1), None]);
    assert_eq!(t.latitude(), &vec![num("1"), Coord::NaN]);
    assert_eq!(t.longitude(), &vec![Coord::NaN, num("2")]);
}

#[test]
fn driver_steps() {
    let mut run = Ingestion::open(Variant::ManualSplit, true, 4);
    run.feed(b"city,state,population,latitude,longitude\n");
    run.feed(b"A,X,1,2,3\n");
    run.line_unreadable();
    run.feed(b"\xfe\n");
    run.feed(b"B,Y,2,3,4");
    let done = run.finish();
    assert_eq!(done.table.len(), 2);
    assert_eq!(done.skipped, 2);
    assert_eq!(done.rejected, 0);
    assert_eq!(done.table.city(), &vec!["A".to_string(), "B".to_string()]);
}

#[test]
fn schema_reader_drops_leading_byte_order_mark() {
    let line = "\u{feff}A,B,1,2,3\n";
    let s = parse_record_schema(line.as_bytes()).unwrap();
    assert_eq!(s.city, "A");
    assert_eq!(parse_line_text(line).city, "\u{feff}A");
}
