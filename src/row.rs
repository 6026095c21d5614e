//! One decoded record, and the three strategies that make it from a line.

use vstd::prelude::*;
use vstd::slice::slice_to_vec;
use vstd::utf8::*;
use vstd::string::StringSliceAdditionalSpecFns;
use crate::coerce::{
    coerce_coord, coerce_population, coerce_text, coord_of, is_nan_literal, is_nan_text,
    is_number_literal, is_number_text, parse_u32, population_of, text_of, u32_of, Coord,
};
use crate::split::{body_len, bounds_of, field, field_bounds, line_body, split_commas};

verus! {

/// One record, typed.
#[derive(Debug, PartialEq)]
pub struct Row {
    pub city: String,
    pub state: String,
    pub population: Option<u32>,
    pub latitude: Coord,
    pub longitude: Coord,
}

/// What a [`Row`] holds, as mathematical values.
pub struct RowView {
    pub city: Seq<char>,
    pub state: Seq<char>,
    pub population: Option<u32>,
    pub latitude: Option<Seq<u8>>,
    pub longitude: Option<Seq<u8>>,
}

impl View for Row {
    type V = RowView;

    open spec fn view(&self) -> RowView {
        RowView {
            city: self.city@,
            state: self.state@,
            population: self.population,
            latitude: self.latitude@,
            longitude: self.longitude@,
        }
    }
}

/// The text that `String::from_utf8_lossy` makes of a byte string.
pub uninterp spec fn lossy_text(b: Seq<u8>) -> Seq<char>;

/// The fields of the first record that the `csv` reader finds in a byte string.
pub uninterp spec fn csv_record_of(b: Seq<u8>) -> Option<Seq<Seq<char>>>;

/// A line that needs no CSV quoting rules: non-empty valid UTF-8 that does not
/// start with a byte-order mark and holds no quote, `\r` or `\n` byte.
pub open spec fn plain_record(b: Seq<u8>) -> bool {
    &&& b.len() > 0
    &&& valid_utf8(b)
    &&& !(b.len() >= 3 && b[0] == 0xef && b[1] == 0xbb && b[2] == 0xbf)
    &&& forall|i: int| 0 <= i < b.len() ==> #[trigger] b[i] != 34 && b[i] != 10 && b[i] != 13
}

/// The comma-separated pieces of `b`, each decoded as UTF-8.
pub open spec fn decoded_fields(b: Seq<u8>) -> Seq<Seq<char>> {
    split_commas(b).map_values(|f: Seq<u8>| decode_utf8(f))
}

/// The fields of the first CSV record of `b`.
pub open spec fn csv_fields(b: Seq<u8>) -> Option<Seq<Seq<char>>> {
    if plain_record(b) {
        Some(decoded_fields(b))
    } else {
        csv_record_of(b)
    }
}

pub open spec fn strings_view(r: Option<Vec<String>>) -> Option<Seq<Seq<char>>> {
    match r {
        Some(v) => Some(v@.map_values(|s: String| s@)),
        None => None,
    }
}

/// Relies on `std::str::from_utf8`: it accepts exactly the valid UTF-8 byte
/// strings, and the text it returns is what those bytes encode.
#[verifier::external_body]
pub(crate) fn decode_utf8_line(b: &[u8]) -> (r: Option<&str>)
    ensures
        r is Some <==> valid_utf8(b@),
        r matches Some(t) ==> t@ == decode_utf8(b@),
{
    std::str::from_utf8(b).ok()
}

/// Relies on `String::from_utf8_lossy`: invalid sequences become U+FFFD, and
/// valid UTF-8 decodes unchanged.
#[verifier::external_body]
fn decode_lossy(b: &[u8]) -> (r: String)
    ensures
        valid_utf8(b@) ==> r@ == decode_utf8(b@),
        !valid_utf8(b@) ==> r@ == lossy_text(b@),
{
    String::from_utf8_lossy(b).into_owned()
}

/// Relies on `csv::Reader::read_record`, on a reader from `csv::ReaderBuilder`
/// with the default dialect (comma delimiter, `"` quotes, no comment byte) and
/// no header row: the fields of the first record of `b`, or `None` where there
/// is none or it is not valid UTF-8. A plain line is read as its
/// comma-separated pieces.
#[verifier::external_body]
fn read_csv_record(b: &[u8]) -> (r: Option<Vec<String>>)
    ensures
        plain_record(b@) ==> strings_view(r) == Some(decoded_fields(b@)),
        !plain_record(b@) ==> strings_view(r) == csv_record_of(b@),
{
    let mut rdr = csv::ReaderBuilder::new().has_headers(false).from_reader(b);
    let mut rec = csv::StringRecord::new();
    match rdr.read_record(&mut rec) {
        Ok(true) => Some(rec.iter().map(String::from).collect()),
        _ => None,
    }
}

pub open spec fn decoded(f: Option<Seq<u8>>) -> Option<Seq<char>> {
    match f {
        Some(b) => Some(decode_utf8(b)),
        None => None,
    }
}

/// A byte string as text: decoded where it is valid UTF-8, else with each
/// invalid sequence replaced.
pub open spec fn lossy_decode(b: Seq<u8>) -> Seq<char> {
    if valid_utf8(b) {
        decode_utf8(b)
    } else {
        lossy_text(b)
    }
}

pub open spec fn lossy(f: Option<Seq<u8>>) -> Option<Seq<char>> {
    match f {
        Some(b) => Some(lossy_decode(b)),
        None => None,
    }
}

/// A row from split fields, with its two text fields already made.
pub open spec fn row_with(fs: Seq<Seq<u8>>, city: Seq<char>, state: Seq<char>) -> RowView {
    RowView {
        city,
        state,
        population: population_of(field(fs, 2)),
        latitude: coord_of(field(fs, 3)),
        longitude: coord_of(field(fs, 4)),
    }
}

/// The row that the manual-split strategy makes of a decoded line.
pub open spec fn text_row(t: Seq<char>) -> RowView {
    let fs = split_commas(line_body(encode_utf8(t)));
    row_with(fs, text_of(decoded(field(fs, 0))), text_of(decoded(field(fs, 1))))
}

/// The row that the raw-byte strategy makes of a line.
pub open spec fn byte_row(b: Seq<u8>) -> RowView {
    let fs = split_commas(line_body(b));
    row_with(fs, text_of(lossy(field(fs, 0))), text_of(lossy(field(fs, 1))))
}

/// Why the schema-validated strategy refuses a line.
#[derive(Clone, Copy, Debug, PartialEq, Eq, Structural)]
pub enum Reject {
    /// The CSV reader found no record, or one that is not UTF-8.
    Malformed,
    /// The record does not have exactly five fields.
    FieldCount,
    /// The population is neither empty nor a `u32`.
    Population,
    /// A coordinate is not a floating-point literal.
    Coordinate,
}

/// The schema's population column: empty is absent, else a `u32` or a refusal.
pub open spec fn schema_population(f: Seq<char>) -> Option<Option<u32>> {
    let b = encode_utf8(f);
    if b.len() == 0 {
        Some(None)
    } else {
        match u32_of(b) {
            Some(v) => Some(Some(v)),
            None => None,
        }
    }
}

/// The schema's coordinate columns: a number, NaN, or a refusal.
pub open spec fn schema_coord(f: Seq<char>) -> Option<Option<Seq<u8>>> {
    let b = encode_utf8(f);
    if is_number_text(b) {
        Some(Some(b))
    } else if is_nan_text(b) {
        Some(None)
    } else {
        None
    }
}

/// The outcome of the schema-validated strategy on a line.
pub open spec fn schema_row(b: Seq<u8>) -> Result<RowView, Reject> {
    match csv_fields(line_body(b)) {
        None => Err(Reject::Malformed),
        Some(fs) => if fs.len() != 5 {
            Err(Reject::FieldCount)
        } else if schema_population(fs[2]) is None {
            Err(Reject::Population)
        } else if schema_coord(fs[3]) is None || schema_coord(fs[4]) is None {
            Err(Reject::Coordinate)
        } else {
            Ok(
                RowView {
                    city: fs[0],
                    state: fs[1],
                    population: schema_population(fs[2])->0,
                    latitude: schema_coord(fs[3])->0,
                    longitude: schema_coord(fs[4])->0,
                },
            )
        },
    }
}

fn byte_field<'a>(s: &'a [u8], bounds: &Vec<(usize, usize)>, k: usize) -> (r: Option<&'a [u8]>)
    requires
        bounds_of(s@, bounds@),
    ensures
        field(split_commas(s@), k as int) == match r {
            Some(f) => Some(f@),
            None => None,
        },
{
    if k < bounds.len() {
        let (a, b) = bounds[k];
        Some(&s[a..b])
    } else {
        None
    }
}

fn lossy_field(s: &[u8], bounds: &Vec<(usize, usize)>, k: usize) -> (r: String)
    requires
        bounds_of(s@, bounds@),
    ensures
        r@ == text_of(lossy(field(split_commas(s@), k as int))),
{
    match byte_field(s, bounds, k) {
        Some(f) => {
            let t = decode_lossy(f);
            coerce_text(Some(t.as_str()))
        },
        None => coerce_text(None),
    }
}

/// In valid UTF-8, the position after an ASCII byte starts a character.
pub(crate) proof fn lemma_boundary_after_ascii(b: Seq<u8>, c: int)
    requires
        valid_utf8(b),
        0 <= c < b.len(),
        b[c] < 128,
    ensures
        is_char_boundary(b, c + 1),
{
    if c + 1 == b.len() {
        is_char_boundary_start_end_of_seq(b);
    } else {
        is_char_boundary_iff_not_is_continuation_byte(b, c);
        valid_utf8_split(b, c);
        let s2 = b.subrange(c, b.len() as int);
        let s3 = pop_first_scalar(s2);
        assert(s3 =~= b.subrange(c + 1, b.len() as int));
        is_char_boundary_start_end_of_seq(s3);
        is_char_boundary_iff_not_is_continuation_byte(s3, 0);
        is_char_boundary_iff_not_is_continuation_byte(b, c + 1);
    }
}

/// In valid UTF-8, an ASCII byte, or the end, starts a character.
pub(crate) proof fn lemma_boundary_at_ascii(b: Seq<u8>, c: int)
    requires
        valid_utf8(b),
        0 <= c <= b.len(),
        c < b.len() ==> b[c] < 128,
    ensures
        is_char_boundary(b, c),
{
    is_char_boundary_start_end_of_seq(b);
    if c < b.len() {
        is_char_boundary_iff_not_is_continuation_byte(b, c);
    }
}

fn text_field<'a>(t: &'a str, bounds: &Vec<(usize, usize)>, k: usize) -> (r: String)
    requires
        bounds_of(encode_utf8(t@), bounds@),
    ensures
        r@ == text_of(decoded(field(split_commas(encode_utf8(t@)), k as int))),
{
    if k < bounds.len() {
        let (a, b) = bounds[k];
        let ghost bs = encode_utf8(t@);
        proof {
            encode_utf8_valid_utf8(t@);
            lemma_boundary_at_ascii(bs, b as int);
        }
        let head = t.split_at(b).0;
        proof {
            let hb = bs.subrange(0, b as int);
            valid_utf8_split(bs, b as int);
            if a > 0 {
                lemma_boundary_after_ascii(bs, a - 1);
                assert(hb[a - 1] == bs[a - 1]);
                lemma_boundary_after_ascii(hb, a - 1);
            } else {
                is_char_boundary_start_end_of_seq(hb);
            }
            assert(head.spec_bytes() == hb);
        }
        let f = head.split_at(a).1;
        proof {
            assert(f.spec_bytes() =~= bs.subrange(a as int, b as int));
            encode_utf8_decode_utf8(f@);
        }
        coerce_text(Some(f))
    } else {
        coerce_text(None)
    }
}

/// The raw-byte strategy: split the undecoded line on comma bytes, then apply
/// the coercion policy to each of the first five fields.
pub fn parse_line_bytes(line: &[u8]) -> (r: Row)
    ensures
        r@ == byte_row(line@),
{
    let n = body_len(line);
    let body = &line[0..n];
    let bounds = field_bounds(body);
    let city = lossy_field(body, &bounds, 0);
    let state = lossy_field(body, &bounds, 1);
    let population = coerce_population(byte_field(body, &bounds, 2));
    let latitude = coerce_coord(byte_field(body, &bounds, 3));
    let longitude = coerce_coord(byte_field(body, &bounds, 4));
    Row { city, state, population, latitude, longitude }
}

/// The manual-split strategy: split the decoded line on commas, then apply the
/// coercion policy to each of the first five fields.
pub fn parse_line_text(line: &str) -> (r: Row)
    ensures
        r@ == text_row(line@),
{
    let bytes = line.as_bytes();
    let n = body_len(bytes);
    proof {
        encode_utf8_valid_utf8(line@);
        lemma_boundary_at_ascii(bytes@, n as int);
    }
    let body = line.split_at(n).0;
    let bb = body.as_bytes();
    assert(bb@ == line_body(encode_utf8(line@)));
    let bounds = field_bounds(bb);
    let city = text_field(body, &bounds, 0);
    let state = text_field(body, &bounds, 1);
    let population = coerce_population(byte_field(bb, &bounds, 2));
    let latitude = coerce_coord(byte_field(bb, &bounds, 3));
    let longitude = coerce_coord(byte_field(bb, &bounds, 4));
    Row { city, state, population, latitude, longitude }
}

fn schema_population_field(f: &String) -> (r: Option<Option<u32>>)
    ensures
        r == schema_population(f@),
{
    let b = f.as_str().as_bytes();
    if b.len() == 0 {
        Some(None)
    } else {
        match parse_u32(b) {
            Some(v) => Some(Some(v)),
            None => None,
        }
    }
}

fn schema_coord_field(f: &String) -> (r: Option<Coord>)
    ensures
        r is None <==> schema_coord(f@) is None,
        r matches Some(c) ==> schema_coord(f@) == Some(c@),
{
    let b = f.as_str().as_bytes();
    if is_number_literal(b) {
        Some(Coord::Num(slice_to_vec(b)))
    } else if is_nan_literal(b) {
        Some(Coord::NaN)
    } else {
        None
    }
}

/// The schema-validated strategy: read the line as a CSV record, then hold it
/// to five fields of the declared types, refusing it where it does not fit.
pub fn parse_record_schema(line: &[u8]) -> (r: Result<Row, Reject>)
    ensures
        match r {
            Ok(row) => schema_row(line@) == Ok::<RowView, Reject>(row@),
            Err(e) => schema_row(line@) == Err::<RowView, Reject>(e),
        },
{
    let n = body_len(line);
    let rec = read_csv_record(&line[0..n]);
    match rec {
        None => Err(Reject::Malformed),
        Some(fs) => {
            if fs.len() != 5 {
                return Err(Reject::FieldCount);
            }
            match schema_population_field(&fs[2]) {
                None => Err(Reject::Population),
                Some(population) => {
                    let lat = schema_coord_field(&fs[3]);
                    let lon = schema_coord_field(&fs[4]);
                    match (lat, lon) {
                        (Some(latitude), Some(longitude)) => Ok(
                            Row {
                                city: fs[0].clone(),
                                state: fs[1].clone(),
                                population,
                                latitude,
                                longitude,
                            },
                        ),
                        _ => Err(Reject::Coordinate),
                    }
                },
            }
        },
    }
}

} // verus!
