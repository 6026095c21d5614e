//! Laws that relate the strategies, the driver and the coercion policy.

use vstd::prelude::*;
use vstd::utf8::*;
use crate::coerce::{coord_of, is_nan_text, is_number_text, population_of, u32_of};
use crate::driver::{
    data_events, data_lines, is_run_of, kept_rows, lines_of, outcome, rejected_count, skipped_count, Ingested,
    Outcome, Variant,
};
use crate::row::{byte_row, lossy_decode, plain_record, text_row};
use crate::split::{field, line_body, split_commas};

verus! {

/// Every line event ends as exactly one of a committed row, a skip or a refusal.
pub proof fn lemma_line_accounting(v: Variant, es: Seq<Option<Seq<u8>>>)
    ensures
        kept_rows(v, es).len() + skipped_count(v, es) + rejected_count(v, es) == es.len(),
    decreases es.len(),
{
    if es.len() > 0 {
        lemma_line_accounting(v, es.drop_last());
    }
}

/// A finished run has one row for each line of the source, less the header
/// where there is one, less the lines skipped and refused.
pub proof fn lemma_run_row_count(x: Ingested, d: Seq<u8>, v: Variant, has_header: bool)
    requires
        is_run_of(x, d, v, has_header),
    ensures
        x.table.rows().len() == lines_of(d).len() - (if has_header && lines_of(d).len() > 0 {
            1int
        } else {
            0int
        }) - x.skipped - x.rejected,
{
    lemma_line_accounting(v, data_events(lines_of(d), has_header));
}

/// Two runs of one strategy over the same source give equal tables and counts.
pub proof fn lemma_reingest_equal(
    a: Ingested,
    b: Ingested,
    d: Seq<u8>,
    v: Variant,
    has_header: bool,
)
    requires
        is_run_of(a, d, v, has_header),
        is_run_of(b, d, v, has_header),
    ensures
        a.table.rows() == b.table.rows(),
        a.skipped == b.skipped,
        a.rejected == b.rejected,
{
}

/// A well-formed data line: valid UTF-8 with exactly five unquoted fields, an
/// empty or `u32` population and two coordinates that read as floating-point
/// values.
pub open spec fn well_formed_line(l: Seq<u8>) -> bool {
    let b = line_body(l);
    let fs = split_commas(b);
    &&& valid_utf8(l)
    &&& plain_record(b)
    &&& fs.len() == 5
    &&& (fs[2].len() == 0 || u32_of(fs[2]) is Some)
    &&& (is_number_text(fs[3]) || is_nan_text(fs[3]))
    &&& (is_number_text(fs[4]) || is_nan_text(fs[4]))
}

proof fn lemma_split_no_comma(s: Seq<u8>)
    requires
        forall|i: int| 0 <= i < s.len() ==> #[trigger] s[i] != 44,
    ensures
        split_commas(s) == seq![s],
    decreases s.len(),
{
    if s.len() > 0 {
        let t = s.drop_last();
        assert forall|i: int| 0 <= i < t.len() implies #[trigger] t[i] != 44 by {
            assert(t[i] == s[i]);
        }
        lemma_split_no_comma(t);
        assert(s.last() != 44);
        assert(t.push(s.last()) =~= s);
        assert(split_commas(s) =~= seq![s]);
    } else {
        assert(s =~= Seq::<u8>::empty());
        assert(split_commas(s) =~= seq![s]);
    }
}

proof fn lemma_split_concat(p: Seq<u8>, s: Seq<u8>)
    ensures
        split_commas(p.push(44) + s) == split_commas(p) + split_commas(s),
    decreases s.len(),
{
    let x = p.push(44) + s;
    if s.len() == 0 {
        assert(x =~= p.push(44));
        assert(x.drop_last() =~= p);
        assert(split_commas(x) =~= split_commas(p) + split_commas(s));
    } else {
        let t = s.drop_last();
        lemma_split_concat(p, t);
        assert(x.drop_last() =~= p.push(44) + t);
        crate::split::lemma_split_nonempty(t);
        assert(split_commas(x) =~= split_commas(p) + split_commas(s));
    }
}

/// Each comma-separated piece of valid UTF-8 is valid UTF-8.
proof fn lemma_split_valid(b: Seq<u8>)
    requires
        valid_utf8(b),
    ensures
        forall|k: int| 0 <= k < split_commas(b).len() ==> valid_utf8(#[trigger] split_commas(b)[k]),
    decreases b.len(),
{
    if exists|i: int| 0 <= i < b.len() && b[i] == 44 {
        let c = choose|i: int| 0 <= i < b.len() && b[i] == 44;
        let p = b.subrange(0, c);
        let s = b.subrange(c + 1, b.len() as int);
        assert(b =~= p.push(44) + s);
        lemma_split_concat(p, s);
        crate::row::lemma_boundary_at_ascii(b, c);
        crate::row::lemma_boundary_after_ascii(b, c);
        valid_utf8_split(b, c);
        valid_utf8_split(b, c + 1);
        lemma_split_valid(p);
        lemma_split_valid(s);
        let fp = split_commas(p);
        let fs = split_commas(s);
        assert forall|k: int| 0 <= k < split_commas(b).len() implies valid_utf8(
            #[trigger] split_commas(b)[k],
        ) by {
            if k < fp.len() {
                assert(split_commas(b)[k] == fp[k]);
            } else {
                assert(split_commas(b)[k] == fs[k - fp.len()]);
            }
        }
    } else {
        lemma_split_no_comma(b);
    }
}

/// On a well-formed line the three strategies keep the same row.
pub proof fn lemma_line_agree(l: Seq<u8>)
    requires
        well_formed_line(l),
    ensures
        outcome(Variant::ManualSplit, Some(l)) == Outcome::Kept(byte_row(l)),
        outcome(Variant::Schema, Some(l)) == Outcome::Kept(byte_row(l)),
{
    let b = line_body(l);
    let fs = split_commas(b);
    decode_utf8_encode_utf8(l);
    lemma_split_valid(b);
    assert forall|k: int| 0 <= k < fs.len() implies valid_utf8(#[trigger] fs[k]) && encode_utf8(
        decode_utf8(fs[k]),
    ) == fs[k] && lossy_decode(fs[k]) == decode_utf8(fs[k]) by {
        decode_utf8_encode_utf8(fs[k]);
    }
    assert(text_row(decode_utf8(l)) == byte_row(l));
}

/// On a source of well-formed lines the three strategies keep the same rows,
/// and none skips or refuses a line.
pub proof fn lemma_strategies_agree(es: Seq<Option<Seq<u8>>>)
    requires
        forall|i: int| 0 <= i < es.len() ==> (#[trigger] es[i] matches Some(l) && well_formed_line(l)),
    ensures
        kept_rows(Variant::Schema, es) == kept_rows(Variant::ManualSplit, es),
        kept_rows(Variant::ByteSplit, es) == kept_rows(Variant::ManualSplit, es),
        kept_rows(Variant::ManualSplit, es).len() == es.len(),
        skipped_count(Variant::Schema, es) == 0,
        skipped_count(Variant::ManualSplit, es) == 0,
        skipped_count(Variant::ByteSplit, es) == 0,
        rejected_count(Variant::Schema, es) == 0,
        rejected_count(Variant::ManualSplit, es) == 0,
        rejected_count(Variant::ByteSplit, es) == 0,
    decreases es.len(),
{
    if es.len() > 0 {
        let t = es.drop_last();
        assert forall|i: int| 0 <= i < t.len() implies (#[trigger] t[i] matches Some(l)
            && well_formed_line(l)) by {
            assert(t[i] == es[i]);
        }
        lemma_strategies_agree(t);
        let last = es[es.len() - 1];
        lemma_line_agree(last->0);
    }
}

/// Over a source whose data lines are all well-formed, the three strategies
/// make the same table, and none skips or refuses a line.
pub proof fn lemma_runs_agree(
    d: Seq<u8>,
    has_header: bool,
    schema: Ingested,
    manual: Ingested,
    bytes: Ingested,
)
    requires
        forall|i: int|
            0 <= i < data_lines(lines_of(d), has_header).len() ==> well_formed_line(
                #[trigger] data_lines(lines_of(d), has_header)[i],
            ),
        is_run_of(schema, d, Variant::Schema, has_header),
        is_run_of(manual, d, Variant::ManualSplit, has_header),
        is_run_of(bytes, d, Variant::ByteSplit, has_header),
    ensures
        schema.table.rows() == manual.table.rows(),
        bytes.table.rows() == manual.table.rows(),
        schema.skipped == 0 && schema.rejected == 0,
        manual.skipped == 0 && manual.rejected == 0,
        bytes.skipped == 0 && bytes.rejected == 0,
{
    let es = data_events(lines_of(d), has_header);
    let ls = data_lines(lines_of(d), has_header);
    assert forall|i: int| 0 <= i < es.len() implies (#[trigger] es[i] matches Some(l)
        && well_formed_line(l)) by {
        assert(es[i] == Some(ls[i]));
    }
    lemma_strategies_agree(es);
}

/// A latitude that does not read as a number becomes NaN, and the population
/// of that row is what its own field gives.
pub proof fn lemma_latitude_fallback(l: Seq<u8>)
    requires
        split_commas(line_body(l)).len() > 3,
        !is_number_text(split_commas(line_body(l))[3]),
    ensures
        byte_row(l).latitude is None,
        byte_row(l).population == population_of(field(split_commas(line_body(l)), 2)),
        valid_utf8(l) ==> text_row(decode_utf8(l)).latitude is None,
        valid_utf8(l) ==> text_row(decode_utf8(l)).population == population_of(
            field(split_commas(line_body(l)), 2),
        ),
{
    if valid_utf8(l) {
        decode_utf8_encode_utf8(l);
    }
}

/// A population that is not a `u32` becomes absent, and the coordinates of
/// that row are what their own fields give.
pub proof fn lemma_population_fallback(l: Seq<u8>)
    requires
        split_commas(line_body(l)).len() > 2,
        u32_of(split_commas(line_body(l))[2]) is None,
    ensures
        byte_row(l).population is None,
        byte_row(l).latitude == coord_of(field(split_commas(line_body(l)), 3)),
        byte_row(l).longitude == coord_of(field(split_commas(line_body(l)), 4)),
        valid_utf8(l) ==> text_row(decode_utf8(l)).population is None,
        valid_utf8(l) ==> text_row(decode_utf8(l)).latitude == coord_of(
            field(split_commas(line_body(l)), 3),
        ),
        valid_utf8(l) ==> text_row(decode_utf8(l)).longitude == coord_of(
            field(split_commas(line_body(l)), 4),
        ),
{
    if valid_utf8(l) {
        decode_utf8_encode_utf8(l);
    }
}

/// A line with fewer than five fields still becomes a row, with the sentinel
/// for each missing text field and NaN or absent for each missing number.
pub proof fn lemma_missing_fields(l: Seq<u8>)
    requires
        split_commas(line_body(l)).len() < 5,
    ensures
        outcome(Variant::ByteSplit, Some(l)) == Outcome::Kept(byte_row(l)),
        valid_utf8(l) ==> outcome(Variant::ManualSplit, Some(l)) == Outcome::Kept(
            text_row(decode_utf8(l)),
        ),
        ({
            let n = split_commas(line_body(l)).len();
            &&& n < 2 ==> byte_row(l).state == crate::coerce::sentinel()
            &&& n < 3 ==> byte_row(l).population is None
            &&& n < 4 ==> byte_row(l).latitude is None
            &&& byte_row(l).longitude is None
            &&& valid_utf8(l) && n < 2 ==> text_row(decode_utf8(l)).state
                == crate::coerce::sentinel()
            &&& valid_utf8(l) && n < 3 ==> text_row(decode_utf8(l)).population is None
            &&& valid_utf8(l) && n < 4 ==> text_row(decode_utf8(l)).latitude is None
            &&& valid_utf8(l) ==> text_row(decode_utf8(l)).longitude is None
        }),
{
    if valid_utf8(l) {
        decode_utf8_encode_utf8(l);
    }
}

} // verus!
