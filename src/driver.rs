//! The ingestion driver: header handling, one strategy over every data line,
//! and the counts of lines that did not become rows.

use vstd::prelude::*;
use vstd::utf8::*;
use crate::row::{
    byte_row, decode_utf8_line, parse_line_bytes, parse_line_text, parse_record_schema, schema_row,
    text_row, RowView,
};
use crate::table::CityPop;
use crate::laws::lemma_line_accounting;

verus! {

/// Which row strategy the driver applies.
#[derive(Clone, Copy, Debug, PartialEq, Eq, Structural)]
pub enum Variant {
    /// CSV records held to a declared schema; may refuse a line.
    Schema,
    /// Decoded text split on commas; skips a line that is not UTF-8.
    ManualSplit,
    /// Raw bytes split on the comma byte; never drops a line.
    ByteSplit,
}

/// What becomes of one data line.
pub enum Outcome {
    Kept(RowView),
    /// The line could not be read, or not decoded as text.
    Skipped,
    /// The schema refused the line.
    Rejected,
}

/// The outcome of one line event; `None` is a line that could not be read.
pub open spec fn outcome(v: Variant, e: Option<Seq<u8>>) -> Outcome {
    match e {
        None => Outcome::Skipped,
        Some(line) => match v {
            Variant::ManualSplit => if valid_utf8(line) {
                Outcome::Kept(text_row(decode_utf8(line)))
            } else {
                Outcome::Skipped
            },
            Variant::ByteSplit => Outcome::Kept(byte_row(line)),
            Variant::Schema => match schema_row(line) {
                Ok(r) => Outcome::Kept(r),
                Err(_) => Outcome::Rejected,
            },
        },
    }
}

/// The rows that a run of line events commits, in order.
pub open spec fn kept_rows(v: Variant, es: Seq<Option<Seq<u8>>>) -> Seq<RowView>
    decreases es.len(),
{
    if es.len() == 0 {
        Seq::empty()
    } else {
        let r = kept_rows(v, es.drop_last());
        match outcome(v, es.last()) {
            Outcome::Kept(row) => r.push(row),
            _ => r,
        }
    }
}

/// The number of skipped line events.
pub open spec fn skipped_count(v: Variant, es: Seq<Option<Seq<u8>>>) -> nat
    decreases es.len(),
{
    if es.len() == 0 {
        0
    } else {
        skipped_count(v, es.drop_last()) + if outcome(v, es.last()) is Skipped {
            1nat
        } else {
            0nat
        }
    }
}

/// The number of refused line events.
pub open spec fn rejected_count(v: Variant, es: Seq<Option<Seq<u8>>>) -> nat
    decreases es.len(),
{
    if es.len() == 0 {
        0
    } else {
        rejected_count(v, es.drop_last()) + if outcome(v, es.last()) is Rejected {
            1nat
        } else {
            0nat
        }
    }
}

/// The lines of a source, each with its `\n` terminator where it has one, as
/// `BufRead::read_until` yields them.
pub open spec fn lines_of(d: Seq<u8>) -> Seq<Seq<u8>>
    decreases d.len(),
{
    if d.len() == 0 {
        Seq::empty()
    } else {
        let r = lines_of(d.drop_last());
        if r.len() == 0 || r.last().len() == 0 || r.last().last() == 10 {
            r.push(seq![d.last()])
        } else {
            r.update(r.len() - 1, r.last().push(d.last()))
        }
    }
}

/// The line events of a run over `lines`: all but the header, where there is one.
pub open spec fn data_events(lines: Seq<Seq<u8>>, has_header: bool) -> Seq<Option<Seq<u8>>> {
    data_lines(lines, has_header).map_values(|l: Seq<u8>| Some(l))
}

/// The lines after the header, where there is one.
pub open spec fn data_lines(lines: Seq<Seq<u8>>, has_header: bool) -> Seq<Seq<u8>> {
    if has_header && lines.len() > 0 {
        lines.drop_first()
    } else {
        lines
    }
}

/// `x` is what a run of strategy `v` makes of the source `d`.
pub open spec fn is_run_of(x: Ingested, d: Seq<u8>, v: Variant, has_header: bool) -> bool {
    let es = data_events(lines_of(d), has_header);
    &&& x.table.wf()
    &&& x.table.rows() == kept_rows(v, es)
    &&& x.skipped == skipped_count(v, es)
    &&& x.rejected == rejected_count(v, es)
}

/// A run of the driver over one opened source.
pub struct Ingestion {
    variant: Variant,
    header_pending: bool,
    table: CityPop,
    skipped: usize,
    rejected: usize,
    events: Ghost<Seq<Option<Seq<u8>>>>,
}

/// A finished run: the table and the counts of lines that did not become rows.
pub struct Ingested {
    pub table: CityPop,
    /// Lines that could not be read or decoded.
    pub skipped: usize,
    /// Lines that the schema refused.
    pub rejected: usize,
}

/// The one unrecoverable failure: the source could not be opened.
#[derive(Clone, Copy, Debug, PartialEq, Eq, Structural)]
pub enum Fatal {
    Unopened,
}

impl Ingestion {
    pub closed spec fn inv(&self) -> bool {
        &&& self.table.wf()
        &&& self.table.rows() == kept_rows(self.variant, self.events@)
        &&& self.skipped == skipped_count(self.variant, self.events@)
        &&& self.rejected == rejected_count(self.variant, self.events@)
    }

    /// The data line events so far.
    pub closed spec fn events(&self) -> Seq<Option<Seq<u8>>> {
        self.events@
    }

    pub closed spec fn variant(&self) -> Variant {
        self.variant
    }

    /// Whether the next line is the header, to be dropped unparsed.
    pub closed spec fn header_pending(&self) -> bool {
        self.header_pending
    }

    /// A run over a source that has just been opened.
    pub fn open(variant: Variant, has_header: bool, capacity: usize) -> (r: Ingestion)
        ensures
            r.inv(),
            r.variant() == variant,
            r.header_pending() == has_header,
            r.events() == Seq::<Option<Seq<u8>>>::empty(),
    {
        Ingestion {
            variant,
            header_pending: has_header,
            table: CityPop::new(capacity),
            skipped: 0,
            rejected: 0,
            events: Ghost(Seq::empty()),
        }
    }

    fn record(&mut self, e: Ghost<Option<Seq<u8>>>, o: Result<crate::row::Row, bool>)
        requires
            old(self).inv(),
            old(self).events().len() < usize::MAX,
            match o {
                Ok(row) => outcome(old(self).variant(), e@) == Outcome::Kept(row@),
                Err(true) => outcome(old(self).variant(), e@) is Skipped,
                Err(false) => outcome(old(self).variant(), e@) is Rejected,
            },
        ensures
            final(self).inv(),
            final(self).variant() == old(self).variant(),
            final(self).header_pending() == old(self).header_pending(),
            final(self).events() == old(self).events().push(e@),
    {
        let ghost es = self.events@.push(e@);
        assert(es.drop_last() =~= self.events@);
        proof {
            lemma_line_accounting(self.variant, self.events@);
        }
        match o {
            Ok(row) => self.table.add_record(row),
            Err(true) => self.skipped = self.skipped + 1,
            Err(false) => self.rejected = self.rejected + 1,
        }
        self.events = Ghost(es);
    }

    /// Hands one line, with its terminator, to the run: the header where one
    /// is pending, else a data line for the chosen strategy.
    pub fn feed(&mut self, line: &[u8])
        requires
            old(self).inv(),
            old(self).events().len() < usize::MAX,
        ensures
            final(self).inv(),
            final(self).variant() == old(self).variant(),
            !final(self).header_pending(),
            final(self).events() == if old(self).header_pending() {
                old(self).events()
            } else {
                old(self).events().push(Some(line@))
            },
    {
        if self.header_pending {
            self.header_pending = false;
            return;
        }
        let e = Ghost(Some(line@));
        match self.variant {
            Variant::ManualSplit => match decode_utf8_line(line) {
                Some(t) => self.record(e, Ok(parse_line_text(t))),
                None => self.record(e, Err(true)),
            },
            Variant::ByteSplit => self.record(e, Ok(parse_line_bytes(line))),
            Variant::Schema => match parse_record_schema(line) {
                Ok(row) => self.record(e, Ok(row)),
                Err(_) => self.record(e, Err(false)),
            },
        }
    }

    /// Records a line that could not be read; the run goes on.
    pub fn line_unreadable(&mut self)
        requires
            old(self).inv(),
            old(self).events().len() < usize::MAX,
        ensures
            final(self).inv(),
            final(self).variant() == old(self).variant(),
            final(self).header_pending() == old(self).header_pending(),
            final(self).events() == old(self).events().push(None),
    {
        self.record(Ghost(None), Err(true));
    }

    /// Ends the run at the end of the source.
    pub fn finish(self) -> (r: Ingested)
        requires
            self.inv(),
        ensures
            r.table.wf(),
            r.table.rows() == kept_rows(self.variant(), self.events()),
            r.skipped == skipped_count(self.variant(), self.events()),
            r.rejected == rejected_count(self.variant(), self.events()),
    {
        Ingested { table: self.table, skipped: self.skipped, rejected: self.rejected }
    }
}

/// The in-memory run: the source's bytes, or `None` where it could not be
/// opened, which is fatal. Each line goes to the driver in turn.
pub fn ingest(source: Option<&[u8]>, variant: Variant, has_header: bool) -> (r: Result<
    Ingested,
    Fatal,
>)
    ensures
        source is None ==> r == Err::<Ingested, Fatal>(Fatal::Unopened),
        source matches Some(d) ==> r matches Ok(x) && is_run_of(x, d@, variant, has_header),
{
    let d = match source {
        None => return Err(Fatal::Unopened),
        Some(d) => d,
    };
    let mut run = Ingestion::open(variant, has_header, 0);
    let ghost mut fed: Seq<Seq<u8>> = Seq::empty();
    let mut start: usize = 0;
    let mut i: usize = 0;
    assert(d@.subrange(0, 0) =~= Seq::<u8>::empty());
    assert(data_events(fed, has_header) =~= Seq::<Option<Seq<u8>>>::empty());
    while i < d.len()
        invariant
            start <= i <= d.len(),
            fed.len() <= start,
            start < i ==> d@[i - 1] != 10,
            lines_of(d@.subrange(0, i as int)) == if start < i {
                fed.push(d@.subrange(start as int, i as int))
            } else {
                fed
            },
            fed.len() > 0 ==> fed.last().len() > 0 && fed.last().last() == 10,
            start == i && i > 0 ==> fed.len() > 0,
            run.inv(),
            run.variant() == variant,
            run.events() == data_events(fed, has_header),
            run.header_pending() == (has_header && fed.len() == 0),
        decreases d.len() - i,
    {
        let ghost p = d@.subrange(0, i as int);
        let ghost q = d@.subrange(0, i + 1);
        assert(q.drop_last() =~= p);
        assert(q.last() == d@[i as int]);
        let ghost cur = d@.subrange(start as int, i + 1);
        if start < i {
            assert(cur =~= d@.subrange(start as int, i as int).push(d@[i as int]));
        } else {
            assert(cur =~= seq![d@[i as int]]);
        }
        if d[i] == 10 {
            proof {
                if has_header && fed.len() > 0 {
                    assert(fed.push(cur).drop_first() =~= fed.drop_first().push(cur));
                }
                assert(data_events(fed.push(cur), has_header) =~= if has_header && fed.len() == 0 {
                    data_events(fed, has_header)
                } else {
                    data_events(fed, has_header).push(Some(cur))
                });
            }
            run.feed(&d[start..i + 1]);
            proof {
                fed = fed.push(cur);
            }
            start = i + 1;
        }
        i = i + 1;
    }
    assert(d@.subrange(0, i as int) =~= d@);
    if start < d.len() {
        let ghost cur = d@.subrange(start as int, i as int);
        proof {
            if has_header && fed.len() > 0 {
                assert(fed.push(cur).drop_first() =~= fed.drop_first().push(cur));
            }
            assert(data_events(fed.push(cur), has_header) =~= if has_header && fed.len() == 0 {
                data_events(fed, has_header)
            } else {
                data_events(fed, has_header).push(Some(cur))
            });
        }
        run.feed(&d[start..d.len()]);
        proof {
            fed = fed.push(cur);
        }
    }
    Ok(run.finish())
}

} // verus!
