//! Snapshots of kernel counters and the parser that reads them from text.
use vstd::prelude::*;
use vstd::slice::slice_subrange;
use crate::text::{
    all_digits, is_number, lemma_run_len, lines, number_value, parse_number, pieces, run_len,
    split_lines, tokenize, tokens, Delimiter,
};

verus! {

/// A family of counters, each with its own text format.
#[derive(Clone, Copy, Debug, PartialEq, Eq, Structural)]
pub enum Family {
    /// Processor time, one row for the whole machine and one for each processor.
    Cpu,
    /// Network traffic, one row for each interface.
    Network,
}

/// Why a sampling operation produced no result.
#[derive(Clone, Copy, Debug, PartialEq, Eq, Structural)]
pub enum SampleError {
    /// The counter source gave no text at all.
    SourceUnavailable,
    /// A retained line holds a token that is no counter, or too few counters.
    /// `line` is the zero-based index of the first such line.
    MalformedCounterLine { line: usize, family: Family },
    /// The two snapshots of a pair differ in shape, or do not fit their family.
    SnapshotShapeMismatch,
    /// No time passed between the two snapshots of a pair.
    ZeroElapsedDelta,
    /// A counter is smaller in the later snapshot than in the earlier one.
    CounterRegressed,
}

impl Family {
    /// The least number of counters that a row of this family holds: the seven
    /// processor time categories, or an interface's counters up to and
    /// including its transmitted bytes.
    pub open spec fn min_counters(self) -> nat {
        match self {
            Family::Cpu => 7,
            Family::Network => 9,
        }
    }

    /// Executable form of [`Family::min_counters`].
    pub fn least_counters(self) -> (n: usize)
        ensures
            n == self.min_counters(),
    {
        match self {
            Family::Cpu => 7,
            Family::Network => 9,
        }
    }
}

/// One read of all the counters of a family: one row of counters for each source.
#[derive(Debug, PartialEq, Eq)]
pub struct Snapshot {
    pub rows: Vec<Vec<usize>>,
}

impl View for Snapshot {
    type V = Seq<Seq<usize>>;

    open spec fn view(&self) -> Seq<Seq<usize>> {
        Seq::new(self.rows@.len(), |i: int| self.rows@[i]@)
    }
}

/// Whether every row holds at least the counters that its family needs.
pub open spec fn has_arity(rows: Seq<Seq<usize>>, family: Family) -> bool {
    forall|i: int| 0 <= i < rows.len() ==> (#[trigger] rows[i]).len() >= family.min_counters()
}

/// Whether token `t` labels a processor row: `cpu`, then zero or more digits.
pub open spec fn is_cpu_label(t: Seq<u8>) -> bool {
    t.len() >= 3 && t[0] == 99 && t[1] == 112 && t[2] == 117 && all_digits(t.skip(3))
}

/// The counter tokens of a line, or `None` for a line that is not retained.
/// A processor line starts with a row label, which is left out. An interface
/// line holds a colon, and its tokens are those after the first colon.
pub open spec fn fields(line: Seq<u8>, family: Family) -> Option<Seq<Seq<u8>>> {
    match family {
        Family::Cpu => {
            let ts = tokens(line);
            if ts.len() > 0 && is_cpu_label(ts[0]) {
                Some(ts.skip(1))
            } else {
                None
            }
        },
        Family::Network => {
            let k = run_len(line, Delimiter::Colon);
            if k < line.len() {
                Some(tokens(line.skip(k as int + 1)))
            } else {
                None
            }
        },
    }
}

/// Whether the tokens `fs` make a row of `family`: enough of them, each a counter.
pub open spec fn row_ok(fs: Seq<Seq<u8>>, family: Family) -> bool {
    fs.len() >= family.min_counters() && forall|i: int|
        0 <= i < fs.len() ==> is_number(#[trigger] fs[i])
}

/// The counters that the tokens `fs` write.
pub open spec fn row_values(fs: Seq<Seq<u8>>) -> Seq<usize> {
    Seq::new(fs.len(), |i: int| number_value(fs[i]) as usize)
}

/// Whether a line is either not retained or makes a row.
pub open spec fn line_ok(line: Seq<u8>, family: Family) -> bool {
    fields(line, family) matches Some(fs) ==> row_ok(fs, family)
}

/// The rows of the retained lines among `ls`, in order.
pub open spec fn rows_of(ls: Seq<Seq<u8>>, family: Family) -> Seq<Seq<usize>>
    decreases ls.len(),
{
    if ls.len() == 0 {
        Seq::empty()
    } else {
        let head = rows_of(ls.drop_last(), family);
        match fields(ls.last(), family) {
            Some(fs) => head.push(row_values(fs)),
            None => head,
        }
    }
}

/// Whether line `k` is the first of `ls` that is retained and makes no row.
pub open spec fn is_first_malformed(ls: Seq<Seq<u8>>, family: Family, k: int) -> bool {
    &&& 0 <= k < ls.len()
    &&& !line_ok(ls[k], family)
    &&& forall|j: int| 0 <= j < k ==> line_ok(#[trigger] ls[j], family)
}

/// What a text parses to: the rows of its retained lines, or an error that
/// names its first malformed line.
pub open spec fn parse(text: Seq<u8>, family: Family) -> Result<Seq<Seq<usize>>, SampleError> {
    let ls = lines(text);
    if exists|k: int| is_first_malformed(ls, family, k) {
        Err(
            SampleError::MalformedCounterLine {
                line: (choose|k: int| is_first_malformed(ls, family, k)) as usize,
                family,
            },
        )
    } else {
        Ok(rows_of(ls, family))
    }
}

/// Whether `r` is what parsing `text` gives: the snapshot of its rows, each with
/// the counters of its family, or the error for its first malformed line.
pub open spec fn is_parse_of(
    r: Result<Snapshot, SampleError>,
    text: Seq<u8>,
    family: Family,
) -> bool {
    match r {
        Ok(s) => parse(text, family) == Ok::<Seq<Seq<usize>>, SampleError>(s@) && has_arity(
            s@,
            family,
        ),
        Err(e) => parse(text, family) == Err::<Seq<Seq<usize>>, SampleError>(e),
    }
}

/// Parsing is idempotent: two parses of one text give the same rows, or the
/// same error.
pub proof fn lemma_parse_twice_agrees(
    text: Seq<u8>,
    family: Family,
    first: Result<Snapshot, SampleError>,
    second: Result<Snapshot, SampleError>,
)
    requires
        is_parse_of(first, text, family),
        is_parse_of(second, text, family),
    ensures
        match (first, second) {
            (Ok(a), Ok(b)) => a@ == b@,
            (Err(x), Err(y)) => x == y,
            _ => false,
        },
{
}

/// Whether a token labels a processor row.
pub fn is_label(tok: &[u8]) -> (r: bool)
    ensures
        r == is_cpu_label(tok@),
{
    if tok.len() < 3 || tok[0] != 99 || tok[1] != 112 || tok[2] != 117 {
        return false;
    }
    let ghost ds = tok@.skip(3);
    let mut i: usize = 3;
    while i < tok.len()
        invariant
            3 <= i <= tok.len(),
            ds == tok@.skip(3),
            all_digits(ds.take(i - 3)),
        decreases tok.len() - i,
    {
        if tok[i] < 48 || tok[i] > 57 {
            assert(ds[i - 3] == tok@[i as int]);
            return false;
        }
        proof {
            let next = ds.take(i - 3 + 1);
            assert forall|j: int| 0 <= j < next.len() implies crate::text::is_digit(
                #[trigger] next[j],
            ) by {
                if j < i - 3 {
                    assert(next[j] == ds.take(i - 3)[j]);
                }
            }
        }
        i += 1;
    }
    assert(ds.take(i - 3) =~= ds);
    true
}

/// Reads the tokens of `toks` from index `from` on as the counters of a row.
pub fn parse_fields(toks: &Vec<Vec<u8>>, from: usize, family: Family) -> (r: Option<Vec<usize>>)
    requires
        from <= toks.len(),
    ensures
        r.is_some() <==> row_ok(pieces(toks@).skip(from as int), family),
        r matches Some(v) ==> v@ == row_values(pieces(toks@).skip(from as int)),
{
    let ghost fs = pieces(toks@).skip(from as int);
    if toks.len() - from < family.least_counters() {
        return None;
    }
    let mut row: Vec<usize> = Vec::new();
    let mut i: usize = from;
    while i < toks.len()
        invariant
            from <= i <= toks.len(),
            fs == pieces(toks@).skip(from as int),
            row@.len() == i - from,
            forall|j: int| 0 <= j < i - from ==> is_number(#[trigger] fs[j]),
            forall|j: int| 0 <= j < i - from ==> row@[j] == number_value(fs[j]),
        decreases toks.len() - i,
    {
        assert(fs[i - from] == toks@[i as int]@);
        match parse_number(toks[i].as_slice()) {
            None => {
                return None;
            },
            Some(v) => {
                row.push(v);
            },
        }
        i += 1;
    }
    assert(row@ =~= row_values(fs));
    Some(row)
}

/// What one line of a counter text holds.
#[derive(Debug)]
pub enum Line {
    /// The line is not retained.
    Skipped,
    /// The line is retained and makes this row.
    Row(Vec<usize>),
    /// The line is retained and makes no row.
    Malformed,
}

/// Reads one line of a counter text of `family`.
pub fn parse_line(line: &[u8], family: Family) -> (r: Line)
    ensures
        match r {
            Line::Skipped => fields(line@, family).is_none(),
            Line::Row(v) => fields(line@, family) matches Some(fs) && row_ok(fs, family) && v@
                == row_values(fs),
            Line::Malformed => fields(line@, family) matches Some(fs) && !row_ok(fs, family),
        },
{
    let toks: Vec<Vec<u8>>;
    let from: usize;
    match family {
        Family::Cpu => {
            toks = tokenize(line);
            if toks.len() == 0 || !is_label(toks[0].as_slice()) {
                assert(toks.len() > 0 ==> pieces(toks@)[0] == toks@[0]@);
                return Line::Skipped;
            }
            assert(pieces(toks@)[0] == toks@[0]@);
            from = 1;
        },
        Family::Network => {
            let mut k: usize = 0;
            while k < line.len() && line[k] != 58
                invariant
                    k <= line.len(),
                    forall|j: int| 0 <= j < k ==> !Delimiter::Colon.matches(#[trigger] line@[j]),
                decreases line.len() - k,
            {
                k += 1;
            }
            proof {
                lemma_run_len(line@, Delimiter::Colon, k as nat);
            }
            if k == line.len() {
                return Line::Skipped;
            }
            let rest = slice_subrange(line, k + 1, line.len());
            assert(rest@ =~= line@.skip(k + 1));
            toks = tokenize(rest);
            assert(pieces(toks@).skip(0) =~= pieces(toks@));
            from = 0;
        },
    }
    match parse_fields(&toks, from, family) {
        Some(v) => Line::Row(v),
        None => Line::Malformed,
    }
}

/// Parses the text of a counter source of `family` into a snapshot.
pub fn parse_snapshot(text: &[u8], family: Family) -> (r: Result<Snapshot, SampleError>)
    ensures
        is_parse_of(r, text@, family),
{
    let ls = split_lines(text);
    let ghost all = lines(text@);
    let mut rows: Vec<Vec<usize>> = Vec::new();
    let mut k: usize = 0;
    while k < ls.len()
        invariant
            k <= ls.len(),
            all == pieces(ls@),
            all == lines(text@),
            forall|j: int| 0 <= j < k ==> line_ok(#[trigger] all[j], family),
            (Snapshot { rows })@ == rows_of(all.take(k as int), family),
            has_arity((Snapshot { rows })@, family),
        decreases ls.len() - k,
    {
        let ghost before = (Snapshot { rows })@;
        proof {
            assert(all[k as int] == ls@[k as int]@);
            assert(all.take(k + 1).drop_last() =~= all.take(k as int));
            assert(all.take(k + 1).last() == all[k as int]);
        }
        match parse_line(ls[k].as_slice(), family) {
            Line::Skipped => {},
            Line::Row(v) => {
                let ghost row = v@;
                rows.push(v);
                assert((Snapshot { rows })@ =~= before.push(row));
            },
            Line::Malformed => {
                proof {
                    assert(is_first_malformed(all, family, k as int));
                    assert forall|c: int| is_first_malformed(all, family, c) implies c == k by {
                        if c < k {
                            assert(line_ok(all[c], family));
                        } else if c > k {
                            assert(line_ok(all[k as int], family));
                        }
                    }
                }
                return Err(SampleError::MalformedCounterLine { line: k, family });
            },
        }
        k += 1;
    }
    proof {
        assert(all.take(k as int) =~= all);
        assert forall|c: int| !is_first_malformed(all, family, c) by {
            if 0 <= c < all.len() {
                assert(line_ok(all[c], family));
            }
        }
    }
    Ok(Snapshot { rows })
}

} // verus!
