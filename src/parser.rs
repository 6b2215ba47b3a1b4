use vstd::prelude::*;
use crate::record::{integrity, Record};

verus! {

/// Why a FASTQ input was refused.
#[derive(Clone, Copy, Debug, PartialEq, Eq)]
pub enum ParseError {
    /// The record closed by the quality line at zero-based index `line` has
    /// sequence and quality lines of different lengths.
    InvalidRecord { line: usize },
    /// The input ended inside a group of four lines.
    TruncatedInput,
    /// The underlying source could not be read.
    IoFailure,
}

/// Lines `4g .. 4g + 4` of `lines` form a record whose sequence and quality
/// lines agree in length.
pub open spec fn group_valid(lines: Seq<Seq<char>>, g: int) -> bool {
    integrity(lines[4 * g + 1], lines[4 * g + 3])
}

/// The first `n` groups of four lines are all sound.
pub open spec fn groups_valid(lines: Seq<Seq<char>>, n: int) -> bool {
    forall|g: int| 0 <= g < n ==> #[trigger] group_valid(lines, g)
}

/// `r` holds lines `4g .. 4g + 4` of `lines` in its four fields.
pub open spec fn holds_group(r: Record, lines: Seq<Seq<char>>, g: int) -> bool {
    &&& r.id@ == lines[4 * g]
    &&& r.seq@ == lines[4 * g + 1]
    &&& r.plus@ == lines[4 * g + 2]
    &&& r.qual@ == lines[4 * g + 3]
}

/// `recs` holds, in order, one record per complete group of `lines`.
pub open spec fn records_of(recs: Seq<Record>, lines: Seq<Seq<char>>) -> bool {
    &&& recs.len() == lines.len() / 4
    &&& forall|g: int| 0 <= g < recs.len() ==> #[trigger] holds_group(recs[g], lines, g)
}

/// The outcome of parsing `lines`: every group sound and none cut short
/// gives the records; otherwise the first unsound group is reported by the
/// index of its quality line; otherwise a cut-short last group is reported.
pub open spec fn parse_outcome(lines: Seq<Seq<char>>, r: Result<Vec<Record>, ParseError>) -> bool {
    match r {
        Ok(recs) => lines.len() % 4 == 0 && groups_valid(lines, (lines.len() / 4) as int) && records_of(recs@, lines),
        Err(ParseError::InvalidRecord { line }) => {
            &&& line < lines.len()
            &&& line % 4 == 3
            &&& !group_valid(lines, (line / 4) as int)
            &&& groups_valid(lines, (line / 4) as int)
        },
        Err(ParseError::TruncatedInput) => lines.len() % 4 != 0 && groups_valid(lines, (lines.len() / 4) as int),
        Err(ParseError::IoFailure) => false,
    }
}

/// Parsing fails fast: when group `g` is the first unsound one, the outcome
/// is `InvalidRecord` at its quality line, and no records come back.
pub proof fn lemma_first_unsound_record_reported(
    lines: Seq<Seq<char>>,
    g: int,
    r: Result<Vec<Record>, ParseError>,
)
    requires
        0 <= g,
        4 * g + 3 < lines.len(),
        !group_valid(lines, g),
        groups_valid(lines, g),
        parse_outcome(lines, r),
    ensures
        r == Err::<Vec<Record>, ParseError>(ParseError::InvalidRecord { line: (4 * g + 3) as usize }),
{
    match r {
        Ok(_) => {
            assert(group_valid(lines, g));
        },
        Err(ParseError::InvalidRecord { line }) => {
            let q = (line / 4) as int;
            if q < g {
                assert(group_valid(lines, q));
            } else if q > g {
                assert(group_valid(lines, g));
            }
        },
        Err(ParseError::TruncatedInput) => {
            assert(group_valid(lines, g));
        },
        Err(ParseError::IoFailure) => {},
    }
}

/// Input that ends inside a group of four lines, after sound records only,
/// is reported as truncated rather than cut back to whole records.
pub proof fn lemma_truncated_input_reported(lines: Seq<Seq<char>>, r: Result<Vec<Record>, ParseError>)
    requires
        lines.len() % 4 != 0,
        groups_valid(lines, (lines.len() / 4) as int),
        parse_outcome(lines, r),
    ensures
        r == Err::<Vec<Record>, ParseError>(ParseError::TruncatedInput),
{
    match r {
        Err(ParseError::InvalidRecord { line }) => {
            assert(group_valid(lines, (line / 4) as int));
        },
        _ => {},
    }
}

/// A streaming FASTQ reader: lines go in one at a time; each fourth line
/// closes a record, which is checked at once.
pub struct FastqParser {
    records: Vec<Record>,
    id: String,
    seq: String,
    plus: String,
    lines_read: usize,
    consumed: Ghost<Seq<Seq<char>>>,
}

impl View for FastqParser {
    type V = Seq<Seq<char>>;

    /// The lines taken in so far.
    closed spec fn view(&self) -> Seq<Seq<char>> {
        self.consumed@
    }
}

impl FastqParser {
    /// The parser holds one record per complete group, every complete group
    /// is sound, and the open slots hold the lines of the open group.
    pub closed spec fn wf(&self) -> bool {
        let lines = self.consumed@;
        let open = lines.len() % 4;
        let start = lines.len() - open;
        &&& self.lines_read == lines.len()
        &&& groups_valid(lines, (lines.len() / 4) as int)
        &&& records_of(self.records@, lines)
        &&& open >= 1 ==> self.id@ == lines[start]
        &&& open >= 2 ==> self.seq@ == lines[start + 1]
        &&& open >= 3 ==> self.plus@ == lines[start + 2]
    }

    /// A parser that has read nothing.
    pub fn new() -> (p: FastqParser)
        ensures
            p.wf(),
            p@.len() == 0,
    {
        FastqParser {
            records: Vec::new(),
            id: String::new(),
            seq: String::new(),
            plus: String::new(),
            lines_read: 0,
            consumed: Ghost(Seq::empty()),
        }
    }

    /// Number of lines taken in so far.
    pub fn line_count(&self) -> (n: usize)
        requires
            self.wf(),
        ensures
            n == self@.len(),
    {
        self.lines_read
    }

    /// Takes in the next line. A quality line whose length differs from its
    /// sequence line fails with the line's zero-based index; the parser is
    /// then spent.
    pub fn push_line(&mut self, line: String) -> (r: Result<(), ParseError>)
        requires
            old(self).wf(),
            old(self)@.len() < usize::MAX,
        ensures
            final(self)@ == old(self)@.push(line@),
            r is Err <==> old(self)@.len() % 4 == 3 && !group_valid(final(self)@, (old(self)@.len() / 4) as int),
            r is Err ==> r == Err::<(), ParseError>(ParseError::InvalidRecord { line: old(self)@.len() as usize }),
            r is Ok ==> final(self).wf(),
    {
        let ghost before = self.consumed@;
        let ghost after = before.push(line@);
        let slot = self.lines_read % 4;
        let index = self.lines_read;
        self.lines_read = self.lines_read + 1;
        self.consumed = Ghost(after);
        proof {
            assert(after.len() / 4 == before.len() / 4 + if slot == 3 { 1int } else { 0int });
            assert forall|g: int| 0 <= g < before.len() / 4 implies #[trigger] group_valid(after, g) == group_valid(before, g) by {
                assert(after[4 * g + 1] == before[4 * g + 1]);
                assert(after[4 * g + 3] == before[4 * g + 3]);
            }
            assert forall|g: int| 0 <= g < self.records@.len() implies #[trigger] holds_group(self.records@[g], after, g) by {
                assert(holds_group(self.records@[g], before, g));
                assert(after[4 * g] == before[4 * g]);
                assert(after[4 * g + 1] == before[4 * g + 1]);
                assert(after[4 * g + 2] == before[4 * g + 2]);
                assert(after[4 * g + 3] == before[4 * g + 3]);
            }
        }
        if slot == 0 {
            self.id = line;
        } else if slot == 1 {
            self.seq = line;
        } else if slot == 2 {
            self.plus = line;
        } else {
            if self.seq.as_str().unicode_len() != line.as_str().unicode_len() {
                return Err(ParseError::InvalidRecord { line: index });
            }
            let mut id = String::new();
            let mut seq = String::new();
            let mut plus = String::new();
            core::mem::swap(&mut id, &mut self.id);
            core::mem::swap(&mut seq, &mut self.seq);
            core::mem::swap(&mut plus, &mut self.plus);
            self.records.push(Record { id, seq, plus, qual: line });
            proof {
                let g = (before.len() / 4) as int;
                assert(holds_group(self.records@[g], after, g));
            }
        }
        Ok(())
    }

    /// Ends the input: the records read, or `TruncatedInput` when the last
    /// group of four lines is incomplete.
    pub fn finish(self) -> (r: Result<Vec<Record>, ParseError>)
        requires
            self.wf(),
        ensures
            parse_outcome(self@, r),
    {
        if self.lines_read % 4 != 0 {
            return Err(ParseError::TruncatedInput);
        }
        Ok(self.records)
    }
}

/// Parses FASTQ text given as its lines, failing at the first record whose
/// sequence and quality lengths differ, or on a last group of fewer than
/// four lines.
pub fn parse_lines(lines: Vec<String>) -> (r: Result<Vec<Record>, ParseError>)
    ensures
        parse_outcome(lines@.map_values(|l: String| l@), r),
{
    let ghost all = lines@.map_values(|l: String| l@);
    let n = lines.len();
    let mut parser = FastqParser::new();
    for line in it: lines
        invariant
            all == it.seq().map_values(|l: String| l@),
            parser.wf(),
            parser@ == all.take(it.index() as int),
            all.len() <= usize::MAX,
    {
        let ghost prev = parser@;
        proof {
            assert(all.take(it.index() as int + 1) =~= parser@.push(line@));
            assert(groups_valid(prev, (prev.len() / 4) as int));
        }
        match parser.push_line(line) {
            Ok(()) => {},
            Err(e) => {
                proof {
                    let bad = all.take(it.index() as int + 1);
                    let g = (it.index() / 4) as int;
                    assert(bad[4 * g + 1] == all[4 * g + 1]);
                    assert(bad[4 * g + 3] == all[4 * g + 3]);
                    assert forall|h: int| 0 <= h < g implies #[trigger] group_valid(all, h) by {
                        assert(group_valid(prev, h));
                        assert(prev[4 * h + 1] == all[4 * h + 1]);
                        assert(prev[4 * h + 3] == all[4 * h + 3]);
                    }
                }
                return Err(e);
            },
        }
    }
    proof {
        assert(all.take(all.len() as int) =~= all);
    }
    parser.finish()
}

} // verus!
