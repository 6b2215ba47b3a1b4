use vstd::prelude::*;

verus! {

/// One FASTQ read: identifier, sequence, separator and quality lines.
#[derive(Clone, Debug)]
pub struct Record {
    pub id: String,
    pub seq: String,
    pub plus: String,
    pub qual: String,
}

/// The records parsed from one input, with the path they came from.
#[derive(Clone, Debug)]
pub struct FastqFile {
    pub fp: String,
    pub records: Vec<Record>,
}

/// A record is sound when its sequence and quality lines hold the same
/// number of characters.
pub open spec fn integrity(seq: Seq<char>, qual: Seq<char>) -> bool {
    seq.len() == qual.len()
}

/// Four lines written out, each followed by a newline.
pub open spec fn fastq_text(id: Seq<char>, seq: Seq<char>, plus: Seq<char>, qual: Seq<char>) -> Seq<char> {
    id + seq!['\n'] + seq + seq!['\n'] + plus + seq!['\n'] + qual + seq!['\n']
}

/// A record whose sequence and quality lines agree in length is sound, and
/// changing the length of either one alone makes it unsound.
pub proof fn lemma_integrity_flips(seq: Seq<char>, qual: Seq<char>, changed: Seq<char>)
    requires
        seq.len() == qual.len(),
        changed.len() != seq.len(),
    ensures
        integrity(seq, qual),
        !integrity(changed, qual),
        !integrity(seq, changed),
{
}

impl Record {
    /// A record whose four lines are all empty.
    pub fn new() -> (r: Record)
        ensures
            r.id@.len() == 0,
            r.seq@.len() == 0,
            r.plus@.len() == 0,
            r.qual@.len() == 0,
    {
        Record { id: String::new(), seq: String::new(), plus: String::new(), qual: String::new() }
    }

    /// True exactly when the sequence and quality lines have the same
    /// number of characters.
    pub fn verify_integrity(&self) -> (r: bool)
        ensures
            r == integrity(self.seq@, self.qual@),
    {
        self.seq.as_str().unicode_len() == self.qual.as_str().unicode_len()
    }

    /// Replaces the separator line; the other lines, and so the record's
    /// soundness, stay as they were.
    pub fn set_separator(&mut self, plus: String)
        ensures
            final(self).plus@ == plus@,
            final(self).id@ == old(self).id@,
            final(self).seq@ == old(self).seq@,
            final(self).qual@ == old(self).qual@,
    {
        self.plus = plus;
    }

    /// The record as FASTQ text: its four lines, each ended by a newline.
    pub fn to_fastq_text(&self) -> (r: String)
        ensures
            r@ == fastq_text(self.id@, self.seq@, self.plus@, self.qual@),
    {
        let mut out = String::new();
        out.append(self.id.as_str());
        out.append("\n");
        out.append(self.seq.as_str());
        out.append("\n");
        out.append(self.plus.as_str());
        out.append("\n");
        out.append(self.qual.as_str());
        out.append("\n");
        proof {
            reveal_strlit("\n");
            assert(out@ =~= fastq_text(self.id@, self.seq@, self.plus@, self.qual@));
        }
        out
    }
}

} // verus!
