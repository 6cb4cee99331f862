use vstd::prelude::*;
use crate::record::Record;
use crate::codec::{spec_render_line, spec_render_file, spec_parse_file, render_line, render_file,
    parse_file};
use crate::compress::{spec_compress, compress_upto, emitted};

verus! {

/// Why loading the store failed: one line of the backing file is not a
/// serialized record.  The 1-based line number and the raw line are kept for
/// diagnosis.
#[derive(Debug)]
pub enum DatabaseError {
    Parse { line: usize, text: Vec<u8> },
}

/// The record store: an ordered in-memory copy of an append-only backing
/// file.  The store itself computes every byte that goes to the file and
/// parses every byte that comes from it; the caller moves those bytes to and
/// from disk.
#[derive(Debug)]
pub struct Database {
    records: Vec<Record>,
}

impl View for Database {
    type V = Seq<Record>;

    closed spec fn view(&self) -> Seq<Record> {
        self.records@
    }
}

impl Database {
    /// Opens the store. `existing` carries the full contents of the backing
    /// file, or `None` where the file did not exist yet; a freshly created
    /// store is empty, and an existing file is parsed whole — any malformed
    /// line fails the whole initialization.
    pub fn init(existing: Option<&Vec<u8>>) -> (r: Result<Database, DatabaseError>)
        requires
            match existing {
                Some(c) => c@.len() < usize::MAX,
                None => true,
            },
        ensures
            match r {
                Ok(db) => match existing {
                    None => db@ == Seq::<Record>::empty(),
                    Some(c) => spec_parse_file(c@) == Ok::<Seq<Record>, (int, Seq<u8>)>(db@),
                },
                Err(e) => match existing {
                    None => false,
                    Some(c) => match e {
                        DatabaseError::Parse { line, text } => spec_parse_file(c@) == Err::<
                            Seq<Record>,
                            (int, Seq<u8>),
                        >((line as int, text@)),
                    },
                },
            },
    {
        let mut db = Database { records: Vec::new() };
        match existing {
            None => Ok(db),
            Some(content) => match db.read(content) {
                Ok(()) => Ok(db),
                Err(e) => Err(e),
            },
        }
    }

    /// The current in-memory snapshot, in insertion order.
    pub fn records(&self) -> (r: &Vec<Record>)
        ensures
            r@ == self@,
    {
        &self.records
    }

    /// Replaces the in-memory snapshot with the parsed contents of the
    /// backing file.  Succeeds exactly when every line parses; the first
    /// malformed line is reported with its number and raw bytes, and the
    /// in-memory state is then unspecified (callers treat that as fatal).
    pub fn read(&mut self, content: &Vec<u8>) -> (r: Result<(), DatabaseError>)
        requires
            content@.len() < usize::MAX,
        ensures
            match r {
                Ok(()) => spec_parse_file(content@) == Ok::<Seq<Record>, (int, Seq<u8>)>(
                    final(self)@,
                ),
                Err(e) => match e {
                    DatabaseError::Parse { line, text } => spec_parse_file(content@) == Err::<
                        Seq<Record>,
                        (int, Seq<u8>),
                    >((line as int, text@)),
                },
            },
    {
        match parse_file(content) {
            Ok(v) => {
                self.records = v;
                Ok(())
            },
            Err((line, text)) => Err(DatabaseError::Parse { line, text }),
        }
    }

    /// Appends one record: returns the bytes that belong at the end of the
    /// backing file (one line, newline included) and extends the in-memory
    /// snapshot by exactly that record.
    pub fn push(&mut self, record: Record) -> (line: Vec<u8>)
        ensures
            final(self)@ == old(self)@.push(record),
            line@ == spec_render_line(record) + seq![10u8],
    {
        let mut line: Vec<u8> = Vec::new();
        render_line(&mut line, &record);
        line.push(10u8);
        self.records.push(record);
        assert(line@ =~= spec_render_line(record) + seq![10u8]);
        line
    }

    /// The full contents that the backing file must hold for the current
    /// snapshot: every record serialized in order, one line each.
    pub fn write(&self) -> (content: Vec<u8>)
        ensures
            content@ == spec_render_file(self@),
    {
        render_file(&self.records)
    }

    /// The run-compacted projection of the snapshot, in original order.
    pub fn compress_records(&self) -> (out: Vec<Record>)
        ensures
            out@ == spec_compress(self@),
    {
        let n = self.records.len();
        let mut out: Vec<Record> = Vec::new();
        let mut i: usize = 0;
        while i < n
            invariant
                0 <= i <= n,
                n == self@.len(),
                out@ == compress_upto(self@, i as int),
            decreases n - i,
        {
            let keep: bool = if i == 0 {
                true
            } else if !(self.records[i].data == self.records[i - 1].data) {
                true
            } else {
                i == n - 1 || !(self.records[i + 1].data == self.records[i].data)
            };
            assert(keep == emitted(self@, i as int));
            if keep {
                out.push(self.records[i]);
                assert(out@ =~= compress_upto(self@, i as int) + seq![self@[i as int]]);
            } else {
                assert(out@ =~= compress_upto(self@, i as int));
            }
            i = i + 1;
        }
        out
    }
}

} // verus!
