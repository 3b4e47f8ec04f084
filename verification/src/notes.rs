//! The table of notes: from a note's name to its frequency.

use vstd::prelude::*;
use vstd::string::StringExecFns;
use crate::config::ConfigError;
use crate::decimal::{frequency_of_text, parse_frequency};

verus! {

/// One note: its name, such as "A4", and its frequency in micro-hertz.
#[derive(Debug)]
pub struct Note {
    pub name: String,
    pub frequency: u64,
}

/// The map that a list of notes stands for: each name goes to the frequency
/// of the last note in the list that bears it.
pub open spec fn table_of(entries: Seq<Note>) -> Map<Seq<char>, u64>
    decreases entries.len(),
{
    if entries.len() == 0 {
        Map::empty()
    } else {
        table_of(entries.drop_last()).insert(entries.last().name@, entries.last().frequency)
    }
}

/// A name that none of the notes from `from` on bears is looked up in the
/// notes before `from` alone.
proof fn lemma_table_of_tail(entries: Seq<Note>, from: int, name: Seq<char>)
    requires
        0 <= from <= entries.len(),
        forall|j: int| from <= j < entries.len() ==> (#[trigger] entries[j]).name@ != name,
    ensures
        table_of(entries).contains_key(name) == table_of(entries.take(from)).contains_key(name),
        table_of(entries).contains_key(name) ==> table_of(entries)[name] == table_of(
            entries.take(from),
        )[name],
    decreases entries.len(),
{
    if from == entries.len() {
        assert(entries.take(from) == entries);
    } else {
        let rest = entries.drop_last();
        assert(entries.last() == entries[entries.len() - 1]);
        assert forall|j: int| from <= j < rest.len() implies (#[trigger] rest[j]).name@ != name by {
            assert(rest[j] == entries[j]);
        }
        lemma_table_of_tail(rest, from, name);
        assert(rest.take(from) == entries.take(from));
    }
}

/// A table of notes, from name to frequency.
#[derive(Debug)]
pub struct NoteTable {
    entries: Vec<Note>,
}

impl View for NoteTable {
    type V = Map<Seq<char>, u64>;

    closed spec fn view(&self) -> Map<Seq<char>, u64> {
        table_of(self.entries@)
    }
}

impl NoteTable {
    /// A table with no note in it.
    pub fn new() -> (table: NoteTable)
        ensures
            table@ == Map::<Seq<char>, u64>::empty(),
    {
        NoteTable { entries: Vec::new() }
    }

    /// Puts a note in the table, in place of any that bore the same name.
    pub fn insert(&mut self, name: String, frequency: u64)
        ensures
            final(self)@ == old(self)@.insert(name@, frequency),
    {
        let ghost before = self.entries@;
        self.entries.push(Note { name, frequency });
        assert(self.entries@.drop_last() == before);
    }

    /// The frequency of the note called `name`, if the table has one.
    pub fn get(&self, name: &String) -> (found: Option<u64>)
        ensures
            found == if self@.contains_key(name@) {
                Some(self@[name@])
            } else {
                None
            },
    {
        let mut i: usize = self.entries.len();
        while i > 0
            invariant
                i <= self.entries.len(),
                forall|j: int| i <= j < self.entries.len() ==> (#[trigger] self.entries[j]).name@ != name@,
            decreases i,
        {
            i = i - 1;
            if self.entries[i].name == *name {
                proof {
                    let upto = self.entries@.take(i + 1);
                    lemma_table_of_tail(self.entries@, i + 1, name@);
                    assert(upto.last() == self.entries[i as int]);
                }
                return Some(self.entries[i].frequency);
            }
        }
        proof {
            lemma_table_of_tail(self.entries@, 0, name@);
            assert(self.entries@.take(0).len() == 0);
        }
        None
    }
}

/// The error with which the `csv` crate refuses a table.
#[verifier::external_type_specification]
#[verifier::external_body]
pub struct ExCsvError(csv::Error);

/// What the `csv` crate reads from `data` with its default settings: the
/// records up to its first error, each as its fields, and whether an error
/// ended the reading.
pub uninterp spec fn csv_records(data: Seq<u8>) -> (Seq<Seq<Seq<char>>>, bool);

/// Records as sequences of fields, each field as its characters.
pub open spec fn rows_view(rows: Seq<Vec<String>>) -> Seq<Seq<Seq<char>>> {
    Seq::new(rows.len(), |i: int| Seq::new(rows[i]@.len(), |j: int| rows[i]@[j]@))
}

/// Reads `data` as CSV with `csv::Reader::from_reader` and walks
/// `Reader::records` up to the first error, which comes back with the
/// records read before it. Trusted: what comes back is what the crate reads
/// from these bytes, which `csv_records` names; nothing is claimed about what
/// that is.
#[verifier::external_body]
fn read_records(data: &[u8]) -> (r: (Vec<Vec<String>>, Option<csv::Error>))
    ensures
        csv_records(data@) == (rows_view(r.0@), r.1 is Some),
{
    let mut reader = csv::Reader::from_reader(data);
    let mut rows: Vec<Vec<String>> = Vec::new();
    for record in reader.records() {
        match record {
            Ok(fields) => rows.push(fields.iter().map(String::from).collect()),
            Err(error) => return (rows, Some(error)),
        }
    }
    (rows, None)
}

/// The table that the first `n` records give. A record of at least three
/// fields is a note: its name is the first field followed by the second, its
/// frequency is the third, read as a decimal number of hertz. A shorter
/// record is passed over. The first record whose frequency cannot be read
/// ends it.
pub open spec fn notes_of_rows(rows: Seq<Seq<Seq<char>>>, n: nat) -> Result<
    Map<Seq<char>, u64>,
    ConfigError,
>
    decreases n,
{
    if n == 0 {
        Ok(Map::empty())
    } else {
        match notes_of_rows(rows, (n - 1) as nat) {
            Err(e) => Err(e),
            Ok(table) => {
                let row = rows[n - 1];
                if row.len() < 3 {
                    Ok(table)
                } else {
                    match frequency_of_text(row[2]) {
                        Some(frequency) => Ok(table.insert(row[0] + row[1], frequency)),
                        None => Err(ConfigError::BadFrequency { row: (n - 1) as usize }),
                    }
                }
            },
        }
    }
}

/// Once a record has been refused, the records after it change nothing.
proof fn lemma_notes_error_stays(rows: Seq<Seq<Seq<char>>>, m: nat, n: nat)
    requires
        m <= n,
        notes_of_rows(rows, m) is Err,
    ensures
        notes_of_rows(rows, n) == notes_of_rows(rows, m),
    decreases n,
{
    if m < n {
        lemma_notes_error_stays(rows, m, (n - 1) as nat);
    }
}

/// Builds the table of notes from the records of a table.
pub fn notes_from_rows(rows: &Vec<Vec<String>>) -> (r: Result<NoteTable, ConfigError>)
    ensures
        match r {
            Ok(table) => notes_of_rows(rows_view(rows@), rows.len() as nat) == Ok::<
                Map<Seq<char>, u64>,
                ConfigError,
            >(table@),
            Err(e) => notes_of_rows(rows_view(rows@), rows.len() as nat) == Err::<
                Map<Seq<char>, u64>,
                ConfigError,
            >(e),
        },
{
    let ghost records = rows_view(rows@);
    let mut table = NoteTable::new();
    for i in 0..rows.len()
        invariant
            records == rows_view(rows@),
            notes_of_rows(records, i as nat) == Ok::<Map<Seq<char>, u64>, ConfigError>(table@),
    {
        let row = &rows[i];
        if row.len() >= 3 {
            assert(records[i as int][2] == row[2]@);
            match parse_frequency(row[2].as_str()) {
                Some(frequency) => {
                    let mut name = row[0].clone();
                    name.append(row[1].as_str());
                    assert(name@ == records[i as int][0] + records[i as int][1]);
                    table.insert(name, frequency);
                },
                None => {
                    proof {
                        lemma_notes_error_stays(records, (i + 1) as nat, rows.len() as nat);
                    }
                    return Err(ConfigError::BadFrequency { row: i });
                },
            }
        }
    }
    Ok(table)
}

/// Reads the table of notes from CSV: one record per note, after a header
/// line. The records are taken in order: the first whose frequency cannot be
/// read is refused by its place, and the CSV is refused as malformed where
/// the reading breaks off before any such record.
pub fn read_notes(data: &[u8]) -> (r: Result<NoteTable, ConfigError>)
    ensures
        match notes_of_rows(csv_records(data@).0, csv_records(data@).0.len()) {
            Err(e) => r == Err::<NoteTable, ConfigError>(e),
            Ok(table) => if csv_records(data@).1 {
                r == Err::<NoteTable, ConfigError>(ConfigError::MalformedTable)
            } else {
                r is Ok && r->Ok_0@ == table
            },
        },
{
    let (rows, failure) = read_records(data);
    match notes_from_rows(&rows) {
        Ok(table) => match failure {
            Some(_) => Err(ConfigError::MalformedTable),
            None => Ok(table),
        },
        Err(e) => Err(e),
    }
}

} // verus!
