//! The configuration: which key plays which note, and how fast the pitch
//! glides.

use std::collections::HashMap;
use vstd::prelude::*;
use crate::notes::NoteTable;

verus! {

broadcast use vstd::std_specs::hash::group_hash_axioms;

/// The configuration as it is written down: the notes and the keys that
/// play them, paired by position, the glide ratio in millionths, and where
/// the table of notes is kept.
#[derive(Debug, PartialEq)]
pub struct RawConfig {
    pub notes: Vec<String>,
    pub keys: Vec<char>,
    pub glide_ratio: u64,
    pub notes_file: String,
}

/// The configuration as the instrument uses it.
#[derive(Debug)]
pub struct TheremoConfig {
    /// From the byte that a key sends to the name of the note it plays.
    pub keymappings: HashMap<u8, String>,
    /// From a note's name to its frequency in micro-hertz.
    pub notes: NoteTable,
    /// The glide ratio, in millionths; zero for no glide.
    pub glide_ratio: u64,
}

/// Why a configuration was refused.
#[derive(Clone, Copy, Debug, PartialEq, Eq)]
pub enum ConfigError {
    /// The key at `index` is no single byte: its code point is above 255.
    KeyNotAByte { index: usize },
    /// There are not as many keys as notes.
    LengthMismatch,
    /// The key that sends `symbol` plays a note that the table of notes does
    /// not hold.
    UnknownNote { symbol: u8 },
    /// The table of notes is not well-formed CSV, and every record before
    /// the fault could be read.
    MalformedTable,
    /// The frequency in record `row` of the table of notes is not a decimal
    /// number of hertz that fits.
    BadFrequency { row: usize },
}

/// `key` is a single byte: its code point is at most 255.
pub open spec fn is_byte(key: char) -> bool {
    key as u32 <= 255
}

/// Every key is a single byte.
pub open spec fn all_bytes(keys: Seq<char>) -> bool {
    forall|i: int| 0 <= i < keys.len() ==> is_byte(#[trigger] keys[i])
}

/// The byte that a key sends: its code point. It is asked only of keys that
/// are bytes.
pub open spec fn symbol_of(key: char) -> u8
    recommends
        is_byte(key),
{
    key as u8
}

/// The key table that the first `n` pairs of key and note give. Where two
/// keys send the same byte, the later pair counts.
pub open spec fn key_table(keys: Seq<char>, notes: Seq<String>, n: nat) -> Map<u8, String>
    decreases n,
{
    if n == 0 {
        Map::empty()
    } else {
        key_table(keys, notes, (n - 1) as nat).insert(symbol_of(keys[n - 1]), notes[n - 1])
    }
}

/// The frequency that `symbol` plays: that of the note its key is mapped
/// to, if it has a key and the note is in the table.
pub open spec fn pitch_of(
    keys: Map<u8, String>,
    notes: Map<Seq<char>, u64>,
    symbol: u8,
) -> Option<u64> {
    if keys.contains_key(symbol) && notes.contains_key(keys[symbol]@) {
        Some(notes[keys[symbol]@])
    } else {
        None
    }
}

/// Every key plays a note that the table holds.
pub open spec fn all_notes_known(keys: Map<u8, String>, notes: Map<Seq<char>, u64>) -> bool {
    forall|symbol: u8| #[trigger]
        keys.contains_key(symbol) ==> notes.contains_key(keys[symbol]@)
}

/// The key at `i` sends `symbol`.
pub open spec fn key_sends(keys: Seq<char>, i: int, symbol: u8) -> bool {
    0 <= i < keys.len() && symbol_of(keys[i]) == symbol
}

/// The key table holds exactly the bytes that some key sends.
pub proof fn lemma_key_table_domain(keys: Seq<char>, notes: Seq<String>, n: nat, symbol: u8)
    requires
        n <= keys.len(),
    ensures
        key_table(keys, notes, n).contains_key(symbol) <==> exists|i: int|
            i < n && #[trigger] key_sends(keys, i, symbol),
    decreases n,
{
    if n > 0 {
        let m = (n - 1) as nat;
        lemma_key_table_domain(keys, notes, m, symbol);
        if key_table(keys, notes, n).contains_key(symbol) {
            if symbol_of(keys[n - 1]) == symbol {
                assert(key_sends(keys, n - 1, symbol));
            } else {
                let i = choose|i: int| i < m && #[trigger] key_sends(keys, i, symbol);
                assert(i < n && key_sends(keys, i, symbol));
            }
        } else {
            assert forall|i: int| i < n implies !#[trigger] key_sends(keys, i, symbol) by {
                if key_sends(keys, i, symbol) {
                    assert(i != n - 1);
                    assert(i < m);
                }
            }
        }
    } else {
        assert forall|i: int| i < n implies !#[trigger] key_sends(keys, i, symbol) by {}
    }
}

/// The last key that sends a byte decides the note that the byte plays.
pub proof fn lemma_key_table_last_wins(keys: Seq<char>, notes: Seq<String>, n: nat, i: int)
    requires
        n <= keys.len(),
        0 <= i < n,
        forall|j: int| i < j < n ==> !#[trigger] key_sends(keys, j, symbol_of(keys[i])),
    ensures
        key_table(keys, notes, n).contains_key(symbol_of(keys[i])),
        key_table(keys, notes, n)[symbol_of(keys[i])] == notes[i],
    decreases n,
{
    if i < n - 1 {
        assert(!key_sends(keys, n - 1, symbol_of(keys[i])));
        lemma_key_table_last_wins(keys, notes, (n - 1) as nat, i);
    }
}

impl TheremoConfig {
    /// The configurations that `init` lets through: every key plays a note
    /// that the table holds.
    pub open spec fn wf(&self) -> bool {
        all_notes_known(self.keymappings@, self.notes@)
    }

    /// The frequency that the key sending `symbol` plays, in micro-hertz;
    /// nothing for a byte that no key sends.
    pub fn resolve(&self, symbol: u8) -> (pitch: Option<u64>)
        ensures
            pitch == pitch_of(self.keymappings@, self.notes@, symbol),
            self.wf() ==> (pitch is Some <==> self.keymappings@.contains_key(symbol)),
    {
        match self.keymappings.get(&symbol) {
            Some(name) => self.notes.get(name),
            None => None,
        }
    }
}

/// The byte that a key sends.
fn symbol(key: char) -> (byte: u8)
    requires
        is_byte(key),
    ensures
        byte == symbol_of(key),
        byte as u32 == key as u32,
{
    key as u8
}

/// The place of the first key that is no single byte, if there is one.
fn first_stray_key(keys: &Vec<char>) -> (found: Option<usize>)
    ensures
        match found {
            Some(index) => {
                &&& index < keys.len()
                &&& !is_byte(keys[index as int])
                &&& all_bytes(keys@.take(index as int))
            },
            None => all_bytes(keys@),
        },
{
    let mut i: usize = 0;
    while i < keys.len()
        invariant
            i <= keys.len(),
            all_bytes(keys@.take(i as int)),
        decreases keys.len() - i,
    {
        if keys[i] as u32 > 255 {
            return Some(i);
        }
        assert forall|j: int| 0 <= j < i + 1 implies is_byte(#[trigger] keys@.take(i + 1)[j]) by {
            if j < i {
                assert(keys@.take(i as int)[j] == keys[j]);
            }
        }
        i = i + 1;
    }
    assert(keys@.take(i as int) == keys@);
    None
}

/// Builds the configuration from what was written down and the table of
/// notes. It is refused, in this order: where a key is no single byte, with
/// the place of the first such key; where keys and notes differ in number;
/// and where a key plays a note that the table does not hold, with the byte
/// of the first such key.
pub fn init(raw: RawConfig, notes: NoteTable) -> (r: Result<TheremoConfig, ConfigError>)
    ensures
        r is Ok <==> all_bytes(raw.keys@) && raw.keys.len() == raw.notes.len() && all_notes_known(
            key_table(raw.keys@, raw.notes@, raw.keys.len() as nat),
            notes@,
        ),
        (r is Err && r->Err_0 is KeyNotAByte) <==> !all_bytes(raw.keys@),
        match r {
            Ok(config) => {
                &&& config.keymappings@ == key_table(raw.keys@, raw.notes@, raw.keys.len() as nat)
                &&& config.notes@ == notes@
                &&& config.glide_ratio == raw.glide_ratio
                &&& config.wf()
            },
            Err(ConfigError::KeyNotAByte { index }) => {
                &&& index < raw.keys.len()
                &&& !is_byte(raw.keys[index as int])
                &&& all_bytes(raw.keys@.take(index as int))
            },
            Err(ConfigError::LengthMismatch) => {
                &&& all_bytes(raw.keys@)
                &&& raw.keys.len() != raw.notes.len()
            },
            Err(ConfigError::UnknownNote { symbol }) => {
                &&& all_bytes(raw.keys@)
                &&& raw.keys.len() == raw.notes.len()
                &&& exists|i: int|
                    {
                        &&& 0 <= i < raw.keys.len()
                        &&& symbol == symbol_of(#[trigger] raw.keys[i])
                        &&& pitch_of(
                            key_table(raw.keys@, raw.notes@, raw.keys.len() as nat),
                            notes@,
                            symbol,
                        ) is None
                        &&& forall|j: int|
                            0 <= j < i ==> pitch_of(
                                key_table(raw.keys@, raw.notes@, raw.keys.len() as nat),
                                notes@,
                                symbol_of(#[trigger] raw.keys[j]),
                            ) is Some
                    }
            },
            Err(_) => false,
        },
{
    if let Some(index) = first_stray_key(&raw.keys) {
        return Err(ConfigError::KeyNotAByte { index });
    }
    let n = raw.keys.len();
    if n != raw.notes.len() {
        return Err(ConfigError::LengthMismatch);
    }
    let ghost table = key_table(raw.keys@, raw.notes@, n as nat);
    let mut keymappings: HashMap<u8, String> = HashMap::new();
    for i in 0..n
        invariant
            n == raw.keys.len(),
            n == raw.notes.len(),
            all_bytes(raw.keys@),
            keymappings@ == key_table(raw.keys@, raw.notes@, i as nat),
    {
        keymappings.insert(symbol(raw.keys[i]), raw.notes[i].clone());
    }
    for i in 0..n
        invariant
            n == raw.keys.len(),
            n == raw.notes.len(),
            all_bytes(raw.keys@),
            keymappings@ == table,
            table == key_table(raw.keys@, raw.notes@, n as nat),
            forall|j: int|
                0 <= j < i ==> pitch_of(table, notes@, symbol_of(#[trigger] raw.keys[j])) is Some,
    {
        let byte = symbol(raw.keys[i]);
        let known = match keymappings.get(&byte) {
            Some(name) => notes.get(name).is_some(),
            None => false,
        };
        if !known {
            proof {
                lemma_key_table_domain(raw.keys@, raw.notes@, n as nat, byte);
                assert(key_sends(raw.keys@, i as int, byte));
            }
            return Err(ConfigError::UnknownNote { symbol: byte });
        }
    }
    assert(all_notes_known(table, notes@)) by {
        assert forall|symbol: u8| #[trigger] table.contains_key(symbol) implies notes@.contains_key(
            table[symbol]@,
        ) by {
            lemma_key_table_domain(raw.keys@, raw.notes@, n as nat, symbol);
            let k = choose|k: int| k < n && #[trigger] key_sends(raw.keys@, k, symbol);
            assert(pitch_of(table, notes@, symbol_of(raw.keys[k])) is Some);
        }
    }
    Ok(TheremoConfig { keymappings, notes, glide_ratio: raw.glide_ratio })
}

} // verus!
