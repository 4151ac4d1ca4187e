//! The identity of a data directory: its node's name, and the generation of its log.

use vstd::prelude::*;

use crate::error::PersistenceError;
use crate::text::{
    chars_of, decimal, decimal_string, hexadecimal, parse_unsigned, push_hexadecimal, string_of,
    trim, trimmed, unsigned_number,
};
use crate::time::Timestamp;

verus! {

/// The generation that a text names: a positive number, with white space around it or none.
pub open spec fn generation_of(text: Seq<char>) -> Option<u64> {
    match unsigned_number(trimmed(text)) {
        Some(number) if 0 < number <= u64::MAX => Some(number as u64),
        _ => None,
    }
}

/// Reads the generation of a log.
pub fn parse_generation(raw: &str) -> (generation: Result<u64, PersistenceError>)
    ensures
        generation == (match generation_of(raw@) {
            Some(number) => Ok(number),
            None => Err(PersistenceError::InvalidMetadata("invalid WAL generation")),
        }),
{
    match parse_unsigned(trim(chars_of(raw).as_slice()), u64::MAX) {
        Some(number) => if number > 0 {
            Ok(number)
        } else {
            Err(PersistenceError::InvalidMetadata("invalid WAL generation"))
        },
        None => Err(PersistenceError::InvalidMetadata("invalid WAL generation")),
    }
}

/// Whether a character is a hexadecimal digit.
pub open spec fn hex_char(c: char) -> bool {
    ('0' <= c <= '9') || ('A' <= c <= 'F') || ('a' <= c <= 'f')
}

/// Whether a text names a node: sixteen to sixty-four hexadecimal digits.
pub open spec fn valid_node_id(id: Seq<char>) -> bool {
    16 <= id.len() <= 64 && (forall|i: int| 0 <= i < id.len() ==> hex_char(#[trigger] id[i]))
}

/// Whether a text names a node.
pub fn is_node_id(id: &[char]) -> (valid: bool)
    ensures
        valid == valid_node_id(id@),
{
    if id.len() < 16 || id.len() > 64 {
        return false;
    }
    for index in 0..id.len()
        invariant
            forall|i: int| 0 <= i < index ==> hex_char(#[trigger] id@[i]),
    {
        let c: char = id[index];
        let digit: bool = ('0' <= c && c <= '9') || ('A' <= c && c <= 'F') || ('a' <= c && c
            <= 'f');
        if !digit {
            assert(!hex_char(id@[index as int]));
            return false;
        }
    }
    true
}

/// Reads the name of a node, with white space around it or none.
pub fn parse_node_id(raw: &str) -> (id: Result<String, PersistenceError>)
    ensures
        match id {
            Ok(id) => valid_node_id(trimmed(raw@)) && id@ == trimmed(raw@),
            Err(error) => !valid_node_id(trimmed(raw@)) && error
                == PersistenceError::InvalidMetadata("invalid node identity"),
        },
{
    let chars: Vec<char> = chars_of(raw);
    let id: &[char] = trim(chars.as_slice());
    if is_node_id(id) {
        Ok(string_of(id))
    } else {
        Err(PersistenceError::InvalidMetadata("invalid node identity"))
    }
}

/// The name that a process gives its node at an instant.
pub open spec fn fresh_node_id(now: Timestamp, process: u32) -> Seq<char> {
    hexadecimal(((now.nanos as u128) ^ ((process * 131072) as u128)) as nat, 32)
}

/// Names a node after the instant and the process.
pub fn make_node_id(now: Timestamp, process: u32) -> (id: Result<String, PersistenceError>)
    ensures
        match id {
            Ok(id) => now.nanos >= 0 && id@ == fresh_node_id(now, process),
            Err(error) => now.nanos < 0 && error == PersistenceError::ClockBeforeEpoch,
        },
{
    if now.nanos < 0 {
        return Err(PersistenceError::ClockBeforeEpoch);
    }
    let mixed: u128 = (now.nanos as u128) ^ (process as u128 * 131072);
    let mut id: String = String::new();
    push_hexadecimal(&mut id, mixed, 32);
    assert(id@ =~= fresh_node_id(now, process));
    Ok(id)
}

proof fn lemma_hexadecimal(value: nat, width: nat)
    ensures
        hexadecimal(value, width).len() == width,
        forall|i: int| 0 <= i < width ==> hex_char(#[trigger] hexadecimal(value, width)[i]),
    decreases width,
{
    if width > 0 {
        lemma_hexadecimal(value / 16, (width - 1) as nat);
    }
}

/// Every name that is made up is a name that is accepted.
pub proof fn law_fresh_node_ids_are_valid(now: Timestamp, process: u32)
    ensures
        valid_node_id(fresh_node_id(now, process)),
{
    let value = ((now.nanos as u128) ^ ((process * 131072) as u128)) as nat;
    lemma_hexadecimal(value, 32);
}

/// What is known of a data directory: the texts of its metadata files, its snapshot and its log.
#[derive(Debug)]
pub struct DataFiles {
    pub generation: Option<String>,
    pub node_id: Option<String>,
    pub snapshot: Option<Vec<u8>>,
    pub wal: Vec<u8>,
}

/// Who a data directory belongs to.
#[derive(Debug, PartialEq, Eq)]
pub struct Identity {
    pub node_id: String,
    pub generation: u64,
}

/// Whether metadata files are missing beside data that they should stand with.
pub open spec fn metadata_is_torn(files: DataFiles) -> bool {
    (files.generation is Some) != (files.node_id is Some) && (files.generation is Some
        || files.wal@.len() > 8 || files.snapshot is Some)
}

/// The name of the node and the generation of the log, read from a data directory or made up for a
/// new one.
pub open spec fn identity_of(files: DataFiles, now: Timestamp, process: u32) -> Result<
    (Seq<char>, u64),
    PersistenceError,
> {
    if metadata_is_torn(files) {
        Err(
            PersistenceError::InvalidMetadata(
                "node identity and WAL generation must exist together",
            ),
        )
    } else if files.node_id is Some && !valid_node_id(trimmed(files.node_id->0@)) {
        Err(PersistenceError::InvalidMetadata("invalid node identity"))
    } else if files.node_id is None && now.nanos < 0 {
        Err(PersistenceError::ClockBeforeEpoch)
    } else if files.generation is Some && generation_of(files.generation->0@) is None {
        Err(PersistenceError::InvalidMetadata("invalid WAL generation"))
    } else {
        Ok(
            (
                match files.node_id {
                    Some(text) => trimmed(text@),
                    None => fresh_node_id(now, process),
                },
                match files.generation {
                    Some(text) => generation_of(text@)->0,
                    None => 1,
                },
            ),
        )
    }
}

impl Identity {
    /// Who a data directory belongs to. What its files do not say is made up, and has to be
    /// written to them.
    pub fn establish(files: &DataFiles, now: Timestamp, process: u32) -> (identity: Result<
        Self,
        PersistenceError,
    >)
        ensures
            match identity {
                Ok(identity) => identity_of(*files, now, process) == Ok::<
                    (Seq<char>, u64),
                    PersistenceError,
                >((identity.node_id@, identity.generation)) && identity.generation > 0
                    && valid_node_id(identity.node_id@),
                Err(error) => identity_of(*files, now, process) == Err::<
                    (Seq<char>, u64),
                    PersistenceError,
                >(error),
            },
    {
        let generation_exists: bool = files.generation.is_some();
        let node_exists: bool = files.node_id.is_some();
        if generation_exists != node_exists {
            if generation_exists || files.wal.len() > 8 || files.snapshot.is_some() {
                return Err(
                    PersistenceError::InvalidMetadata(
                        "node identity and WAL generation must exist together",
                    ),
                );
            }
        }
        let node_id: String = match &files.node_id {
            Some(text) => match parse_node_id(text.as_str()) {
                Ok(id) => id,
                Err(error) => return Err(error),
            },
            None => match make_node_id(now, process) {
                Ok(id) => {
                    proof {
                        law_fresh_node_ids_are_valid(now, process);
                    }
                    id
                },
                Err(error) => return Err(error),
            },
        };
        let generation: u64 = match &files.generation {
            Some(text) => match parse_generation(text.as_str()) {
                Ok(generation) => generation,
                Err(error) => return Err(error),
            },
            None => 1,
        };
        Ok(Identity { node_id, generation })
    }
}

/// The text of a generation, as its file holds it.
pub fn generation_text(generation: u64) -> (text: String)
    ensures
        text@ == decimal(generation as nat),
{
    decimal_string(generation)
}

/// The text of a generation gives the generation back.
pub proof fn law_generation_round_trip(generation: u64)
    requires
        generation > 0,
    ensures
        generation_of(decimal(generation as nat)) == Some(generation),
{
    crate::text::law_decimal_round_trip(generation as nat);
}

/// A text names a node exactly where it has sixteen to sixty-four characters, all of them digits or
/// letters up to F in either case.
pub proof fn law_node_ids_are_hexadecimal(id: Seq<char>, c: char)
    ensures
        valid_node_id(id) ==> 16 <= id.len() <= 64,
        valid_node_id(id) && id.len() < 64 ==> (valid_node_id(id.push(c)) <==> ('0' <= c <= '9' || 'a'
            <= c <= 'f' || 'A' <= c <= 'F')),
        id.len() == 16 && (forall|i: int|
            0 <= i < 16 ==> ('0' <= #[trigger] id[i] <= '9' || 'a' <= id[i] <= 'f' || 'A' <= id[i]
                <= 'F')) ==> valid_node_id(id),
        valid_node_id(id) ==> forall|i: int|
            0 <= i < id.len() ==> ('0' <= #[trigger] id[i] <= '9' || 'a' <= id[i] <= 'f' || 'A'
                <= id[i] <= 'F'),
{
    let longer = id.push(c);
    if valid_node_id(id) && id.len() < 64 {
        if hex_char(c) {
            assert forall|i: int| 0 <= i < longer.len() implies hex_char(#[trigger] longer[i]) by {
                if i < id.len() {
                    assert(hex_char(id[i]));
                }
            }
        } else {
            assert(longer[id.len() as int] == c);
        }
    }
    if valid_node_id(id) {
        assert forall|i: int| 0 <= i < id.len() implies ('0' <= #[trigger] id[i] <= '9' || 'a'
            <= id[i] <= 'f' || 'A' <= id[i] <= 'F') by {
            assert(hex_char(id[i]));
        }
    }
}

/// A data directory keeps the name and the generation that its files hold, whenever and by
/// whichever process it is opened. One whose files hold neither starts with the first generation.
pub proof fn law_identities_are_kept(
    files: DataFiles,
    generation: u64,
    now: Timestamp,
    process: u32,
)
    requires
        generation > 0,
    ensures
        files.node_id is Some && files.generation is Some && valid_node_id(files.node_id->0@)
            && files.generation->0@ == decimal(generation as nat) ==> identity_of(
            files,
            now,
            process,
        ) == Ok::<(Seq<char>, u64), PersistenceError>((files.node_id->0@, generation)),
        files.node_id is None && files.generation is None && now.nanos >= 0 ==> {
            let identity = identity_of(files, now, process);
            identity is Ok && identity->Ok_0.1 == 1 && valid_node_id(identity->Ok_0.0)
        },
{
    if files.node_id is Some && valid_node_id(files.node_id->0@) {
        let id = files.node_id->0@;
        assert(hex_char(id[0]) && hex_char(id.last()));
    }
    law_generation_round_trip(generation);
    law_fresh_node_ids_are_valid(now, process);
}

/// A generation without a name is an error. So is a name without a generation beside a snapshot or
/// a log with records. A name alone stands with an empty log: it is kept, and the first generation
/// starts.
pub proof fn law_torn_metadata_is_refused(files: DataFiles, now: Timestamp, process: u32)
    ensures
        files.generation is Some && files.node_id is None ==> identity_of(files, now, process) is Err,
        files.generation is None && files.node_id is Some && (files.snapshot is Some
            || files.wal@.len() > 8) ==> identity_of(files, now, process) is Err,
        files.generation is None && files.node_id is Some && valid_node_id(files.node_id->0@)
            && files.snapshot is None && files.wal@.len() <= 8 ==> identity_of(files, now, process)
            == Ok::<(Seq<char>, u64), PersistenceError>((files.node_id->0@, 1)),
{
    if files.node_id is Some && valid_node_id(files.node_id->0@) {
        let id = files.node_id->0@;
        assert(hex_char(id[0]) && hex_char(id.last()));
    }
}

proof fn lemma_hexadecimal_differs(first: nat, second: nat, width: nat)
    requires
        hexadecimal(first, width) == hexadecimal(second, width),
    ensures
        first as int % vstd::arithmetic::power::pow(16, width) == second as int
            % vstd::arithmetic::power::pow(16, width),
        vstd::arithmetic::power::pow(16, width) > 0,
    decreases width,
{
    lemma_power(width);
    if width > 0 {
        let less = (width - 1) as nat;
        let base = vstd::arithmetic::power::pow(16, less);
        assert(hexadecimal(first, width).drop_last() =~= hexadecimal(first / 16, less));
        assert(hexadecimal(second, width).drop_last() =~= hexadecimal(second / 16, less));
        crate::text::law_hexadecimal_digits(first, width);
        crate::text::law_hexadecimal_digits(second, width);
        assert(first % 16 == second % 16);
        lemma_hexadecimal_differs(first / 16, second / 16, less);
        assert(first as int % (16 * base) == 16 * ((first as int / 16) % base) + first as int % 16) by {
            vstd::arithmetic::div_mod::lemma_mod_breakdown(first as int, 16, base);
        }
        assert(second as int % (16 * base) == 16 * ((second as int / 16) % base) + second as int
            % 16) by {
            vstd::arithmetic::div_mod::lemma_mod_breakdown(second as int, 16, base);
        }
    }
}

proof fn lemma_power(width: nat)
    ensures
        vstd::arithmetic::power::pow(16, width) > 0,
        width == 0 ==> vstd::arithmetic::power::pow(16, width) == 1,
        width > 0 ==> vstd::arithmetic::power::pow(16, width) == 16
            * vstd::arithmetic::power::pow(16, (width - 1) as nat),
{
    reveal(vstd::arithmetic::power::pow);
    vstd::arithmetic::power::lemma_pow_positive(16, width);
}

/// Names that are made up at different instants by one process differ, and so do names that are
/// made up at one instant by different processes.
pub proof fn law_fresh_node_ids_differ(
    first: Timestamp,
    second: Timestamp,
    process: u32,
    other: u32,
)
    requires
        first.nanos >= 0,
        second.nanos >= 0,
    ensures
        first.nanos != second.nanos ==> fresh_node_id(first, process) != fresh_node_id(
            second,
            process,
        ),
        process != other ==> fresh_node_id(first, process) != fresh_node_id(first, other),
{
    let (a, b) = (first.nanos as u128, second.nanos as u128);
    let (p, q) = ((process * 131072) as u128, (other * 131072) as u128);
    assert(vstd::arithmetic::power::pow(16, 32) == 0x1_0000_0000_0000_0000_0000_0000_0000_0000)
        by {
        lemma_sixteen_to_the(32);
    }
    if fresh_node_id(first, process) == fresh_node_id(second, process) {
        lemma_hexadecimal_differs((a ^ p) as nat, (b ^ p) as nat, 32);
        assert(a == b) by (bit_vector)
            requires
                a ^ p == b ^ p,
        ;
    }
    if fresh_node_id(first, process) == fresh_node_id(first, other) {
        lemma_hexadecimal_differs((a ^ p) as nat, (a ^ q) as nat, 32);
        assert(p == q) by (bit_vector)
            requires
                a ^ p == a ^ q,
        ;
    }
}

proof fn lemma_sixteen_to_the(width: nat)
    requires
        width == 32,
    ensures
        vstd::arithmetic::power::pow(16, width)
            == 0x1_0000_0000_0000_0000_0000_0000_0000_0000,
{
    vstd::arithmetic::power::lemma_pow_adds(16, 16, 16);
    vstd::arithmetic::power::lemma_pow_adds(16, 8, 8);
    vstd::arithmetic::power::lemma_pow_adds(16, 4, 4);
    assert(vstd::arithmetic::power::pow(16, 4) == 0x1_0000) by {
        reveal_with_fuel(vstd::arithmetic::power::pow, 5);
    }
    assert(0x1_0000int * 0x1_0000 == 0x1_0000_0000) by (nonlinear_arith);
    assert(0x1_0000_0000int * 0x1_0000_0000 == 0x1_0000_0000_0000_0000) by (nonlinear_arith);
    assert(0x1_0000_0000_0000_0000int * 0x1_0000_0000_0000_0000
        == 0x1_0000_0000_0000_0000_0000_0000_0000_0000) by (nonlinear_arith);
}

/// A generation is a positive number that fits, with white space around it or none. Nothing else
/// names one.
pub proof fn law_generations_are_positive_numbers(text: Seq<char>, number: u64)
    ensures
        generation_of(text) == Some(number) <==> number > 0 && unsigned_number(trimmed(text))
            == Some(number as nat),
        unsigned_number(trimmed(text)) is None ==> generation_of(text) is None,
{
}

} // verus!
