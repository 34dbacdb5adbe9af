//! The table of win frequencies that push-or-fold hold'em is valued with,
//! and how it is read from bytes.
//!
//! The bytes hold the number of entries as eight bytes, lowest first, and
//! then each entry as four bytes, lowest first. What follows the last
//! entry is ignored.

use vstd::prelude::*;

verus! {

/// Why a table of win frequencies was turned down.
#[derive(Debug, PartialEq, Eq)]
pub enum TableError {
    /// The bytes end before the entries they announce.
    Malformed,
    /// The table holds this number of entries, not one for every pair of
    /// hands.
    WrongLength(usize),
}

/// `bincode::ErrorKind`, what `bincode` reports when it cannot read a
/// value. Nothing is said of what it holds.
#[verifier::external_type_specification]
#[verifier::external_body]
pub struct ExErrorKind(bincode::ErrorKind);

/// The number that `width` bytes from place `at` on stand for, lowest byte
/// first.
pub open spec fn unsigned_at(bytes: Seq<u8>, at: int, width: nat) -> nat
    decreases width,
{
    if width == 0 {
        0
    } else {
        bytes[at] as nat + 256 * unsigned_at(bytes, at + 1, (width - 1) as nat)
    }
}

/// The number of entries that the bytes announce.
pub open spec fn announced(bytes: Seq<u8>) -> nat {
    unsigned_at(bytes, 0, 8)
}

/// Whether the bytes hold all the entries they announce.
pub open spec fn complete(bytes: Seq<u8>) -> bool {
    bytes.len() >= 8 && bytes.len() >= 8 + 4 * announced(bytes)
}

/// Entry `i` of the table the bytes hold: four bytes read as a number in
/// two's complement.
pub open spec fn entry_at(bytes: Seq<u8>, i: int) -> int {
    let unsigned = unsigned_at(bytes, 8 + 4 * i, 4);
    if unsigned >= 0x8000_0000 {
        unsigned - 0x1_0000_0000
    } else {
        unsigned as int
    }
}

/// The table the bytes hold.
pub open spec fn entries(bytes: Seq<u8>) -> Seq<i32> {
    Seq::new(announced(bytes), |i: int| entry_at(bytes, i) as i32)
}

/// `bincode::deserialize` for a vector of `i32`. It reads a length of eight
/// bytes and then four bytes for each entry, lowest byte first, and fails
/// exactly where the bytes end too early; bytes after the last entry are
/// allowed. The contract states this of the result and is not proved.
#[verifier::external_body]
fn deserialize_table(bytes: &[u8]) -> (out: Result<Vec<i32>, Box<bincode::ErrorKind>>)
    ensures
        out is Ok == complete(bytes@),
        out matches Ok(table) ==> table@ == entries(bytes@),
{
    bincode::deserialize::<Vec<i32>>(bytes)
}

/// Reads a table of win frequencies. It must hold one entry for every pair
/// of hands.
pub fn decode_win_frequencies(bytes: &[u8]) -> (out: Result<Vec<i32>, TableError>)
    ensures
        match out {
            Ok(table) => complete(bytes@) && table@ == entries(bytes@) && table@.len()
                == crate::game_push_fold::TABLE_LEN,
            Err(TableError::Malformed) => !complete(bytes@),
            Err(TableError::WrongLength(n)) => complete(bytes@) && n == announced(bytes@) && n
                != crate::game_push_fold::TABLE_LEN,
        },
{
    match deserialize_table(bytes) {
        Ok(table) => {
            if table.len() == crate::game_push_fold::TABLE_LEN {
                Ok(table)
            } else {
                Err(TableError::WrongLength(table.len()))
            }
        },
        Err(_) => Err(TableError::Malformed),
    }
}

} // verus!
