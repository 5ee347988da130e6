//! Turning a program image's bytes into words.

use vstd::prelude::*;

use crate::error::LoadError;
use crate::plate::{be_word, Plate};

verus! {

/// Assembles a program image into words: every four bytes, big-endian, make
/// one word. An image whose byte count is not a multiple of four is rejected
/// whole.
pub fn parse_program(bytes: &Vec<u8>) -> (r: Result<Vec<Plate>, LoadError>)
    ensures
        bytes@.len() % 4 == 0 ==> (r matches Ok(v) && v@.len() == bytes@.len() / 4 && (forall|
            j: int,
        |
            0 <= j < v@.len() ==> (#[trigger] v@[j])@ == be_word(
                bytes@[4 * j],
                bytes@[4 * j + 1],
                bytes@[4 * j + 2],
                bytes@[4 * j + 3],
            ))),
        bytes@.len() % 4 != 0 ==> r == Err::<Vec<Plate>, LoadError>(
            LoadError { n_bytes: bytes@.len() as usize },
        ),
{
    if bytes.len() % 4 != 0 {
        return Err(LoadError { n_bytes: bytes.len() });
    }
    let mut v: Vec<Plate> = Vec::new();
    let mut i: usize = 0;
    while i < bytes.len()
        invariant
            i % 4 == 0,
            i <= bytes@.len(),
            bytes@.len() % 4 == 0,
            v@.len() == i / 4,
            forall|j: int|
                0 <= j < v@.len() ==> (#[trigger] v@[j])@ == be_word(
                    bytes@[4 * j],
                    bytes@[4 * j + 1],
                    bytes@[4 * j + 2],
                    bytes@[4 * j + 3],
                ),
        decreases bytes@.len() - i,
    {
        let w = Plate::new([bytes[i], bytes[i + 1], bytes[i + 2], bytes[i + 3]]);
        v.push(w);
        i = i + 4;
    }
    Ok(v)
}

} // verus!
