//! Object keys read as numbers or booleans.
use vstd::prelude::*;
use vstd::string::{StringExecFns, StringSliceAdditionalSpecFns};
use crate::error::Error;
use crate::grammar::is_whitespace;

verus! {

/// The key holds a whitespace byte.
pub open spec fn has_whitespace(key: Seq<u8>) -> bool {
    exists|i: int| 0 <= i < key.len() && is_whitespace(#[trigger] key[i])
}

/// A key that is to be read as a number or a boolean may hold no whitespace;
/// the number parser would otherwise skip it.
pub fn check_numeric_key(key: &str) -> (r: Result<(), Error>)
    ensures
        r is Ok <==> !has_whitespace(key.spec_bytes()),
        r matches Err(e) ==> e@ == ("whitespace in numeric or boolean object key"@, None::<usize>),
{
    let bytes = key.as_bytes();
    let mut i: usize = 0;
    while i < bytes.len()
        invariant
            bytes@ == key.spec_bytes(),
            i <= bytes@.len(),
            forall|k: int| 0 <= k < i ==> !is_whitespace(#[trigger] bytes@[k]),
        decreases bytes.len() - i,
    {
        let b = bytes[i];
        if b == 0x20 || b == 0x09 || b == 0x0a || b == 0x0d {
            return Err(Error::custom(String::from_str("whitespace in numeric or boolean object key")));
        }
        i = i + 1;
    }
    Ok(())
}

} // verus!
