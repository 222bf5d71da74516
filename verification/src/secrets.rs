//! The session algorithms of the secret-storage client, as far as their
//! behaviour is plain computation.

use vstd::prelude::*;

verus! {

/// The "plain" session algorithm: no encryption at all.
#[derive(Clone, Copy, Debug, Default, Eq, Hash, PartialEq, Structural)]
pub struct PlainCrypto;

impl PlainCrypto {
    /// The plain algorithm needs no state.
    pub fn new() -> (r: Self)
        ensures
            r == PlainCrypto,
    {
        Self
    }

    /// The name the algorithm is negotiated under.
    pub fn get_name(&self) -> (r: &'static str)
        ensures
            r@ == "plain"@,
    {
        "plain"
    }

    /// The session input the algorithm sends: the empty string.
    pub fn get_session_input(&self) -> (r: &'static str)
        ensures
            r@ == ""@,
    {
        ""
    }

    /// Whether the peer's session output is acceptable: plain sessions
    /// accept exactly a textual output that is empty.
    pub fn set_session_output(&mut self, output_is_text: bool, output_len: usize) -> (r: bool)
        ensures
            r <==> (output_is_text && output_len == 0),
            *final(self) == *old(self),
    {
        output_is_text && output_len == 0
    }

    /// Decodes one secret value: plain sessions accept only empty
    /// parameters and return the value unchanged.
    pub fn decode_secret(&self, parameters: &[u8], value: &[u8]) -> (r: Option<Vec<u8>>)
        ensures
            parameters@.len() == 0 ==> (r matches Some(v) && v@ == value@),
            parameters@.len() != 0 ==> r is None,
    {
        if parameters.len() == 0 {
            Some(vstd::slice::slice_to_vec(value))
        } else {
            None
        }
    }
}

} // verus!
