//! Identities: opaque byte strings that name applications and storage units.

use vstd::prelude::*;

verus! {

/// What parsing the textual form of a principal yields: its bytes, or `None`
/// where the text is no well-formed principal.
pub uninterp spec fn principal_from_text(text: Seq<char>) -> Option<Seq<u8>>;

/// Parses a principal's textual form with `ic_kit::Principal::from_text` and
/// hands out the bytes the principal holds. The result is the named function of
/// the text; nothing else is claimed of it.
#[verifier::external_body]
fn parse_principal_text(text: &str) -> (r: Option<Vec<u8>>)
    ensures
        (match r {
            Some(b) => Some(b@),
            None => None,
        }) == principal_from_text(text@),
{
    match ic_kit::Principal::from_text(text) {
        Ok(p) => Some(p.as_slice().to_vec()),
        Err(_) => None,
    }
}

/// An opaque, globally unique identifier of a caller or a storage unit.
#[derive(Debug, PartialEq, Eq)]
pub struct Identity {
    bytes: Vec<u8>,
}

impl View for Identity {
    type V = Seq<u8>;

    closed spec fn view(&self) -> Seq<u8> {
        self.bytes@
    }
}

impl Identity {
    /// The identity that holds exactly `bytes`.
    pub fn new(bytes: Vec<u8>) -> (id: Identity)
        ensures
            id@ == bytes@,
    {
        Identity { bytes }
    }

    /// The identity of the management authority: the empty byte string.
    pub fn management() -> (id: Identity)
        ensures
            id@ == Seq::<u8>::empty(),
    {
        Identity { bytes: Vec::new() }
    }

    /// The identity written as `text`, where `text` is a well-formed principal.
    pub fn from_text(text: &str) -> (r: Option<Identity>)
        ensures
            (match r {
                Some(id) => Some(id@),
                None => None,
            }) == principal_from_text(text@),
    {
        match parse_principal_text(text) {
            Some(bytes) => Some(Identity { bytes }),
            None => None,
        }
    }

    /// The bytes of the identity.
    pub fn as_bytes(&self) -> (b: &Vec<u8>)
        ensures
            b@ == self@,
    {
        &self.bytes
    }

    /// Whether two identities are the same byte string.
    pub fn same(&self, other: &Identity) -> (b: bool)
        ensures
            b == (self@ == other@),
    {
        bytes_equal(&self.bytes, &other.bytes)
    }

    /// A copy of the identity.
    pub fn duplicate(&self) -> (id: Identity)
        ensures
            id@ == self@,
    {
        Identity { bytes: self.bytes.clone() }
    }
}

impl Clone for Identity {
    fn clone(&self) -> (id: Identity)
        ensures
            id@ == self@,
    {
        self.duplicate()
    }
}

/// Whether two byte vectors hold the same bytes.
pub fn bytes_equal(a: &Vec<u8>, b: &Vec<u8>) -> (r: bool)
    ensures
        r == (a@ == b@),
{
    if a.len() != b.len() {
        return false;
    }
    let mut i: usize = 0;
    while i < a.len()
        invariant
            i <= a.len(),
            a.len() == b.len(),
            forall|j: int| 0 <= j < i ==> a@[j] == b@[j],
        decreases a.len() - i,
    {
        if a[i] != b[i] {
            return false;
        }
        i += 1;
    }
    assert(a@ =~= b@);
    true
}

} // verus!
