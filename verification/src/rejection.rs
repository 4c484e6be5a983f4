//! The code that the transport gives when a call to another component is
//! rejected. The library never looks inside it: it hands it on as it came.

use vstd::prelude::*;

verus! {

/// `ic_kit::RejectionCode`, as a value that is carried through unread.
#[verifier::external_type_specification]
#[verifier::external_body]
pub struct ExRejectionCode(ic_kit::RejectionCode);

} // verus!
