//! Declarations that let hand-written `Debug` output stand beside verified code.
use std::fmt;
use vstd::prelude::*;

verus! {

#[verifier::external_type_specification]
#[verifier::external_body]
pub struct ExFormatter<'a>(fmt::Formatter<'a>);

#[verifier::external_type_specification]
#[verifier::external_body]
pub struct ExFmtError(fmt::Error);

} // verus!
