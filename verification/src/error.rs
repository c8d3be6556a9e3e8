use vstd::prelude::*;
use std::rc::Rc;
use std::str::Utf8Error;

verus! {

#[verifier::external_type_specification]
#[verifier::external_body]
pub struct ExIoError(std::io::Error);

/// Why a file of grids could not be read or written.
#[derive(Debug)]
pub enum FileError {
    IoError(Rc<std::io::Error>),
    Utf8Error(Utf8Error),
    InvalidHeader,
    InvalidHeaderJson,
    UnsupportedDatatype(String),
}

} // verus!
