use vstd::prelude::*;

verus! {

/// The one error type of the library.
#[derive(Debug, Clone, PartialEq, Eq)]
pub enum Error {
    DB(String),
    Rpc(String),
    Data(String),
    Rlp(String),
    Secp(String),
    MalformedData(String),
    InvalidOutPoint,
    EVM(String),
}

impl Error {
    /// A malformed-data error carrying `msg`.
    pub fn malformed(msg: &str) -> (r: Error)
        ensures
            r matches Error::MalformedData(m) && m@ == msg@,
    {
        Error::MalformedData(String::from_str(msg))
    }
}

} // verus!
