//! The error kinds the engine distinguishes.
use vstd::prelude::*;

verus! {

/// Everything that can go wrong inside the engine, from lifecycle misuse to
/// corrupt meta pages and bound checks.
#[derive(Clone, Copy, Debug, PartialEq, Eq, Structural)]
pub enum Error {
    /// operation on a database that is not open
    DatabaseNotOpen,
    /// opening a database that is already open
    DatabaseOpen,
    /// the file is already locked by another database handle
    AlreadyOpened,
    /// neither meta page parses: the file is not a database
    Invalid,
    /// the meta version is not the supported one
    VersionMismatch,
    /// a meta page's checksum does not match its fields
    Checksum,
    /// use of a transaction after commit or rollback
    TxClosed,
    /// mutation through a read-only transaction
    TxNotWritable,
    /// named bucket does not exist
    BucketNotFound,
    /// creating a bucket under a name that is taken
    BucketExists,
    /// empty bucket name
    BucketNameRequired,
    /// a bucket where a plain value was expected, or the other way round
    IncompatibleValue,
    /// empty key
    KeyRequired,
    /// key longer than the maximum
    KeyTooLarge,
    /// value longer than the maximum
    ValueTooLarge,
    /// an underlying file operation failed
    Io,
}

impl Error {
    /// A short description of the error, fixed per kind.
    pub fn message(&self) -> (r: &'static str)
        ensures
            r@.len() > 0,
            *self == Error::DatabaseNotOpen ==> r@ == "database not open"@,
            *self == Error::DatabaseOpen ==> r@ == "database already open"@,
            *self == Error::AlreadyOpened ==> r@ == "database file already locked"@,
            *self == Error::Invalid ==> r@ == "invalid database"@,
            *self == Error::VersionMismatch ==> r@ == "version mismatch"@,
            *self == Error::Checksum ==> r@ == "checksum error"@,
            *self == Error::TxClosed ==> r@ == "transaction closed"@,
            *self == Error::TxNotWritable ==> r@ == "transaction not writable"@,
            *self == Error::BucketNotFound ==> r@ == "bucket not found"@,
            *self == Error::BucketExists ==> r@ == "bucket already exists"@,
            *self == Error::BucketNameRequired ==> r@ == "bucket name required"@,
            *self == Error::IncompatibleValue ==> r@ == "incompatible value"@,
            *self == Error::KeyRequired ==> r@ == "key required"@,
            *self == Error::KeyTooLarge ==> r@ == "key too large"@,
            *self == Error::ValueTooLarge ==> r@ == "value too large"@,
            *self == Error::Io ==> r@ == "file error"@,
    {
        let m = match *self {
            Error::DatabaseNotOpen => "database not open",
            Error::DatabaseOpen => "database already open",
            Error::AlreadyOpened => "database file already locked",
            Error::Invalid => "invalid database",
            Error::VersionMismatch => "version mismatch",
            Error::Checksum => "checksum error",
            Error::TxClosed => "transaction closed",
            Error::TxNotWritable => "transaction not writable",
            Error::BucketNotFound => "bucket not found",
            Error::BucketExists => "bucket already exists",
            Error::BucketNameRequired => "bucket name required",
            Error::IncompatibleValue => "incompatible value",
            Error::KeyRequired => "key required",
            Error::KeyTooLarge => "key too large",
            Error::ValueTooLarge => "value too large",
            Error::Io => "file error",
        };
        proof {
            reveal_strlit("database not open");
            reveal_strlit("database already open");
            reveal_strlit("database file already locked");
            reveal_strlit("invalid database");
            reveal_strlit("version mismatch");
            reveal_strlit("checksum error");
            reveal_strlit("transaction closed");
            reveal_strlit("transaction not writable");
            reveal_strlit("bucket not found");
            reveal_strlit("bucket already exists");
            reveal_strlit("bucket name required");
            reveal_strlit("incompatible value");
            reveal_strlit("key required");
            reveal_strlit("key too large");
            reveal_strlit("value too large");
            reveal_strlit("file error");
        }
        m
    }
}

} // verus!
