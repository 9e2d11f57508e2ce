//! Errors of reading: XML, encodings, sources and archives.

use vstd::prelude::*;

use crate::Location;
use crate::location::location_text;
use crate::text::append;

verus! {

#[derive(Debug)]
pub enum Error {
    /// An I/O error, with its message.
    Io(String),
    Xml { location: Location, message: String },
    UnsupportedEncoding(String),
    DtdNotSupported(Location),
    NoFeatures(String),
    NotReopenable(String),
    RemoteArchive(String),
    Zip { archive: String, member: String, message: String },
    NoGmlMembers(String),
}

/// What an error says.
pub open spec fn error_text(e: Error) -> Seq<char> {
    match e {
        Error::Io(m) => "I/O error: "@ + m@,
        Error::Xml { location, message } => "XML error at "@ + location_text(location) + ": "@ + message@,
        Error::UnsupportedEncoding(label) => "unsupported character encoding: "@ + label@,
        Error::DtdNotSupported(location) => "document type declarations are not supported (at "@
            + location_text(location) + ")"@,
        Error::NoFeatures(name) => "no feature collection or feature member found in "@ + name@,
        Error::NotReopenable(name) => "source can only be read once and was already consumed: "@ + name@,
        Error::RemoteArchive(name) => "zip archive "@ + name@ + " is not a local file; download it first"@,
        Error::Zip { archive, member, message } => "zip member "@ + member@ + " in "@ + archive@ + ": "@
            + message@,
        Error::NoGmlMembers(name) => "no GML members found in zip archive "@ + name@,
    }
}

impl Error {
    /// The error's message.
    pub fn message(&self) -> (r: String)
        ensures
            r@ == error_text(*self),
    {
        let mut out = String::new();
        match self {
            Error::Io(m) => {
                append(&mut out, "I/O error: ");
                append(&mut out, m.as_str());
            },
            Error::Xml { location, message } => {
                append(&mut out, "XML error at ");
                let l = location.describe();
                append(&mut out, l.as_str());
                append(&mut out, ": ");
                append(&mut out, message.as_str());
            },
            Error::UnsupportedEncoding(label) => {
                append(&mut out, "unsupported character encoding: ");
                append(&mut out, label.as_str());
            },
            Error::DtdNotSupported(location) => {
                append(&mut out, "document type declarations are not supported (at ");
                let l = location.describe();
                append(&mut out, l.as_str());
                append(&mut out, ")");
            },
            Error::NoFeatures(name) => {
                append(&mut out, "no feature collection or feature member found in ");
                append(&mut out, name.as_str());
            },
            Error::NotReopenable(name) => {
                append(&mut out, "source can only be read once and was already consumed: ");
                append(&mut out, name.as_str());
            },
            Error::RemoteArchive(name) => {
                append(&mut out, "zip archive ");
                append(&mut out, name.as_str());
                append(&mut out, " is not a local file; download it first");
            },
            Error::Zip { archive, member, message } => {
                append(&mut out, "zip member ");
                append(&mut out, member.as_str());
                append(&mut out, " in ");
                append(&mut out, archive.as_str());
                append(&mut out, ": ");
                append(&mut out, message.as_str());
            },
            Error::NoGmlMembers(name) => {
                append(&mut out, "no GML members found in zip archive ");
                append(&mut out, name.as_str());
            },
        }
        out
    }
}

} // verus!
