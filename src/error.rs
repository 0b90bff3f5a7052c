//! Error responses of the storage API and their XML form.
use vstd::prelude::*;
use crate::request::opt_view;
use crate::response::{optional_element, optional_text_field, push_field, text_element};
use crate::value::{Field, Unsupported, Value};
use crate::xml::{element, to_xml, xml_of, xml_of_field, xml_of_fields, chain, };

verus! {

/// The error codes that the API reports.
#[derive(Clone, Copy, Debug, PartialEq, Eq, Structural)]
pub enum ErrorCode {
    AccessDenied,
    InternalError,
    InvalidArgument,
    NoSuchBucket,
    NoSuchKey,
}

/// How a file system operation failed, as far as the error codes tell apart.
#[derive(Clone, Copy, Debug, PartialEq, Eq, Structural)]
pub enum IoErrorKind {
    NotFound,
    PermissionDenied,
    Other,
}

/// The name under which a code is written.
pub open spec fn code_name(c: ErrorCode) -> Seq<char> {
    match c {
        ErrorCode::AccessDenied => "AccessDenied"@,
        ErrorCode::InternalError => "InternalError"@,
        ErrorCode::InvalidArgument => "InvalidArgument"@,
        ErrorCode::NoSuchBucket => "NoSuchBucket"@,
        ErrorCode::NoSuchKey => "NoSuchKey"@,
    }
}

/// The default message of a code.
pub open spec fn code_message(c: ErrorCode) -> Seq<char> {
    match c {
        ErrorCode::AccessDenied => "Access Denied"@,
        ErrorCode::InternalError => "An internal error occurred. Try again."@,
        ErrorCode::InvalidArgument => ""@,
        ErrorCode::NoSuchBucket => "The specified bucket does not exist."@,
        ErrorCode::NoSuchKey => "The specified key does not exist."@,
    }
}

/// The HTTP status that goes with a code.
pub open spec fn code_status(c: ErrorCode) -> u16 {
    match c {
        ErrorCode::InvalidArgument => 400,
        ErrorCode::AccessDenied => 403,
        ErrorCode::NoSuchBucket => 404,
        ErrorCode::NoSuchKey => 404,
        ErrorCode::InternalError => 500,
    }
}

impl ErrorCode {
    /// The default message of this code.
    pub fn as_message(&self) -> (r: &'static str)
        ensures
            r@ == code_message(*self),
    {
        match self {
            ErrorCode::AccessDenied => "Access Denied",
            ErrorCode::InternalError => "An internal error occurred. Try again.",
            ErrorCode::NoSuchBucket => "The specified bucket does not exist.",
            ErrorCode::NoSuchKey => "The specified key does not exist.",
            ErrorCode::InvalidArgument => "",
        }
    }

    /// The name under which this code is written.
    pub fn as_str(&self) -> (r: &'static str)
        ensures
            r@ == code_name(*self),
    {
        match self {
            ErrorCode::AccessDenied => "AccessDenied",
            ErrorCode::InternalError => "InternalError",
            ErrorCode::InvalidArgument => "InvalidArgument",
            ErrorCode::NoSuchBucket => "NoSuchBucket",
            ErrorCode::NoSuchKey => "NoSuchKey",
        }
    }

    /// The HTTP status that goes with this code.
    pub fn to_status_code(self) -> (r: u16)
        ensures
            r == code_status(self),
    {
        match self {
            ErrorCode::InvalidArgument => 400,
            ErrorCode::AccessDenied => 403,
            ErrorCode::NoSuchBucket | ErrorCode::NoSuchKey => 404,
            ErrorCode::InternalError => 500,
        }
    }

    /// The code for a failed file system operation.
    pub fn from_io(kind: IoErrorKind) -> (r: ErrorCode)
        ensures
            r == match kind {
                IoErrorKind::NotFound => ErrorCode::NoSuchKey,
                IoErrorKind::PermissionDenied => ErrorCode::AccessDenied,
                IoErrorKind::Other => ErrorCode::InternalError,
            },
    {
        match kind {
            IoErrorKind::NotFound => ErrorCode::NoSuchKey,
            IoErrorKind::PermissionDenied => ErrorCode::AccessDenied,
            IoErrorKind::Other => ErrorCode::InternalError,
        }
    }
}

/// An error response: a code, and optionally a message, a bucket and a key.
pub struct Error {
    pub code: ErrorCode,
    pub message: Option<String>,
    pub bucket_name: Option<String>,
    pub key: Option<String>,
}

/// The XML form of an error response.
pub open spec fn error_xml(e: Error) -> Seq<char> {
    element(
        "Error"@,
        text_element("Code"@, code_name(e.code)) + optional_element("Message"@, opt_view(e.message))
            + optional_element("BucketName"@, opt_view(e.bucket_name)) + optional_element("Key"@, opt_view(e.key)),
    )
}

impl Error {
    /// The error for `code`, with the code's default message.
    pub fn from(code: ErrorCode) -> (r: Error)
        ensures
            r.code == code,
            opt_view(r.message) == Some(code_message(code)),
            r.bucket_name is None,
            r.key is None,
    {
        Error {
            code,
            message: Some(String::from_str(code.as_message())),
            bucket_name: None,
            key: None,
        }
    }

    /// The same error with `message` in place of its message.
    pub fn message(self, message: String) -> (r: Error)
        ensures
            r.code == self.code,
            opt_view(r.message) == Some(message@),
            r.bucket_name == self.bucket_name,
            r.key == self.key,
    {
        Error { message: Some(message), ..self }
    }

    /// The same error naming the bucket.
    pub fn bucket_name(self, bucket_name: String) -> (r: Error)
        ensures
            r.code == self.code,
            r.message == self.message,
            opt_view(r.bucket_name) == Some(bucket_name@),
            r.key == self.key,
    {
        Error { bucket_name: Some(bucket_name), ..self }
    }

    /// The same error naming the key.
    pub fn key(self, key: String) -> (r: Error)
        ensures
            r.code == self.code,
            r.message == self.message,
            r.bucket_name == self.bucket_name,
            opt_view(r.key) == Some(key@),
    {
        Error { key: Some(key), ..self }
    }

    /// The `Error` struct: the code by name, then the optional message,
    /// bucket and key.
    pub fn to_value(&self) -> (r: Value)
        ensures
            xml_of(r) == Ok::<Seq<char>, Unsupported>(error_xml(*self)),
    {
        let mut fs: Vec<Field> = Vec::new();
        push_field(&mut fs, Field::Named(String::from_str("Code"), Value::UnitVariant(String::from_str(self.code.as_str()))));
        let ghost mut acc = text_element("Code"@, code_name(self.code));
        assert(Seq::<char>::empty() + acc =~= acc);
        push_field(&mut fs, optional_text_field("Message", &self.message));
        push_field(&mut fs, optional_text_field("BucketName", &self.bucket_name));
        push_field(&mut fs, optional_text_field("Key", &self.key));
        Value::Struct(String::from_str("Error"), fs)
    }

    /// The error response as XML.
    pub fn to_xml(&self) -> (r: String)
        ensures
            r@ == error_xml(*self),
    {
        let v = self.to_value();
        match to_xml(&v) {
            Ok(s) => s,
            Err(_) => String::new(),
        }
    }
}

} // verus!
