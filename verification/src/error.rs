use vstd::prelude::*;

verus! {

/// An error answered to an API request: each variant has an HTTP status and
/// a fixed message.
#[derive(Debug, Clone, Copy, PartialEq, Eq, Structural)]
pub enum ApiError {
    NotFound,
    FileTooLarge,
    NotUtf8Text,
    DocumentWithoutText,
    ArchiveUnreadable,
    ArchiveMemberMissing,
    XmlNotUtf8,
    XmlUnparsable,
    PdfUnreadable,
    PdfWithoutText,
    UrlNotUtf8,
    UrlInvalid,
    UrlSchemeUnsupported,
    RemoteDownloadFailed,
    RemoteServerError,
    RemoteTooLarge,
    RemoteInterrupted,
}

impl ApiError {
    pub open spec fn status_spec(self) -> u16 {
        match self {
            ApiError::NotFound => 404,
            ApiError::FileTooLarge => 413,
            ApiError::NotUtf8Text => 400,
            ApiError::DocumentWithoutText => 415,
            ApiError::ArchiveUnreadable => 400,
            ApiError::ArchiveMemberMissing => 400,
            ApiError::XmlNotUtf8 => 400,
            ApiError::XmlUnparsable => 400,
            ApiError::PdfUnreadable => 400,
            ApiError::PdfWithoutText => 415,
            ApiError::UrlNotUtf8 => 400,
            ApiError::UrlInvalid => 400,
            ApiError::UrlSchemeUnsupported => 400,
            ApiError::RemoteDownloadFailed => 502,
            ApiError::RemoteServerError => 502,
            ApiError::RemoteTooLarge => 413,
            ApiError::RemoteInterrupted => 502,
        }
    }

    /// The HTTP status code of the answer.
    pub fn status(&self) -> (code: u16)
        ensures
            code == self.status_spec(),
    {
        match self {
            ApiError::NotFound => 404,
            ApiError::FileTooLarge => 413,
            ApiError::NotUtf8Text => 400,
            ApiError::DocumentWithoutText => 415,
            ApiError::ArchiveUnreadable => 400,
            ApiError::ArchiveMemberMissing => 400,
            ApiError::XmlNotUtf8 => 400,
            ApiError::XmlUnparsable => 400,
            ApiError::PdfUnreadable => 400,
            ApiError::PdfWithoutText => 415,
            ApiError::UrlNotUtf8 => 400,
            ApiError::UrlInvalid => 400,
            ApiError::UrlSchemeUnsupported => 400,
            ApiError::RemoteDownloadFailed => 502,
            ApiError::RemoteServerError => 502,
            ApiError::RemoteTooLarge => 413,
            ApiError::RemoteInterrupted => 502,
        }
    }

    pub open spec fn message_spec(self) -> Seq<char> {
        match self {
            ApiError::NotFound => "Viewer URL not found"@,
            ApiError::FileTooLarge => "File exceeds 10 MB"@,
            ApiError::NotUtf8Text => "File is not valid UTF-8 text"@,
            ApiError::DocumentWithoutText => "Document did not contain extractable text"@,
            ApiError::ArchiveUnreadable => "Document archive could not be read"@,
            ApiError::ArchiveMemberMissing => "Document text could not be found"@,
            ApiError::XmlNotUtf8 => "Document XML is not valid UTF-8"@,
            ApiError::XmlUnparsable => "Document XML could not be parsed"@,
            ApiError::PdfUnreadable => "PDF text could not be extracted"@,
            ApiError::PdfWithoutText => "PDF did not contain extractable text"@,
            ApiError::UrlNotUtf8 => "URL is not valid UTF-8"@,
            ApiError::UrlInvalid => "Enter a valid HTTP or HTTPS URL"@,
            ApiError::UrlSchemeUnsupported => "Only HTTP and HTTPS URLs are supported"@,
            ApiError::RemoteDownloadFailed => "Remote file could not be downloaded"@,
            ApiError::RemoteServerError => "Remote server returned an error"@,
            ApiError::RemoteTooLarge => "Remote file exceeds 10 MB"@,
            ApiError::RemoteInterrupted => "Remote download was interrupted"@,
        }
    }

    /// The message sent as the answer's body.
    pub fn message(&self) -> (text: &'static str)
        ensures
            text@ == self.message_spec(),
    {
        match self {
            ApiError::NotFound => "Viewer URL not found",
            ApiError::FileTooLarge => "File exceeds 10 MB",
            ApiError::NotUtf8Text => "File is not valid UTF-8 text",
            ApiError::DocumentWithoutText => "Document did not contain extractable text",
            ApiError::ArchiveUnreadable => "Document archive could not be read",
            ApiError::ArchiveMemberMissing => "Document text could not be found",
            ApiError::XmlNotUtf8 => "Document XML is not valid UTF-8",
            ApiError::XmlUnparsable => "Document XML could not be parsed",
            ApiError::PdfUnreadable => "PDF text could not be extracted",
            ApiError::PdfWithoutText => "PDF did not contain extractable text",
            ApiError::UrlNotUtf8 => "URL is not valid UTF-8",
            ApiError::UrlInvalid => "Enter a valid HTTP or HTTPS URL",
            ApiError::UrlSchemeUnsupported => "Only HTTP and HTTPS URLs are supported",
            ApiError::RemoteDownloadFailed => "Remote file could not be downloaded",
            ApiError::RemoteServerError => "Remote server returned an error",
            ApiError::RemoteTooLarge => "Remote file exceeds 10 MB",
            ApiError::RemoteInterrupted => "Remote download was interrupted",
        }
    }

    /// The error answered when a viewer URL names no stored file.
    pub fn not_found() -> (e: ApiError)
        ensures
            e == ApiError::NotFound,
    {
        ApiError::NotFound
    }
}

} // verus!
