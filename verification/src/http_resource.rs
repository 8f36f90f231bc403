//! One served file, held in memory.

use vstd::prelude::*;
use vstd::string::*;
use vstd::utf8::valid_utf8;

verus! {

/// What the file system said of a file when it was read.
#[derive(Debug, Clone, Copy)]
pub struct FileMetadata {
    /// The length of the file in bytes.
    pub size: u64,
    /// When the file was last changed, in seconds since the Unix epoch, where
    /// the platform tells.
    pub modified: Option<u64>,
}

/// One served file: its bytes, its extension, its MIME type and its metadata.
pub struct HttpResource {
    pub mime_type: String,
    pub file_ext: String,
    pub metadata: FileMetadata,
    pub file_data: Vec<u8>,
}

/// What an `HttpResource` holds, as mathematical values.
pub struct HttpResourceView {
    pub mime_type: Seq<char>,
    pub file_ext: Seq<char>,
    pub metadata: FileMetadata,
    pub file_data: Seq<u8>,
}

impl View for HttpResource {
    type V = HttpResourceView;

    open spec fn view(&self) -> HttpResourceView {
        HttpResourceView {
            mime_type: self.mime_type@,
            file_ext: self.file_ext@,
            metadata: self.metadata,
            file_data: self.file_data@,
        }
    }
}

/// `std::str::from_utf8` accepts a slice of bytes exactly when it is valid
/// UTF-8.
#[verifier::external_body]
fn bytes_are_utf8(bytes: &[u8]) -> (r: bool)
    ensures
        r == valid_utf8(bytes@),
{
    std::str::from_utf8(bytes).is_ok()
}

impl HttpResource {
    /// The resource for a file with the given content and metadata.
    pub fn new(
        file_data: Vec<u8>,
        metadata: FileMetadata,
        extension: &str,
        mime_type: &str,
    ) -> (resource: HttpResource)
        ensures
            resource@ == (HttpResourceView {
                mime_type: mime_type@,
                file_ext: extension@,
                metadata: metadata,
                file_data: file_data@,
            }),
    {
        HttpResource {
            mime_type: String::from_str(mime_type),
            file_ext: String::from_str(extension),
            metadata: metadata,
            file_data: file_data,
        }
    }

    /// Whether the content is valid UTF-8.
    pub fn is_utf8(&self) -> (r: bool)
        ensures
            r == valid_utf8(self.file_data@),
    {
        bytes_are_utf8(self.file_data.as_slice())
    }
}

} // verus!
