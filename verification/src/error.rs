use vstd::prelude::*;
use vstd::string::{to_string_from_display_ensures, StringExecFns};
use crate::names::{decimal, decimal_text};

verus! {

/// What an operation of this library fails with.
#[derive(Debug)]
pub enum PdfError {
    /// A file could not be read or written.
    Io(std::io::Error),
    /// A document could not be parsed.
    Parse(lopdf::Error),
    /// A page number outside the document; it carries the number.
    InvalidPage(u32),
    /// Any other failure, with a description.
    Operation(String),
}

/// What the message of an error begins with.
pub open spec fn message_head(e: PdfError) -> Seq<char> {
    match e {
        PdfError::Io(_) => "IO Error: "@,
        PdfError::Parse(_) => "PDF Parse Error: "@,
        PdfError::InvalidPage(_) => "Invalid Page Number: "@,
        PdfError::Operation(_) => "Operation Error: "@,
    }
}

/// The message of a failure to read or write: the head and the words of
/// the error.
pub fn io_message(e: &std::io::Error) -> (text: String)
    ensures
        exists|tail: String| #[trigger]
            to_string_from_display_ensures::<std::io::Error>(e, tail) && text@ == "IO Error: "@
                + tail@,
{
    let mut text = String::from_str("IO Error: ");
    let tail = e.to_string();
    text.append(tail.as_str());
    proof {
        assert(to_string_from_display_ensures::<std::io::Error>(e, tail));
    }
    text
}

/// The message of a failure to parse: the head and the words of the error.
pub fn parse_message(e: &lopdf::Error) -> (text: String)
    ensures
        exists|tail: String| #[trigger]
            to_string_from_display_ensures::<lopdf::Error>(e, tail) && text@
                == "PDF Parse Error: "@ + tail@,
{
    let mut text = String::from_str("PDF Parse Error: ");
    let tail = e.to_string();
    text.append(tail.as_str());
    proof {
        assert(to_string_from_display_ensures::<lopdf::Error>(e, tail));
    }
    text
}

/// The message for a page number outside the document: the head and the
/// number.
pub fn page_message(n: u32) -> (text: String)
    ensures
        text@ == "Invalid Page Number: "@ + decimal(n as nat),
{
    let mut text = String::from_str("Invalid Page Number: ");
    text.append(decimal_text(n as u64).as_str());
    text
}

/// The message of any other failure: the head and the description.
pub fn operation_message(what: &str) -> (text: String)
    ensures
        text@ == "Operation Error: "@ + what@,
{
    let mut text = String::from_str("Operation Error: ");
    text.append(what);
    text
}

impl PdfError {
    /// The one line that describes the error: a head that tells the kind,
    /// then the page number, the description, or the text of the error
    /// underneath.
    pub fn message(&self) -> (text: String)
        ensures
            text@.len() >= message_head(*self).len(),
            text@.subrange(0, message_head(*self).len() as int) == message_head(*self),
            self matches PdfError::InvalidPage(n) ==> text@ == message_head(*self) + decimal(
                n as nat,
            ),
            self matches PdfError::Operation(what) ==> text@ == message_head(*self) + what@,
            self matches PdfError::Io(e) ==> exists|tail: String| #[trigger]
                to_string_from_display_ensures::<std::io::Error>(e, tail) && text@ == message_head(
                    *self,
                ) + tail@,
            self matches PdfError::Parse(e) ==> exists|tail: String| #[trigger]
                to_string_from_display_ensures::<lopdf::Error>(e, tail) && text@ == message_head(
                    *self,
                ) + tail@,
    {
        let text = match self {
            PdfError::Io(e) => io_message(e),
            PdfError::Parse(e) => parse_message(e),
            PdfError::InvalidPage(n) => page_message(*n),
            PdfError::Operation(what) => operation_message(what.as_str()),
        };
        proof {
            let head = message_head(*self);
            assert(text@.len() >= head.len() && text@.subrange(0, head.len() as int) =~= head);
        }
        text
    }
}

} // verus!
