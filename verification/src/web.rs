//! What a request to convert over the web holds, and the name under which
//! its result is sent back.
use vstd::prelude::*;
use vstd::string::{StrSliceExecFns, StringExecFns};
use vstd::utf8::encode_utf8;

use crate::input_type::is_alphanumeric;

verus! {

/// Where the comments of a request come from.
#[derive(Debug, PartialEq, Eq)]
pub enum Source {
    /// The request holds the XML file and its name.
    Xml { content: String, title: String },
    /// The request names a source, as the command line does.
    Url { url: String },
}

/// A request to convert, with a configuration of the kind `C`.
#[derive(Debug)]
pub struct ConvertRequest<C> {
    pub source: Source,
    pub config: C,
    pub denylist: Option<Vec<String>>,
}

/// The name of a file without the ending `.xml`, if it has it.
pub open spec fn without_xml(name: Seq<char>) -> Seq<char> {
    if name.len() >= 4 && name.skip(name.len() - 4) == ".xml"@ {
        name.take(name.len() - 4)
    } else {
        name
    }
}

/// The name under which the result for a file named `title` is sent.
pub fn attachment_title(title: &str) -> (r: String)
    ensures
        r@ == without_xml(title@),
{
    let n: usize = title.unicode_len();
    proof {
        reveal_strlit(".xml");
    }
    if n >= 4 && title.get_char(n - 4) == '.' && title.get_char(n - 3) == 'x' && title.get_char(
        n - 2,
    ) == 'm' && title.get_char(n - 1) == 'l' {
        proof {
            assert(title@.skip(n - 4) =~= ".xml"@);
        }
        title.substring_char(0, n - 4).to_owned()
    } else {
        proof {
            if n >= 4 && title@.skip(n - 4) == ".xml"@ {
                assert(title@.skip(n - 4)[0] == title@[n - 4]);
                assert(title@.skip(n - 4)[1] == title@[n - 3]);
                assert(title@.skip(n - 4)[2] == title@[n - 2]);
                assert(title@.skip(n - 4)[3] == title@[n - 1]);
            }
        }
        title.to_owned()
    }
}

/// The digit of `n` in base sixteen, in upper case.
pub open spec fn hex_digit(n: int) -> char {
    if n < 10 {
        (0x30 + n) as u8 as char
    } else {
        (0x41 + n - 10) as u8 as char
    }
}

/// A byte as it stands in a percent-encoded text: an ASCII letter or digit
/// as itself, any other byte as `%` and its two digits in base sixteen.
pub open spec fn percent_encoded_byte(b: u8) -> Seq<char> {
    if is_alphanumeric(b) {
        seq![b as char]
    } else {
        seq!['%', hex_digit(b as int / 16), hex_digit(b as int % 16)]
    }
}

/// Bytes as a percent-encoded text.
pub open spec fn percent_encoded(bytes: Seq<u8>) -> Seq<char>
    decreases bytes.len(),
{
    if bytes.len() == 0 {
        Seq::empty()
    } else {
        percent_encoded(bytes.drop_last()) + percent_encoded_byte(bytes.last())
    }
}

/// The UTF-8 encoding of `text`, percent-encoded.
///
/// Calls `percent_encoding::percent_encode` with the set
/// `NON_ALPHANUMERIC`, which encodes every byte but the ASCII letters and
/// digits as `%` and two digits in base sixteen, in upper case.
#[verifier::external_body]
fn percent_encode(text: &str) -> (r: String)
    ensures
        r@ == percent_encoded(encode_utf8(text@)),
{
    percent_encoding::percent_encode(text.as_bytes(), percent_encoding::NON_ALPHANUMERIC)
        .to_string()
}

/// The header that asks a browser to save the result under the name
/// `title` with the ending `.ass`.
pub fn content_disposition(title: &str) -> (r: String)
    ensures
        r@ == "attachment; filename=\""@ + percent_encoded(encode_utf8(title@)) + ".ass\""@,
{
    let encoded: String = percent_encode(title);
    "attachment; filename=\"".to_owned().concat(encoded.as_str()).concat(".ass\"")
}

} // verus!
