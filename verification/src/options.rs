//! How the registry is set up: where it listens, how it is addressed, and
//! in what chunks it reads blobs.

use crate::text::{decimal, usize_to_string};
use vstd::prelude::*;
use vstd::string::*;

verus! {

/// The settings of the registry.
#[derive(Debug, Clone)]
pub struct Options {
    pub protocol: String,
    pub host: String,
    pub port: usize,
    pub log_level: String,
    pub buf_size: String,
}

/// The number of bytes that `text` stands for, such as `10MB`, as
/// `byte_unit` reads it; `None` where it does not read as a size.
pub uninterp spec fn byte_size(text: Seq<char>) -> Option<u128>;

/// The longest text that is read as a size. A longer one could stand for
/// more bytes than `byte_unit` can count.
pub const MAX_SIZE_TEXT: usize = 17;

/// Calls `byte_unit::Byte::from_str` and takes the number of bytes out of
/// what it gives. Trusted: the result is the size that `text` stands for,
/// and `None` where the call reports an error. The call multiplies the
/// number it read by its unit without a check, so the text is kept short
/// enough for the product to fit: at most sixteen digits and a unit of up
/// to ten to the twenty-first.
#[verifier::external_body]
fn parse_byte_size(text: &str) -> (size: Option<u128>)
    requires
        text@.len() <= MAX_SIZE_TEXT,
    ensures
        size == byte_size(text@),
{
    match byte_unit::Byte::from_str(text) {
        Ok(bytes) => Some(bytes.get_bytes()),
        Err(_) => None,
    }
}

/// The size that a setting stands for: what `byte_unit` reads it as, and
/// nothing where it is longer than a size is written.
pub open spec fn size_setting(text: Seq<char>) -> Option<u128> {
    if text.len() <= MAX_SIZE_TEXT {
        byte_size(text)
    } else {
        None
    }
}

/// The address `host:port`.
pub open spec fn bind_addr(host: Seq<char>, port: usize) -> Seq<char> {
    host + ":"@ + decimal(port as nat)
}

/// The address with its protocol in front.
pub open spec fn server_url(protocol: Seq<char>, host: Seq<char>, port: usize) -> Seq<char> {
    protocol + "://"@ + bind_addr(host, port)
}

/// A size as a buffer length: the size itself where the machine can
/// address that many bytes, nothing otherwise.
pub open spec fn buffer_length(size: Option<u128>) -> Option<usize> {
    match size {
        Some(n) => if n <= usize::MAX {
            Some(n as usize)
        } else {
            None
        },
        None => None,
    }
}

/// Turns a size into a buffer length.
pub fn to_buffer_length(size: Option<u128>) -> (length: Option<usize>)
    ensures
        length == buffer_length(size),
{
    match size {
        Some(n) => {
            if n <= usize::MAX as u128 {
                Some(n as usize)
            } else {
                None
            }
        },
        None => None,
    }
}

impl Options {
    /// The address to listen on.
    pub fn get_bind_addr(&self) -> (addr: String)
        ensures
            addr@ == bind_addr(self.host@, self.port),
    {
        let mut addr = self.host.clone();
        addr.append(":");
        let port = usize_to_string(self.port);
        addr.append(port.as_str());
        addr
    }

    /// The address that clients reach the registry at.
    pub fn get_server_url(&self) -> (url: String)
        ensures
            url@ == server_url(self.protocol@, self.host@, self.port),
    {
        let mut url = self.protocol.clone();
        url.append("://");
        let addr = self.get_bind_addr();
        url.append(addr.as_str());
        assert(url@ =~= server_url(self.protocol@, self.host@, self.port));
        url
    }

    /// The length of the buffer that blobs are read with, or `None` where
    /// the setting does not read as a size that a buffer can have.
    pub fn get_buf_size_bytes(&self) -> (length: Option<usize>)
        ensures
            length == buffer_length(size_setting(self.buf_size@)),
    {
        if self.buf_size.as_str().unicode_len() <= MAX_SIZE_TEXT {
            to_buffer_length(parse_byte_size(self.buf_size.as_str()))
        } else {
            None
        }
    }
}

} // verus!
