//! What a request is answered with, as plain values.

use vstd::prelude::*;
use vstd::string::*;

verus! {

/// A response: status code, headers in the order they were added, body.
#[derive(Debug)]
pub struct Response {
    pub status: u16,
    pub headers: Vec<(String, String)>,
    pub body: Vec<u8>,
}

/// The mathematical content of a `Response`.
pub struct ResponseView {
    pub status: u16,
    pub headers: Seq<(Seq<char>, Seq<char>)>,
    pub body: Seq<u8>,
}

/// The headers as pairs of texts.
pub open spec fn header_texts(headers: Seq<(String, String)>) -> Seq<(Seq<char>, Seq<char>)> {
    Seq::new(headers.len(), |i: int| (headers[i].0@, headers[i].1@))
}

/// The value of the first header called `name`, if there is one.
pub open spec fn first_header(headers: Seq<(Seq<char>, Seq<char>)>, name: Seq<char>) -> Option<
    Seq<char>,
>
    decreases headers.len(),
{
    if headers.len() == 0 {
        None
    } else if headers[0].0 == name {
        Some(headers[0].1)
    } else {
        first_header(headers.drop_first(), name)
    }
}

impl View for Response {
    type V = ResponseView;

    open spec fn view(&self) -> ResponseView {
        ResponseView {
            status: self.status,
            headers: header_texts(self.headers@),
            body: self.body@,
        }
    }
}

impl Response {
    /// A response with a status and nothing else.
    pub fn new(status: u16) -> (r: Response)
        ensures
            r@ == (ResponseView { status, headers: Seq::empty(), body: Seq::empty() }),
    {
        let r = Response { status, headers: Vec::new(), body: Vec::new() };
        assert(r@.headers =~= Seq::empty());
        r
    }

    /// The same response with one more header at the end.
    pub fn with_header(self, name: &str, value: String) -> (r: Response)
        ensures
            r@ == (ResponseView { headers: self@.headers.push((name@, value@)), ..self@ }),
    {
        let ghost before = self@;
        let mut headers = self.headers;
        headers.push((String::from_str(name), value));
        let r = Response { status: self.status, headers, body: self.body };
        assert(r@.headers =~= before.headers.push((name@, value@)));
        r
    }

    /// The same response with `body` in place of its body.
    pub fn with_body(self, body: Vec<u8>) -> (r: Response)
        ensures
            r@ == (ResponseView { body: body@, ..self@ }),
    {
        Response { status: self.status, headers: self.headers, body }
    }

    /// The value of the first header called `name`.
    pub fn header(&self, name: &str) -> (value: Option<String>)
        ensures
            value.is_some() == first_header(self@.headers, name@).is_some(),
            value matches Some(v) ==> Some(v@) == first_header(self@.headers, name@),
    {
        let wanted = String::from_str(name);
        let mut i: usize = 0;
        assert(self@.headers.skip(0) =~= self@.headers);
        while i < self.headers.len()
            invariant
                i <= self.headers.len(),
                wanted@ == name@,
                first_header(self@.headers, name@) == first_header(
                    self@.headers.skip(i as int),
                    name@,
                ),
            decreases self.headers.len() - i,
        {
            let ghost rest = self@.headers.skip(i as int);
            assert(rest[0] == self@.headers[i as int]);
            assert(rest.drop_first() =~= self@.headers.skip(i as int + 1));
            if self.headers[i].0 == wanted {
                return Some(self.headers[i].1.clone());
            }
            i = i + 1;
        }
        assert(self@.headers.skip(i as int).len() == 0);
        None
    }
}

} // verus!
