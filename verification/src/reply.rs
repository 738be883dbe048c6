//! Answers to requests.

use vstd::prelude::*;

verus! {

/// A refusal: a status code and a message for the client.
#[derive(Debug)]
pub struct ApiError {
    pub status: u16,
    pub message: String,
}

impl ApiError {
    /// The refusal has this status and this message.
    pub open spec fn says(self, status: u16, message: Seq<char>) -> bool {
        self.status == status && self.message@ == message
    }
}

/// A refusal with a status and a message.
pub fn json_error(code: u16, msg: &str) -> (r: ApiError)
    ensures
        r.says(code, msg@),
{
    ApiError { status: code, message: msg.to_owned() }
}

/// An outcome in terms of texts: what was asked for, or the status and the message of a refusal.
pub open spec fn outcome(r: Result<String, ApiError>) -> Result<Seq<char>, (u16, Seq<char>)> {
    match r {
        Ok(s) => Ok(s@),
        Err(e) => Err((e.status, e.message@)),
    }
}

/// A plain answer: a status code, headers in order, and a body.
#[derive(Debug)]
pub struct Reply {
    pub status: u16,
    pub headers: Vec<(String, String)>,
    pub body: String,
}

/// What a plain answer holds.
#[verifier::ext_equal]
pub struct ReplyView {
    pub status: u16,
    pub headers: Seq<(Seq<char>, Seq<char>)>,
    pub body: Seq<char>,
}

/// The contents of a list of headers.
pub open spec fn header_texts(v: Seq<(String, String)>) -> Seq<(Seq<char>, Seq<char>)> {
    v.map_values(|h: (String, String)| (h.0@, h.1@))
}

impl View for Reply {
    type V = ReplyView;

    open spec fn view(&self) -> ReplyView {
        ReplyView { status: self.status, headers: header_texts(self.headers@), body: self.body@ }
    }
}

/// An answer that is a status code and nothing more.
pub open spec fn bare(status: u16) -> ReplyView {
    ReplyView {
        status,
        headers: Seq::<(Seq<char>, Seq<char>)>::empty(),
        body: Seq::<char>::empty(),
    }
}

impl Reply {
    /// An answer that is a status code and nothing more.
    pub fn bare(status: u16) -> (r: Reply)
        ensures
            r@ == bare(status),
    {
        let r = Reply { status, headers: Vec::new(), body: String::new() };
        assert(r@ =~= bare(status));
        r
    }

    /// The answer with one more header.
    pub fn with_header(self, name: &str, value: &str) -> (r: Reply)
        ensures
            r@ == (ReplyView { headers: self@.headers.push((name@, value@)), ..self@ }),
    {
        let mut headers = self.headers;
        headers.push((name.to_owned(), value.to_owned()));
        let r = Reply { status: self.status, headers, body: self.body };
        assert(r@.headers =~= self@.headers.push((name@, value@)));
        r
    }

    /// The answer with another body.
    pub fn with_body(self, body: String) -> (r: Reply)
        ensures
            r@ == (ReplyView { body: body@, ..self@ }),
    {
        Reply { status: self.status, headers: self.headers, body }
    }
}

/// What a refusal says is its status and its message, and nothing else.
pub proof fn law_refusals_say_one_thing(e: ApiError, status: u16, message: Seq<char>)
    ensures
        e.says(status, message) <==> outcome(Err(e)) == Err::<Seq<char>, (u16, Seq<char>)>((status, message)),
        e.says(e.status, e.message@),
{
}

/// A header is seen as its name and its value, each header at its position.
pub proof fn law_headers_are_seen(v: Seq<(String, String)>, i: int)
    requires
        0 <= i < v.len(),
    ensures
        header_texts(v).len() == v.len(),
        header_texts(v)[i].0 == v[i].0@,
        header_texts(v)[i].1 == v[i].1@,
{
}

} // verus!
