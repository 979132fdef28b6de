//! A minimal HTTP serving core: a verified request parser, an ordered
//! pattern router over compiled regular expressions, in-memory static pages,
//! and a model of the worker-pool dispatch discipline that the runtime pool
//! follows.
pub mod connection;
pub mod pages;
pub mod pool;
pub mod pattern;
pub mod text;

use vstd::prelude::*;

use crate::connection::{parse_spec, HttpRequest};
use crate::pages::HttpPage;
use crate::pattern::{regex_is_match, regex_match, regex_new, regex_ok, regex_source};

verus! {

/// A route pattern was rejected at registration time.
#[derive(Clone, Copy, Debug, PartialEq, Eq, Structural)]
pub struct PatternError;

/// One registered route: a compiled path pattern and the page it serves.
struct Callback<P> {
    pattern: regex::Regex,
    page: P,
}

/// An HTTP server: an ordered route list; the first pattern that matches a
/// request's path picks the page, registration order deciding priority.
pub struct HttpServer<P> {
    callbacks: Vec<Callback<P>>,
}

/// Whether some pattern of the list matches the path.
pub open spec fn some_match(patterns: Seq<Seq<char>>, path: Seq<char>) -> bool {
    exists|j: int| 0 <= j < patterns.len() && regex_match(patterns[j], path)
}

/// Whether `i` is the first pattern of the list that matches the path:
/// it matches, and no earlier one does.
pub open spec fn is_first_match(patterns: Seq<Seq<char>>, path: Seq<char>, i: int) -> bool {
    0 <= i < patterns.len() && regex_match(patterns[i], path) && (forall|j: int|
        0 <= j < i ==> !regex_match(patterns[j], path))
}

/// Whether a request text draws a response from a server with the given
/// patterns: it parses, and some pattern matches its path.
pub open spec fn responds_to(patterns: Seq<Seq<char>>, text: Seq<char>) -> bool {
    match parse_spec(text) {
        Ok(req) => some_match(patterns, req.path),
        Err(_) => false,
    }
}

/// The decoding of request bytes that the dispatch works on; what
/// `String::from_utf8_lossy` returns, a function of the bytes alone.
pub uninterp spec fn lossy_decode(bytes: Seq<u8>) -> Seq<char>;

/// Relies on String::from_utf8_lossy: UTF-8 decoding with U+FFFD replacing
/// invalid sequences, never failing, a function of the bytes alone.
#[verifier::external_body]
fn lossy_utf8(bytes: &[u8]) -> (r: String)
    ensures
        r@ == lossy_decode(bytes@),
{
    String::from_utf8_lossy(bytes).into_owned()
}

impl<P> HttpServer<P> {
    /// The pattern each registered route was compiled from, in order.
    pub closed spec fn patterns(&self) -> Seq<Seq<char>> {
        self.callbacks@.map_values(|c: Callback<P>| regex_source(c.pattern))
    }

    /// The registered pages, in route order.
    pub closed spec fn pages(&self) -> Seq<P> {
        self.callbacks@.map_values(|c: Callback<P>| c.page)
    }

    /// A server with no routes.
    pub fn new() -> (r: Self)
        ensures
            r.patterns() == Seq::<Seq<char>>::empty(),
            r.pages() == Seq::<P>::empty(),
    {
        let r = HttpServer { callbacks: Vec::new() };
        proof {
            assert(r.patterns() =~= Seq::<Seq<char>>::empty());
            assert(r.pages() =~= Seq::<P>::empty());
        }
        r
    }

    /// Appends a route. The pattern is compiled; an invalid pattern is
    /// rejected and leaves the route list as it was.
    pub fn add_callback(&mut self, pattern: &str, page: P) -> (r: Result<(), PatternError>)
        ensures
            r is Ok <==> regex_ok(pattern@),
            r is Ok ==> final(self).patterns() == old(self).patterns().push(pattern@),
            r is Ok ==> final(self).pages() == old(self).pages().push(page),
            r is Err ==> *final(self) == *old(self),
    {
        match regex_new(pattern) {
            Ok(re) => {
                self.callbacks.push(Callback { pattern: re, page });
                proof {
                    assert(self.patterns() =~= old(self).patterns().push(pattern@));
                    assert(self.pages() =~= old(self).pages().push(page));
                }
                Ok(())
            },
            Err(_) => Err(PatternError),
        }
    }

    /// The first registered route whose pattern matches `path`, scanning in
    /// registration order; `None` when no pattern matches.
    pub fn find_callback(&self, path: &str) -> (r: Option<usize>)
        ensures
            match r {
                Some(i) => i < self.patterns().len() && regex_match(
                    self.patterns()[i as int],
                    path@,
                ) && (forall|j: int| 0 <= j < i ==> !regex_match(self.patterns()[j], path@)),
                None => !some_match(self.patterns(), path@),
            },
    {
        let n = self.callbacks.len();
        for i in 0..n
            invariant
                n == self.callbacks.len(),
                forall|j: int| 0 <= j < i ==> !regex_match(self.patterns()[j], path@),
        {
            if regex_is_match(&self.callbacks[i].pattern, path) {
                proof {
                    assert(regex_match(self.patterns()[i as int], path@));
                }
                return Some(i);
            }
            proof {
                assert(!regex_match(self.patterns()[i as int], path@));
            }
        }
        None
    }
}

impl<P: HttpPage> HttpServer<P> {
    /// Parses the request text and serves it: exactly the first matching
    /// route's page answers, given the parsed request, and no other page is
    /// invoked; a parse failure or an unmatched path answers nothing, and
    /// the caller just closes the connection.
    pub fn handle_text(&self, text: &str) -> (r: Option<Vec<u8>>)
        ensures
            r is Some <==> responds_to(self.patterns(), text@),
            r matches Some(bytes) ==> match parse_spec(text@) {
                Ok(req) => exists|i: int|
                    is_first_match(self.patterns(), req.path, i) && bytes@ == self.pages()[
                        i
                    ].page_output(req),
                Err(_) => false,
            },
    {
        match HttpRequest::parse_from(text) {
            Err(_) => None,
            Ok(req) => {
                match self.find_callback(req.path()) {
                    None => None,
                    Some(i) => {
                        let bytes = self.callbacks[i].page.process(&req);
                        proof {
                            let rq = parse_spec(text@)->Ok_0;
                            assert(rq == req@);
                            assert(self.pages()[i as int] == self.callbacks@[i as int].page);
                            assert(is_first_match(self.patterns(), rq.path, i as int));
                            assert(bytes@ == self.pages()[i as int].page_output(rq));
                            assert(exists|k: int|
                                is_first_match(self.patterns(), rq.path, k) && bytes@
                                    == self.pages()[k].page_output(rq));
                        }
                        Some(bytes)
                    },
                }
            },
        }
    }

    /// Handles one connection's single bounded read: decodes the bytes
    /// (lossily, never failing), parses, and serves as `handle_text` — the
    /// first matching route's page alone answers.
    pub fn handle_connection(&self, buffer: &[u8]) -> (r: Option<Vec<u8>>)
        ensures
            r is Some <==> responds_to(self.patterns(), lossy_decode(buffer@)),
            r matches Some(bytes) ==> match parse_spec(lossy_decode(buffer@)) {
                Ok(req) => exists|i: int|
                    is_first_match(self.patterns(), req.path, i) && bytes@ == self.pages()[
                        i
                    ].page_output(req),
                Err(_) => false,
            },
    {
        let text = lossy_utf8(buffer);
        self.handle_text(text.as_str())
    }
}

} // verus!
