//! The request parser: raw request text to a structured request, or a parse
//! error. The first line is `METHOD PATH ...` split on spaces; the remaining
//! lines are `Key: Value` headers, the first colon splitting key from value,
//! the value trimmed, a line without a colon ignored, and the last occurrence
//! of a key winning.
use vstd::prelude::*;

use crate::text::{
    find_char, first_ix, lookup_last, map_of, pair_views, spec_lines, split_char, split_lines,
    split_str, trim_spec, trim_str, views_of,
};

verus! {

/// Why a request failed to parse: no first line at all, no method token on
/// the first line, or no path token after the method.
#[derive(Clone, Copy, Debug, PartialEq, Eq, Structural)]
pub enum ParseError {
    EmptyRequest,
    NoMethod,
    NoPath,
}

/// The mathematical content of a parsed request.
pub ghost struct ReqView {
    pub method: Seq<char>,
    pub path: Seq<char>,
    pub headers: Map<Seq<char>, Seq<char>>,
}

/// The key/value pairs the header lines denote, in order of appearance.
pub open spec fn header_pairs(ls: Seq<Seq<char>>) -> Seq<(Seq<char>, Seq<char>)>
    decreases ls.len(),
{
    if ls.len() == 0 {
        Seq::empty()
    } else {
        let rest = header_pairs(ls.drop_last());
        let l = ls.last();
        let i = first_ix(l, ':');
        if i == -1 {
            rest
        } else {
            rest.push((l.subrange(0, i), trim_spec(l.subrange(i + 1, l.len() as int))))
        }
    }
}

/// What parsing a request text yields: the method and path tokens of the
/// first line and the header map of the remaining lines, or the first error.
pub open spec fn parse_spec(text: Seq<char>) -> Result<ReqView, ParseError> {
    let ls = spec_lines(text);
    if ls.len() == 0 {
        Err(ParseError::EmptyRequest)
    } else if ls[0].len() == 0 {
        Err(ParseError::NoMethod)
    } else {
        let toks = split_char(ls[0], ' ');
        if toks.len() < 2 {
            Err(ParseError::NoPath)
        } else {
            Ok(
                ReqView {
                    method: toks[0],
                    path: toks[1],
                    headers: map_of(header_pairs(ls.drop_first())),
                },
            )
        }
    }
}

/// A parsed request: method, path, and headers as received.
#[derive(Debug)]
pub struct HttpRequest {
    method: String,
    path: String,
    headers: Vec<(String, String)>,
}

impl View for HttpRequest {
    type V = ReqView;

    closed spec fn view(&self) -> ReqView {
        ReqView {
            method: self.method@,
            path: self.path@,
            headers: map_of(pair_views(self.headers@)),
        }
    }
}

impl HttpRequest {
    /// A request with the given method and path and no headers.
    pub fn new(method: &str, path: &str) -> (r: Self)
        ensures
            r@.method == method@,
            r@.path == path@,
            r@.headers == Map::<Seq<char>, Seq<char>>::empty(),
    {
        let r = HttpRequest { method: method.to_owned(), path: path.to_owned(), headers: Vec::new() };
        proof {
            assert(pair_views(r.headers@) =~= Seq::<(Seq<char>, Seq<char>)>::empty());
        }
        r
    }

    /// Parses request text; exactly `parse_spec` of it.
    pub fn parse_from(text: &str) -> (r: Result<HttpRequest, ParseError>)
        ensures
            match r {
                Ok(req) => parse_spec(text@) == Ok::<ReqView, ParseError>(req@),
                Err(e) => parse_spec(text@) == Err::<ReqView, ParseError>(e),
            },
    {
        let lines = split_lines(text);
        let ghost ls = spec_lines(text@);
        if lines.len() == 0 {
            return Err(ParseError::EmptyRequest);
        }
        proof {
            assert(views_of(lines@)[0] == ls[0]);
        }
        let first = &lines[0];
        if first.as_str().unicode_len() == 0 {
            return Err(ParseError::NoMethod);
        }
        let toks = split_str(first.as_str(), ' ');
        if toks.len() < 2 {
            return Err(ParseError::NoPath);
        }
        proof {
            assert(views_of(toks@)[0] == split_char(ls[0], ' ')[0]);
            assert(views_of(toks@)[1] == split_char(ls[0], ' ')[1]);
        }
        let method = toks[0].clone();
        let path = toks[1].clone();
        let ghost hs = ls.drop_first();
        let mut headers: Vec<(String, String)> = Vec::new();
        assert(pair_views(headers@) =~= header_pairs(hs.take(0)));
        for idx in 1..lines.len()
            invariant
                views_of(lines@) == ls,
                hs == ls.drop_first(),
                1 <= idx <= lines@.len(),
                lines@.len() == ls.len(),
                pair_views(headers@) == header_pairs(hs.take(idx - 1)),
        {
            let line = &lines[idx];
            let ghost l = hs[idx - 1];
            proof {
                assert(views_of(lines@)[idx as int] == line@);
                assert(hs[idx - 1] == ls[idx as int]);
            }
            let m = line.as_str().unicode_len();
            match find_char(line.as_str(), ':') {
                Some(i) => {
                    proof {
                        crate::text::lemma_first_ix(line@, ':');
                    }
                    let key = line.as_str().substring_char(0, i).to_owned();
                    let value = trim_str(line.as_str().substring_char(i + 1, m));
                    headers.push((key, value));
                },
                None => {},
            }
            proof {
                assert(hs.take(idx as int).drop_last() =~= hs.take(idx - 1));
                assert(hs.take(idx as int).last() == l);
                assert(pair_views(headers@) =~= header_pairs(hs.take(idx as int)));
            }
        }
        proof {
            assert(hs.take(lines@.len() - 1) =~= hs);
        }
        let req = HttpRequest { method, path, headers };
        proof {
            assert(parse_spec(text@) == Ok::<ReqView, ParseError>(req@));
        }
        Ok(req)
    }

    /// The request path.
    pub fn path(&self) -> (r: &str)
        ensures
            r@ == self@.path,
    {
        self.path.as_str()
    }

    /// The request method.
    pub fn method(&self) -> (r: &str)
        ensures
            r@ == self@.method,
    {
        self.method.as_str()
    }

    /// The value of the header `key`, the last occurrence winning.
    pub fn value(&self, key: &str) -> (r: Option<&String>)
        ensures
            match r {
                Some(v) => self@.headers.contains_key(key@) && v@ == self@.headers[key@],
                None => !self@.headers.contains_key(key@),
            },
    {
        lookup_last(&self.headers, key)
    }
}

} // verus!
