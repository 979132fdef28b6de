//! Content handlers: a page turns a parsed request into the bytes of a
//! response. Two in-memory pages are provided, one serving a single buffer
//! and one serving every file of a directory loaded at construction.
use vstd::prelude::*;

use crate::connection::{HttpRequest, ReqView};
use crate::text::{find_sub, first_sub_ix, lemma_first_sub_ix_bound, lookup_last, map_of, pair_views};

verus! {

/// A content handler: given a parsed request, the bytes to write back on the
/// connection, status line included.
pub trait HttpPage {
    /// The bytes this page answers a request with.
    spec fn page_output(&self, request: ReqView) -> Seq<u8>;

    fn process(&self, request: &HttpRequest) -> (r: Vec<u8>)
        ensures
            r@ == self.page_output(request@),
    ;
}

/// The bytes of the fixed status line every page sends:
/// `HTTP/1.1 200 OK` and a blank line.
pub open spec fn ok_header_bytes() -> Seq<u8> {
    seq![
        72u8, 84u8, 84u8, 80u8, 47u8, 49u8, 46u8, 49u8, 32u8, 50u8, 48u8, 48u8, 32u8, 79u8, 75u8,
        13u8, 10u8, 13u8, 10u8,
    ]
}

fn ok_header() -> (r: Vec<u8>)
    ensures
        r@ == ok_header_bytes(),
{
    let mut v: Vec<u8> = Vec::new();
    v.push(72);
    v.push(84);
    v.push(84);
    v.push(80);
    v.push(47);
    v.push(49);
    v.push(46);
    v.push(49);
    v.push(32);
    v.push(50);
    v.push(48);
    v.push(48);
    v.push(32);
    v.push(79);
    v.push(75);
    v.push(13);
    v.push(10);
    v.push(13);
    v.push(10);
    assert(v@ =~= ok_header_bytes());
    v
}

fn push_all(out: &mut Vec<u8>, src: &Vec<u8>)
    ensures
        final(out)@ == old(out)@ + src@,
{
    for k in 0..src.len()
        invariant
            out@ == old(out)@ + src@.take(k as int),
    {
        out.push(src[k]);
        proof {
            assert(src@.take(k + 1) =~= src@.take(k as int).push(src@[k as int]));
            assert(out@ =~= old(out)@ + src@.take(k + 1));
        }
    }
    proof {
        assert(src@.take(src@.len() as int) =~= src@);
    }
}

/// An in-memory static page: one buffer, served whatever the request says.
pub struct StaticPage {
    header_bytes: Vec<u8>,
    page_bytes: Vec<u8>,
}

impl StaticPage {
    #[verifier::type_invariant]
    spec fn wf(&self) -> bool {
        self.header_bytes@ == ok_header_bytes()
    }

    /// The bytes this page serves after the status line.
    pub closed spec fn content(&self) -> Seq<u8> {
        self.page_bytes@
    }

    /// A page serving the given buffer; the caller loads it, typically a
    /// file read fully into memory at startup.
    pub fn new(page_bytes: Vec<u8>) -> (r: Self)
        ensures
            r.content() == page_bytes@,
    {
        StaticPage { header_bytes: ok_header(), page_bytes }
    }

    /// The full response: the status line, then the buffer.
    pub fn response(&self) -> (r: Vec<u8>)
        ensures
            r@ == ok_header_bytes() + self.content(),
    {
        proof {
            use_type_invariant(self);
        }
        let mut out = ok_header();
        push_all(&mut out, &self.page_bytes);
        out
    }
}

impl HttpPage for StaticPage {
    /// The status line, then the buffer, whatever the request says.
    open spec fn page_output(&self, _request: ReqView) -> Seq<u8> {
        ok_header_bytes() + self.content()
    }

    fn process(&self, _request: &HttpRequest) -> (r: Vec<u8>) {
        self.response()
    }
}

/// What a directory page answers after the status line: the file whose name
/// follows the first occurrence of the URL prefix in the request path, or
/// nothing when the prefix does not occur or the file is unknown.
pub open spec fn dir_body(prefix: Seq<char>, files: Map<Seq<char>, Seq<u8>>, path: Seq<char>) -> Seq<
    u8,
> {
    let i = first_sub_ix(path, prefix);
    if i == -1 {
        Seq::empty()
    } else {
        let name = path.subrange(i + prefix.len() as int, path.len() as int);
        if files.contains_key(name) {
            files[name]
        } else {
            Seq::empty()
        }
    }
}

/// A static directory page: keeps in memory, and serves, every file of one
/// directory, loaded once at construction, non-recursively.
pub struct StaticDirectoryPage {
    url_path: String,
    header_bytes: Vec<u8>,
    file_map: Vec<(String, Vec<u8>)>,
}

impl StaticDirectoryPage {
    #[verifier::type_invariant]
    spec fn wf(&self) -> bool {
        self.header_bytes@ == ok_header_bytes()
    }

    /// The URL prefix under which the directory is served.
    pub closed spec fn prefix(&self) -> Seq<char> {
        self.url_path@
    }

    /// The loaded files, by name; a later pair for the same name wins.
    pub closed spec fn files(&self) -> Map<Seq<char>, Seq<u8>> {
        map_of(pair_views(self.file_map@))
    }

    /// A page serving the given name/content pairs under `url_path`; the
    /// caller lists the directory and loads each file.
    pub fn new(url_path: &str, files: Vec<(String, Vec<u8>)>) -> (r: Self)
        ensures
            r.prefix() == url_path@,
            r.files() == map_of(pair_views(files@)),
    {
        StaticDirectoryPage {
            url_path: url_path.to_owned(),
            header_bytes: ok_header(),
            file_map: files,
        }
    }

    /// The full response to a request: the status line, then `dir_body` of
    /// the request path.
    pub fn response(&self, request: &HttpRequest) -> (r: Vec<u8>)
        ensures
            r@ == ok_header_bytes() + dir_body(self.prefix(), self.files(), request@.path),
    {
        proof {
            use_type_invariant(self);
        }
        let mut out = ok_header();
        let path = request.path();
        let n = path.unicode_len();
        let plen = self.url_path.as_str().unicode_len();
        match find_sub(path, self.url_path.as_str()) {
            None => {},
            Some(i) => {
                proof {
                    lemma_first_sub_ix_bound(path@, self.url_path@);
                }
                let name = path.substring_char(i + plen, n);
                match lookup_last(&self.file_map, name) {
                    Some(contents) => {
                        push_all(&mut out, contents);
                    },
                    None => {},
                }
            },
        }
        proof {
            assert(out@ =~= ok_header_bytes() + dir_body(
                self.prefix(),
                self.files(),
                request@.path,
            ));
        }
        out
    }
}

impl HttpPage for StaticDirectoryPage {
    /// The status line, then the named file of the directory, if any.
    open spec fn page_output(&self, request: ReqView) -> Seq<u8> {
        ok_header_bytes() + dir_body(self.prefix(), self.files(), request.path)
    }

    fn process(&self, request: &HttpRequest) -> (r: Vec<u8>) {
        self.response(request)
    }
}

/// A page of either provided kind, so that one server can register both;
/// it answers exactly as the wrapped page does.
pub enum Page {
    Static(StaticPage),
    Directory(StaticDirectoryPage),
}

impl HttpPage for Page {
    /// The wrapped page's output.
    open spec fn page_output(&self, request: ReqView) -> Seq<u8> {
        match self {
            Page::Static(p) => p.page_output(request),
            Page::Directory(p) => p.page_output(request),
        }
    }

    fn process(&self, request: &HttpRequest) -> (r: Vec<u8>) {
        match self {
            Page::Static(p) => p.process(request),
            Page::Directory(p) => p.process(request),
        }
    }
}

} // verus!
