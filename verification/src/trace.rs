//! What the verbose observer is shown of one exchange. How it is displayed
//! is left to the caller.

use crate::echo::{lemma_sendable_push, sendable, Request, RequestView, Response, ResponseView};
use crate::headers::{views, Header, HeaderView};
use crate::wire::{decode_lossy, read_text, text_of, utf8_lossy};
use vstd::prelude::*;

verus! {

/// A header as it is shown: its name and its value as text.
#[derive(Debug, Clone, PartialEq, Eq)]
pub struct ShownHeader {
    pub name: String,
    pub value: String,
}

/// A shown header as contracts see it.
pub ghost struct ShownHeaderView {
    pub name: Seq<char>,
    pub value: Seq<char>,
}

impl View for ShownHeader {
    type V = ShownHeaderView;

    open spec fn view(&self) -> ShownHeaderView {
        ShownHeaderView { name: self.name@, value: self.value@ }
    }
}

/// The views of a list of shown headers, in order.
pub open spec fn shown_views(headers: Seq<ShownHeader>) -> Seq<ShownHeaderView> {
    headers.map_values(|h: ShownHeader| h@)
}

/// One exchange as it is shown: the request as it came in and the response
/// as it goes out.
#[derive(Debug, Clone, PartialEq, Eq)]
pub struct Trace {
    pub method: String,
    pub path: String,
    pub query: String,
    pub request_headers: Vec<ShownHeader>,
    /// The body of the request as text; nothing where the body is empty.
    pub request_body: Option<String>,
    pub status: u16,
    pub response_headers: Vec<ShownHeader>,
    pub response_body: String,
}

/// A trace as contracts see it.
pub ghost struct TraceView {
    pub method: Seq<char>,
    pub path: Seq<char>,
    pub query: Seq<char>,
    pub request_headers: Seq<ShownHeaderView>,
    pub request_body: Option<Seq<char>>,
    pub status: u16,
    pub response_headers: Seq<ShownHeaderView>,
    pub response_body: Seq<char>,
}

impl View for Trace {
    type V = TraceView;

    open spec fn view(&self) -> TraceView {
        TraceView {
            method: self.method@,
            path: self.path@,
            query: self.query@,
            request_headers: shown_views(self.request_headers@),
            request_body: match self.request_body {
                Some(text) => Some(text@),
                None => None,
            },
            status: self.status,
            response_headers: shown_views(self.response_headers@),
            response_body: self.response_body@,
        }
    }
}

/// A header with its value read as text.
pub open spec fn as_shown(header: HeaderView) -> ShownHeaderView {
    ShownHeaderView { name: header.name, value: text_of(header.value) }
}

/// The headers of a list that can be shown: those whose value is text, in
/// their order, whatever their class.
pub open spec fn shown(headers: Seq<HeaderView>) -> Seq<ShownHeaderView> {
    sendable(headers).map_values(|h: HeaderView| as_shown(h))
}

/// The trace of an exchange: the method, the path and the query; every
/// header of the request that can be shown, reserved and control headers
/// too; the body of the request, decoded leniently, unless it is empty; then
/// the status, the headers and the body of the response.
pub open spec fn trace_of(request: RequestView, response: ResponseView) -> TraceView {
    TraceView {
        method: request.method,
        path: request.path,
        query: request.query,
        request_headers: shown(request.headers),
        request_body: if request.body.len() == 0 {
            None
        } else {
            Some(utf8_lossy(request.body))
        },
        status: response.status,
        response_headers: shown(response.headers),
        response_body: response.body,
    }
}

/// Reads the headers of a list for display.
pub fn show_headers(headers: &Vec<Header>) -> (lines: Vec<ShownHeader>)
    ensures
        shown_views(lines@) == shown(views(headers@)),
{
    let mut lines: Vec<ShownHeader> = Vec::new();
    let mut i: usize = 0;
    assert(views(headers@).take(0) =~= Seq::<HeaderView>::empty());
    assert(sendable(Seq::<HeaderView>::empty()) =~= Seq::<HeaderView>::empty()) by {
        reveal(Seq::filter);
    }
    assert(shown_views(lines@) =~= shown(Seq::<HeaderView>::empty()));
    while i < headers.len()
        invariant
            0 <= i <= headers.len(),
            shown_views(lines@) == shown(views(headers@).take(i as int)),
        decreases headers.len() - i,
    {
        let header = &headers[i];
        let ghost before = views(headers@).take(i as int);
        proof {
            assert(views(headers@).take(i + 1) =~= before.push(header@));
            lemma_sendable_push(before, header@);
        }
        match read_text(header.value.as_slice()) {
            Some(text) => {
                let ghost lines_before = lines@;
                lines.push(ShownHeader { name: header.name.clone(), value: text });
                assert(shown_views(lines@) =~= shown_views(lines_before).push(as_shown(header@)));
                assert(shown(before.push(header@)) =~= shown(before).push(as_shown(header@)));
            },
            None => {},
        }
        i = i + 1;
    }
    assert(views(headers@).take(i as int) =~= views(headers@));
    lines
}

/// Records an exchange for display. Neither the request nor the response is
/// changed.
pub fn observe(request: &Request, response: &Response) -> (trace: Trace)
    ensures
        trace@ == trace_of(request@, response@),
{
    let request_body: Option<String> = if request.body.len() == 0 {
        None
    } else {
        Some(decode_lossy(request.body.as_slice()))
    };
    Trace {
        method: request.method.clone(),
        path: request.path.clone(),
        query: request.query.clone(),
        request_headers: show_headers(&request.headers),
        request_body,
        status: response.status,
        response_headers: show_headers(&response.headers),
        response_body: response.body.clone(),
    }
}

} // verus!
