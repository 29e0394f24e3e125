//! Mirroring a request: which headers go back, with which status and body.

use crate::headers::{
    class_of, first_value, is_control, is_reserved, views, Header, HeaderClass, HeaderRules,
    HeaderView, INTERNAL_RESPONSE_BODY_HEADER, INTERNAL_STATUS_CODE_HEADER,
};
use crate::text::{lower, parse_u16, read_u16, same_chars, to_lower};
use crate::trace::{observe, trace_of, Trace};
use crate::wire::{accepts_status, decode_lossy, is_status, is_text, read_text, text_of, utf8_lossy};
use vstd::prelude::*;
use vstd::utf8::{decode_utf8, valid_utf8};

verus! {

/// A request as the transport hands it over.
#[derive(Debug, Clone, PartialEq, Eq)]
pub struct Request {
    pub method: String,
    pub path: String,
    pub query: String,
    pub headers: Vec<Header>,
    pub body: Vec<u8>,
}

/// A request as contracts see it.
pub ghost struct RequestView {
    pub method: Seq<char>,
    pub path: Seq<char>,
    pub query: Seq<char>,
    pub headers: Seq<HeaderView>,
    pub body: Seq<u8>,
}

impl View for Request {
    type V = RequestView;

    open spec fn view(&self) -> RequestView {
        RequestView {
            method: self.method@,
            path: self.path@,
            query: self.query@,
            headers: views(self.headers@),
            body: self.body@,
        }
    }
}

/// The response to one request.
#[derive(Debug, Clone, PartialEq, Eq)]
pub struct Response {
    pub status: u16,
    pub headers: Vec<Header>,
    pub body: String,
}

/// A response as contracts see it.
pub ghost struct ResponseView {
    pub status: u16,
    pub headers: Seq<HeaderView>,
    pub body: Seq<char>,
}

impl View for Response {
    type V = ResponseView;

    open spec fn view(&self) -> ResponseView {
        ResponseView { status: self.status, headers: views(self.headers@), body: self.body@ }
    }
}

/// The status sent when no override applies.
pub const DEFAULT_STATUS: u16 = 200;

/// The status that the request asks for: the first status control header,
/// where its value is text that reads as a number the transport can send.
pub open spec fn status_override(headers: Seq<HeaderView>) -> Option<u16> {
    match first_value(headers, INTERNAL_STATUS_CODE_HEADER@) {
        Some(value) => if is_text(value) {
            match parse_u16(text_of(value)) {
                Some(code) => if is_status(code) {
                    Some(code)
                } else {
                    None
                },
                None => None,
            }
        } else {
            None
        },
        None => None,
    }
}

/// The status of the response: the override if there is one, else 200.
pub open spec fn effective_status(headers: Seq<HeaderView>) -> u16 {
    match status_override(headers) {
        Some(code) => code,
        None => DEFAULT_STATUS,
    }
}

/// The body that the request asks for: the first body control header, where
/// its value is text.
pub open spec fn body_override(headers: Seq<HeaderView>) -> Option<Seq<char>> {
    match first_value(headers, INTERNAL_RESPONSE_BODY_HEADER@) {
        Some(value) => if is_text(value) {
            Some(text_of(value))
        } else {
            None
        },
        None => None,
    }
}

/// The body of the response: the override if there is one, else the request
/// body decoded leniently.
pub open spec fn effective_body(headers: Seq<HeaderView>, body: Seq<u8>) -> Seq<char> {
    match body_override(headers) {
        Some(text) => text,
        None => utf8_lossy(body),
    }
}

/// True for a header whose name is neither reserved nor a control name.
pub open spec fn passes(header: HeaderView) -> bool {
    class_of(header.name) == HeaderClass::PassThrough
}

/// The test that `pass_through` filters by.
pub open spec fn passing() -> spec_fn(HeaderView) -> bool {
    |h: HeaderView| passes(h)
}

/// The test that `sendable` filters by.
pub open spec fn with_text() -> spec_fn(HeaderView) -> bool {
    |h: HeaderView| is_text(h.value)
}

/// The headers that pass, in their order and with their repetitions.
pub open spec fn pass_through(headers: Seq<HeaderView>) -> Seq<HeaderView> {
    headers.filter(passing())
}

/// The headers whose value can be sent as text, in their order.
pub open spec fn sendable(headers: Seq<HeaderView>) -> Seq<HeaderView> {
    headers.filter(with_text())
}

/// The response that mirrors a request.
pub open spec fn response_of(request: RequestView) -> ResponseView {
    ResponseView {
        status: effective_status(request.headers),
        headers: sendable(pass_through(request.headers)),
        body: effective_body(request.headers, request.body),
    }
}

/// Appending one header to a list appends it to the headers that pass, or
/// leaves them as they are.
pub proof fn lemma_pass_through_push(headers: Seq<HeaderView>, header: HeaderView)
    ensures
        pass_through(headers.push(header)) == if passes(header) {
            pass_through(headers).push(header)
        } else {
            pass_through(headers)
        },
{
    reveal(Seq::filter);
    assert(headers.push(header).drop_last() == headers);
}

/// Appending one header to a list appends it to the sendable headers, or
/// leaves them as they are.
pub proof fn lemma_sendable_push(headers: Seq<HeaderView>, header: HeaderView)
    ensures
        sendable(headers.push(header)) == if is_text(header.value) {
            sendable(headers).push(header)
        } else {
            sendable(headers)
        },
{
    reveal(Seq::filter);
    assert(headers.push(header).drop_last() == headers);
}

impl HeaderRules {
    /// The headers of a request that are copied into the response.
    pub fn pass_through(&self, headers: &Vec<Header>) -> (kept: Vec<Header>)
        ensures
            views(kept@) == pass_through(views(headers@)),
    {
        let mut kept: Vec<Header> = Vec::new();
        let mut i: usize = 0;
        assert(views(headers@).take(0) =~= Seq::<HeaderView>::empty());
        assert(views(kept@) =~= Seq::<HeaderView>::empty());
        assert(pass_through(Seq::<HeaderView>::empty()) =~= Seq::<HeaderView>::empty()) by {
            reveal(Seq::filter);
        }
        while i < headers.len()
            invariant
                0 <= i <= headers.len(),
                views(kept@) == pass_through(views(headers@).take(i as int)),
            decreases headers.len() - i,
        {
            let header = &headers[i];
            let ghost before = views(headers@).take(i as int);
            proof {
                assert(views(headers@).take(i + 1) =~= before.push(header@));
                lemma_pass_through_push(before, header@);
            }
            match self.classify(header.name.as_str()) {
                HeaderClass::PassThrough => {
                    let ghost kept_before = kept@;
                    kept.push(header.copy());
                    assert(views(kept@) =~= views(kept_before).push(header@));
                },
                _ => {},
            }
            i = i + 1;
        }
        assert(views(headers@).take(i as int) =~= views(headers@));
        kept
    }

    /// The value of the first header with the given lowercase name.
    fn find<'a>(&self, headers: &'a Vec<Header>, lower_name: &Vec<char>) -> (found: Option<
        &'a Vec<u8>,
    >)
        ensures
            match found {
                Some(value) => first_value(views(headers@), lower_name@) == Some(value@),
                None => first_value(views(headers@), lower_name@) is None,
            },
    {
        let mut i: usize = 0;
        assert(views(headers@).skip(0) =~= views(headers@));
        while i < headers.len()
            invariant
                0 <= i <= headers.len(),
                first_value(views(headers@), lower_name@) == first_value(
                    views(headers@).skip(i as int),
                    lower_name@,
                ),
            decreases headers.len() - i,
        {
            let header = &headers[i];
            let ghost rest = views(headers@).skip(i as int);
            assert(rest.first() == header@);
            assert(rest.drop_first() =~= views(headers@).skip(i + 1));
            let lower_name_here = to_lower(header.name.as_str());
            if same_chars(&lower_name_here, lower_name) {
                return Some(&header.value);
            }
            i = i + 1;
        }
        None
    }

    /// The status and the body of the response to a request with these
    /// headers and this body.
    pub fn resolve(&self, headers: &Vec<Header>, body: &[u8]) -> (resolved: (u16, String))
        ensures
            resolved.0 == effective_status(views(headers@)),
            resolved.1@ == effective_body(views(headers@), body@),
            body_override(views(headers@)) is None && valid_utf8(body@) ==> resolved.1@
                == decode_utf8(body@),
    {
        let status: u16 = match self.find(headers, self.status_name()) {
            Some(value) => match read_text(value.as_slice()) {
                Some(text) => match read_u16(text.as_str()) {
                    Some(code) => if accepts_status(code) {
                        code
                    } else {
                        DEFAULT_STATUS
                    },
                    None => DEFAULT_STATUS,
                },
                None => DEFAULT_STATUS,
            },
            None => DEFAULT_STATUS,
        };
        let text: String = match self.find(headers, self.body_name()) {
            Some(value) => match read_text(value.as_slice()) {
                Some(text) => text,
                None => decode_lossy(body),
            },
            None => decode_lossy(body),
        };
        (status, text)
    }
}

/// Builds the response: the status, or 200 where the transport cannot send
/// it; the headers whose value is text, in order; the body as given.
pub fn synthesize(pass_through: Vec<Header>, status: u16, body: String) -> (response: Response)
    ensures
        response@ == (ResponseView {
            status: if is_status(status) {
                status
            } else {
                DEFAULT_STATUS
            },
            headers: sendable(views(pass_through@)),
            body: body@,
        }),
{
    let mut sent: Vec<Header> = Vec::new();
    let mut i: usize = 0;
    assert(views(pass_through@).take(0) =~= Seq::<HeaderView>::empty());
    assert(views(sent@) =~= Seq::<HeaderView>::empty());
    assert(sendable(Seq::<HeaderView>::empty()) =~= Seq::<HeaderView>::empty()) by {
        reveal(Seq::filter);
    }
    while i < pass_through.len()
        invariant
            0 <= i <= pass_through.len(),
            views(sent@) == sendable(views(pass_through@).take(i as int)),
        decreases pass_through.len() - i,
    {
        let header = &pass_through[i];
        let ghost before = views(pass_through@).take(i as int);
        proof {
            assert(views(pass_through@).take(i + 1) =~= before.push(header@));
            lemma_sendable_push(before, header@);
        }
        if read_text(header.value.as_slice()).is_some() {
            let ghost sent_before = sent@;
            sent.push(header.copy());
            assert(views(sent@) =~= views(sent_before).push(header@));
        }
        i = i + 1;
    }
    assert(views(pass_through@).take(i as int) =~= views(pass_through@));
    let status: u16 = if accepts_status(status) {
        status
    } else {
        DEFAULT_STATUS
    };
    Response { status, headers: sent, body }
}

/// Mirrors a request: classifies its headers, resolves the overrides and
/// builds the response.
pub fn respond(rules: &HeaderRules, request: &Request) -> (response: Response)
    ensures
        response@ == response_of(request@),
        body_override(request@.headers) is None && valid_utf8(request@.body) ==> response@.body
            == decode_utf8(request@.body),
{
    let kept = rules.pass_through(&request.headers);
    let (status, body) = rules.resolve(&request.headers, request.body.as_slice());
    synthesize(kept, status, body)
}

/// Answers a request. The response mirrors the request; in verbose mode the
/// exchange is recorded too, for the caller to display.
pub fn echo_handler(rules: &HeaderRules, request: &Request, verbose: bool) -> (answer: (
    Response,
    Option<Trace>,
))
    ensures
        answer.0@ == response_of(request@),
        body_override(request@.headers) is None && valid_utf8(request@.body) ==> answer.0@.body
            == decode_utf8(request@.body),
        match answer.1 {
            Some(trace) => verbose && trace@ == trace_of(request@, response_of(request@)),
            None => !verbose,
        },
{
    let response = respond(rules, request);
    let trace: Option<Trace> = if verbose {
        Some(observe(request, &response))
    } else {
        None
    };
    (response, trace)
}

/// The status of every response is one the transport can send: the number in
/// the first status control header where that header is present, is text,
/// reads as a number and lies in the range; 200 in every other case.
pub proof fn lemma_status_follows_the_control_header(request: RequestView)
    ensures
        is_status(response_of(request).status),
        match first_value(request.headers, INTERNAL_STATUS_CODE_HEADER@) {
            Some(value) => match parse_u16(text_of(value)) {
                Some(code) => response_of(request).status == if is_text(value) && is_status(code) {
                    code
                } else {
                    DEFAULT_STATUS
                },
                None => response_of(request).status == DEFAULT_STATUS,
            },
            None => response_of(request).status == DEFAULT_STATUS,
        },
{
}

/// Without a body control header the body of the response is the body of the
/// request, decoded leniently.
pub proof fn lemma_body_is_echoed(request: RequestView)
    requires
        first_value(request.headers, INTERNAL_RESPONSE_BODY_HEADER@) is None,
    ensures
        response_of(request).body == utf8_lossy(request.body),
{
}

/// With a body control header whose value is text, the body of the response
/// is that text, whatever the body of the request holds.
pub proof fn lemma_body_is_overridden(request: RequestView, value: Seq<u8>, other_body: Seq<u8>)
    requires
        first_value(request.headers, INTERNAL_RESPONSE_BODY_HEADER@) == Some(value),
        is_text(value),
    ensures
        response_of(request).body == text_of(value),
        response_of(RequestView { body: other_body, ..request }).body == text_of(value),
{
}

/// No header of a response has a reserved name or a control name.
pub proof fn lemma_no_reserved_or_control_header(request: RequestView, i: int)
    requires
        0 <= i < response_of(request).headers.len(),
    ensures
        passes(response_of(request).headers[i]),
        !is_reserved(lower(response_of(request).headers[i].name)),
        !is_control(lower(response_of(request).headers[i].name)),
{
    let kept = pass_through(request.headers);
    let sent = sendable(kept);
    assert(sent.contains(sent[i]));
    lemma_filtered_came_from(kept, with_text(), sent[i]);
    lemma_filtered_came_from(request.headers, passing(), sent[i]);
}

/// Whatever a filtered list contains, the list it was filtered from contains,
/// and it meets the test.
proof fn lemma_filtered_came_from<A>(s: Seq<A>, pred: spec_fn(A) -> bool, x: A)
    requires
        s.filter(pred).contains(x),
    ensures
        s.contains(x),
        pred(x),
    decreases s.len(),
{
    reveal(Seq::filter);
    if s.len() > 0 {
        let rest = s.drop_last().filter(pred);
        if pred(s.last()) && x == s.last() {
            assert(s[s.len() - 1] == x);
        } else {
            if pred(s.last()) {
                let k = choose|k: int| 0 <= k < s.filter(pred).len() && s.filter(pred)[k] == x;
                assert(s.filter(pred) == rest.push(s.last()));
                assert(rest[k] == x);
            }
            assert(rest.contains(x));
            lemma_filtered_came_from(s.drop_last(), pred, x);
            let k = choose|k: int| 0 <= k < s.drop_last().len() && s.drop_last()[k] == x;
            assert(s[k] == x);
        }
    }
}

/// Every element that meets the test is in the filtered list.
proof fn lemma_filter_holds<A>(s: Seq<A>, pred: spec_fn(A) -> bool, i: int)
    requires
        0 <= i < s.len(),
        pred(s[i]),
    ensures
        s.filter(pred).contains(s[i]),
    decreases s.len(),
{
    reveal(Seq::filter);
    let rest = s.drop_last().filter(pred);
    if i == s.len() - 1 {
        assert(s.filter(pred) == rest.push(s.last()));
        assert(s.filter(pred)[rest.len() as int] == s[i]);
    } else {
        lemma_filter_holds(s.drop_last(), pred, i);
        let k = choose|k: int| 0 <= k < rest.len() && rest[k] == s[i];
        assert(s.filter(pred)[k] == s[i]);
    }
}

/// A filter that every element passes changes nothing.
proof fn lemma_filter_keeps_all<A>(s: Seq<A>, pred: spec_fn(A) -> bool)
    requires
        forall|i: int| 0 <= i < s.len() ==> pred(#[trigger] s[i]),
    ensures
        s.filter(pred) == s,
    decreases s.len(),
{
    reveal(Seq::filter);
    if s.len() > 0 {
        lemma_filter_keeps_all(s.drop_last(), pred);
        assert(s.drop_last().push(s.last()) =~= s);
    }
}

/// Where every header that passes has a value that is text, the headers of
/// the response are exactly the headers of the request that pass: each with
/// its name and value, in the order of the request, as often as it occurs.
pub proof fn lemma_passing_headers_are_kept(request: RequestView)
    requires
        forall|i: int|
            0 <= i < request.headers.len() && passes(#[trigger] request.headers[i]) ==> is_text(
                request.headers[i].value,
            ),
    ensures
        response_of(request).headers == pass_through(request.headers),
        forall|i: int|
            0 <= i < request.headers.len() && passes(#[trigger] request.headers[i])
                ==> response_of(request).headers.contains(request.headers[i]),
{
    let kept = pass_through(request.headers);
    assert forall|k: int| 0 <= k < kept.len() implies with_text()(#[trigger] kept[k]) by {
        assert(kept.contains(kept[k]));
        lemma_filtered_came_from(request.headers, passing(), kept[k]);
        let j = choose|j: int| 0 <= j < request.headers.len() && request.headers[j] == kept[k];
        assert(passes(request.headers[j]));
    }
    lemma_filter_keeps_all(kept, with_text());
    assert forall|i: int|
        0 <= i < request.headers.len() && passes(#[trigger] request.headers[i]) implies kept.contains(
        request.headers[i],
    ) by {
        lemma_filter_holds(request.headers, passing(), i);
    }
}

/// Two requests that are the same get the same response.
pub proof fn lemma_same_request_same_response(first: Request, second: Request)
    requires
        first@ == second@,
    ensures
        response_of(first@) == response_of(second@),
{
}

} // verus!
