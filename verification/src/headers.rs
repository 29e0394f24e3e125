//! Header names and their classes: reserved, control, pass-through.

use crate::text::{chars_of, lower, same_chars, to_lower};
use vstd::prelude::*;

verus! {

/// The control header that selects the response status.
pub const INTERNAL_STATUS_CODE_HEADER: &'static str = "internal.status-code";

/// The control header that selects the response body.
pub const INTERNAL_RESPONSE_BODY_HEADER: &'static str = "internal.response-body";

/// One header line: a name and the bytes of its value.
#[derive(Debug, Clone, PartialEq, Eq)]
pub struct Header {
    pub name: String,
    pub value: Vec<u8>,
}

/// A header as contracts see it.
pub ghost struct HeaderView {
    pub name: Seq<char>,
    pub value: Seq<u8>,
}

impl View for Header {
    type V = HeaderView;

    open spec fn view(&self) -> HeaderView {
        HeaderView { name: self.name@, value: self.value@ }
    }
}

impl Header {
    /// A copy of this header.
    pub fn copy(&self) -> (copy: Header)
        ensures
            copy@ == self@,
    {
        Header { name: self.name.clone(), value: self.value.clone() }
    }
}

/// The views of a list of headers, in order.
pub open spec fn views(headers: Seq<Header>) -> Seq<HeaderView> {
    headers.map_values(|h: Header| h@)
}

/// What is done with a header when a request is mirrored.
#[derive(Debug, Clone, Copy, PartialEq, Eq, Structural)]
pub enum HeaderClass {
    /// Belongs to the request alone; never copied.
    Reserved,
    /// Directs the response; never copied.
    Control,
    /// Copied into the response.
    PassThrough,
}

/// The lowercase names of the headers that belong to the request alone.
pub open spec fn reserved_names() -> Seq<Seq<char>> {
    seq![
        "content-length"@,
        "user-agent"@,
        "host"@,
        "connection"@,
        "accept"@,
        "accept-encoding"@,
        "accept-language"@,
        "cache-control"@,
        "upgrade-insecure-requests"@,
        "sec-fetch-dest"@,
        "sec-fetch-mode"@,
        "sec-fetch-site"@,
        "sec-ch-ua"@,
        "sec-ch-ua-mobile"@,
        "sec-ch-ua-platform"@,
        "authorization"@,
        "cookie"@,
        "referer"@,
        "origin"@,
        "x-forwarded-for"@,
        "x-forwarded-proto"@,
        "x-real-ip"@,
        "transfer-encoding"@,
        "te"@,
        "trailer"@,
        "proxy-authorization"@,
        "proxy-authenticate"@,
        "www-authenticate"@,
    ]
}

/// True when a lowercase name is one of the reserved names.
pub open spec fn is_reserved(lower_name: Seq<char>) -> bool {
    reserved_names().contains(lower_name)
}

/// True when a lowercase name is one of the two control names.
pub open spec fn is_control(lower_name: Seq<char>) -> bool {
    lower_name == INTERNAL_STATUS_CODE_HEADER@ || lower_name == INTERNAL_RESPONSE_BODY_HEADER@
}

/// The class of a header name. Names are compared by their lowercase form; a
/// control name is a control name even if it were also listed as reserved.
pub open spec fn class_of(name: Seq<char>) -> HeaderClass {
    let lower_name = lower(name);
    if is_control(lower_name) {
        HeaderClass::Control
    } else if is_reserved(lower_name) {
        HeaderClass::Reserved
    } else {
        HeaderClass::PassThrough
    }
}

/// A control name is a control name in any casing, and it is not on the
/// reserved list: where the two rules could meet, the control rule decides,
/// and in fact they never meet.
pub proof fn lemma_control_names_are_not_reserved(name: Seq<char>)
    requires
        is_control(lower(name)),
    ensures
        class_of(name) == HeaderClass::Control,
        !is_reserved(lower(name)),
{
    reveal_strlit("internal.status-code");
    reveal_strlit("internal.response-body");
    reveal_strlit("content-length");
    reveal_strlit("user-agent");
    reveal_strlit("host");
    reveal_strlit("connection");
    reveal_strlit("accept");
    reveal_strlit("accept-encoding");
    reveal_strlit("accept-language");
    reveal_strlit("cache-control");
    reveal_strlit("upgrade-insecure-requests");
    reveal_strlit("sec-fetch-dest");
    reveal_strlit("sec-fetch-mode");
    reveal_strlit("sec-fetch-site");
    reveal_strlit("sec-ch-ua");
    reveal_strlit("sec-ch-ua-mobile");
    reveal_strlit("sec-ch-ua-platform");
    reveal_strlit("authorization");
    reveal_strlit("cookie");
    reveal_strlit("referer");
    reveal_strlit("origin");
    reveal_strlit("x-forwarded-for");
    reveal_strlit("x-forwarded-proto");
    reveal_strlit("x-real-ip");
    reveal_strlit("transfer-encoding");
    reveal_strlit("te");
    reveal_strlit("trailer");
    reveal_strlit("proxy-authorization");
    reveal_strlit("proxy-authenticate");
    reveal_strlit("www-authenticate");
    let names = reserved_names();
    assert(lower(name)[0] == 'i');
    assert forall|i: int| 0 <= i < names.len() implies names[i] != lower(name) by {
        assert(names[i][0] != 'i');
    }
}

/// The value of the first header with the given lowercase name, if any.
pub open spec fn first_value(headers: Seq<HeaderView>, lower_name: Seq<char>) -> Option<Seq<u8>>
    decreases headers.len(),
{
    if headers.len() == 0 {
        None
    } else if lower(headers.first().name) == lower_name {
        Some(headers.first().value)
    } else {
        first_value(headers.drop_first(), lower_name)
    }
}

/// The reserved names and the two control names, built once and read by
/// every request.
pub struct HeaderRules {
    reserved: Vec<Vec<char>>,
    status_name: Vec<char>,
    body_name: Vec<char>,
}

/// The names that a set of rules holds.
pub ghost struct HeaderRulesView {
    pub reserved: Seq<Seq<char>>,
    pub status_name: Seq<char>,
    pub body_name: Seq<char>,
}

/// The names that every set of rules holds.
pub open spec fn the_rules() -> HeaderRulesView {
    HeaderRulesView {
        reserved: reserved_names(),
        status_name: INTERNAL_STATUS_CODE_HEADER@,
        body_name: INTERNAL_RESPONSE_BODY_HEADER@,
    }
}

impl View for HeaderRules {
    type V = HeaderRulesView;

    closed spec fn view(&self) -> HeaderRulesView {
        HeaderRulesView {
            reserved: Seq::new(self.reserved@.len(), |i: int| self.reserved@[i]@),
            status_name: self.status_name@,
            body_name: self.body_name@,
        }
    }
}

impl HeaderRules {
    #[verifier::type_invariant]
    spec fn holds_the_names(self) -> bool {
        self@ == the_rules()
    }

    /// Builds the lookup tables.
    pub fn new() -> (rules: HeaderRules)
        ensures
            rules@ == the_rules(),
    {
        let mut reserved: Vec<Vec<char>> = Vec::new();
        reserved.push(chars_of("content-length"));
        reserved.push(chars_of("user-agent"));
        reserved.push(chars_of("host"));
        reserved.push(chars_of("connection"));
        reserved.push(chars_of("accept"));
        reserved.push(chars_of("accept-encoding"));
        reserved.push(chars_of("accept-language"));
        reserved.push(chars_of("cache-control"));
        reserved.push(chars_of("upgrade-insecure-requests"));
        reserved.push(chars_of("sec-fetch-dest"));
        reserved.push(chars_of("sec-fetch-mode"));
        reserved.push(chars_of("sec-fetch-site"));
        reserved.push(chars_of("sec-ch-ua"));
        reserved.push(chars_of("sec-ch-ua-mobile"));
        reserved.push(chars_of("sec-ch-ua-platform"));
        reserved.push(chars_of("authorization"));
        reserved.push(chars_of("cookie"));
        reserved.push(chars_of("referer"));
        reserved.push(chars_of("origin"));
        reserved.push(chars_of("x-forwarded-for"));
        reserved.push(chars_of("x-forwarded-proto"));
        reserved.push(chars_of("x-real-ip"));
        reserved.push(chars_of("transfer-encoding"));
        reserved.push(chars_of("te"));
        reserved.push(chars_of("trailer"));
        reserved.push(chars_of("proxy-authorization"));
        reserved.push(chars_of("proxy-authenticate"));
        reserved.push(chars_of("www-authenticate"));
        assert(Seq::new(reserved@.len(), |i: int| reserved@[i]@) =~= reserved_names());
        HeaderRules {
            reserved,
            status_name: chars_of(INTERNAL_STATUS_CODE_HEADER),
            body_name: chars_of(INTERNAL_RESPONSE_BODY_HEADER),
        }
    }

    /// The lowercase name of the status control header.
    pub(crate) fn status_name(&self) -> (name: &Vec<char>)
        ensures
            name@ == INTERNAL_STATUS_CODE_HEADER@,
    {
        proof {
            use_type_invariant(self);
        }
        &self.status_name
    }

    /// The lowercase name of the body control header.
    pub(crate) fn body_name(&self) -> (name: &Vec<char>)
        ensures
            name@ == INTERNAL_RESPONSE_BODY_HEADER@,
    {
        proof {
            use_type_invariant(self);
        }
        &self.body_name
    }

    /// True when `lower_name` is one of the reserved names.
    fn lists(&self, lower_name: &Vec<char>) -> (found: bool)
        ensures
            found == is_reserved(lower_name@),
    {
        proof {
            use_type_invariant(self);
        }
        let ghost names = Seq::new(self.reserved@.len(), |i: int| self.reserved@[i]@);
        let mut i: usize = 0;
        while i < self.reserved.len()
            invariant
                0 <= i <= self.reserved.len(),
                names == Seq::new(self.reserved@.len(), |i: int| self.reserved@[i]@),
                names == reserved_names(),
                forall|j: int| 0 <= j < i ==> names[j] != lower_name@,
            decreases self.reserved.len() - i,
        {
            if same_chars(&self.reserved[i], lower_name) {
                assert(names[i as int] == lower_name@);
                return true;
            }
            i = i + 1;
        }
        false
    }

    /// Classifies a header name.
    pub fn classify(&self, name: &str) -> (class: HeaderClass)
        ensures
            class == class_of(name@),
    {
        proof {
            use_type_invariant(self);
        }
        let lower_name = to_lower(name);
        if same_chars(&lower_name, &self.status_name) || same_chars(&lower_name, &self.body_name) {
            HeaderClass::Control
        } else if self.lists(&lower_name) {
            HeaderClass::Reserved
        } else {
            HeaderClass::PassThrough
        }
    }
}

} // verus!
