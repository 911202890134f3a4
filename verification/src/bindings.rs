//! The shell-facing boundary: its error type, the listener shells implement,
//! and the string forms of resource kinds.
use vstd::prelude::*;

use crate::address::{read_url, url_reading};
use crate::engine::ResourceKind;
use crate::error::CoreError;
use crate::text::{concat3, same_text};

verus! {

/// Errors as shells see them.
#[derive(Debug)]
pub enum BlazeError {
    InvalidArgument { msg: String },
    NotFound { kind: String, id: String },
    Storage { msg: String },
    Network { msg: String },
    Internal { msg: String },
}

impl BlazeError {
    /// The message shown for this error.
    pub fn message(&self) -> (r: String)
        ensures
            r@ == match self {
                BlazeError::InvalidArgument { msg } => "invalid argument: "@ + msg@,
                BlazeError::NotFound { kind, id } => kind@ + " not found: "@ + id@,
                BlazeError::Storage { msg } => "storage error: "@ + msg@,
                BlazeError::Network { msg } => "network error: "@ + msg@,
                BlazeError::Internal { msg } => "internal error: "@ + msg@,
            },
    {
        let r = match self {
            BlazeError::InvalidArgument { msg } => concat3("invalid argument: ", msg.as_str(), ""),
            BlazeError::NotFound { kind, id } => concat3(kind.as_str(), " not found: ", id.as_str()),
            BlazeError::Storage { msg } => concat3("storage error: ", msg.as_str(), ""),
            BlazeError::Network { msg } => concat3("network error: ", msg.as_str(), ""),
            BlazeError::Internal { msg } => concat3("internal error: ", msg.as_str(), ""),
        };
        proof {
            reveal_strlit("");
            assert(r@ =~= match self {
                BlazeError::InvalidArgument { msg } => "invalid argument: "@ + msg@,
                BlazeError::NotFound { kind, id } => kind@ + " not found: "@ + id@,
                BlazeError::Storage { msg } => "storage error: "@ + msg@,
                BlazeError::Network { msg } => "network error: "@ + msg@,
                BlazeError::Internal { msg } => "internal error: "@ + msg@,
            });
        }
        r
    }
}

/// The shell error for a core error: same kind, same message.
pub fn shell_error(e: CoreError) -> (r: BlazeError)
    ensures
        match e {
            CoreError::InvalidArgument(m) => r == BlazeError::InvalidArgument { msg: m },
            CoreError::NotFound(k, id) => r matches BlazeError::NotFound { kind, id: i } && kind@ == k@ && i == id,
            CoreError::Storage(m) => r == BlazeError::Storage { msg: m },
            CoreError::Network(m) => r == BlazeError::Network { msg: m },
            CoreError::Internal(m) => r == BlazeError::Internal { msg: m },
        },
{
    match e {
        CoreError::InvalidArgument(msg) => BlazeError::InvalidArgument { msg },
        CoreError::NotFound(kind, id) => BlazeError::NotFound { kind: kind.to_string(), id },
        CoreError::Storage(msg) => BlazeError::Storage { msg },
        CoreError::Network(msg) => BlazeError::Network { msg },
        CoreError::Internal(msg) => BlazeError::Internal { msg },
    }
}

/// Shell-implemented listener; receives JSON-encoded event batches.
pub trait EventListener {
    fn on_events(&self, events_json: String);
}

/// The resource kind a shell's type string names; unknown strings are `Other`.
pub open spec fn kind_of_name(k: Seq<char>) -> ResourceKind {
    if k == "document"@ {
        ResourceKind::Document
    } else if k == "script"@ {
        ResourceKind::Script
    } else if k == "image"@ {
        ResourceKind::Image
    } else if k == "stylesheet"@ {
        ResourceKind::Stylesheet
    } else if k == "font"@ {
        ResourceKind::Font
    } else if k == "media"@ {
        ResourceKind::Media
    } else if k == "xhr"@ {
        ResourceKind::Xhr
    } else if k == "websocket"@ {
        ResourceKind::Websocket
    } else {
        ResourceKind::Other
    }
}

/// Parse a shell's resource-type string.
pub fn resource_kind(kind: &str) -> (r: ResourceKind)
    ensures
        r == kind_of_name(kind@),
{
    if same_text(kind, "document") {
        ResourceKind::Document
    } else if same_text(kind, "script") {
        ResourceKind::Script
    } else if same_text(kind, "image") {
        ResourceKind::Image
    } else if same_text(kind, "stylesheet") {
        ResourceKind::Stylesheet
    } else if same_text(kind, "font") {
        ResourceKind::Font
    } else if same_text(kind, "media") {
        ResourceKind::Media
    } else if same_text(kind, "xhr") {
        ResourceKind::Xhr
    } else if same_text(kind, "websocket") {
        ResourceKind::Websocket
    } else {
        ResourceKind::Other
    }
}

/// The request type the filter engine uses for a resource kind.
pub open spec fn request_type_name(k: ResourceKind) -> Seq<char> {
    match k {
        ResourceKind::Document => "document"@,
        ResourceKind::Script => "script"@,
        ResourceKind::Image => "image"@,
        ResourceKind::Stylesheet => "stylesheet"@,
        ResourceKind::Font => "font"@,
        ResourceKind::Media => "media"@,
        ResourceKind::Xhr => "xmlhttprequest"@,
        ResourceKind::Websocket => "websocket"@,
        ResourceKind::Other => "other"@,
    }
}

/// Map the engine-neutral resource kind onto the filter engine's request types.
pub fn request_type(kind: ResourceKind) -> (r: &'static str)
    ensures
        r@ == request_type_name(kind),
{
    match kind {
        ResourceKind::Document => "document",
        ResourceKind::Script => "script",
        ResourceKind::Image => "image",
        ResourceKind::Stylesheet => "stylesheet",
        ResourceKind::Font => "font",
        ResourceKind::Media => "media",
        ResourceKind::Xhr => "xmlhttprequest",
        ResourceKind::Websocket => "websocket",
        ResourceKind::Other => "other",
    }
}

/// Each resource kind reaches the filter engine as a request type of its
/// own: two different kinds never share one, and reading a kind's request
/// type back as a shell type string gives the same kind (`Xhr` aside, which
/// the engine calls `xmlhttprequest`).
pub proof fn lemma_request_types(a: ResourceKind, b: ResourceKind)
    ensures
        a != b ==> request_type_name(a) != request_type_name(b),
        a != ResourceKind::Xhr ==> kind_of_name(request_type_name(a)) == a,
        request_type_name(ResourceKind::Xhr) == "xmlhttprequest"@,
{
    reveal_strlit("document");
    reveal_strlit("script");
    reveal_strlit("image");
    reveal_strlit("stylesheet");
    reveal_strlit("font");
    reveal_strlit("media");
    reveal_strlit("xhr");
    reveal_strlit("xmlhttprequest");
    reveal_strlit("websocket");
    reveal_strlit("other");
    assert("document"@.len() == 8 && "document"@[0] == 'd');
    assert("script"@.len() == 6 && "script"@[0] == 's');
    assert("image"@.len() == 5 && "image"@[0] == 'i');
    assert("stylesheet"@.len() == 10 && "stylesheet"@[0] == 's');
    assert("font"@.len() == 4 && "font"@[0] == 'f');
    assert("media"@.len() == 5 && "media"@[0] == 'm');
    assert("xhr"@.len() == 3 && "xhr"@[0] == 'x');
    assert("xmlhttprequest"@.len() == 14 && "xmlhttprequest"@[0] == 'x');
    assert("websocket"@.len() == 9 && "websocket"@[0] == 'w');
    assert("other"@.len() == 5 && "other"@[0] == 'o');
}

/// The host `url::Url` reports for `url`, or `None` when it does not parse
/// or has no host.
pub open spec fn url_host(url: Seq<char>) -> Option<Seq<char>> {
    match url_reading(url) {
        Ok(t) => t.2,
        Err(_) => None,
    }
}

/// The host of `url`, when it parses and has one.
fn parse_host(url: &str) -> (r: Option<String>)
    ensures
        match r {
            Some(h) => url_host(url@) == Some(h@),
            None => url_host(url@) is None,
        },
{
    match read_url(url) {
        Ok(u) => u.host,
        Err(_) => None,
    }
}

/// The host of `url`, empty when it has none.
pub fn host_of(url: &str) -> (r: String)
    ensures
        r@ == match url_host(url@) {
            Some(h) => h,
            None => Seq::<char>::empty(),
        },
{
    match parse_host(url) {
        Some(h) => h,
        None => String::new(),
    }
}

} // verus!
