//! The replies of the server.
use vstd::prelude::*;

use crate::security::host_allowed;
use crate::text::contains_part;
use crate::text::starts_with;

verus! {

/// A reply, but for the headers that every one has.
#[derive(Debug)]
pub struct Reply {
    pub status: u16,
    pub content_type: String,
    pub body: Vec<u8>,
}

/// The content of a [`Reply`].
#[verifier::ext_equal]
pub struct ReplyView {
    pub status: u16,
    pub content_type: Seq<char>,
    pub body: Seq<u8>,
}

impl View for Reply {
    type V = ReplyView;

    open spec fn view(&self) -> ReplyView {
        ReplyView { status: self.status, content_type: self.content_type@, body: self.body@ }
    }
}

pub const OK: u16 = 200;

pub const FORBIDDEN: u16 = 403;

pub const NOT_FOUND: u16 = 404;

/// The asset that is the page itself.
pub const INDEX: &'static str = "index.html";

/// The asset that is the icon of the page.
pub const FAVICON: &'static str = "favicon.svg";

/// A reply that is a short text.
pub open spec fn text_reply_spec(status: u16, text: Seq<char>) -> ReplyView {
    ReplyView {
        status,
        content_type: "text/plain; charset=utf-8"@,
        body: vstd::utf8::encode_utf8(text),
    }
}

/// A reply that is a JSON document.
pub open spec fn json_reply_spec(body: Seq<u8>) -> ReplyView {
    ReplyView { status: OK, content_type: "application/json; charset=utf-8"@, body }
}

/// A reply that is a short text.
pub fn text_reply(status: u16, text: &str) -> (r: Reply)
    ensures
        r@ == text_reply_spec(status, text@),
{
    let r = Reply {
        status,
        content_type: "text/plain; charset=utf-8".to_owned(),
        body: vstd::slice::slice_to_vec(text.as_bytes()),
    };
    assert(r@ =~= text_reply_spec(status, text@));
    r
}

/// A reply that is a JSON document.
pub fn json_reply(body: Vec<u8>) -> (r: Reply)
    ensures
        r@ == json_reply_spec(body@),
{
    Reply { status: OK, content_type: "application/json; charset=utf-8".to_owned(), body }
}

/// The reply to a request for one session: its summary as a JSON document, or that there is none.
pub fn session_reply(summary: Option<Vec<u8>>) -> (r: Reply)
    ensures
        r@ == (match summary {
            Some(body) => json_reply_spec(body@),
            None => text_reply_spec(NOT_FOUND, "no such session"@),
        }),
{
    match summary {
        Some(body) => json_reply(body),
        None => text_reply(NOT_FOUND, "no such session"),
    }
}

/// The refusal of a request that does not name this machine; `None` where it does.
pub fn host_check(host_header: Option<&str>, port: u16) -> (r: Option<Reply>)
    ensures
        r is None == crate::security::allows(
            match host_header {
                Some(h) => Some(h@),
                None => None,
            },
            port,
        ),
        r matches Some(reply) ==> reply@ == text_reply_spec(FORBIDDEN, "Bad Host"@),
{
    if host_allowed(host_header, port) {
        None
    } else {
        Some(text_reply(FORBIDDEN, "Bad Host"))
    }
}

// ---------------------------------------------------------------------------------------------
// Assets
// ---------------------------------------------------------------------------------------------

/// The media type holds text.
pub open spec fn is_textual(essence: Seq<char>) -> bool {
    ||| crate::text::part_at(essence, "text/"@, 0)
    ||| crate::text::has_part(essence, "javascript"@)
    ||| crate::text::has_part(essence, "json"@)
}

/// The content type for a media type: with the encoding where it holds text.
pub open spec fn content_type_spec(essence: Seq<char>) -> Seq<char> {
    if is_textual(essence) {
        essence + "; charset=utf-8"@
    } else {
        essence
    }
}

/// The content type for a media type.
pub fn content_type(essence: &str) -> (r: String)
    ensures
        r@ == content_type_spec(essence@),
{
    let mut out: String = essence.to_owned();
    if starts_with(essence, "text/") || contains_part(essence, "javascript") || contains_part(
        essence,
        "json",
    ) {
        out.append("; charset=utf-8");
    }
    out
}

/// The essence of the media type that `mime_guess` guesses for a path, or of
/// `application/octet-stream`.
pub uninterp spec fn guessed_essence(path: Seq<char>) -> Seq<char>;

/// The path means the same on every platform: it holds neither a backslash nor a colon, and does
/// not begin with two slashes.
pub open spec fn is_portable(path: Seq<char>) -> bool {
    &&& !path.contains('\\')
    &&& !path.contains(':')
    &&& !(path.len() >= 2 && path[0] == '/' && path[1] == '/')
}

/// Guesses a media type by the extension of a path, with `mime_guess::from_path`, its
/// `first_or_octet_stream` and that one's `essence_str`.
///
/// Taken from `mime_guess`: the guess depends on the path alone. That is left unsaid of paths with
/// a backslash or a colon and of those that begin with two slashes, for what their extension is
/// depends on the platform.
#[verifier::external_body]
fn guess_essence(path: &str) -> (r: String)
    ensures
        is_portable(path@) ==> r@ == guessed_essence(path@),
{
    mime_guess::from_path(path).first_or_octet_stream().essence_str().to_owned()
}

/// The reply to a request for an asset of which the media type is known: `file` is its content,
/// where there is one.
pub open spec fn asset_reply_spec(
    rel: Seq<char>,
    essence: Seq<char>,
    file: Option<Seq<u8>>,
) -> ReplyView {
    if crate::text::has_part(rel, ".."@) {
        text_reply_spec(FORBIDDEN, "bad path"@)
    } else {
        match file {
            Some(body) => ReplyView {
                status: OK,
                content_type: content_type_spec(essence),
                body,
            },
            None => text_reply_spec(NOT_FOUND, "not found"@),
        }
    }
}

/// The content of a file, if there is one.
pub open spec fn file_view(file: Option<Vec<u8>>) -> Option<Seq<u8>> {
    match file {
        Some(body) => Some(body@),
        None => None,
    }
}

/// The reply to a request for an asset of which the media type is known.
pub fn asset_reply(rel: &str, essence: &str, file: Option<Vec<u8>>) -> (r: Reply)
    ensures
        r@ == asset_reply_spec(rel@, essence@, file_view(file)),
{
    if contains_part(rel, "..") {
        return text_reply(FORBIDDEN, "bad path");
    }
    match file {
        Some(body) => Reply { status: OK, content_type: content_type(essence), body },
        None => text_reply(NOT_FOUND, "not found"),
    }
}

/// The reply to a request for the asset `rel`: `file` is its content, where there is one.
pub fn serve_static_inner(rel: &str, file: Option<Vec<u8>>) -> (r: Reply)
    ensures
        is_portable(rel@) ==> r@ == asset_reply_spec(
            rel@,
            guessed_essence(rel@),
            file_view(file),
        ),
        exists|essence: Seq<char>| r@ == #[trigger] asset_reply_spec(
            rel@,
            essence,
            file_view(file),
        ),
{
    let essence = guess_essence(rel);
    asset_reply(rel, essence.as_str(), file)
}

// ---------------------------------------------------------------------------------------------
// Laws
// ---------------------------------------------------------------------------------------------

/// Whatever the assets are, a path with two dots in a row is refused, and nothing of an asset goes
/// out.
pub proof fn law_no_way_up(
    rel: Seq<char>,
    essence: Seq<char>,
    file: Option<Seq<u8>>,
)
    requires
        crate::text::has_part(rel, ".."@),
    ensures
        asset_reply_spec(rel, essence, file) == text_reply_spec(FORBIDDEN, "bad path"@),
{
}

} // verus!
