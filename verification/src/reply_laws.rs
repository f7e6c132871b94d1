//! What the server answers, said of the plain values that go in and come out.
use vstd::prelude::*;

use crate::server::ReplyView;

verus! {

// ---------------------------------------------------------------------------------------------
// Texts
// ---------------------------------------------------------------------------------------------

/// Letters from `A` to `Z` become the small ones, and nothing else changes.
pub proof fn law_lower_case(s: Seq<char>, i: int)
    requires
        0 <= i < s.len(),
    ensures
        crate::text::ascii_lower_spec(s).len() == s.len(),
        'A' <= s[i] && s[i] <= 'Z' ==> crate::text::ascii_lower_spec(s)[i] as u32 == s[i] as u32
            + 32,
        s[i] < 'A' || 'Z' < s[i] ==> crate::text::ascii_lower_spec(s)[i] == s[i],
{
    if 'A' <= s[i] && s[i] <= 'Z' {
        let n = (s[i] as u8 + 32) as u8;
        assert(n == s[i] as u8 + 32);
    }
}

/// A digit is written as itself; ten times a number and a digit, as the number and then the digit.
pub proof fn law_decimal(n: nat, digit: nat)
    requires
        digit < 10,
    ensures
        crate::text::decimal_spec(digit) == seq![((48 + digit) as u8) as char],
        n > 0 ==> crate::text::decimal_spec(10 * n + digit) == crate::text::decimal_spec(n).push(
            ((48 + digit) as u8) as char,
        ),
{
    assert((10 * n + digit) / 10 == n);
    assert((10 * n + digit) % 10 == digit);
}

/// A part is a part wherever it stands.
pub proof fn law_part_is_found(front: Seq<char>, part: Seq<char>, back: Seq<char>)
    ensures
        crate::text::has_part(front + part + back, part),
        crate::text::part_at(part + back, part, 0),
{
    let s = front + part + back;
    assert(s.subrange(front.len() as int, (front.len() + part.len()) as int) =~= part);
    assert(crate::text::part_at(s, part, front.len() as int));
    assert((part + back).subrange(0, part.len() as int) =~= part);
}

/// What is found as a part stands there, with something or nothing in front of it and behind it.
pub proof fn law_found_is_a_part(s: Seq<char>, part: Seq<char>)
    requires
        crate::text::has_part(s, part),
    ensures
        exists|front: Seq<char>, back: Seq<char>| s == #[trigger] (front + part + back),
{
    let i = choose|i: int| crate::text::part_at(s, part, i);
    assert(s =~= s.take(i) + part + s.skip(i + part.len()));
}

// ---------------------------------------------------------------------------------------------
// Hosts
// ---------------------------------------------------------------------------------------------

/// A request is answered where its `Host`, trimmed and in small letters, is `localhost` or
/// `127.0.0.1`, alone or with the port of the server, and only there.
pub proof fn law_host(h: Seq<char>, port: u16)
    ensures
        ({
            let host = crate::text::ascii_lower_spec(crate::text::trim_spec(h));
            let number = crate::text::decimal_spec(port as nat);
            crate::security::allows(Some(h), port) == (host == "localhost"@ || host
                == "127.0.0.1"@ || host == "localhost:"@ + number || host == "127.0.0.1:"@
                + number)
        }),
        !crate::security::allows(None, port),
{
}

/// The server may listen at `localhost` and at `127.0.0.1`, and nowhere else.
pub proof fn law_own_names(name: Seq<char>)
    ensures
        crate::security::is_own_name(name) == (name == "localhost"@ || name == "127.0.0.1"@),
{
}

/// Every reply carries four headers: the policy, and that the type is not to be guessed, the page
/// not to be named to others and nothing to be stored.
pub proof fn law_headers()
    ensures
        ({
            let list = crate::security::headers_spec();
            &&& list.len() == 4
            &&& list[0] == (
                "content-security-policy"@,
                "default-src 'self'; script-src 'self'; style-src 'self' 'unsafe-inline'; img-src 'self' data:; connect-src 'self'; object-src 'none'; base-uri 'self'"@,
            )
            &&& list[1] == ("x-content-type-options"@, "nosniff"@)
            &&& list[2] == ("referrer-policy"@, "no-referrer"@)
            &&& list[3] == ("cache-control"@, "no-store"@)
        }),
{
}

// ---------------------------------------------------------------------------------------------
// Replies
// ---------------------------------------------------------------------------------------------

/// A reply that is a text has the status that it was given, and its body decodes to the text.
pub proof fn law_text_reply(status: u16, text: Seq<char>)
    ensures
        ({
            let r = crate::server::text_reply_spec(status, text);
            &&& r.status == status
            &&& r.content_type == "text/plain; charset=utf-8"@
            &&& vstd::utf8::valid_utf8(r.body)
            &&& vstd::utf8::decode_utf8(r.body) == text
        }),
{
    vstd::utf8::encode_utf8_valid_utf8(text);
    vstd::utf8::encode_utf8_decode_utf8(text);
}

/// The statuses and the assets that are fixed.
pub proof fn law_fixed()
    ensures
        crate::server::OK == 200,
        crate::server::FORBIDDEN == 403,
        crate::server::NOT_FOUND == 404,
        crate::server::INDEX@ == "index.html"@,
        crate::server::FAVICON@ == "favicon.svg"@,
{
}

/// A reply that is a document has it as its body.
pub proof fn law_json_reply(body: Seq<u8>)
    ensures
        crate::server::json_reply_spec(body) == (ReplyView {
            status: 200,
            content_type: "application/json; charset=utf-8"@,
            body,
        }),
{
}

/// The encoding is named with every media type that begins with `text/` or holds `javascript` or
/// `json`.
pub proof fn law_text_has_encoding(front: Seq<char>, back: Seq<char>)
    ensures
        crate::server::content_type_spec("text/"@ + back) == "text/"@ + back + "; charset=utf-8"@,
        crate::server::content_type_spec(front + "javascript"@ + back) == front + "javascript"@
            + back + "; charset=utf-8"@,
        crate::server::content_type_spec(front + "json"@ + back) == front + "json"@ + back
            + "; charset=utf-8"@,
{
    law_part_is_found(front, "text/"@, back);
    law_part_is_found(front, "javascript"@, back);
    law_part_is_found(front, "json"@, back);
}

/// Any other media type stays as it is.
pub proof fn law_other_has_no_encoding(essence: Seq<char>)
    requires
        forall|back: Seq<char>| essence != #[trigger] ("text/"@ + back),
        forall|front: Seq<char>, back: Seq<char>| essence != #[trigger] (front + "javascript"@
            + back),
        forall|front: Seq<char>, back: Seq<char>| essence != #[trigger] (front + "json"@ + back),
    ensures
        crate::server::content_type_spec(essence) == essence,
{
    if crate::text::part_at(essence, "text/"@, 0) {
        assert(essence =~= "text/"@ + essence.skip("text/"@.len() as int));
    }
    if crate::text::has_part(essence, "javascript"@) {
        law_found_is_a_part(essence, "javascript"@);
    }
    if crate::text::has_part(essence, "json"@) {
        law_found_is_a_part(essence, "json"@);
    }
}

/// A path with two dots in a row is refused, whether there is such a file or not.
pub proof fn law_bad_path(
    front: Seq<char>,
    back: Seq<char>,
    essence: Seq<char>,
    file: Option<Seq<u8>>,
)
    ensures
        ({
            let r = crate::server::asset_reply_spec(front + ".."@ + back, essence, file);
            &&& r.status == 403
            &&& r.content_type == "text/plain; charset=utf-8"@
            &&& r.body == vstd::utf8::encode_utf8("bad path"@)
        }),
{
    law_part_is_found(front, ".."@, back);
}

/// Of any other path the file is sent as it is, where there is one; where there is none, that is
/// said.
pub proof fn law_asset(rel: Seq<char>, essence: Seq<char>, body: Seq<u8>)
    requires
        forall|front: Seq<char>, back: Seq<char>| rel != #[trigger] (front + ".."@ + back),
    ensures
        ({
            let found = crate::server::asset_reply_spec(rel, essence, Some(body));
            let missed = crate::server::asset_reply_spec(rel, essence, None);
            &&& found.status == 200
            &&& found.content_type == crate::server::content_type_spec(essence)
            &&& found.body == body
            &&& missed.status == 404
            &&& missed.content_type == "text/plain; charset=utf-8"@
            &&& missed.body == vstd::utf8::encode_utf8("not found"@)
        }),
{
    if crate::text::has_part(rel, ".."@) {
        law_found_is_a_part(rel, ".."@);
    }
}

/// A path means the same everywhere where it holds no backslash and no colon, and does not begin
/// with two slashes.
pub proof fn law_portable(path: Seq<char>)
    ensures
        crate::server::is_portable(path) == ((forall|i: int|
            0 <= i < path.len() ==> #[trigger] path[i] != '\\' && path[i] != ':') && forall|
            rest: Seq<char>,
        | path != #[trigger] ("//"@ + rest)),
{
    reveal_strlit("//");
    if path.contains('\\') {
        let i = choose|i: int| 0 <= i < path.len() && path[i] == '\\';
        assert(path[i] == '\\');
    }
    if path.contains(':') {
        let i = choose|i: int| 0 <= i < path.len() && path[i] == ':';
        assert(path[i] == ':');
    }
    if path.len() >= 2 && path[0] == '/' && path[1] == '/' {
        assert(path =~= "//"@ + path.skip(2));
    }
    if exists|rest: Seq<char>| path == #[trigger] ("//"@ + rest) {
        assert(path[0] == '/' && path[1] == '/');
    }
}

} // verus!
