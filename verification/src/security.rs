//! Who may talk to the server, and what every reply tells the browser to forbid.
use vstd::prelude::*;

use crate::text::ascii_lower;
use crate::text::decimal;
use crate::text::same;
use crate::text::trim;

verus! {

/// The content security policy: everything comes from the server itself, and no script is inline.
pub const CSP_HEADER: &'static str = "default-src 'self'; script-src 'self'; style-src 'self' 'unsafe-inline'; img-src 'self' data:; connect-src 'self'; object-src 'none'; base-uri 'self'";

/// The names of this machine.
pub open spec fn is_own_name(name: Seq<char>) -> bool {
    name == "localhost"@ || name == "127.0.0.1"@
}

/// A name of this machine, alone or with the port of the server.
pub open spec fn is_own_host(host: Seq<char>, port: u16) -> bool {
    ||| is_own_name(host)
    ||| host == "localhost:"@ + crate::text::decimal_spec(port as nat)
    ||| host == "127.0.0.1:"@ + crate::text::decimal_spec(port as nat)
}

/// The `Host` header names this machine, in any case and with any whitespace round it.
pub open spec fn allows(host_header: Option<Seq<char>>, port: u16) -> bool {
    match host_header {
        Some(h) => is_own_host(
            crate::text::ascii_lower_spec(crate::text::trim_spec(h)),
            port,
        ),
        None => false,
    }
}

/// Whether a request with this `Host` header is answered.
pub fn host_allowed(host_header: Option<&str>, port: u16) -> (r: bool)
    ensures
        r == allows(
            match host_header {
                Some(h) => Some(h@),
                None => None,
            },
            port,
        ),
{
    let header = match host_header {
        Some(h) => h,
        None => {
            return false;
        },
    };
    let host = ascii_lower(trim(header).as_str());
    if same(host.as_str(), "localhost") || same(host.as_str(), "127.0.0.1") {
        return true;
    }
    let number = decimal(port);
    let mut name: String = "localhost:".to_owned();
    name.append(number.as_str());
    let mut address: String = "127.0.0.1:".to_owned();
    address.append(number.as_str());
    same(host.as_str(), name.as_str()) || same(host.as_str(), address.as_str())
}

/// Whether the server may listen at `host`: at this machine's own names only.
pub fn bind_allowed(host: &str) -> (r: bool)
    ensures
        r == is_own_name(host@),
{
    same(host, "127.0.0.1") || same(host, "localhost")
}

/// The headers of every reply, whatever it is.
pub open spec fn headers_spec() -> Seq<(Seq<char>, Seq<char>)> {
    seq![
        ("content-security-policy"@, CSP_HEADER@),
        ("x-content-type-options"@, "nosniff"@),
        ("referrer-policy"@, "no-referrer"@),
        ("cache-control"@, "no-store"@),
    ]
}

/// The contents of some headers.
pub open spec fn header_views(list: Seq<(&'static str, &'static str)>) -> Seq<
    (Seq<char>, Seq<char>),
> {
    Seq::new(list.len(), |i: int| (list[i].0@, list[i].1@))
}

/// The headers of every reply, whatever it is.
pub fn security_headers() -> (r: Vec<(&'static str, &'static str)>)
    ensures
        header_views(r@) == headers_spec(),
{
    let mut out: Vec<(&'static str, &'static str)> = Vec::new();
    out.push(("content-security-policy", CSP_HEADER));
    out.push(("x-content-type-options", "nosniff"));
    out.push(("referrer-policy", "no-referrer"));
    out.push(("cache-control", "no-store"));
    assert(header_views(out@) =~= headers_spec());
    out
}

// ---------------------------------------------------------------------------------------------
// Laws
// ---------------------------------------------------------------------------------------------

/// A request without a `Host` header is refused.
pub proof fn law_no_host_no_reply(port: u16)
    ensures
        !allows(None, port),
{
}

proof fn lemma_decimal_digits(n: nat)
    ensures
        crate::text::decimal_spec(n).len() > 0,
        forall|i: int|
            0 <= i < crate::text::decimal_spec(n).len() ==> '0' <= (
            #[trigger] crate::text::decimal_spec(n)[i]) && crate::text::decimal_spec(n)[i] <= '9',
    decreases n,
{
    if n >= 10 {
        lemma_decimal_digits(n / 10);
    }
}

/// Two numbers with the same notation are the same.
proof fn lemma_decimal_injective(a: nat, b: nat)
    requires
        crate::text::decimal_spec(a) == crate::text::decimal_spec(b),
    ensures
        a == b,
    decreases a,
{
    let x = crate::text::decimal_spec(a);
    let y = crate::text::decimal_spec(b);
    lemma_decimal_digits(a / 10);
    lemma_decimal_digits(b / 10);
    assert(x.last() == y.last());
    assert(a % 10 == b % 10) by {
        let p = (48 + a % 10) as u8;
        let q = (48 + b % 10) as u8;
        assert(x.last() == p as char);
        assert(y.last() == q as char);
        assert(p == 48 + a % 10 && q == 48 + b % 10);
    }
    if a >= 10 {
        assert(x.len() > 1);
        assert(b >= 10);
        assert(x.drop_last() =~= crate::text::decimal_spec(a / 10));
        assert(y.drop_last() =~= crate::text::decimal_spec(b / 10));
        lemma_decimal_injective(a / 10, b / 10);
    } else {
        assert(x.len() == 1);
        assert(b < 10);
    }
}

/// This machine's names with another port are refused.
pub proof fn law_other_port_refused(port: u16, other: u16)
    requires
        port != other,
    ensures
        !is_own_host("localhost:"@ + crate::text::decimal_spec(other as nat), port),
        !is_own_host("127.0.0.1:"@ + crate::text::decimal_spec(other as nat), port),
{
    reveal_strlit("localhost");
    reveal_strlit("127.0.0.1");
    reveal_strlit("localhost:");
    reveal_strlit("127.0.0.1:");
    let own = crate::text::decimal_spec(port as nat);
    let digits = crate::text::decimal_spec(other as nat);
    lemma_decimal_digits(other as nat);
    lemma_decimal_digits(port as nat);
    let a = "localhost:"@;
    let b = "127.0.0.1:"@;
    assert(a.len() == 10 && b.len() == 10);
    assert("localhost"@.len() == 9 && "127.0.0.1"@.len() == 9);
    assert((a + digits)[0] == 'l' && (b + digits)[0] == '1');
    assert((a + own)[0] == 'l' && (b + own)[0] == '1');
    if a + digits == a + own {
        assert((a + digits).skip(10) =~= digits);
        assert((a + own).skip(10) =~= own);
        lemma_decimal_injective(other as nat, port as nat);
    }
    if b + digits == b + own {
        assert((b + digits).skip(10) =~= digits);
        assert((b + own).skip(10) =~= own);
        lemma_decimal_injective(other as nat, port as nat);
    }
}

/// A host that is allowed begins with one of this machine's names, and has nothing behind it but
/// the port.
pub proof fn law_only_own_hosts(host: Seq<char>, port: u16)
    requires
        is_own_host(host, port),
    ensures
        host.len() >= 9,
        is_own_name(host.take(9)),
        host.len() > 9 ==> host.skip(9) == seq![':'] + crate::text::decimal_spec(port as nat),
{
    reveal_strlit("localhost");
    reveal_strlit("127.0.0.1");
    reveal_strlit("localhost:");
    reveal_strlit("127.0.0.1:");
    let own = crate::text::decimal_spec(port as nat);
    assert("localhost:"@ =~= "localhost"@.push(':'));
    assert("127.0.0.1:"@ =~= "127.0.0.1"@.push(':'));
    assert("localhost"@.len() == 9 && "127.0.0.1"@.len() == 9);
    if host == "localhost"@ || host == "127.0.0.1"@ {
        assert(host.take(9) =~= host);
    } else if host == "localhost:"@ + own {
        assert(host.take(9) =~= "localhost"@);
        assert(host.skip(9) =~= seq![':'] + own);
    } else {
        assert(host.take(9) =~= "127.0.0.1"@);
        assert(host.skip(9) =~= seq![':'] + own);
    }
}

proof fn lemma_lower_white(c: char)
    ensures
        crate::text::is_white_spec(crate::text::ascii_lower_char(c)) == crate::text::is_white_spec(
            c,
        ),
        crate::text::ascii_lower_char(crate::text::ascii_lower_char(c))
            == crate::text::ascii_lower_char(c),
{
    if 'A' <= c && c <= 'Z' {
        let n = (c as u8 + 32) as u8;
        assert(n == c as u8 + 32);
    }
}

proof fn lemma_lower_trim_start(s: Seq<char>)
    ensures
        crate::text::trim_start(crate::text::ascii_lower_spec(s)) == crate::text::ascii_lower_spec(
            crate::text::trim_start(s),
        ),
    decreases s.len(),
{
    let t = crate::text::ascii_lower_spec(s);
    if s.len() > 0 {
        lemma_lower_white(s[0]);
        if crate::text::is_white_spec(s[0]) {
            assert(t.skip(1) =~= crate::text::ascii_lower_spec(s.skip(1)));
            lemma_lower_trim_start(s.skip(1));
        }
    }
}

proof fn lemma_lower_trim_end(s: Seq<char>)
    ensures
        crate::text::trim_end(crate::text::ascii_lower_spec(s)) == crate::text::ascii_lower_spec(
            crate::text::trim_end(s),
        ),
    decreases s.len(),
{
    let t = crate::text::ascii_lower_spec(s);
    if s.len() > 0 {
        lemma_lower_white(s.last());
        if crate::text::is_white_spec(s.last()) {
            assert(t.drop_last() =~= crate::text::ascii_lower_spec(s.drop_last()));
            lemma_lower_trim_end(s.drop_last());
        }
    }
}

/// The case of the letters does not matter.
pub proof fn law_case_does_not_matter(h: Seq<char>, port: u16)
    ensures
        allows(Some(crate::text::ascii_lower_spec(h)), port) == allows(Some(h), port),
{
    lemma_lower_trim_start(h);
    lemma_lower_trim_end(crate::text::trim_start(h));
    let bare = crate::text::trim_spec(h);
    let lower = crate::text::ascii_lower_spec(bare);
    assert(crate::text::ascii_lower_spec(lower) =~= lower) by {
        assert forall|i: int| 0 <= i < lower.len() implies crate::text::ascii_lower_spec(lower)[i]
            == lower[i] by {
            lemma_lower_white(bare[i]);
        }
    }
}

} // verus!
