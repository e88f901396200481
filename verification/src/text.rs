//! Text that the network puts together: decimal numbers for the report on
//! turns, and the WebSocket addresses of the peers.
use url::Url;
use vstd::prelude::*;

verus! {

/// The character of the decimal digit `d`.
pub open spec fn digit(d: nat) -> char
    recommends
        d < 10,
{
    (48 + d) as char
}

/// The decimal digits of `n`, most significant first, without leading zeros.
pub open spec fn decimal(n: nat) -> Seq<char>
    decreases n,
{
    if n < 10 {
        seq![digit(n)]
    } else {
        decimal(n / 10).push(digit(n % 10))
    }
}

/// The decimal digit `d`, as text.
fn digit_text(d: usize) -> (text: &'static str)
    requires
        d < 10,
    ensures
        text@ == seq![digit(d as nat)],
{
    proof {
        reveal_strlit("0");
        reveal_strlit("1");
        reveal_strlit("2");
        reveal_strlit("3");
        reveal_strlit("4");
        reveal_strlit("5");
        reveal_strlit("6");
        reveal_strlit("7");
        reveal_strlit("8");
        reveal_strlit("9");
    }
    let text: &'static str = match d {
        0 => "0",
        1 => "1",
        2 => "2",
        3 => "3",
        4 => "4",
        5 => "5",
        6 => "6",
        7 => "7",
        8 => "8",
        _ => "9",
    };
    assert(text@ =~= seq![digit(d as nat)]);
    text
}

/// Appends the decimal digits of `n` to `text`.
pub fn push_decimal(text: &mut String, n: usize)
    ensures
        final(text)@ == old(text)@ + decimal(n as nat),
    decreases n,
{
    if n >= 10 {
        push_decimal(text, n / 10);
    }
    text.append(digit_text(n % 10));
    assert(text@ =~= old(text)@ + decimal(n as nat));
}

/// The scheme in front of every address of a peer.
pub open spec fn ws_scheme() -> Seq<char> {
    "ws://"@
}

/// The WebSocket address of the peer at `address`, as text.
pub open spec fn ws_address(address: Seq<char>) -> Seq<char> {
    ws_scheme() + address
}

/// What `url::Url::parse` makes of `input`: the URL in its normal form, as
/// text, or `None` where `input` is no absolute URL.
pub uninterp spec fn url_parse(input: Seq<char>) -> Option<Seq<char>>;

/// The text of a string, if there is one.
pub open spec fn text_of(s: Option<String>) -> Option<Seq<char>> {
    match s {
        Some(s) => Some(s@),
        None => None,
    }
}

/// `url::Url::parse`, and `String::from` on the URL that it gives: parses
/// `input` as an absolute URL and hands back its serialization, or `None`
/// where `input` does not parse. Nothing is claimed of the result but that it
/// depends on `input` alone.
#[verifier::external_body]
pub(crate) fn parse_url(input: &str) -> (parsed: Option<String>)
    ensures
        text_of(parsed) == url_parse(input@),
{
    Url::parse(input).ok().map(String::from)
}

/// The WebSocket URL under which the peer at `address` is reached: `ws://`
/// and the address, as `url::Url::parse` reads it. `None` where that is no
/// URL.
pub fn ws_url(address: &str) -> (url: Option<String>)
    ensures
        text_of(url) == url_parse(ws_address(address@)),
{
    let mut text: String = String::new();
    text.append("ws://");
    text.append(address);
    assert(text@ =~= ws_address(address@));
    parse_url(text.as_str())
}

} // verus!
