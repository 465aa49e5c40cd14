//! The calls this library makes into other crates, each with the contract
//! that the rest of the library relies on.
use vstd::prelude::*;
use vstd::utf8::encode_utf8;
use rand::seq::SliceRandom;

verus! {

/// The Ctrl-C watcher of the `ctrlc_handler` crate, carried through as is.
#[verifier::external_type_specification]
#[verifier::external_body]
pub struct ExCtrlCHandler(ctrlc_handler::CtrlCHandler);

/// `CtrlCHandler::should_continue`: whether no Ctrl-C has been received since
/// the last time it was asked. It reads a signal channel, so nothing is said of
/// its result: each call may answer differently.
#[verifier::external_body]
pub(crate) fn should_continue(handler: &ctrlc_handler::CtrlCHandler) -> (r: bool) {
    handler.should_continue()
}

/// `SliceRandom::choose` of `rand`, with the thread-local generator: one of the
/// items, picked at random, or `None` for an empty vector.
#[verifier::external_body]
pub(crate) fn choose_random(items: &Vec<String>) -> (r: Option<String>)
    ensures
        r is None <==> items.len() == 0,
        r matches Some(s) ==> items.deep_view().contains(s@),
{
    match items.as_slice().choose(&mut rand::thread_rng()) {
        Some(s) => Some(s.clone()),
        None => None,
    }
}

/// What `urlencoding::encode` makes of the UTF-8 bytes of a string: every byte
/// kept as it is when it is an ASCII letter or digit or one of `-`, `.`, `_`,
/// `~`, and every other byte written as `%` and two upper-case hex digits.
pub open spec fn percent_encoded(bytes: Seq<u8>) -> Seq<char>
    decreases bytes.len(),
{
    if bytes.len() == 0 {
        seq![]
    } else {
        let b = bytes[0];
        let head = if is_unreserved(b) {
            seq![b as char]
        } else {
            seq!['%', hex_digit(b / 16), hex_digit(b % 16)]
        };
        head + percent_encoded(bytes.drop_first())
    }
}

/// The bytes that `urlencoding::encode` leaves as they are.
pub open spec fn is_unreserved(b: u8) -> bool {
    ||| 0x30 <= b <= 0x39
    ||| 0x41 <= b <= 0x5A
    ||| 0x61 <= b <= 0x7A
    ||| b == 0x2D
    ||| b == 0x2E
    ||| b == 0x5F
    ||| b == 0x7E
}

/// The upper-case hex digit of a value below 16.
pub open spec fn hex_digit(d: u8) -> char {
    if d < 10 {
        (0x30 + d) as char
    } else {
        (0x41 + d - 10) as char
    }
}

/// `urlencoding::encode`: the string percent-encoded byte by byte, as its
/// documentation and source state.
#[verifier::external_body]
pub(crate) fn url_encode(s: &str) -> (r: String)
    ensures
        r@ == percent_encoded(encode_utf8(s@)),
{
    urlencoding::encode(s).into_owned()
}

/// Whether `ruma`'s `RoomId::try_from` accepts a string: a `!`, a localpart,
/// a `:` and a valid server name, 255 bytes at most.
pub uninterp spec fn room_id_valid(s: Seq<char>) -> bool;

/// `ruma::RoomId::try_from`: `Some` with the identifier's text (which `ruma`
/// keeps exactly as given) when the string is a valid Matrix room ID. The
/// source shows that an accepted string starts with `!` and holds a `:`.
#[verifier::external_body]
pub(crate) fn parse_room_id(s: &str) -> (r: Option<String>)
    ensures
        r is Some <==> room_id_valid(s@),
        r matches Some(t) ==> t@ == s@ && t@.len() >= 2 && t@[0] == '!' && t@.contains(':'),
{
    match ruma::RoomId::try_from(s) {
        Ok(id) => Some(id.as_str().to_string()),
        Err(_) => None,
    }
}

/// A lower-case hex digit.
pub open spec fn is_lower_hex(c: char) -> bool {
    ('0' <= c && c <= '9') || ('a' <= c && c <= 'f')
}

/// `uuid::Uuid::new_v4`, written by `to_simple().encode_lower`: a random
/// UUID as 32 lower-case hex digits. Which digits come is left open: they are
/// random.
#[verifier::external_body]
pub(crate) fn new_txid() -> (r: String)
    ensures
        r@.len() == 32,
        forall|i: int| 0 <= i < r@.len() ==> is_lower_hex(#[trigger] r@[i]),
{
    uuid::Uuid::new_v4().to_simple().encode_lower(&mut uuid::Uuid::encode_buffer()).to_string()
}

/// Whether `ruma`'s `UserId::try_from` accepts a string: an `@`, a localpart,
/// a `:` and a valid server name, 255 bytes at most.
pub uninterp spec fn user_id_valid(s: Seq<char>) -> bool;

/// `ruma::UserId::try_from`: `Some` with the identifier's text (which `ruma`
/// keeps exactly as given) when the string is a valid Matrix user ID. The
/// source shows that an accepted string starts with `@` and holds a `:`.
#[verifier::external_body]
pub(crate) fn parse_user_id(s: &str) -> (r: Option<String>)
    ensures
        r is Some <==> user_id_valid(s@),
        r matches Some(t) ==> t@ == s@ && t@.len() >= 2 && t@[0] == '@' && t@.contains(':'),
{
    match ruma::UserId::try_from(s) {
        Ok(id) => Some(id.as_str().to_string()),
        Err(_) => None,
    }
}

/// What `str::to_lowercase` returns: the string lower-cased by the Unicode
/// `Lowercase` mapping.
pub uninterp spec fn lowercase_of(s: Seq<char>) -> Seq<char>;

/// `str::to_lowercase`.
#[verifier::external_body]
pub(crate) fn lowercase(s: &str) -> (r: String)
    ensures
        r@ == lowercase_of(s@),
{
    s.to_lowercase()
}

/// What the `regex` crate finds as the first capture group of the leftmost
/// match of `pattern` in `haystack`; `None` when the pattern does not compile,
/// nothing matches, or the group takes no part in the match.
pub uninterp spec fn first_group_of(pattern: Seq<char>, haystack: Seq<char>) -> Option<Seq<char>>;

/// `Regex::new(pattern)` and then `captures(haystack)` and the text of group 1.
#[verifier::external_body]
pub(crate) fn first_group(pattern: &str, haystack: &str) -> (r: Option<String>)
    ensures
        r.deep_view() == first_group_of(pattern@, haystack@),
{
    let re = match regex::Regex::new(pattern) {
        Ok(re) => re,
        Err(_) => return None,
    };
    match re.captures(haystack) {
        Some(caps) => match caps.get(1) {
            Some(m) => Some(m.as_str().to_string()),
            None => None,
        },
        None => None,
    }
}

} // verus!
