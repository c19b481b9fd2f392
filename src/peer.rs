use vstd::arithmetic::power::pow;
use vstd::prelude::*;

verus! {

/// The recipient word that addresses every connected peer of a channel.
pub const BROADCAST: &'static str = "all";

/// What `uuid::Uuid::parse_str` makes of a text: the 128-bit value of the
/// identifier it reads, or nothing where the text is no identifier.
pub uninterp spec fn uuid_parse(s: Seq<char>) -> Option<u128>;

/// Lower-case hexadecimal digit of a value below 16.
pub open spec fn hex_digit(n: int) -> char {
    seq!['0', '1', '2', '3', '4', '5', '6', '7', '8', '9', 'a', 'b', 'c', 'd', 'e', 'f'][n]
}

/// Which of the 32 hex digits stands at a position of the hyphenated form.
pub open spec fn digit_position(i: int) -> int {
    if i < 8 {
        i
    } else if i < 13 {
        i - 1
    } else if i < 18 {
        i - 2
    } else if i < 23 {
        i - 3
    } else {
        i - 4
    }
}

/// The canonical text of an identifier: its 32 hex digits, most significant
/// first, in groups of 8, 4, 4, 4 and 12 joined by hyphens.
pub open spec fn hyphenated(u: u128) -> Seq<char> {
    Seq::new(
        36,
        |i: int|
            if i == 8 || i == 13 || i == 18 || i == 23 {
                '-'
            } else {
                hex_digit((u as int / pow(16, (31 - digit_position(i)) as nat)) % 16)
            },
    )
}

/// Relies on `uuid::Uuid::parse_str` to read an identifier, and on
/// `Uuid::as_u128` for its value.
#[verifier::external_body]
fn parse_uuid(s: &str) -> (r: Option<u128>)
    ensures
        r == uuid_parse(s@),
{
    match uuid::Uuid::parse_str(s) {
        Ok(u) => Some(u.as_u128()),
        Err(_) => None,
    }
}

/// Relies on `uuid::Uuid::from_u128` and on the `Display` of `Uuid`, which
/// writes the lower-case hyphenated form.
#[verifier::external_body]
fn uuid_text(u: u128) -> (r: String)
    ensures
        r@ == hyphenated(u),
{
    uuid::Uuid::from_u128(u).to_string()
}

/// The canonical text of a peer identifier, as scripts see it.
pub fn peer_text(peer: u128) -> (r: String)
    ensures
        r@ == hyphenated(peer),
{
    uuid_text(peer)
}

/// Whom a queued message goes to.
#[derive(Clone, Copy, Debug, PartialEq, Eq, Structural)]
pub enum Recipient {
    All,
    Peer(u128),
}

/// The recipient that a script's recipient text names, if any.
pub open spec fn recipient_of(s: Seq<char>) -> Option<Recipient> {
    if s == BROADCAST@ {
        Some(Recipient::All)
    } else {
        match uuid_parse(s) {
            Some(u) => Some(Recipient::Peer(u)),
            None => None,
        }
    }
}

impl Recipient {
    /// Reads a recipient: the broadcast word, or a peer identifier.
    pub fn parse(s: &str) -> (r: Option<Recipient>)
        ensures
            r == recipient_of(s@),
    {
        let text = String::from_str(s);
        let all = String::from_str(BROADCAST);
        if text.eq(&all) {
            Some(Recipient::All)
        } else {
            match parse_uuid(s) {
                Some(u) => Some(Recipient::Peer(u)),
                None => None,
            }
        }
    }
}

} // verus!
