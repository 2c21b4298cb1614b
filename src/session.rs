//! How an IRC session reacts to what the server sends: PING is answered,
//! and a CTCP `DCC SEND` in a private message becomes an offer for the job
//! waiting under the sender's nickname and the file's name.
use vstd::prelude::*;
use crate::offer::{offer_error, offer_of, DccOffer};
use crate::jobs::JobEvent;
use crate::text::{chars_of, span_is};

verus! {

/// A message from the server, as far as the session cares.
pub enum InboundMessage {
    /// `PING` with its token.
    Ping(String),
    /// `PRIVMSG`, with the sender's nickname when the prefix names one.
    Privmsg { sender: Option<String>, content: String },
    /// Anything else.
    Other,
}

/// What the session does about a message.
pub enum Reaction {
    /// Answer with `PONG` on this token.
    Pong(String),
    /// Hand `offer` to the waiter registered under `key`, if there is one.
    Offer { key: String, offer: DccOffer },
    /// Nothing.
    Ignore,
}

/// The text inside CTCP framing: one control byte `\x01` at each end.
pub open spec fn ctcp_payload(content: Seq<char>) -> Option<Seq<char>> {
    if content.len() >= 2 && content[0] == '\u{1}' && content.last() == '\u{1}' {
        Some(content.subrange(1, content.len() - 1))
    } else {
        None
    }
}

pub open spec fn dcc_send_prefix() -> Seq<char> {
    seq!['D', 'C', 'C', ' ', 'S', 'E', 'N', 'D']
}

/// The key under which a job waits for the offer of `filename` from `nick`.
pub open spec fn handler_key(nick: Seq<char>, filename: Seq<char>) -> Seq<char> {
    nick + seq!['-'] + filename
}

/// The CTCP payload of a private message that is a well-formed offer.
pub open spec fn offer_payload(content: Seq<char>) -> Option<Seq<char>> {
    match ctcp_payload(content) {
        Some(p) => if p.len() >= 8 && p.subrange(0, 8) == dcc_send_prefix() && offer_error(p)
            is None {
            Some(p)
        } else {
            None
        },
        None => None,
    }
}

/// Builds the waiter key `<nick>-<filename>`.
pub fn handler_key_of(nick: &str, filename: &str) -> (r: String)
    ensures
        r@ == handler_key(nick@, filename@),
{
    proof {
        reveal_strlit("-");
    }
    let r = String::from_str(nick).concat("-").concat(filename);
    assert(r@ =~= handler_key(nick@, filename@));
    r
}

/// The CTCP payload of `content`, if it is framed as one.
pub fn ctcp_payload_of(content: &str) -> (r: Option<String>)
    ensures
        match ctcp_payload(content@) {
            Some(p) => r is Some && r->0@ == p,
            None => r is None,
        },
{
    let n = content.unicode_len();
    if n >= 2 && content.get_char(0) == '\u{1}' && content.get_char(n - 1) == '\u{1}' {
        Some(String::from_str(content.substring_char(1, n - 1)))
    } else {
        None
    }
}

/// What the session does about `msg`.
pub fn react(msg: InboundMessage) -> (r: Reaction)
    ensures
        match msg {
            InboundMessage::Ping(token) => r == Reaction::Pong(token),
            InboundMessage::Privmsg { sender: Some(nick), content } => match offer_payload(
                content@,
            ) {
                Some(p) => r matches Reaction::Offer { key, offer } && offer_of(offer, p, nick@)
                    && key@ == handler_key(nick@, offer.filename@),
                None => r is Ignore,
            },
            _ => r is Ignore,
        },
{
    match msg {
        InboundMessage::Ping(token) => Reaction::Pong(token),
        InboundMessage::Privmsg { sender: Some(nick), content } => {
            let payload = match ctcp_payload_of(content.as_str()) {
                Some(p) => p,
                None => {
                    return Reaction::Ignore;
                },
            };
            let chars = chars_of(payload.as_str());
            proof {
                reveal_strlit("DCC SEND");
                assert("DCC SEND"@ =~= dcc_send_prefix());
            }
            if chars.len() < 8 || !span_is(&chars, 0, 8, "DCC SEND") {
                return Reaction::Ignore;
            }
            match DccOffer::parse_from_ctcp(payload.as_str(), nick.as_str()) {
                Ok(offer) => {
                    let key = handler_key_of(nick.as_str(), offer.filename.as_str());
                    Reaction::Offer { key, offer }
                },
                Err(_) => Reaction::Ignore,
            }
        },
        _ => Reaction::Ignore,
    }
}

/// The chat command that asks a bot for pack `pack`: `xdcc send #<pack>`.
pub open spec fn xdcc_request(pack: Seq<char>) -> Seq<char> {
    seq!['x', 'd', 'c', 'c', ' ', 's', 'e', 'n', 'd', ' ', '#'] + pack
}

/// Builds the request for pack `pack`.
pub fn xdcc_request_of(pack: &str) -> (r: String)
    ensures
        r@ == xdcc_request(pack@),
{
    proof {
        reveal_strlit("xdcc send #");
    }
    let r = String::from_str("xdcc send #").concat(pack);
    assert(r@ =~= xdcc_request(pack@));
    r
}

/// Seconds a job waits for its offer.
pub const OFFER_WAIT_SECS: u64 = 60;

pub open spec fn timeout_message() -> Seq<char> {
    "Timeout waiting for DCC offer"@
}

pub open spec fn closed_message() -> Seq<char> {
    "DCC channel closed"@
}

/// The event that ends a job whose wait for an offer failed: the wait timed
/// out, or the delivery point was dropped.
pub fn wait_failure(timed_out: bool) -> (r: JobEvent)
    ensures
        r matches JobEvent::Failed(m) && m@ == (if timed_out {
            timeout_message()
        } else {
            closed_message()
        }),
{
    if timed_out {
        JobEvent::Failed(String::from_str("Timeout waiting for DCC offer"))
    } else {
        JobEvent::Failed(String::from_str("DCC channel closed"))
    }
}

} // verus!
