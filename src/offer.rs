//! The transfer offer that a bot announces with a CTCP `DCC SEND` message.
use vstd::prelude::*;
use crate::text::{chars_of, decimal, parse_unsigned, parse_unsigned_at, push_decimal, word_spans, words, span_is};

verus! {

/// An offer to send one file over a direct connection.
pub struct DccOffer {
    pub filename: String,
    /// The peer's address, in dotted-quad form.
    pub ip: String,
    pub port: u16,
    /// Size of the file in bytes; 0 when the offer does not say.
    pub filesize: u64,
    pub from_nick: String,
}

/// Why a CTCP payload is not a transfer offer.
#[derive(Debug, Clone, Copy, PartialEq, Eq, Structural)]
pub enum OfferError {
    /// Fewer than five words.
    TooFewTokens,
    /// The first two words are not `DCC SEND`.
    NotDccSend,
    /// The address word is not an unsigned 32-bit integer.
    BadAddress,
    /// The port word is not an unsigned 16-bit integer.
    BadPort,
    /// The size word is present and not an unsigned 64-bit integer.
    BadSize,
}

pub open spec fn dcc_word() -> Seq<char> {
    seq!['D', 'C', 'C']
}

pub open spec fn send_word() -> Seq<char> {
    seq!['S', 'E', 'N', 'D']
}

/// The dotted-quad form of a 32-bit address, most significant octet first.
pub open spec fn dotted_quad(ip: nat) -> Seq<char> {
    decimal((ip / 0x1000000) % 256) + seq!['.'] + decimal((ip / 0x10000) % 256) + seq!['.']
        + decimal((ip / 0x100) % 256) + seq!['.'] + decimal(ip % 256)
}

/// The size word of an offer read as a number: 0 when absent.
pub open spec fn size_field(w: Seq<Seq<char>>) -> Option<nat> {
    if w.len() > 5 {
        parse_unsigned(w[5], u64::MAX as nat)
    } else {
        Some(0)
    }
}

/// The error that parsing `text` as `DCC SEND <file> <ip> <port> [<size>]`
/// gives, or `None` when it is an offer.
pub open spec fn offer_error(text: Seq<char>) -> Option<OfferError> {
    let w = words(text);
    if w.len() < 5 {
        Some(OfferError::TooFewTokens)
    } else if w[0] != dcc_word() || w[1] != send_word() {
        Some(OfferError::NotDccSend)
    } else if parse_unsigned(w[3], u32::MAX as nat) is None {
        Some(OfferError::BadAddress)
    } else if parse_unsigned(w[4], u16::MAX as nat) is None {
        Some(OfferError::BadPort)
    } else if size_field(w) is None {
        Some(OfferError::BadSize)
    } else {
        None
    }
}

/// `o` is the offer that `text`, sent by `nick`, makes.
pub open spec fn offer_of(o: DccOffer, text: Seq<char>, nick: Seq<char>) -> bool {
    let w = words(text);
    &&& o.filename@ == w[2]
    &&& o.ip@ == dotted_quad(parse_unsigned(w[3], u32::MAX as nat)->0)
    &&& o.port as nat == parse_unsigned(w[4], u16::MAX as nat)->0
    &&& o.filesize as nat == size_field(w)->0
    &&& o.from_nick@ == nick
}

/// Renders a 32-bit address in dotted-quad form.
pub fn dotted_quad_string(ip: u32) -> (r: String)
    ensures
        r@ == dotted_quad(ip as nat),
{
    proof {
        reveal_strlit(".");
    }
    let mut out = String::new();
    push_decimal(&mut out, (ip / 0x1000000) % 256);
    out.append(".");
    push_decimal(&mut out, (ip / 0x10000) % 256);
    out.append(".");
    push_decimal(&mut out, (ip / 0x100) % 256);
    out.append(".");
    push_decimal(&mut out, ip % 256);
    assert(out@ =~= dotted_quad(ip as nat));
    out
}

impl DccOffer {
    /// Reads a CTCP payload `DCC SEND <file> <ip> <port> [<size>]` sent by
    /// `from_nick`; words are separated by whitespace and words after the
    /// sixth are ignored.
    pub fn parse_from_ctcp(message: &str, from_nick: &str) -> (r: Result<DccOffer, OfferError>)
        ensures
            match offer_error(message@) {
                Some(e) => r == Err::<DccOffer, OfferError>(e),
                None => r is Ok && offer_of(r->Ok_0, message@, from_nick@),
            },
    {
        let chars = chars_of(message);
        let spans = word_spans(&chars);
        let ghost w = words(message@);
        if spans.len() < 5 {
            return Err(OfferError::TooFewTokens);
        }
        proof {
            reveal_strlit("DCC");
            reveal_strlit("SEND");
        }
        let (a0, b0) = spans[0];
        let (a1, b1) = spans[1];
        proof {
            assert("DCC"@ =~= dcc_word());
            assert("SEND"@ =~= send_word());
            assert(spans@[0].0 <= spans@[0].1);
            assert(spans@[1].0 <= spans@[1].1);
            assert(spans@[2].0 <= spans@[2].1);
            assert(spans@[3].0 <= spans@[3].1);
            assert(spans@[4].0 <= spans@[4].1);
        }
        if !span_is(&chars, a0, b0, "DCC") || !span_is(&chars, a1, b1, "SEND") {
            return Err(OfferError::NotDccSend);
        }
        let (a3, b3) = spans[3];
        let ip_num = match parse_unsigned_at(&chars, a3, b3, u32::MAX as u64) {
            Some(v) => v as u32,
            None => {
                return Err(OfferError::BadAddress);
            },
        };
        let (a4, b4) = spans[4];
        let port = match parse_unsigned_at(&chars, a4, b4, u16::MAX as u64) {
            Some(v) => v as u16,
            None => {
                return Err(OfferError::BadPort);
            },
        };
        let filesize = if spans.len() > 5 {
            let (a5, b5) = spans[5];
            assert(spans@[5].0 <= spans@[5].1);
            match parse_unsigned_at(&chars, a5, b5, u64::MAX) {
                Some(v) => v,
                None => {
                    return Err(OfferError::BadSize);
                },
            }
        } else {
            0
        };
        let (a2, b2) = spans[2];
        let filename = String::from_str(message.substring_char(a2, b2));
        let ip = dotted_quad_string(ip_num);
        Ok(DccOffer { filename, ip, port, filesize, from_nick: String::from_str(from_nick) })
    }
}

} // verus!
