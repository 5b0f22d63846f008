//! The terminal WebSocket protocol: what the browser sends, what the panel
//! answers, and the Base64 text that carries terminal bytes.

use crate::types::TerminalStatus;
use vstd::prelude::*;

verus! {

/// A message from the browser.
pub enum ClientTerminalMessage {
    Input { data: String },
    Resize { cols: u16, rows: u16 },
    Ping,
    ClearScrollback,
}

/// A message to the browser.
pub enum ServerTerminalMessage {
    Hello { terminal_id: String, status: TerminalStatus },
    Scrollback { data: String },
    Output { data: String },
    Status { status: TerminalStatus },
    Exit { code: Option<i32> },
    Error { message: String },
}

/// The digit of the standard Base64 alphabet for a value below 64.
pub open spec fn b64_digit(v: int) -> char {
    if v < 26 {
        (('A' as u32) + v) as char
    } else if v < 52 {
        (('a' as u32) + v - 26) as char
    } else if v < 62 {
        (('0' as u32) + v - 52) as char
    } else if v == 62 {
        '+'
    } else {
        '/'
    }
}

/// Standard Base64 with `=` padding: each three bytes become four digits,
/// a last one or two bytes become two or three digits and padding.
pub open spec fn base64_of(b: Seq<u8>) -> Seq<char>
    decreases b.len(),
{
    if b.len() == 0 {
        Seq::empty()
    } else if b.len() == 1 {
        seq![b64_digit((b[0] / 4) as int), b64_digit((b[0] % 4) * 16), '=', '=']
    } else if b.len() == 2 {
        seq![
            b64_digit((b[0] / 4) as int),
            b64_digit((b[0] % 4) * 16 + b[1] / 16),
            b64_digit((b[1] % 16) * 4),
            '=',
        ]
    } else {
        seq![
            b64_digit((b[0] / 4) as int),
            b64_digit((b[0] % 4) * 16 + b[1] / 16),
            b64_digit((b[1] % 16) * 4 + b[2] / 64),
            b64_digit((b[2] % 64) as int),
        ] + base64_of(b.subrange(3, b.len() as int))
    }
}

/// `bytes` in standard Base64 with padding.
/// Calls `base64`'s `STANDARD` engine, which encodes with the standard
/// alphabet and `=` padding as RFC 4648 describes.
#[verifier::external_body]
pub(crate) fn base64_encode(bytes: &[u8]) -> (s: String)
    ensures
        s@ == base64_of(bytes@),
{
    base64::Engine::encode(&base64::engine::general_purpose::STANDARD, bytes)
}

/// The `data` of the scrollback answer: the terminal's scrollback bytes in
/// standard Base64 with padding.
pub fn scrollback_data(scrollback: &[u8]) -> (data: String)
    ensures
        data@ == base64_of(scrollback@),
{
    base64_encode(scrollback)
}

} // verus!
