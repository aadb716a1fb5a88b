//! Rejection mapper: the single place where internal failures become HTTP
//! status codes and bodies. Authorization failures get a structured JSON
//! body; anything else gets a fixed opaque body so no internal detail
//! leaks.

use vstd::prelude::*;
use crate::decimal::{dec_digits, u64_to_dec};
use crate::gate::Unauthorized;

verus! {

/// Hex digit character for `d` in `0..16`, lower case.
pub open spec fn hex_digit_char(d: int) -> char {
    if d == 0 { '0' }
    else if d == 1 { '1' }
    else if d == 2 { '2' }
    else if d == 3 { '3' }
    else if d == 4 { '4' }
    else if d == 5 { '5' }
    else if d == 6 { '6' }
    else if d == 7 { '7' }
    else if d == 8 { '8' }
    else if d == 9 { '9' }
    else if d == 10 { 'a' }
    else if d == 11 { 'b' }
    else if d == 12 { 'c' }
    else if d == 13 { 'd' }
    else if d == 14 { 'e' }
    else { 'f' }
}

/// JSON string escape of one character: the two-character escapes for
/// quote, backslash and the named controls, `\u00..` for the remaining
/// controls, the character itself otherwise.
pub open spec fn esc_char(c: char) -> Seq<char> {
    if c == '"' {
        seq!['\\', '"']
    } else if c == '\\' {
        seq!['\\', '\\']
    } else if c == '\u{8}' {
        seq!['\\', 'b']
    } else if c == '\u{c}' {
        seq!['\\', 'f']
    } else if c == '\n' {
        seq!['\\', 'n']
    } else if c == '\r' {
        seq!['\\', 'r']
    } else if c == '\t' {
        seq!['\\', 't']
    } else if (c as int) < 32 {
        seq!['\\', 'u', '0', '0', hex_digit_char(c as int / 16), hex_digit_char(c as int % 16)]
    } else {
        seq![c]
    }
}

/// JSON string escape of a whole character sequence.
pub open spec fn json_escape(s: Seq<char>) -> Seq<char>
    decreases s.len(),
{
    if s.len() == 0 {
        Seq::empty()
    } else {
        json_escape(s.drop_last()) + esc_char(s.last())
    }
}

/// Decimal rendering of a possibly negative number.
pub open spec fn int_dec(code: int) -> Seq<char> {
    if code < 0 {
        seq!['-'] + dec_digits(-code)
    } else {
        dec_digits(code)
    }
}

/// The JSON wire form of an authorization-failure body.
pub open spec fn json_error_body(success: bool, message: Seq<char>, code: int) -> Seq<char> {
    "{\"success\":"@ + (if success {
        "true"@
    } else {
        "false"@
    }) + ",\"message\":\""@ + json_escape(message) + "\",\"code\":"@ + int_dec(code)
        + ",\"err_type\":\"Error\"}"@
}

/// The body sent with a 401 response carrying `message`.
pub open spec fn json_401_body(message: Seq<char>) -> Seq<char> {
    json_error_body(false, message, -1)
}

/// Hex digit string for a value below sixteen.
fn hex_digit_str(d: u32) -> (s: &'static str)
    requires
        d < 16,
    ensures
        s@ =~= seq![hex_digit_char(d as int)],
{
    proof {
        reveal_strlit("0");
        reveal_strlit("1");
        reveal_strlit("2");
        reveal_strlit("3");
        reveal_strlit("4");
        reveal_strlit("5");
        reveal_strlit("6");
        reveal_strlit("7");
        reveal_strlit("8");
        reveal_strlit("9");
        reveal_strlit("a");
        reveal_strlit("b");
        reveal_strlit("c");
        reveal_strlit("d");
        reveal_strlit("e");
        reveal_strlit("f");
    }
    if d == 0 { "0" }
    else if d == 1 { "1" }
    else if d == 2 { "2" }
    else if d == 3 { "3" }
    else if d == 4 { "4" }
    else if d == 5 { "5" }
    else if d == 6 { "6" }
    else if d == 7 { "7" }
    else if d == 8 { "8" }
    else if d == 9 { "9" }
    else if d == 10 { "a" }
    else if d == 11 { "b" }
    else if d == 12 { "c" }
    else if d == 13 { "d" }
    else if d == 14 { "e" }
    else { "f" }
}

/// Escapes `s` for inclusion in a JSON string literal.
pub fn escape_json(s: &str) -> (r: String)
    ensures
        r@ == json_escape(s@),
{
    let n = s.unicode_len();
    let mut r = String::new();
    let mut i: usize = 0;
    proof {
        assert(s@.take(0) =~= Seq::<char>::empty());
        reveal_strlit("\\\"");
        reveal_strlit("\\\\");
        reveal_strlit("\\b");
        reveal_strlit("\\f");
        reveal_strlit("\\n");
        reveal_strlit("\\r");
        reveal_strlit("\\t");
        reveal_strlit("\\u00");
    }
    while i < n
        invariant
            0 <= i <= n == s@.len(),
            r@ == json_escape(s@.take(i as int)),
            "\\\""@ =~= seq!['\\', '"'],
            "\\\\"@ =~= seq!['\\', '\\'],
            "\\b"@ =~= seq!['\\', 'b'],
            "\\f"@ =~= seq!['\\', 'f'],
            "\\n"@ =~= seq!['\\', 'n'],
            "\\r"@ =~= seq!['\\', 'r'],
            "\\t"@ =~= seq!['\\', 't'],
            "\\u00"@ =~= seq!['\\', 'u', '0', '0'],
        decreases n - i,
    {
        let c = s.get_char(i);
        proof {
            assert(s@.take(i + 1).drop_last() =~= s@.take(i as int));
            assert(s@.take(i + 1).last() == s@[i as int]);
        }
        if c == '"' {
            r.append("\\\"");
        } else if c == '\\' {
            r.append("\\\\");
        } else if c == '\u{8}' {
            r.append("\\b");
        } else if c == '\u{c}' {
            r.append("\\f");
        } else if c == '\n' {
            r.append("\\n");
        } else if c == '\r' {
            r.append("\\r");
        } else if c == '\t' {
            r.append("\\t");
        } else if (c as u32) < 32 {
            r.append("\\u00");
            r.append(hex_digit_str((c as u32) / 16));
            r.append(hex_digit_str((c as u32) % 16));
        } else {
            let piece = s.substring_char(i, i + 1);
            proof {
                assert(piece@ =~= seq![s@[i as int]]);
            }
            r.append(piece);
        }
        proof {
            assert(r@ =~= json_escape(s@.take(i as int)) + esc_char(s@[i as int]));
        }
        i = i + 1;
    }
    proof {
        assert(s@.take(n as int) =~= s@);
    }
    r
}

/// Kind of error reported to callers, mirrored verbatim in the JSON body.
#[derive(PartialEq, Eq, Structural, Clone, Copy, Debug)]
pub enum DevBoardErrorType {
    Error,
}

/// Structured body of an authorization failure response.
#[derive(Debug)]
pub struct DevBoardGenericError {
    pub success: bool,
    pub message: String,
    pub code: i64,
    pub err_type: DevBoardErrorType,
}

impl DevBoardGenericError {
    /// Serializes the error exactly as the wire format defines it.
    pub fn to_json(&self) -> (r: String)
        ensures
            r@ == json_error_body(self.success, self.message@, self.code as int),
    {
        let mut r = "{\"success\":".to_owned();
        if self.success {
            r.append("true");
        } else {
            r.append("false");
        }
        r.append(",\"message\":\"");
        let escaped = escape_json(self.message.as_str());
        r.append(escaped.as_str());
        r.append("\",\"code\":");
        if self.code < 0 {
            r.append("-");
            proof {
                reveal_strlit("-");
                assert("-"@ =~= seq!['-']);
            }
            let mag: u64 = (-(self.code as i128)) as u64;
            let digits = u64_to_dec(mag);
            r.append(digits.as_str());
        } else {
            let digits = u64_to_dec(self.code as u64);
            r.append(digits.as_str());
        }
        r.append(",\"err_type\":\"Error\"}");
        proof {
            assert(r@ =~= json_error_body(self.success, self.message@, self.code as int));
        }
        r
    }
}

/// A failure on its way out of the core, before it becomes an HTTP
/// response.
pub enum Failure {
    /// No route matched the request.
    NotFound,
    /// The access gate rejected the request.
    Unauthorized(Unauthorized),
    /// Any other failure; its detail is for the server log, never the
    /// caller.
    Internal,
}

/// Maps a failure to its HTTP status code and response body: 404 and a
/// plain body for an unmatched route, 401 and the structured JSON body for
/// an authorization failure, 500 and a plain body for everything else.
pub fn handle_rejection(err: &Failure) -> (r: (u16, String))
    ensures
        match err {
            Failure::NotFound => r.0 == 404 && r.1@ == "NOT_FOUND"@,
            Failure::Unauthorized(u) => r.0 == 401 && r.1@ == json_401_body(u.error_message@),
            Failure::Internal => r.0 == 500 && r.1@ == "INTERNAL_SERVER_ERROR"@,
        },
{
    match err {
        Failure::NotFound => (404, "NOT_FOUND".to_owned()),
        Failure::Unauthorized(u) => {
            let generic_error = DevBoardGenericError {
                success: false,
                message: u.error_message.clone(),
                code: -1,
                err_type: DevBoardErrorType::Error,
            };
            let body = generic_error.to_json();
            (401, body)
        },
        Failure::Internal => (500, "INTERNAL_SERVER_ERROR".to_owned()),
    }
}

} // verus!
