//! The client side of the daemon's HTTP exchange over its socket: the
//! request it writes and how it reads the answer.
use crate::secret::{secret_text, Secret};
use crate::text::{
    chars_of, contains_str, decimal, first_line, first_line_end, hex_digit, is_substring, push_decimal,
};
use vstd::prelude::*;
use vstd::string::*;

verus! {

/// A request to the daemon.
pub struct HttpRequest {
    pub method: &'static str,
    pub path: &'static str,
    pub body: String,
}

/// The text of a request: the request line, the headers (the body's length
/// counted in the bytes of its UTF-8 encoding) and the body.
pub open spec fn request_text(method: Seq<char>, path: Seq<char>, body: Seq<char>) -> Seq<char> {
    method + " "@ + path
        + " HTTP/1.1\r\nHost: localhost\r\nContent-Type: application/json\r\nContent-Length: "@
        + decimal((vstd::utf8::encode_utf8(body).len() as usize) as nat) + "\r\nConnection: close\r\n\r\n"@ + body
}

/// How the client reads the daemon's answer: a status of 200 or 204
/// anywhere in it is success; otherwise the error names the answer's first
/// line, or says the error is unknown when the answer is empty.
pub open spec fn response_outcome(response: Seq<char>) -> Result<(), Seq<char>> {
    if is_substring(" 200 "@, response) || is_substring(" 204 "@, response) {
        Ok(())
    } else {
        Err(
            "Server returned error: "@ + match first_line(response) {
                Some(line) => line,
                None => "Unknown Error"@,
            },
        )
    }
}

/// How a character is written inside a JSON string by `serde_json`: the
/// quote and the backslash are escaped, so are the control characters
/// (backspace, tab, line feed, form feed and carriage return by their short
/// forms, the others as `\u00` and two lowercase hexadecimal digits); every
/// other character stands as it is.
pub open spec fn json_char(c: char) -> Seq<char> {
    if c == '"' {
        seq!['\\', '"']
    } else if c == '\\' {
        seq!['\\', '\\']
    } else if c == '\x08' {
        seq!['\\', 'b']
    } else if c == '\t' {
        seq!['\\', 't']
    } else if c == '\n' {
        seq!['\\', 'n']
    } else if c == '\x0c' {
        seq!['\\', 'f']
    } else if c == '\r' {
        seq!['\\', 'r']
    } else if (c as int) < 0x20 {
        seq!['\\', 'u', '0', '0', hex_digit((c as int) / 16), hex_digit((c as int) % 16)]
    } else {
        seq![c]
    }
}

/// The JSON string literal for the text `s`.
pub open spec fn json_string_text(s: Seq<char>) -> Seq<char> {
    seq!['"'] + s.flat_map(|c: char| json_char(c)) + seq!['"']
}

/// The text `s` as a JSON string literal (`serde_json::to_string` of a
/// `str`), which `serde_json` writes quoted, with the escapes of
/// `json_char`. Serializing a string into memory does not fail.
#[verifier::external_body]
pub(crate) fn json_string(s: &str) -> (r: String)
    ensures
        r@ == json_string_text(s@),
{
    match serde_json::to_string(s) {
        Ok(t) => t,
        Err(_) => String::new(),
    }
}

/// The body of an unlock request: a JSON object whose one member,
/// `password`, is the password.
pub fn unlock_body(password: &Secret) -> (b: String)
    ensures
        b@ == "{\"password\":"@ + json_string_text(secret_text(*password)) + "}"@,
{
    let mut b = "{\"password\":".to_owned();
    let quoted = json_string(password.text());
    b.append(quoted.as_str());
    b.append("}");
    b
}

impl HttpRequest {
    /// A POST request of `body` to `path`.
    pub fn post(path: &'static str, body: &str) -> (r: HttpRequest)
        ensures
            r.method@ == "POST"@,
            r.path@ == path@,
            r.body@ == body@,
    {
        HttpRequest { method: "POST", path, body: body.to_owned() }
    }

    /// The text of the request as it goes on the wire: an HTTP/1.1 request
    /// line, the host, a JSON content type, the body's length in bytes, a
    /// closing connection, and the body.
    pub fn render(&self) -> (s: String)
        ensures
            s@ == request_text(self.method@, self.path@, self.body@),
    {
        let mut s = String::new();
        s.append(self.method);
        s.append(" ");
        s.append(self.path);
        s.append(" HTTP/1.1\r\nHost: localhost\r\nContent-Type: application/json\r\nContent-Length: ");
        let n = self.body.as_str().len();
        push_decimal(&mut s, n as u64);
        s.append("\r\nConnection: close\r\n\r\n");
        s.append(self.body.as_str());
        assert(s@ =~= request_text(self.method@, self.path@, self.body@));
        s
    }

    /// Reads the daemon's answer to a request.
    pub fn interpret_response(response: &str) -> (r: Result<(), String>)
        ensures
            match r {
                Ok(()) => response_outcome(response@) is Ok,
                Err(e) => response_outcome(response@) == Err::<(), Seq<char>>(e@),
            },
    {
        if contains_str(response, " 200 ") || contains_str(response, " 204 ") {
            return Ok(());
        }
        let chars = chars_of(response);
        let mut msg = String::new();
        msg.append("Server returned error: ");
        match first_line_end(&chars) {
            Some(end) => {
                let line = response.substring_char(0, end);
                msg.append(line);
            },
            None => {
                msg.append("Unknown Error");
            },
        }
        assert(msg@ =~= response_outcome(response@)->Err_0);
        Err(msg)
    }
}

} // verus!
