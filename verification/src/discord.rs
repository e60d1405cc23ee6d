//! Webhook client pieces: the client value itself and the verified
//! assembly of everything it sends — the JSON payload for a message with
//! an attachment and the multipart body that carries it. The network call
//! itself stays outside the library.

use vstd::prelude::*;

use crate::text::{chars_to_string, digit_char, push_str_chars, str_to_chars};
use vstd::string::StringSliceAdditionalSpecFns;

verus! {

/// A webhook client: nothing but the hook URL it will post to.
#[derive(Debug, Clone)]
pub struct Discord {
    pub hook_url: String,
}

impl Discord {
    /// Create a new client for the given webhook URL.
    pub fn new(hook_url: String) -> (r: Discord)
        ensures
            r.hook_url == hook_url,
    {
        Discord { hook_url }
    }
}

/// Relies on `std::time::SystemTime::now`: a time-based value with no
/// promised property, used only to vary the multipart boundary between
/// runs.
#[verifier::external_body]
pub fn rand_seed() -> u64 {
    std::time::SystemTime::now()
        .duration_since(std::time::UNIX_EPOCH)
        .map(|d| d.as_nanos() as u64)
        .unwrap_or(0xABCDEF01)
}

/// A text with every double quote turned into an apostrophe.
pub open spec fn header_value_escaped(s: Seq<char>) -> Seq<char> {
    Seq::new(s.len(), |i: int| if s[i] == '"' { '\'' } else { s[i] })
}

/// Escape a text for use inside a quoted header value: double quotes
/// become apostrophes.
pub fn escape_header_value(s: &str) -> (r: String)
    ensures
        r@ == header_value_escaped(s@),
{
    let v: Vec<char> = str_to_chars(s);
    let n: usize = v.len();
    let mut out: Vec<char> = Vec::new();
    let mut i: usize = 0;
    while i < n
        invariant
            n == v@.len(),
            v@ == s@,
            i <= n,
            out@.len() == i,
            forall|k: int| 0 <= k < i ==> out@[k] == (if s@[k] == '"' {
                '\''
            } else {
                s@[k]
            }),
        decreases n - i,
    {
        let c: char = v[i];
        if c == '"' {
            out.push('\'');
        } else {
            out.push(c);
        }
        i += 1;
    }
    assert(out@ =~= header_value_escaped(s@));
    chars_to_string(&out)
}

/// JSON escape of one character: quote and backslash get a backslash, the
/// named control characters their short forms, other control characters
/// the four-digit hexadecimal form, and everything else stands as itself.
pub open spec fn json_escape_char(c: char) -> Seq<char> {
    if c == '"' {
        seq!['\\', '"']
    } else if c == '\\' {
        seq!['\\', '\\']
    } else if c == '\u{8}' {
        seq!['\\', 'b']
    } else if c == '\t' {
        seq!['\\', 't']
    } else if c == '\n' {
        seq!['\\', 'n']
    } else if c == '\u{c}' {
        seq!['\\', 'f']
    } else if c == '\r' {
        seq!['\\', 'r']
    } else if (c as u32) < 32 {
        let hi = hex_digit((c as u32 / 16) as nat);
        let lo = hex_digit((c as u32 % 16) as nat);
        seq!['\\', 'u', '0', '0', hi, lo]
    } else {
        seq![c]
    }
}

/// Lower-case hexadecimal digit.
pub open spec fn hex_digit(d: nat) -> char {
    if d < 10 {
        digit_char(d)
    } else if d == 10 {
        'a'
    } else if d == 11 {
        'b'
    } else if d == 12 {
        'c'
    } else if d == 13 {
        'd'
    } else if d == 14 {
        'e'
    } else {
        'f'
    }
}

/// A text with every character JSON-escaped.
pub open spec fn json_escaped(s: Seq<char>) -> Seq<char>
    decreases s.len(),
{
    if s.len() == 0 {
        Seq::<char>::empty()
    } else {
        json_escaped(s.drop_last()) + json_escape_char(s.last())
    }
}

fn hex_digit_exec(d: u32) -> (r: char)
    requires
        d < 16,
    ensures
        r == hex_digit(d as nat),
{
    match d {
        0 => '0',
        1 => '1',
        2 => '2',
        3 => '3',
        4 => '4',
        5 => '5',
        6 => '6',
        7 => '7',
        8 => '8',
        9 => '9',
        10 => 'a',
        11 => 'b',
        12 => 'c',
        13 => 'd',
        14 => 'e',
        _ => 'f',
    }
}

fn push_json_escaped(out: &mut Vec<char>, s: &Vec<char>)
    ensures
        final(out)@ == old(out)@ + json_escaped(s@),
{
    let n: usize = s.len();
    let mut i: usize = 0;
    proof {
        assert(s@.subrange(0, 0) =~= Seq::<char>::empty());
        assert(json_escaped(s@.subrange(0, 0)) =~= Seq::<char>::empty());
        assert(out@ =~= old(out)@ + json_escaped(s@.subrange(0, 0)));
    }
    while i < n
        invariant
            n == s@.len(),
            i <= n,
            out@ == old(out)@ + json_escaped(s@.subrange(0, i as int)),
        decreases n - i,
    {
        let ghost prefix: Seq<char> = s@.subrange(0, i as int);
        let ghost prefix1: Seq<char> = s@.subrange(0, i + 1 as int);
        proof {
            assert(prefix1.drop_last() =~= prefix);
            assert(prefix1.last() == s@[i as int]);
        }
        let c: char = s[i];
        if c == '"' {
            out.push('\\');
            out.push('"');
        } else if c == '\\' {
            out.push('\\');
            out.push('\\');
        } else if c == '\u{8}' {
            out.push('\\');
            out.push('b');
        } else if c == '\t' {
            out.push('\\');
            out.push('t');
        } else if c == '\n' {
            out.push('\\');
            out.push('n');
        } else if c == '\u{c}' {
            out.push('\\');
            out.push('f');
        } else if c == '\r' {
            out.push('\\');
            out.push('r');
        } else {
            let u: u32 = c as u32;
            if u < 32 {
                out.push('\\');
                out.push('u');
                out.push('0');
                out.push('0');
                out.push(hex_digit_exec(u / 16));
                out.push(hex_digit_exec(u % 16));
            } else {
                out.push(c);
            }
        }
        assert(out@ =~= old(out)@ + json_escaped(prefix1));
        i += 1;
    }
    proof {
        assert(s@.subrange(0, n as int) =~= s@);
    }
}

/// The JSON payload of a plain text message.
pub open spec fn message_payload_spec(content: Seq<char>) -> Seq<char> {
    "{\"content\":\""@ + json_escaped(content) + "\"}"@
}

/// Build the JSON payload that carries a plain text message.
pub fn message_payload_json(content: &str) -> (r: String)
    ensures
        r@ == message_payload_spec(content@),
{
    let mut out: Vec<char> = Vec::new();
    push_str_chars(&mut out, "{\"content\":\"");
    let cv: Vec<char> = str_to_chars(content);
    push_json_escaped(&mut out, &cv);
    push_str_chars(&mut out, "\"}");
    assert(out@ =~= message_payload_spec(content@));
    chars_to_string(&out)
}

/// The JSON payload announcing a message with one attachment.
pub open spec fn attachment_payload_spec(content: Seq<char>, filename: Seq<char>) -> Seq<char> {
    "{\"content\":\""@ + json_escaped(content) + "\",\"attachments\":[{\"id\":0,\"filename\":\""@
        + json_escaped(filename) + "\"}]}"@
}

/// Build the JSON payload that names a message's text and the filename of
/// its single attachment.
pub fn attachment_payload_json(content: &str, filename: &str) -> (r: String)
    ensures
        r@ == attachment_payload_spec(content@, filename@),
{
    let mut out: Vec<char> = Vec::new();
    push_str_chars(&mut out, "{\"content\":\"");
    let cv: Vec<char> = str_to_chars(content);
    push_json_escaped(&mut out, &cv);
    push_str_chars(&mut out, "\",\"attachments\":[{\"id\":0,\"filename\":\"");
    let fv: Vec<char> = str_to_chars(filename);
    push_json_escaped(&mut out, &fv);
    push_str_chars(&mut out, "\"}]}");
    assert(out@ =~= attachment_payload_spec(content@, filename@));
    chars_to_string(&out)
}

fn push_bytes(out: &mut Vec<u8>, b: &[u8])
    ensures
        final(out)@ == old(out)@ + b@,
{
    let n: usize = b.len();
    let mut i: usize = 0;
    while i < n
        invariant
            n == b@.len(),
            i <= n,
            out@ == old(out)@ + b@.subrange(0, i as int),
        decreases n - i,
    {
        let x: u8 = b[i];
        out.push(x);
        assert(old(out)@ + b@.subrange(0, i + 1 as int) =~= (old(out)@ + b@.subrange(
            0,
            i as int,
        )).push(x));
        i += 1;
    }
    assert(old(out)@ + b@.subrange(0, n as int) =~= old(out)@ + b@);
}

fn push_str_bytes(out: &mut Vec<u8>, s: &str)
    ensures
        final(out)@ == old(out)@ + s.spec_bytes(),
{
    push_bytes(out, s.as_bytes());
}

/// The multipart form body that carries the payload JSON and one file:
/// first the payload part, then the file part under the escaped filename,
/// then the closing boundary.
pub open spec fn multipart_body_spec(
    boundary: Seq<u8>,
    payload: Seq<u8>,
    filename: Seq<u8>,
    file: Seq<u8>,
) -> Seq<u8> {
    "--".spec_bytes() + boundary + "\r\n".spec_bytes()
        + "Content-Disposition: form-data; name=\"payload_json\"\r\n".spec_bytes()
        + "Content-Type: application/json\r\n\r\n".spec_bytes() + payload + "\r\n".spec_bytes()
        + "--".spec_bytes() + boundary + "\r\n".spec_bytes()
        + "Content-Disposition: form-data; name=\"files[0]\"; filename=\"".spec_bytes() + filename
        + "\"\r\n".spec_bytes() + "Content-Type: application/octet-stream\r\n\r\n".spec_bytes()
        + file + "\r\n".spec_bytes() + "--".spec_bytes() + boundary + "--\r\n".spec_bytes()
}

/// Assemble the multipart form body for a message with one attachment.
pub fn multipart_body(boundary: &str, payload_json: &str, filename: &str, bytes: &[u8]) -> (r: Vec<
    u8,
>)
    ensures
        r@ == multipart_body_spec(
            boundary.spec_bytes(),
            payload_json.spec_bytes(),
            filename.spec_bytes(),
            bytes@,
        ),
{
    let mut out: Vec<u8> = Vec::new();
    push_str_bytes(&mut out, "--");
    push_str_bytes(&mut out, boundary);
    push_str_bytes(&mut out, "\r\n");
    push_str_bytes(&mut out, "Content-Disposition: form-data; name=\"payload_json\"\r\n");
    push_str_bytes(&mut out, "Content-Type: application/json\r\n\r\n");
    push_str_bytes(&mut out, payload_json);
    push_str_bytes(&mut out, "\r\n");
    push_str_bytes(&mut out, "--");
    push_str_bytes(&mut out, boundary);
    push_str_bytes(&mut out, "\r\n");
    push_str_bytes(&mut out, "Content-Disposition: form-data; name=\"files[0]\"; filename=\"");
    push_str_bytes(&mut out, filename);
    push_str_bytes(&mut out, "\"\r\n");
    push_str_bytes(&mut out, "Content-Type: application/octet-stream\r\n\r\n");
    push_bytes(&mut out, bytes);
    push_str_bytes(&mut out, "\r\n");
    push_str_bytes(&mut out, "--");
    push_str_bytes(&mut out, boundary);
    push_str_bytes(&mut out, "--\r\n");
    assert(out@ =~= multipart_body_spec(
        boundary.spec_bytes(),
        payload_json.spec_bytes(),
        filename.spec_bytes(),
        bytes@,
    ));
    out
}

} // verus!
