//! The text of the messages a download prints, wget style.
use vstd::prelude::*;
use crate::progress::{bytes_text, format_bytes};
use crate::text::{
    append_chars, chars_of, decimal, decimal_chars, lit_only, occurs_at, push_str,
    string_of, sub_vec, words, split_words, parse_u64, parse_u64_spec, views,
};

verus! {

/// The port shown when connecting: the URL's own, else 443 for `https`
/// and 80 otherwise.
pub fn display_port(scheme: &str, port: Option<u16>) -> (r: u16)
    ensures
        r == match port {
            Some(p) => p,
            None => if scheme@ == "https"@ {
                443u16
            } else {
                80u16
            },
        },
{
    match port {
        Some(p) => p,
        None => if crate::text::eq_lit(chars_of(scheme).as_slice(), "https") {
            443
        } else {
            80
        },
    }
}

/// The lines announcing a connection, after the timestamped URL line:
/// resolving the host, then connecting to it.
pub open spec fn connecting_lines(host: Seq<char>, port: u16) -> (Seq<char>, Seq<char>) {
    ("Resolving "@ + host + "... "@, "Connecting to "@ + host + ":"@ + decimal(port as nat) + "... connected."@)
}

/// The lines announcing a connection (see [`connecting_lines`]).
pub fn connecting_messages(host: &str, port: u16) -> (r: (String, String))
    ensures
        (r.0@, r.1@) == connecting_lines(host@, port),
{
    let mut a = chars_of("Resolving ");
    push_str(&mut a, host);
    push_str(&mut a, "... ");
    let mut b = chars_of("Connecting to ");
    push_str(&mut b, host);
    push_str(&mut b, ":");
    append_chars(&mut b, &decimal_chars(port as u64));
    push_str(&mut b, "... connected.");
    (string_of(a.as_slice()), string_of(b.as_slice()))
}

/// The line giving a response's status: the code and its text.
pub fn http_response_message(status: u16, status_text: &str) -> (r: String)
    ensures
        r@ == decimal(status as nat) + " "@ + status_text@,
{
    let mut v = decimal_chars(status as u64);
    push_str(&mut v, " ");
    push_str(&mut v, status_text);
    string_of(v.as_slice())
}

/// The line giving the length and type of the content: the length with
/// its human-readable size (or `unspecified`), then the type in brackets
/// if known.
pub open spec fn content_info_text(length: Option<u64>, content_type: Option<Seq<char>>) -> Seq<char> {
    (match length {
        Some(n) => "Length: "@ + decimal(n as nat) + " ("@ + bytes_text(n) + ")"@,
        None => "Length: unspecified"@,
    }) + match content_type {
        Some(ct) => " ["@ + ct + "]"@,
        None => Seq::empty(),
    }
}

/// The line giving the length and type of the content (see
/// [`content_info_text`]).
pub fn content_info_message(length: Option<u64>, content_type: Option<&str>) -> (r: String)
    ensures
        r@ == content_info_text(length, crate::recursive::opt_chars(content_type)),
{
    let mut v = match length {
        Some(n) => {
            let mut v = chars_of("Length: ");
            append_chars(&mut v, &decimal_chars(n));
            push_str(&mut v, " (");
            let size = format_bytes(n);
            push_str(&mut v, size.as_str());
            push_str(&mut v, ")");
            v
        },
        None => chars_of("Length: unspecified"),
    };
    match content_type {
        Some(ct) => {
            push_str(&mut v, " [");
            push_str(&mut v, ct);
            push_str(&mut v, "]");
        },
        None => {},
    }
    string_of(v.as_slice())
}

/// The line naming the file a download is saved to.
pub fn saving_message(filename: &str) -> (r: String)
    ensures
        r@ == "Saving to: '"@ + filename@ + "'"@,
{
    let mut v = chars_of("Saving to: '");
    push_str(&mut v, filename);
    push_str(&mut v, "'");
    string_of(v.as_slice())
}

/// The end of the line reporting a saved file, after its timestamp.
pub fn saved_message(filename: &str, downloaded: u64) -> (r: String)
    ensures
        r@ == " - '"@ + filename@ + "' saved ["@ + decimal(downloaded as nat) + "]"@,
{
    let mut v = chars_of(" - '");
    push_str(&mut v, filename);
    push_str(&mut v, "' saved [");
    append_chars(&mut v, &decimal_chars(downloaded));
    push_str(&mut v, "]");
    string_of(v.as_slice())
}

/// The status and verdict lines of a spider check: `OK` and that the file
/// exists, or `Not Found` and that the link is broken.
pub open spec fn spider_lines(status: u16, exists: bool) -> (Seq<char>, Seq<char>) {
    if exists {
        ("  HTTP "@ + decimal(status as nat) + " OK"@, "Remote file exists."@)
    } else {
        ("  HTTP "@ + decimal(status as nat) + " Not Found"@, "Remote file does not exist -- broken link!!!"@)
    }
}

/// The status and verdict lines of a spider check (see [`spider_lines`]).
pub fn spider_messages(status: u16, exists: bool) -> (r: (String, String))
    ensures
        (r.0@, r.1@) == spider_lines(status, exists),
{
    let mut a = chars_of("  HTTP ");
    append_chars(&mut a, &decimal_chars(status as u64));
    if exists {
        push_str(&mut a, " OK");
        (string_of(a.as_slice()), lit_only("Remote file exists."))
    } else {
        push_str(&mut a, " Not Found");
        (string_of(a.as_slice()), lit_only("Remote file does not exist -- broken link!!!"))
    }
}

/// The line announcing a retry.
pub fn retry_message(attempt: usize, max_attempts: usize, wait_secs: u64) -> (r: String)
    ensures
        r@ == "Retrying ("@ + decimal(attempt as nat) + "/"@ + decimal(max_attempts as nat) + ")... waiting "@
            + decimal(wait_secs as nat) + " seconds..."@,
{
    let mut v = chars_of("Retrying (");
    append_chars(&mut v, &decimal_chars(attempt as u64));
    push_str(&mut v, "/");
    append_chars(&mut v, &decimal_chars(max_attempts as u64));
    push_str(&mut v, ")... waiting ");
    append_chars(&mut v, &decimal_chars(wait_secs));
    push_str(&mut v, " seconds...");
    string_of(v.as_slice())
}

/// The line reporting a timestamp comparison.
pub fn timestamping_message(local_newer: bool, filename: &str) -> (r: String)
    ensures
        r@ == if local_newer {
            "Server file no newer than local file '"@ + filename@ + "' -- not retrieving."@
        } else {
            "Server file is newer than local file '"@ + filename@ + "' -- retrieving."@
        },
{
    let mut v = if local_newer {
        chars_of("Server file no newer than local file '")
    } else {
        chars_of("Server file is newer than local file '")
    };
    push_str(&mut v, filename);
    if local_newer {
        push_str(&mut v, "' -- not retrieving.");
    } else {
        push_str(&mut v, "' -- retrieving.");
    }
    string_of(v.as_slice())
}

/// The lines announcing a resumed download.
pub fn resume_messages(filename: &str, resume_from: u64) -> (r: (String, String))
    ensures
        r.0@ == "Continuing in background. Output will be written to '"@ + filename@ + "'."@,
        r.1@ == "Resuming download. Starting at byte position: "@ + decimal(resume_from as nat),
{
    let mut a = chars_of("Continuing in background. Output will be written to '");
    push_str(&mut a, filename);
    push_str(&mut a, "'.");
    let mut b = chars_of("Resuming download. Starting at byte position: ");
    append_chars(&mut b, &decimal_chars(resume_from));
    (string_of(a.as_slice()), string_of(b.as_slice()))
}

/// The line reporting an exceeded quota.
pub fn quota_message(quota: u64) -> (r: String)
    ensures
        r@ == "Download quota of "@ + decimal(quota as nat) + " bytes EXCEEDED!"@,
{
    let mut v = chars_of("Download quota of ");
    append_chars(&mut v, &decimal_chars(quota));
    push_str(&mut v, " bytes EXCEEDED!");
    string_of(v.as_slice())
}

/// The line reporting a redirect.
pub fn redirect_message(to: &str) -> (r: String)
    ensures
        r@ == "Location: "@ + to@ + " [following]"@,
{
    let mut v = chars_of("Location: ");
    push_str(&mut v, to);
    push_str(&mut v, " [following]");
    string_of(v.as_slice())
}

/// The line of one server header.
pub fn header_message(name: &str, value: &str) -> (r: String)
    ensures
        r@ == "  "@ + name@ + ": "@ + value@,
{
    let mut v = chars_of("  ");
    push_str(&mut v, name);
    push_str(&mut v, ": ");
    push_str(&mut v, value);
    string_of(v.as_slice())
}

/// The position where `Invalid status: ` first occurs in a message.
pub open spec fn status_marker(msg: Seq<char>) -> Option<int> {
    if exists|i: int| occurs_at(msg, "Invalid status: "@, i) {
        Some(choose|i: int| occurs_at(msg, "Invalid status: "@, i) && forall|j: int|
            0 <= j < i ==> !occurs_at(msg, "Invalid status: "@, j))
    } else {
        None
    }
}

/// The status code that a spider check reads from an error message: the
/// first word after `Invalid status: `, if it is a `u16`; 0 otherwise.
pub open spec fn status_in_text(msg: Seq<char>) -> u16 {
    match status_marker(msg) {
        Some(pos) => {
            let w = words(msg.skip(pos + 16));
            if w.len() > 0 {
                match parse_u64_spec(w[0]) {
                    Some(v) => if v <= u16::MAX {
                        v as u16
                    } else {
                        0
                    },
                    None => 0,
                }
            } else {
                0
            }
        },
        None => 0,
    }
}

/// The status code a spider check reads from an error message (see
/// [`status_in_text`]).
pub fn status_in_message(msg: &str) -> (r: u16)
    ensures
        r == status_in_text(msg@),
{
    let m = chars_of(msg);
    let marker = chars_of("Invalid status: ");
    proof {
        reveal_strlit("Invalid status: ");
    }
    assert(marker@.len() == 16);
    if marker.len() > m.len() {
        assert(forall|j: int| !occurs_at(m@, marker@, j));
        return 0;
    }
    let mut i: usize = 0;
    while i <= m.len() - marker.len()
        invariant
            marker@ == "Invalid status: "@,
            marker@.len() == 16,
            marker.len() <= m.len(),
            m@ == msg@,
            forall|j: int| 0 <= j < i ==> !occurs_at(m@, marker@, j),
        decreases m.len() - marker.len() + 1 - i,
    {
        if crate::text::matches_at(m.as_slice(), marker.as_slice(), i) {
            proof {
                let k = choose|k: int| occurs_at(m@, marker@, k) && forall|j: int| 0 <= j < k ==> !occurs_at(m@, marker@, j);
                assert(exists|k: int| occurs_at(m@, marker@, k) && forall|j: int| 0 <= j < k ==> !occurs_at(m@, marker@, j));
                if k < i {
                } else if k > i {
                    assert(!occurs_at(m@, marker@, i as int));
                }
            }
            let rest = sub_vec(&m, i + 16, m.len());
            assert(rest@ =~= m@.skip(i + 16));
            let w = split_words(&rest);
            if w.len() > 0 {
                assert(views(w@)[0] == w@[0]@);
                match parse_u64(w[0].as_slice()) {
                    Some(v) => if v <= 65535 {
                        return v as u16;
                    } else {
                        return 0;
                    },
                    None => return 0,
                }
            }
            return 0;
        }
        i += 1;
    }
    assert forall|j: int| !occurs_at(m@, marker@, j) by {
        if j >= i {
            assert(j + marker@.len() > m@.len());
        }
    }
    0
}

} // verus!
