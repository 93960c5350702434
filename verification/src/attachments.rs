//! Attachments staged for a chat message: the file name they are saved
//! under, and the record the chat view keeps of each.
use vstd::prelude::*;
use base64::Engine;
use crate::paths::{join_path, opt_view, path_join};
use crate::text::{chars_of, string_of};
use crate::text;

verus! {

/// An attachment saved to disk for the next message of a session.
pub struct StagedAttachment {
    pub id: String,
    pub filename: String,
    pub kind: String,
    pub mime: String,
    pub size: u64,
    pub staged_path: String,
}

/// What `base64::engine::general_purpose::STANDARD.decode` gives for a
/// text: the bytes, or the text of its `DecodeError`.
pub uninterp spec fn base64_standard(text: Seq<char>) -> Result<Seq<u8>, Seq<char>>;

/// Decodes standard base64 (`STANDARD.decode`), the error as its message.
/// The contract names the result (`base64_standard`); the alphabet and
/// padding rules are not restated here.
#[verifier::external_body]
fn decode_base64(text: &str) -> (r: Result<Vec<u8>, String>)
    ensures
        match r {
            Ok(b) => base64_standard(text@) == Ok::<Seq<u8>, Seq<char>>(b@),
            Err(e) => base64_standard(text@) == Err::<Seq<u8>, Seq<char>>(e@),
        },
{
    match base64::engine::general_purpose::STANDARD.decode(text) {
        Ok(b) => Ok(b),
        Err(e) => Err(e.to_string()),
    }
}

/// A character that may stand in a file name: path separators and the
/// characters Windows refuses become `_`.
pub open spec fn safe_char(c: char) -> char {
    if c == '/' || c == '\\' || c == ':' || c == '*' || c == '?' || c == '"' || c == '<' || c == '>' || c == '|' {
        '_'
    } else {
        c
    }
}

pub open spec fn safe_name(s: Seq<char>) -> Seq<char> {
    s.map_values(|c: char| safe_char(c))
}

/// The name a file is staged under.
pub fn safe_file_name(filename: &str) -> (r: String)
    ensures
        r@ == safe_name(filename@),
{
    let cs = chars_of(filename);
    let mut out: Vec<char> = Vec::new();
    let mut i: usize = 0;
    while i < cs.len()
        invariant
            i <= cs.len(),
            out@ =~= safe_name(cs@.take(i as int)),
        decreases cs.len() - i,
    {
        let c = cs[i];
        let d = if c == '/' || c == '\\' || c == ':' || c == '*' || c == '?' || c == '"' || c == '<' || c == '>' || c == '|' {
            '_'
        } else {
            c
        };
        out.push(d);
        i += 1;
    }
    assert(cs@.take(cs.len() as int) =~= cs@);
    string_of(out.as_slice())
}

pub open spec fn or_default(o: Option<Seq<char>>, d: Seq<char>) -> Seq<char> {
    match o {
        Some(s) => s,
        None => d,
    }
}

/// Stages an attachment: decodes its base64 content (none counts as empty)
/// and names the file in the session's staging directory. Gives the record
/// and the bytes to write, or the decoding error.
pub fn stage_attachment(
    staging_dir: &str,
    id: &str,
    filename: &str,
    kind: Option<&str>,
    mime: Option<&str>,
    base64_content: Option<&str>,
) -> (r: Result<(StagedAttachment, Vec<u8>), String>)
    ensures
        match base64_standard(or_default(opt_view(base64_content), seq![])) {
            Ok(bytes) => match r {
                Ok((a, b)) => {
                    &&& b@ == bytes
                    &&& a.id@ == id@
                    &&& a.filename@ == safe_name(filename@)
                    &&& a.kind@ == or_default(opt_view(kind), "file"@)
                    &&& a.mime@ == or_default(opt_view(mime), "application/octet-stream"@)
                    &&& a.size == bytes.len()
                    &&& a.staged_path@ == path_join(staging_dir@, safe_name(filename@))
                },
                Err(_) => false,
            },
            Err(e) => match r {
                Ok(_) => false,
                Err(m) => m@ == "Base64 decode failed: "@ + e,
            },
        },
{
    let kind = match kind {
        Some(k) => text::owned(k),
        None => text::owned("file"),
    };
    let mime = match mime {
        Some(m) => text::owned(m),
        None => text::owned("application/octet-stream"),
    };
    let b64 = match base64_content {
        Some(b) => text::owned(b),
        None => String::new(),
    };
    proof {
        assert(b64@ == or_default(opt_view(base64_content), seq![]));
    }
    let bytes = match decode_base64(b64.as_str()) {
        Ok(b) => b,
        Err(e) => {
            return Err(text::concat2("Base64 decode failed: ", e.as_str()));
        },
    };
    let size = bytes.len() as u64;
    let safe = safe_file_name(filename);
    let staged_path = join_path(staging_dir, safe.as_str());
    Ok((StagedAttachment { id: text::owned(id), filename: safe, kind, mime, size, staged_path }, bytes))
}

} // verus!
