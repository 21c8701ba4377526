//! Content-type classification: an explicit allow-list maps a declared MIME
//! type to the file extension under which the asset is stored. Anything
//! outside the allow-list is rejected, so only recognized media types are
//! ever mirrored locally.
use vstd::prelude::*;

use crate::text::str_eq;

verus! {

/// The essence of a declared content type, as MIME parsing yields it: the
/// lowercased type and subtype, or nothing when the string is not a valid
/// MIME type.
pub uninterp spec fn spec_mime_parts(s: Seq<char>) -> Option<(Seq<char>, Seq<char>)>;

/// Relies on `mime::Mime`'s `FromStr` (through `str::parse`): parsing is a
/// pure function of the input string; it yields the type and subtype in
/// ASCII lowercase, or fails. The subtype excludes any `+`-suffix.
#[verifier::external_body]
fn parse_content_type(ct: &str) -> (r: Option<(String, String)>)
    ensures
        match r {
            Some(p) => spec_mime_parts(ct@) == Some((p.0@, p.1@)),
            None => spec_mime_parts(ct@) is None,
        },
{
    match ct.parse::<mime::Mime>() {
        Ok(m) => Some((m.type_().as_str().to_owned(), m.subtype().as_str().to_owned())),
        Err(_) => None,
    }
}

/// The allow-list: the stored extension for a MIME type and subtype, or
/// nothing when the type is not recognized as safe to serve.
pub open spec fn spec_extension_for(t: Seq<char>, sub: Seq<char>) -> Option<Seq<char>> {
    if t == "image"@ && sub == "jpeg"@ {
        Some("jpg"@)
    } else if t == "image"@ && sub == "png"@ {
        Some("png"@)
    } else if t == "image"@ && sub == "gif"@ {
        Some("gif"@)
    } else if t == "image"@ && sub == "svg"@ {
        Some("svg"@)
    } else if t == "application"@ && sub == "pdf"@ {
        Some("pdf"@)
    } else {
        None
    }
}

/// What classification decides for a declared content type: the stored
/// extension when the string parses to an allow-listed MIME type, nothing
/// otherwise.
pub open spec fn spec_classify(ct: Seq<char>) -> Option<Seq<char>> {
    match spec_mime_parts(ct) {
        Some(p) => spec_extension_for(p.0, p.1),
        None => None,
    }
}

/// Looks a parsed MIME type and subtype up in the allow-list.
pub fn extension_for(t: &str, sub: &str) -> (r: Option<String>)
    ensures
        match r {
            Some(e) => spec_extension_for(t@, sub@) == Some(e@),
            None => spec_extension_for(t@, sub@) is None,
        },
{
    proof {
        reveal_strlit("image");
        reveal_strlit("application");
        assert("image"@.len() == 5);
        assert("application"@.len() == 11);
        assert("image"@ != "application"@);
    }
    if str_eq(t, "image") {
        if str_eq(sub, "jpeg") {
            Some("jpg".to_owned())
        } else if str_eq(sub, "png") {
            Some("png".to_owned())
        } else if str_eq(sub, "gif") {
            Some("gif".to_owned())
        } else if str_eq(sub, "svg") {
            Some("svg".to_owned())
        } else {
            None
        }
    } else if str_eq(t, "application") && str_eq(sub, "pdf") {
        Some("pdf".to_owned())
    } else {
        None
    }
}

/// Classifies a declared content type: parses it as a MIME type and looks
/// the result up in the allow-list.
pub fn classify(ct: &str) -> (r: Option<String>)
    ensures
        match r {
            Some(e) => spec_classify(ct@) == Some(e@),
            None => spec_classify(ct@) is None,
        },
{
    match parse_content_type(ct) {
        Some(p) => extension_for(p.0.as_str(), p.1.as_str()),
        None => None,
    }
}

} // verus!
