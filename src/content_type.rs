//! Maps a file's extension to the MIME type sent in `Content-Type`.

use vstd::prelude::*;
use crate::text::{chars_of, string_of};

verus! {

/// The MIME types the server knows, with plain text as the default.
#[derive(Debug, Clone, Copy, PartialEq, Eq)]
pub enum ContentType {
    Html,
    Javascript,
    Json,
    Icon,
    Css,
    PlainText,
}

/// The position of the last `.` in `p`, or `-1` when there is none.
pub open spec fn last_dot(p: Seq<char>) -> int
    decreases p.len(),
{
    if p.len() == 0 {
        -1
    } else if p.last() == '.' {
        p.len() - 1
    } else {
        last_dot(p.drop_last())
    }
}

/// The extension of a path: what follows its last `.`, empty when it has none.
pub open spec fn extension_of(p: Seq<char>) -> Seq<char> {
    if last_dot(p) < 0 {
        Seq::empty()
    } else {
        p.subrange(last_dot(p) + 1, p.len() as int)
    }
}

/// The fixed table from extension to content type.
pub open spec fn content_type_of_extension(ext: Seq<char>) -> ContentType {
    if ext == "html"@ {
        ContentType::Html
    } else if ext == "js"@ {
        ContentType::Javascript
    } else if ext == "json"@ {
        ContentType::Json
    } else if ext == "ico"@ {
        ContentType::Icon
    } else if ext == "css"@ {
        ContentType::Css
    } else {
        ContentType::PlainText
    }
}

/// The MIME type text of each content type.
pub open spec fn mime_of(t: ContentType) -> Seq<char> {
    match t {
        ContentType::Html => "text/html;charset=UTF-8"@,
        ContentType::Javascript => "application/javascript"@,
        ContentType::Json => "application/json"@,
        ContentType::Icon => "image/x-icon"@,
        ContentType::Css => "text/css"@,
        ContentType::PlainText => "text/plain"@,
    }
}

/// The MIME type served for a file at path `p`.
pub open spec fn content_type_for_path(p: Seq<char>) -> Seq<char> {
    mime_of(content_type_of_extension(extension_of(p)))
}

proof fn lemma_last_dot(p: Seq<char>, i: int)
    requires
        0 <= i <= p.len(),
        forall|k: int| i <= k < p.len() ==> p[k] != '.',
    ensures
        last_dot(p) == last_dot(p.subrange(0, i)),
    decreases p.len() - i,
{
    if i < p.len() {
        lemma_last_dot(p, i + 1);
        let q = p.subrange(0, i + 1);
        assert(q.drop_last() =~= p.subrange(0, i));
        assert(q.last() == p[i]);
    } else {
        assert(p.subrange(0, i) =~= p);
    }
}

/// A path ending in `.` and an extension without a dot is typed by that
/// extension, through the fixed table.
pub proof fn lemma_content_type_by_extension(stem: Seq<char>, ext: Seq<char>)
    requires
        forall|k: int| 0 <= k < ext.len() ==> ext[k] != '.',
    ensures
        extension_of(stem + seq!['.'] + ext) == ext,
        content_type_for_path(stem + seq!['.'] + ext) == mime_of(content_type_of_extension(ext)),
{
    let p = stem + seq!['.'] + ext;
    let d = stem.len() as int;
    assert forall|k: int| d + 1 <= k < p.len() implies p[k] != '.' by {
        assert(p[k] == ext[k - d - 1]);
    }
    lemma_last_dot(p, d + 1);
    let q = p.subrange(0, d + 1);
    assert(q.last() == '.');
    assert(p.subrange(d + 1, p.len() as int) =~= ext);
}

impl ContentType {
    /// The content type for an extension, by the fixed table.
    pub fn from_extension(ext: &String) -> (r: ContentType)
        ensures
            r == content_type_of_extension(ext@),
    {
        if *ext == String::from_str("html") {
            ContentType::Html
        } else if *ext == String::from_str("js") {
            ContentType::Javascript
        } else if *ext == String::from_str("json") {
            ContentType::Json
        } else if *ext == String::from_str("ico") {
            ContentType::Icon
        } else if *ext == String::from_str("css") {
            ContentType::Css
        } else {
            ContentType::PlainText
        }
    }

    /// The MIME type text of this content type.
    pub fn mime(&self) -> (r: String)
        ensures
            r@ == mime_of(*self),
    {
        match self {
            ContentType::Html => String::from_str("text/html;charset=UTF-8"),
            ContentType::Javascript => String::from_str("application/javascript"),
            ContentType::Json => String::from_str("application/json"),
            ContentType::Icon => String::from_str("image/x-icon"),
            ContentType::Css => String::from_str("text/css"),
            ContentType::PlainText => String::from_str("text/plain"),
        }
    }
}

/// The extension of `path`: the text after its last `.`, empty when it has none.
pub fn extension(path: &str) -> (r: String)
    ensures
        r@ == extension_of(path@),
{
    let cs = chars_of(path);
    let mut i: usize = cs.len();
    while i > 0 && cs[i - 1] != '.'
        invariant
            i <= cs@.len(),
            forall|k: int| i <= k < cs@.len() ==> cs@[k] != '.',
        decreases i,
    {
        i = i - 1;
    }
    proof {
        lemma_last_dot(cs@, i as int);
        if i > 0 {
            let q = cs@.subrange(0, i as int);
            assert(q.last() == cs@[i - 1]);
        } else {
            assert(cs@.subrange(0, 0).len() == 0);
        }
    }
    if i == 0 {
        String::new()
    } else {
        let len = cs.len();
        string_of(&cs, i, len)
    }
}

/// The MIME type for the file at `path`, from its extension.
pub fn get_content_type(path: &str) -> (r: String)
    ensures
        r@ == content_type_for_path(path@),
{
    let ext = extension(path);
    ContentType::from_extension(&ext).mime()
}

} // verus!
