//! What the application's pages and handlers decide from what a request
//! carries: the links they redirect to, and the headers an image is served
//! with.

pub mod directory;
pub mod home;
pub mod image;

use vstd::prelude::*;
use vstd::string::*;
use crate::error::{Error, BAD_REQUEST};
use crate::mime::{guess_from_path, mime_of_extension};
use crate::paths::extension_of;
use crate::text::{
    lemma_parse_display_roundtrip, opt_text, owned, parsed_i64, push_char, push_i64,
    signed_decimal,
};

verus! {

/// The link to the page of directory `id`: `/dir/{id}`.
pub fn directory_url(id: i64) -> (u: String)
    ensures
        u@ == "/dir/"@ + signed_decimal(id as int),
{
    let mut u = owned("/dir/");
    push_i64(&mut u, id);
    u
}

/// The link to the page of image `id`: `/{id}`.
pub fn image_url(id: i64) -> (u: String)
    ensures
        u@ == seq!['/'] + signed_decimal(id as int),
{
    let mut u = String::new();
    push_char(&mut u, '/');
    push_i64(&mut u, id);
    assert(u@ =~= seq!['/'] + signed_decimal(id as int));
    u
}

/// The `Last-Modified` text that `chrono` formats for a time given in
/// seconds and nanoseconds since the Unix epoch
/// (`"%a, %d %b %Y %H:%M:%S GMT"`), or `None` where `chrono` holds the time
/// out of its range. The calendar arithmetic is `chrono`'s and is not
/// written out here.
pub uninterp spec fn http_date_text(secs: i64, nanos: u32) -> Option<Seq<char>>;

/// `chrono::DateTime::<Utc>::from_timestamp(secs, nanos)` formatted with
/// `"%a, %d %b %Y %H:%M:%S GMT"`. Claimed: the result is
/// `http_date_text(secs, nanos)`.
#[verifier::external_body]
fn format_http_date(secs: i64, nanos: u32) -> (r: Option<String>)
    ensures
        opt_text(r) == http_date_text(secs, nanos),
{
    chrono::DateTime::<chrono::Utc>::from_timestamp(secs, nanos).map(
        |t| t.format("%a, %d %b %Y %H:%M:%S GMT").to_string(),
    )
}

/// The `Content-Disposition` value that shows a file inline under its path:
/// `inline; filename="{path}"`.
pub open spec fn inline_disposition(path: Seq<char>) -> Seq<char> {
    "inline; filename=\""@ + path + seq!['"']
}

/// The MIME type guessed for a path from its extension.
pub open spec fn mime_of_path(path: Seq<char>) -> Option<Seq<char>> {
    match extension_of(path) {
        Some(ext) => mime_of_extension(ext),
        None => None,
    }
}

/// The `Content-Type` of a file, guessed from the extension of its path.
/// A path whose MIME type cannot be guessed is refused with `400` ("MIME
/// Type couldn't be determined").
pub fn content_type(path: &str) -> (r: Result<String, Error>)
    ensures
        match mime_of_path(path@) {
            None => r matches Err(Error::StatusCode(code, m)) && code == BAD_REQUEST && m@
                == "MIME Type couldn't be determined"@,
            Some(mime) => r matches Ok(t) && t@ == mime,
        },
{
    match guess_from_path(path) {
        Some(m) => Ok(m),
        None => Err(Error::StatusCode(BAD_REQUEST, owned("MIME Type couldn't be determined"))),
    }
}

/// Whether `headers` are the ones an image file at `path` is served with:
/// its guessed MIME type as `content-type`, `inline; filename="{path}"` as
/// `content-disposition`, and, when its modification time is known and
/// `chrono` can format it, that time as `last-modified`.
pub open spec fn is_image_headers(
    headers: Seq<(String, String)>,
    path: Seq<char>,
    mime: Seq<char>,
    modified: Option<(i64, u32)>,
) -> bool {
    let date = match modified {
        Some((s, n)) => http_date_text(s, n),
        None => None,
    };
    &&& headers.len() == (if date is Some { 3int } else { 2int })
    &&& headers[0].0@ == "content-type"@ && headers[0].1@ == mime
    &&& headers[1].0@ == "content-disposition"@ && headers[1].1@ == inline_disposition(path)
    &&& date matches Some(d) ==> headers[2].0@ == "last-modified"@ && headers[2].1@ == d
}

/// The headers an image file at `path` is served with (see
/// `is_image_headers`); `modified` is its modification time in seconds and
/// nanoseconds since the Unix epoch. A path whose MIME type cannot be
/// guessed is refused with `400` ("MIME Type couldn't be determined").
pub fn image_headers(path: &str, modified: Option<(i64, u32)>) -> (r: Result<
    Vec<(String, String)>,
    Error,
>)
    ensures
        match mime_of_path(path@) {
            None => r matches Err(Error::StatusCode(code, m)) && code == BAD_REQUEST && m@
                == "MIME Type couldn't be determined"@,
            Some(mime) => r matches Ok(h) && is_image_headers(h@, path@, mime, modified),
        },
{
    let mime = match content_type(path) {
        Ok(m) => m,
        Err(e) => {
            return Err(e);
        },
    };
    let mut headers: Vec<(String, String)> = Vec::new();
    headers.push((owned("content-type"), mime));
    let mut disposition = owned("inline; filename=\"");
    disposition.append(path);
    push_char(&mut disposition, '"');
    assert(disposition@ =~= inline_disposition(path@));
    headers.push((owned("content-disposition"), disposition));
    assert(headers@[0].1@ == mime@);
    if let Some((secs, nanos)) = modified {
        if let Some(date) = format_http_date(secs, nanos) {
            headers.push((owned("last-modified"), date));
        }
    }
    Ok(headers)
}

/// An image file is served with exactly its guessed MIME type as
/// `content-type`, `inline; filename="{path}"` as `content-disposition`,
/// and, when its modification time `(secs, nanos)` is known and can be
/// formatted, the HTTP date of that very time as `last-modified`; without
/// one, with no third header. Only a path whose MIME type cannot be guessed
/// is refused.
pub proof fn law_image_headers(path: &str, modified: Option<(i64, u32)>, r: Result<Vec<(String, String)>, Error>)
    requires
        call_ensures(image_headers, (path, modified), r),
    ensures
        r is Err <==> mime_of_path(path@) is None,
        r matches Ok(h) ==> {
            &&& h@[0].0@ == "content-type"@
            &&& Some(h@[0].1@) == mime_of_path(path@)
            &&& h@[1].0@ == "content-disposition"@
            &&& h@[1].1@ == "inline; filename=\""@ + path@ + "\""@
            &&& match modified {
                Some((s, n)) => match http_date_text(s, n) {
                    Some(d) => h@.len() == 3 && h@[2].0@ == "last-modified"@ && h@[2].1@ == d,
                    None => h@.len() == 2,
                },
                None => h@.len() == 2,
            }
        },
{
    reveal_strlit("\"");
    assert(seq!['"'] =~= "\""@);
}

/// The id in a link to a directory page reads back as that id: the text
/// after `/dir/` parses to the `i64` the link was made from.
pub proof fn lemma_directory_url_roundtrip(id: i64)
    ensures
        parsed_i64(("/dir/"@ + signed_decimal(id as int)).skip("/dir/"@.len() as int)) == Some(id),
{
    assert(("/dir/"@ + signed_decimal(id as int)).skip("/dir/"@.len() as int) =~= signed_decimal(
        id as int,
    ));
    lemma_parse_display_roundtrip(id);
}

/// The id in a link to an image page reads back as that id: the text after
/// `/` parses to the `i64` the link was made from.
pub proof fn lemma_image_url_roundtrip(id: i64)
    ensures
        parsed_i64((seq!['/'] + signed_decimal(id as int)).skip(1)) == Some(id),
{
    assert((seq!['/'] + signed_decimal(id as int)).skip(1) =~= signed_decimal(id as int));
    lemma_parse_display_roundtrip(id);
}

} // verus!
