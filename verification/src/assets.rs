//! The pages of the activity: which embedded file answers a request.

use vstd::prelude::*;
use vstd::utf8;

use crate::text;

verus! {

/// A response: its status, its headers and its body.
pub struct Page {
    pub status: u16,
    pub content_type: String,
    pub cache_control: Option<String>,
    pub body: PageBody,
}

pub enum PageBody {
    Text(String),
    Bytes(Vec<u8>),
}

/// A response as plain values.
pub struct PageView {
    pub status: u16,
    pub content_type: Seq<char>,
    pub cache_control: Option<Seq<char>>,
    pub body: PageBodyView,
}

pub enum PageBodyView {
    Text(Seq<char>),
    Bytes(Seq<u8>),
}

impl View for Page {
    type V = PageView;

    open spec fn view(&self) -> PageView {
        PageView {
            status: self.status,
            content_type: self.content_type@,
            cache_control: text::opt_text(self.cache_control),
            body: match self.body {
                PageBody::Text(s) => PageBodyView::Text(s@),
                PageBody::Bytes(b) => PageBodyView::Bytes(b@),
            },
        }
    }
}

/// The name of the embedded file that a path asks for.
pub fn asset_name(path: &str) -> (r: String)
    ensures
        r@ == text::without_leading(path@, '/'),
{
    text::strip_leading(path, '/')
}

/// The text that `String::from_utf8_lossy` makes of some bytes.
pub uninterp spec fn lossy_text(bytes: Seq<u8>) -> Seq<char>;

/// `String::from_utf8_lossy`: the text depends on the bytes alone, and where they
/// are valid UTF-8, it is what they encode.
#[verifier::external_body]
fn from_utf8_lossy(bytes: &[u8]) -> (r: String)
    ensures
        r@ == lossy_text(bytes@),
        utf8::valid_utf8(bytes@) ==> r@ == utf8::decode_utf8(bytes@),
{
    String::from_utf8_lossy(bytes).into_owned()
}

/// How the `Debug` of a string writes it: in quotes, with escapes.
pub uninterp spec fn quoted(s: Seq<char>) -> Seq<char>;

/// The `Debug` of `str`, through `format!`: what is written depends on the
/// characters alone.
#[verifier::external_body]
fn quote(s: &str) -> (r: String)
    ensures
        r@ == quoted(s@),
{
    format!("{:?}", s)
}

/// A path that every platform takes apart alike: it has no separators other than
/// slashes and no drive, and it is relative.
pub open spec fn portable(path: Seq<char>) -> bool {
    &&& !path.contains('\\')
    &&& !path.contains(':')
    &&& !(path.len() > 0 && path[0] == '/')
}

/// The media type that `mime_guess` finds for a path.
pub uninterp spec fn media_type(path: Seq<char>) -> Seq<char>;

/// `mime_guess::from_path` with `first_or_octet_stream`: the media type that its
/// table has for the extension of the path, as text. For a portable path it
/// depends on the path alone. What the extension of any other path is depends on
/// the platform, so nothing is said of those.
#[verifier::external_body]
fn guess_media_type(path: &str) -> (r: String)
    ensures
        portable(path@) ==> r@ == media_type(path@),
{
    mime_guess::from_path(path).first_or_octet_stream().as_ref().to_string()
}

/// What stands in place of the page's head tag: the tag itself, and a script that
/// names the client. The Discord SDK has to be constructed at once: its handshake
/// must start as early as possible, or the client may never answer.
pub open spec fn head_tag(client_id: Seq<char>) -> Seq<char> {
    "<head><script>window.__NMPJ_CLIENT_ID="@ + quoted(client_id) + "</script>"@
}

/// The page that every path without a file of its own leads to.
pub open spec fn index_page(client_id: Seq<char>, index: Option<Seq<u8>>) -> PageView {
    match index {
        None => PageView {
            status: 404,
            content_type: "text/plain; charset=utf-8"@,
            cache_control: None,
            body: PageBodyView::Text("frontend not embedded"@),
        },
        Some(data) => PageView {
            status: 200,
            content_type: "text/html; charset=utf-8"@,
            cache_control: Some("no-cache"@),
            body: PageBodyView::Text(
                text::replaced_first(lossy_text(data), "<head>"@, head_tag(client_id)),
            ),
        },
    }
}

/// The contents of a file, if there is one.
pub open spec fn contents(file: Option<Vec<u8>>) -> Option<Seq<u8>> {
    match file {
        Some(data) => Some(data@),
        None => None,
    }
}

/// A page with its head tag replaced by `tag`.
pub fn inject(html: &str, tag: &str) -> (r: String)
    ensures
        r@ == text::replaced_first(html@, "<head>"@, tag@),
{
    text::replace_first(html, "<head>", tag)
}

/// The index page, with the client id in it.
pub fn index_response(client_id: &str, index: Option<Vec<u8>>) -> (r: Page)
    ensures
        r@ == index_page(client_id@, contents(index)),
        index is Some && utf8::valid_utf8(index->0@) ==> r@.body == PageBodyView::Text(
            text::replaced_first(utf8::decode_utf8(index->0@), "<head>"@, head_tag(client_id@)),
        ),
{
    match index {
        None => Page {
            status: 404,
            content_type: text::owned("text/plain; charset=utf-8"),
            cache_control: None,
            body: PageBody::Text(text::owned("frontend not embedded")),
        },
        Some(data) => {
            let html = from_utf8_lossy(data.as_slice());
            let mut tag = text::joined(
                "<head><script>window.__NMPJ_CLIENT_ID=",
                quote(client_id).as_str(),
            );
            tag.append("</script>");
            Page {
                status: 200,
                content_type: text::owned("text/html; charset=utf-8"),
                cache_control: Some(text::owned("no-cache")),
                body: PageBody::Text(inject(html.as_str(), tag.as_str())),
            }
        },
    }
}

/// A file as it is served. What stands under `assets/` has its hash in its name, so
/// it may be kept forever.
pub open spec fn file_page(mime: Seq<char>, data: Seq<u8>, immutable: bool) -> PageView {
    PageView {
        status: 200,
        content_type: mime,
        cache_control: Some(
            if immutable {
                "public, max-age=31536000, immutable"@
            } else {
                "no-cache"@
            },
        ),
        body: PageBodyView::Bytes(data),
    }
}

/// A file as it is served, given its media type.
pub fn file_response(mime: String, data: Vec<u8>, immutable: bool) -> (r: Page)
    ensures
        r@ == file_page(mime@, data@, immutable),
{
    let cache = if immutable {
        "public, max-age=31536000, immutable"
    } else {
        "no-cache"
    };
    Page {
        status: 200,
        content_type: mime,
        cache_control: Some(text::owned(cache)),
        body: PageBody::Bytes(data),
    }
}

/// A path leads to the index page: it names it, or no file of its own.
pub open spec fn leads_to_index(path: Seq<char>, file: Option<Vec<u8>>) -> bool {
    text::without_leading(path, '/') == "index.html"@ || file is None
}

/// What answers a request for a path, given the embedded file of that name and the
/// embedded index page.
pub fn serve(client_id: &str, path: &str, file: Option<Vec<u8>>, index: Option<Vec<u8>>) -> (r:
    Page)
    ensures
        leads_to_index(path@, file) ==> r@ == index_page(client_id@, contents(index)),
        leads_to_index(path@, file) && index is Some && utf8::valid_utf8(index->0@) ==> r@.body == PageBodyView::Text(
            text::replaced_first(
                utf8::decode_utf8(index->0@),
                "<head>"@,
                head_tag(client_id@),
            ),
        ),
        !leads_to_index(path@, file) ==> {
            let name = text::without_leading(path@, '/');
            &&& r@ == file_page(
                r@.content_type,
                file->0@,
                text::begins(name, "assets/"@),
            )
            &&& portable(name) ==> r@.content_type == media_type(name)
            &&& !name.contains('\\') && !name.contains(':') ==> r@.content_type == media_type(name)
            &&& file is Some && r@.body == PageBodyView::Bytes(file->0@)
        },
{
    proof {
        text::leading_characters_come_off(path@, '/');
    }
    let name = asset_name(path);
    if text::same_text(name.as_str(), "index.html") {
        return index_response(client_id, index);
    }
    match file {
        Some(data) => {
            let immutable = text::starts_with(name.as_str(), "assets/");
            file_response(guess_media_type(name.as_str()), data, immutable)
        },
        None => index_response(client_id, index),
    }
}

/// The page keeps all of its text. The script that names the client comes directly behind its
/// first head tag; a page without one stays as it is. It is served as a page that has to be
/// asked for again.
pub proof fn index_page_gains_only_the_script(client_id: Seq<char>, data: Seq<u8>, at: Option<int>)
    requires
        match at {
            Some(i) => text::occurs_at(lossy_text(data), "<head>"@, i) && forall|j: int|
                0 <= j < i ==> !#[trigger] text::occurs_at(lossy_text(data), "<head>"@, j),
            None => !text::contains_text(lossy_text(data), "<head>"@),
        },
    ensures
        ({
            let page = index_page(client_id, Some(data));
            let html = lossy_text(data);
            &&& page.status == 200
            &&& page.content_type == "text/html; charset=utf-8"@
            &&& page.cache_control == Some("no-cache"@)
            &&& page.body == PageBodyView::Text(
                match at {
                    Some(i) => html.take(i + 6) + ("<script>window.__NMPJ_CLIENT_ID="@ + quoted(
                        client_id,
                    ) + "</script>"@) + html.skip(i + 6),
                    None => html,
                },
            )
        }),
        index_page(client_id, None).status == 404,
        index_page(client_id, None).cache_control is None,
{
    let html = lossy_text(data);
    reveal_strlit("<head>");
    reveal_strlit("<script>window.__NMPJ_CLIENT_ID=");
    reveal_strlit("<head><script>window.__NMPJ_CLIENT_ID=");
    assert("<head><script>window.__NMPJ_CLIENT_ID="@ == "<head>"@
        + "<script>window.__NMPJ_CLIENT_ID="@);
    match at {
        Some(i) => {
            text::replaced_first_at(html, "<head>"@, head_tag(client_id), i);
            assert(html.take(i + 6) == html.take(i) + "<head>"@) by {
                assert(html.subrange(i, i + 6) == "<head>"@);
                assert(html.take(i + 6) == html.take(i) + html.subrange(i, i + 6));
            }
            assert(html.take(i) + head_tag(client_id) + html.skip(i + 6) == html.take(i + 6) + (
            "<script>window.__NMPJ_CLIENT_ID="@ + quoted(client_id) + "</script>"@) + html.skip(
                i + 6,
            ));
        },
        None => {
            text::replaced_first_nowhere(html, "<head>"@, head_tag(client_id));
        },
    }
}

/// A file is served with its own bytes and media type. It may be kept for a year where its name
/// changes with its contents, and has to be asked for again otherwise.
pub proof fn files_are_served_as_they_are(mime: Seq<char>, data: Seq<u8>, immutable: bool)
    ensures
        ({
            let page = file_page(mime, data, immutable);
            &&& page.status == 200
            &&& page.content_type == mime
            &&& page.body == PageBodyView::Bytes(data)
            &&& immutable ==> page.cache_control == Some("public, max-age=31536000, immutable"@)
            &&& !immutable ==> page.cache_control == Some("no-cache"@)
        }),
{
}

/// A path leads to the index page where no file answers to it, or where it is that page's name
/// behind any number of slashes.
pub proof fn paths_without_a_file_lead_to_the_index(path: Seq<char>, file: Option<Vec<u8>>, k: int)
    requires
        0 <= k <= path.len(),
        forall|j: int| 0 <= j < k ==> #[trigger] path[j] == '/',
        k < path.len() ==> path[k] != '/',
    ensures
        leads_to_index(path, file) <==> file is None || path.skip(k) == "index.html"@,
        text::without_leading(path, '/') == path.skip(k),
{
    text::leading_characters_come_off(path, '/');
    let n: int = choose|n: int|
        {
            &&& 0 <= n <= path.len()
            &&& text::without_leading(path, '/') == #[trigger] path.skip(n)
            &&& forall|j: int| 0 <= j < n ==> #[trigger] path[j] == '/'
            &&& n < path.len() ==> path[n] != '/'
        };
    if n < k {
        assert(path[n] == '/');
    }
    if k < n {
        assert(path[k] == '/');
    }
}

} // verus!
