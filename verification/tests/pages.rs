use nao_me_prenda_janja::assets::{asset_name, inject, serve, Page, PageBody};

const INDEX: &str = "<html><head><title>x</title></head><head></html>";

fn index() -> Option<Vec<u8>> {
    Some(INDEX.as_bytes().to_vec())
}

fn body_text(page: Page) -> String {
    match page.body {
        PageBody::Text(s) => s,
        PageBody::Bytes(_) => panic!("not text"),
    }
}

#[test]
fn paths_lose_their_leading_slashes() {
    assert_eq!(asset_name("/assets/a.js"), "assets/a.js");
    assert_eq!(asset_name("//x"), "x");
    assert_eq!(asset_name("/"), "");
}

#[test]
fn index_names_the_client() {
    let page = serve("12\"3", "/share", None, index());
    assert_eq!(page.status, 200);
    assert_eq!(page.content_type, "text/html; charset=utf-8");
    assert_eq!(page.cache_control.as_deref(), Some("no-cache"));
    assert_eq!(
        body_text(page),
        "<html><head><script>window.__NMPJ_CLIENT_ID=\"12\\\"3\"</script>\
         <title>x</title></head><head></html>"
    );
}

#[test]
fn index_is_never_served_raw() {
    let page = serve("1", "/index.html", index(), index());
    assert!(body_text(page).contains("__NMPJ_CLIENT_ID=\"1\""));
}

#[test]
fn a_missing_index_is_reported() {
    let page = serve("1", "/", None, None);
    assert_eq!(page.status, 404);
    assert_eq!(page.content_type, "text/plain; charset=utf-8");
    assert_eq!(page.cache_control, None);
    assert_eq!(body_text(page), "frontend not embedded");
}

#[test]
fn broken_text_is_replaced() {
    let page = serve("1", "/", None, Some(vec![b'a', 0xff, b'b']));
    assert_eq!(body_text(page), "a\u{fffd}b");
}

#[test]
fn files_carry_their_media_type() {
    for (path, mime) in [
        ("/favicon.svg", "image/svg+xml"),
        ("/robots.txt", "text/plain"),
        ("/font.woff2", "font/woff2"),
        ("/no-extension", "application/octet-stream"),
    ] {
        let page = serve("1", path, Some(vec![0, 255]), index());
        assert_eq!(page.status, 200);
        assert_eq!(page.content_type, mime);
        assert_eq!(page.cache_control.as_deref(), Some("no-cache"));
        assert!(matches!(page.body, PageBody::Bytes(b) if b == vec![0, 255]));
    }
}

#[test]
fn hashed_assets_are_kept_forever() {
    let page = serve("1", "/assets/app-1a2b.css", Some(vec![]), index());
    assert_eq!(page.content_type, "text/css");
    assert_eq!(page.cache_control.as_deref(), Some("public, max-age=31536000, immutable"));
    let page = serve("1", "/assets.css", Some(vec![]), index());
    assert_eq!(page.cache_control.as_deref(), Some("no-cache"));
}

#[test]
fn only_the_first_head_is_replaced() {
    assert_eq!(inject("<head><head>", "T"), "T<head>");
    assert_eq!(inject("no tag", "T"), "no tag");
}
