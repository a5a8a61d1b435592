use certified_assets::mime::{headers_for, index_html_headers};
use certified_assets::numtext::{dec_string, units_string};
use certified_assets::tree::CommitmentTree;

fn content_type(path: &str) -> String {
    let h = headers_for(path);
    assert_eq!(h.len(), 1);
    assert_eq!(h[0].0, "Content-Type");
    h[0].1.clone()
}

#[test]
fn entry_page_headers() {
    assert_eq!(
        index_html_headers(),
        vec![("Content-Type".to_string(), "text/html; charset=UTF-8".to_string())]
    );
}

#[test]
fn extension_table() {
    assert_eq!(content_type("page.html"), "text/html; charset=UTF-8");
    assert_eq!(content_type("style.css"), "text/css");
    assert_eq!(content_type("main.js"), "application/javascript");
    assert_eq!(content_type("data.json"), "application/json");
    assert_eq!(content_type("logo.svg"), "image/svg+xml");
    assert_eq!(content_type("img.png"), "image/png");
    assert_eq!(content_type("img.jpg"), "image/jpeg");
    assert_eq!(content_type("img.jpeg"), "image/jpeg");
    assert_eq!(content_type("img.webp"), "image/webp");
    assert_eq!(content_type("favicon.ico"), "image/vnd.microsoft.icon");
    assert_eq!(content_type("font.woff2"), "application/font-woff2");
    assert_eq!(content_type("readme.md"), "text/markdown; charset=UTF-8");
    assert_eq!(content_type("notes.txt"), "text/plain; charset=UTF-8");
}

#[test]
fn extension_is_lowered() {
    assert_eq!(content_type("IMG.JPG"), "image/jpeg");
    assert_eq!(content_type("Page.HtMl"), "text/html; charset=UTF-8");
}

#[test]
fn unknown_or_missing_extension_is_opaque() {
    assert_eq!(content_type("archive.tar"), "application/octet-stream");
    assert_eq!(content_type("noext"), "application/octet-stream");
    assert_eq!(content_type(".bashrc"), "application/octet-stream");
    assert_eq!(content_type("dir.v2/noext"), "application/octet-stream");
    assert_eq!(content_type("trailing."), "application/octet-stream");
}

#[test]
fn decimal_rendering() {
    assert_eq!(dec_string(0), "0");
    assert_eq!(dec_string(7), "7");
    assert_eq!(dec_string(12034), "12034");
    assert_eq!(units_string(1_000_000, 100), "10000");
    assert_eq!(units_string(1_000_050, 100), "10000.5");
    assert_eq!(units_string(1, 8), "0.125");
    assert_eq!(units_string(0, 100), "0");
    assert_eq!(units_string(123, 1), "123");
}

#[test]
fn tree_lookup() {
    let mut t = CommitmentTree::new();
    assert_eq!(t.len(), 0);
    let h1 = vec![1u8; 32];
    let h2 = vec![2u8; 32];
    t.insert(b"b".to_vec(), h1.clone());
    t.insert(b"a".to_vec(), h2.clone());
    assert_eq!(t.len(), 2);
    assert_eq!(t.get(&b"a".to_vec()), Some(&h2));
    assert_eq!(t.get(&b"b".to_vec()), Some(&h1));
    assert_eq!(t.get(&b"c".to_vec()), None);
    // replacement keeps one entry per key
    t.insert(b"a".to_vec(), h1.clone());
    assert_eq!(t.len(), 2);
    assert_eq!(t.get(&b"a".to_vec()), Some(&h1));
}
