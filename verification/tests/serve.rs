use leaf::serve::{dev_notice_html, html_escape, mime_guess_for};

#[test]
fn dev_notice_points_to_leaf_checkout_not_served_project() {
    let html = dev_notice_html("/src/leaf/web");

    assert!(html.contains("leaf source checkout"));
    assert!(html.contains("not the project you are serving"));
    assert!(html.contains("release"));
    assert!(html.contains("embedded web UI"));
    assert!(html.contains("<pre><code>cd /src/leaf/web &amp;&amp; npm ci"));
}

#[test]
fn html_escape_escapes_markup_characters() {
    assert_eq!(html_escape("a<b>&c"), "a&lt;b&gt;&amp;c");
    assert_eq!(html_escape(""), "");
}

#[test]
fn mime_guess_uses_the_extension() {
    assert_eq!(mime_guess_for("index.html"), "text/html; charset=utf-8");
    assert_eq!(mime_guess_for("app.js"), "text/javascript; charset=utf-8");
    assert_eq!(mime_guess_for("a.css"), "text/css; charset=utf-8");
    assert_eq!(mime_guess_for("logo.svg"), "image/svg+xml");
    assert_eq!(mime_guess_for("data.bin"), "application/octet-stream");
}
