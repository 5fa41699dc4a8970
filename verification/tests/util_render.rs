use ferrite_nn::{blank_remaining, format_sse_event, format_sse_keepalive, html_escape,
    render_flash_html, render_page, FlashMessage, Page};

#[test]
fn sse_event_frame_layout() {
    assert_eq!(
        format_sse_event("epoch", "{\"epoch\":1}"),
        "event: epoch\ndata: {\"epoch\":1}\n\n"
    );
}

#[test]
fn sse_keepalive_is_a_comment() {
    assert_eq!(format_sse_keepalive(), ": ping\n\n");
}

#[test]
fn html_escape_rewrites_special_characters() {
    assert_eq!(html_escape("a<b>&\"c\""), "a&lt;b&gt;&amp;&quot;c&quot;");
    assert_eq!(html_escape("plain"), "plain");
    assert_eq!(html_escape(""), "");
}

#[test]
fn render_flash_html_wraps_and_escapes() {
    assert_eq!(render_flash_html(None), "");
    let ok = FlashMessage::success("Saved <ok>");
    assert_eq!(
        render_flash_html(Some(&ok)),
        "<div class=\"flash flash-success\">Saved &lt;ok&gt;</div>"
    );
    let err = FlashMessage::error("bad");
    assert_eq!(render_flash_html(Some(&err)), "<div class=\"flash flash-error\">bad</div>");
}

#[test]
fn render_page_fills_globals_and_custom_tokens() {
    let fills = vec![("TITLE".to_string(), "XOR".to_string())];
    let out = render_page(
        "tab={{ACTIVE_TAB}} unlock={{TAB_UNLOCK}} run={{TRAINING_RUNNING}} t={{TITLE}} gone={{MISSING}}!",
        Page::Train,
        21,
        true,
        &fills,
    );
    assert_eq!(out, "tab=2 unlock=21 run=true t=XOR gone=!");
}

#[test]
fn render_page_keeps_unclosed_token_text() {
    let fills = Vec::new();
    let out = render_page("a{{OPEN no close", Page::Architect, 17, false, &fills);
    assert_eq!(out, "a{{OPEN no close");
}

#[test]
fn blank_remaining_strips_leftover_tokens() {
    assert_eq!(blank_remaining("a{{X}}b{{Y}}c"), "abc");
    assert_eq!(blank_remaining("none here"), "none here");
    assert_eq!(blank_remaining("{{}}"), "");
}
