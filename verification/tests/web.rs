use genos::http::NetError;
use genos::json::{json_eq, json_object, JsonValue};
use genos::web::{
    cache_read_reply, extract_domain, fetch_reply, fetch_request, extract_links_from_html, extract_links_reply, feed_reply, feed_request,
    get_page_request, page_after, page_start, parse_feed_exec, read_llms_after, strip_html, truncate_to_tokens,
    utrim_bytes, ChunkType, LlmsStep, PageAction, PageSource, WebCache,
};

fn s(x: &str) -> Vec<u8> {
    x.as_bytes().to_vec()
}

fn contains(hay: &[u8], needle: &str) -> bool {
    hay.windows(needle.len()).any(|w| w == needle.as_bytes())
}

#[test]
fn strip_html_extracts_structure() {
    let html = r#"<!DOCTYPE html>
<html>
<head><title>Rust Programming Language</title></head>
<body>
  <h1>Rust</h1>
  <p>A language empowering everyone to build reliable and efficient software.</p>
  <h2>Features</h2>
  <ul>
    <li>Memory safety without GC</li>
    <li>Fearless concurrency</li>
    <li>Zero-cost abstractions</li>
  </ul>
  <h2>Example</h2>
  <pre><code>fn main() {
    println!("Hello, world!");
}</code></pre>
</body>
</html>"#;

    let chunks = strip_html(html.as_bytes());
    assert!(!chunks.is_empty(), "Should extract chunks from HTML");

    let title = chunks.iter().find(|c| matches!(c.typ, ChunkType::Title));
    assert!(title.is_some(), "Should have a title chunk");
    assert!(contains(&title.unwrap().text, "Rust"), "Title should contain 'Rust'");

    let h1 = chunks.iter().find(|c| matches!(c.typ, ChunkType::Heading { level: 1 }));
    assert!(h1.is_some(), "Should have h1");
    assert!(contains(&h1.unwrap().text, "Rust"), "H1 should say Rust");

    let list_items: Vec<_> = chunks.iter().filter(|c| matches!(c.typ, ChunkType::ListItem)).collect();
    assert_eq!(list_items.len(), 3, "Should have 3 list items");
    assert!(list_items.iter().any(|c| contains(&c.text, "Memory safety")));
    assert!(list_items.iter().any(|c| contains(&c.text, "concurrency")));

    let code = chunks.iter().find(|c| matches!(c.typ, ChunkType::Code));
    assert!(code.is_some(), "Should have code chunk");
    assert!(contains(&code.unwrap().text, "println"), "Code should contain println");
}

#[test]
fn strip_html_decodes_entities() {
    let html = "<p>AT&amp;T sells for &lt;$1000 &amp; is &quot;reliable&quot;</p>";
    let chunks = strip_html(html.as_bytes());
    assert!(!chunks.is_empty());
    let text: Vec<u8> = chunks.iter().map(|c| c.text.clone()).collect::<Vec<_>>().join(&b' ');
    assert!(contains(&text, "AT&T"), "Should decode &amp; -> &");
    assert!(contains(&text, "<$1000"), "Should decode &lt; -> <");
    assert!(contains(&text, "\"reliable\""), "Should decode &quot; -> \"");
}

#[test]
fn strip_html_ignores_script_and_style() {
    let html = r#"<html>
<head>
  <style>body { color: red; }</style>
  <script>var x = "secret";</script>
</head>
<body><p>Visible content here</p></body>
</html>"#;
    let chunks = strip_html(html.as_bytes());
    let all_text: Vec<u8> = chunks.iter().map(|c| c.text.clone()).collect::<Vec<_>>().join(&b' ');
    assert!(!contains(&all_text, "color: red"), "Should not include CSS");
    assert!(!contains(&all_text, "var x"), "Should not include JS");
    assert!(contains(&all_text, "Visible content"), "Should include body text");
}

#[test]
fn strip_html_token_estimates() {
    let html = "<p>This is a paragraph with several words of content for token estimation.</p>";
    let chunks = strip_html(html.as_bytes());
    assert!(!chunks.is_empty());
    let chunk = &chunks[0];
    let expected = (chunk.text.len() + 3) / 4;
    assert_eq!(chunk.tokens_estimate, expected, "Token estimate should be len/4");
}

#[test]
fn strip_html_chunk_to_json_structure() {
    let html = "<h2>Section Title</h2>";
    let chunks = strip_html(html.as_bytes());
    assert!(!chunks.is_empty());
    let json = chunks[0].to_json();
    assert_eq!(json.get(b"type").unwrap().as_str(), Some(&b"heading"[..]));
    assert!(contains(json.get(b"text").unwrap().as_str().unwrap(), "Section Title"));
    assert_eq!(json.get(b"tokens").unwrap().as_number(), Some(&b"4"[..]));
}

#[test]
fn strip_html_numeric_references_and_latin1_bytes() {
    let chunks = strip_html(b"<p>&#65;&#x42;&#X43;&#xD800;&#;&bogus; &unterminated x</p>");
    assert_eq!(chunks.len(), 1);
    assert_eq!(chunks[0].text, b"ABC?\0&bogus; &unterminated x".to_vec());
    // a byte outside ASCII reads as the Latin-1 character of that value
    let chunks = strip_html(&[b'<', b'p', b'>', 0xE9, b'<', b'/', b'p', b'>']);
    assert_eq!(chunks[0].text, vec![0xC3, 0xA9]);
    // line breaks fold to one space; <br> keeps a line break
    let chunks = strip_html(b"<p>a\n\n\tb<br>c</p>");
    assert_eq!(chunks[0].text, s("a b\nc"));
    // &nbsp; is a plain space and blank chunks are dropped
    assert!(strip_html(b"<p>&nbsp;</p><div>  </div>").is_empty());
}

#[test]
fn unicode_whitespace_is_trimmed() {
    let text = "\u{3000}\u{a0} hi there\u{2003}\n".as_bytes();
    assert_eq!(utrim_bytes(text), b"hi there");
    assert_eq!(utrim_bytes(b"   "), b"");
}

#[test]
fn domain_and_truncation() {
    assert_eq!(extract_domain(b"https://example.com/a/b"), s("example.com"));
    assert_eq!(extract_domain(b"http://host"), s("host"));
    assert_eq!(extract_domain(b"ftp.example.org/x"), s("ftp.example.org"));
    assert_eq!(truncate_to_tokens(b"short", 10), (s("short"), false));
    assert_eq!(truncate_to_tokens(b"one two three four", 2), (s("one two "), true));
    assert_eq!(truncate_to_tokens(b"abcdefghijkl", 2), (s("abcdefgh"), true));
}

#[test]
fn links_are_classified() {
    let html = b"<html><a href=\"/docs\">Docs <b>here</b></a> <a href='https://other.org/x.pdf'>Paper</a> \
<a class=\"x\" href=\"https://example.com/y\">Y</a> <a name=\"n\">no link</a> <A\thref=\"https://far.net\">Far</A> padding";
    let links = extract_links_from_html(html, b"example.com");
    assert_eq!(links.len(), 4);
    assert_eq!(links[0], (s("/docs"), s("Docs here"), s("internal")));
    assert_eq!(links[1], (s("https://other.org/x.pdf"), s("Paper"), s("document")));
    assert_eq!(links[2], (s("https://example.com/y"), s("Y"), s("internal")));
    assert_eq!(links[3], (s("https://far.net"), s("Far"), s("external")));
}

#[test]
fn links_reply_reports_network_errors() {
    let r = extract_links_reply(b"c1", b"http://x.org", Err(NetError::Timeout));
    assert!(!r.ok);
    let e = r.error.unwrap();
    assert_eq!(e.code, s("net_error"));
    assert_eq!(e.message, s("request timed out"));
    assert!(e.retryable);
    let ok = extract_links_reply(b"c2", b"http://x.org/", Ok(b"<a href=\"http://x.org/a\">A</a>........"));
    assert!(ok.ok);
    let arr = ok.result.as_array().unwrap();
    assert_eq!(arr.len(), 1);
    assert_eq!(arr[0].get(b"type").and_then(|v| v.as_str()), Some(&b"internal"[..]));
}

#[test]
fn cache_path_hashes_the_url() {
    assert_eq!(WebCache::cache_path(b""), s("\\palace\\cache\\page_00000000.txt"));
    // 'a' = 97 = 0x61
    assert_eq!(WebCache::cache_path(b"a"), s("\\palace\\cache\\page_00000061.txt"));
    // 97 * 31 + 98 = 3105 = 0xc21
    assert_eq!(WebCache::cache_path(b"ab"), s("\\palace\\cache\\page_00000c21.txt"));
    let r = cache_read_reply(b"c", Some(b"cached"));
    assert!(json_eq(&r.result, &JsonValue::Str(s("cached"))));
    assert!(json_eq(&cache_read_reply(b"c", None).result, &JsonValue::Null));
}

#[test]
fn page_reading_tries_llms_txt_first() {
    match page_start(b"https://example.com/docs/page") {
        PageAction::Fetch(u, PageSource::LlmsTxt) => assert_eq!(u, s("https://example.com/llms.txt")),
        other => panic!("unexpected {:?}", other),
    }
    match page_after(b"http://ex.org/p", 1024, PageSource::LlmsTxt, None) {
        Some(PageAction::Fetch(u, PageSource::LlmTxt)) => assert_eq!(u, s("http://ex.org/llm.txt")),
        other => panic!("unexpected {:?}", other),
    }
    match page_after(b"http://ex.org/p", 1024, PageSource::LlmTxt, Some(b"")) {
        Some(PageAction::Fetch(u, PageSource::Markup)) => assert_eq!(u, s("http://ex.org/p")),
        other => panic!("unexpected {:?}", other),
    }
    match page_after(b"http://ex.org/p", 2, PageSource::LlmsTxt, Some(b"# Title\nSome words here")) {
        Some(PageAction::Done(p)) => {
            assert!(p.source_llms_txt);
            assert!(p.has_more);
            assert_eq!(p.total_tokens, 6);
            assert_eq!(p.chunks.len(), 1);
            assert_eq!(p.chunks[0].text, s("# Title\n"));
            assert_eq!(p.domain, s("ex.org"));
        },
        other => panic!("unexpected {:?}", other),
    }
    match page_after(b"http://ex.org/p", 1, PageSource::Markup, Some(b"<p>abcd</p><p>efgh</p>")) {
        Some(PageAction::Done(p)) => {
            assert!(!p.source_llms_txt);
            assert!(p.has_more);
            assert_eq!(p.total_tokens, 2);
            assert_eq!(p.chunks.len(), 1);
            let j = p.to_json();
            assert_eq!(j.get(b"has_more").unwrap().as_bool(), Some(true));
        },
        other => panic!("unexpected {:?}", other),
    }
    match page_after(b"http://ex.org/p", 1, PageSource::Markup, None) {
        Some(PageAction::Done(p)) => {
            assert!(p.chunks.is_empty());
            assert_eq!(p.total_tokens, 0);
        },
        other => panic!("unexpected {:?}", other),
    }
    // a cut that would split a character is refused
    assert!(page_after(b"http://ex.org/p", 1, PageSource::LlmsTxt, Some("aéééé".as_bytes())).is_none());
}

#[test]
fn page_request_checks_its_arguments() {
    let missing = get_page_request(&json_object(vec![]), b"c1").unwrap_err();
    assert_eq!(missing.error.unwrap().message, s("missing 'url'"));
    let bad = get_page_request(&json_object(vec![(s("url"), JsonValue::Str(s("ftp://x")))]), b"c2").unwrap_err();
    assert_eq!(bad.error.unwrap().message, s("only http:// and https:// URLs are supported"));
    let ok = get_page_request(
        &json_object(vec![(s("url"), JsonValue::Str(s("http://x"))), (s("max_tokens"), JsonValue::Number(s("64")))]),
        b"c3",
    )
    .unwrap();
    assert_eq!(ok, (s("http://x"), 64));
    let dflt = get_page_request(&json_object(vec![(s("url"), JsonValue::Str(s("https://x")))]), b"c4").unwrap();
    assert_eq!(dflt.1, 1024);
}

#[test]
fn read_llms_returns_text_or_null() {
    match read_llms_after(b"c", b"https://a.b/c", PageSource::LlmsTxt, Some(b"hello")) {
        LlmsStep::Reply(r) => assert!(json_eq(&r.result, &JsonValue::Str(s("hello")))),
        other => panic!("unexpected {:?}", other),
    }
    match read_llms_after(b"c", b"https://a.b/c", PageSource::LlmsTxt, None) {
        LlmsStep::Fetch(u, PageSource::LlmTxt) => assert_eq!(u, s("https://a.b/llm.txt")),
        other => panic!("unexpected {:?}", other),
    }
    match read_llms_after(b"c", b"https://a.b/c", PageSource::LlmTxt, None) {
        LlmsStep::Reply(r) => assert!(json_eq(&r.result, &JsonValue::Null)),
        other => panic!("unexpected {:?}", other),
    }
}

#[test]
fn feeds_rss_and_atom() {
    let rss = b"<rss><channel><title>News</title>\
<item><title><![CDATA[ First ]]></title><link> http://n/1 </link><description>D1</description><pubDate>Mon</pubDate></item>\
<item><title>Second</title><link>http://n/2</link></item>\
<item><title>Third</title></item></channel></rss>";
    let (title, items) = parse_feed_exec(rss, 2);
    assert_eq!(title, s("News"));
    assert_eq!(items.len(), 2);
    assert_eq!(items[0], (s("First"), s("http://n/1"), s("D1"), s("Mon")));
    assert_eq!(items[1], (s("Second"), s("http://n/2"), s(""), s("")));

    let atom = b"<feed><title>Blog</title><entry><title>Post</title><link href=\"http://b/p\"/>\
<summary>Sum</summary><updated>2026</updated></entry></feed>";
    let (title, items) = parse_feed_exec(atom, 10);
    assert_eq!(title, s("Blog"));
    assert_eq!(items, vec![(s("Post"), s("http://b/p"), s("Sum"), s("2026"))]);

    let r = feed_reply(b"f", b"http://b", 10, Ok(atom));
    assert_eq!(r.result.get(b"item_count").unwrap().as_number(), Some(&b"1"[..]));
    let e = feed_reply(b"f", b"http://b", 10, Err(NetError::ParseError)).error.unwrap();
    assert_eq!(e.code, s("fetch_failed"));
    assert_eq!(e.message, s("HTTP parse error"));
}

#[test]
fn feed_request_clamps_max_items() {
    let args = json_object(vec![(s("url"), JsonValue::Str(s("http://f"))), (s("max_items"), JsonValue::Number(s("500")))]);
    assert_eq!(feed_request(&args, b"c").unwrap(), (s("http://f"), 50));
    let args = json_object(vec![(s("url"), JsonValue::Str(s("http://f"))), (s("max_items"), JsonValue::Number(s("0")))]);
    assert_eq!(feed_request(&args, b"c").unwrap().1, 1);
    let args = json_object(vec![(s("url"), JsonValue::Str(s("http://f")))]);
    assert_eq!(feed_request(&args, b"c").unwrap().1, 20);
    let empty = json_object(vec![(s("url"), JsonValue::Str(s("")))]);
    assert_eq!(feed_request(&empty, b"c").unwrap_err().error.unwrap().message, s("url is required"));
}

#[test]
fn net_fetch_checks_its_url() {
    let e = fetch_request(&json_object(vec![(s("url"), JsonValue::Str(s("https://")))]), b"c").unwrap_err();
    assert_eq!(e.error.unwrap().message, s("empty URL"));
    let e = fetch_request(&json_object(vec![(s("url"), JsonValue::Str(s("file:///etc")))]), b"c").unwrap_err();
    assert_eq!(e.error.unwrap().message, s("only http:// and https:// URLs are supported"));
    assert_eq!(fetch_request(&json_object(vec![(s("url"), JsonValue::Str(s("http://a")))]), b"c").unwrap(), s("http://a"));
    assert!(json_eq(&fetch_reply(b"c", Ok(b"body")).result, &JsonValue::Str(s("body"))));
    assert_eq!(fetch_reply(b"c", Err(NetError::DnsError)).error.unwrap().message, s("DNS resolution failed"));
}
