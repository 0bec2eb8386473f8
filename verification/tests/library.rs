use litquid::codegen::emit_targets;
use litquid::reload::{
    any_regenerated, queue_change, retain_delivered, route, sse_message, sse_preamble, SseClients,
    SseEvent,
};
use std::sync::mpsc::channel;
use litquid::{
    compute_template_digest, generate_js_module, generate_ssr_wrapper, is_supported_template,
    is_wrapper_in_order, process_liquid_content, process_liquid_content_checked,
    split_template_strings, unknown_filter_names, ParsedTemplate, DEFAULT_LIT_IMPORT,
};

fn strings(v: &[&str]) -> Vec<String> {
    v.iter().map(|s| s.to_string()).collect()
}

// --- digest: exact values ---

#[test]
fn digest_exact_values() {
    assert_eq!(compute_template_digest(&strings(&["<div>", "</div>"])), "AEmR7W+R0Ak=");
    assert_eq!(compute_template_digest(&strings(&[""])), "BRUAAAUVAAA=");
    assert_eq!(compute_template_digest(&strings(&["hello ", " world"])), "zS6kXS2pYEU=");
    assert_eq!(compute_template_digest(&strings(&["<span>", "</span>"])), "94tjhjhkEYE=");
    assert_eq!(compute_template_digest(&strings(&["<h2>", " ", "</h2>"])), "QcmO6C6Ncnw=");
}

#[test]
fn digest_uses_utf16_surrogate_pairs() {
    assert_eq!(compute_template_digest(&strings(&["a\u{1F600}b"])), "RLBZAPogUAA=");
}

#[test]
fn digest_of_no_strings_is_initial_state() {
    // Both accumulators keep 5381 = 0x1505.
    assert_eq!(compute_template_digest(&[]), "BRUAAAUVAAA=");
}

#[test]
fn digest_always_twelve_chars() {
    for v in [vec![], strings(&["x"]), strings(&["a", "b", "c", "\u{3000}\u{10FFFF}"])] {
        assert_eq!(compute_template_digest(&v).len(), 12);
    }
}

// --- split / SSR markup ---

#[test]
fn split_unclosed_expression_runs_to_end() {
    assert_eq!(split_template_strings("a${ctx.x"), vec!["a", ""]);
}

#[test]
fn split_dollar_without_brace_is_text() {
    assert_eq!(split_template_strings("$5 ${x}$"), vec!["$5 ", "$"]);
}

#[test]
fn split_count_is_expressions_plus_one() {
    let html = "${a}${b}x${c}";
    assert_eq!(split_template_strings(html).len(), 4);
}

#[test]
fn ssr_wrapper_exact_text() {
    let w = generate_ssr_wrapper("<template shadowrootmode=\"open\"> <p>${ctx.a}!</p> </template>", "D");
    assert_eq!(w, "<!--lit-part D-->\n<p><!--lit-part--><!--/lit-part-->!</p>\n<!--/lit-part-->");
}

#[test]
fn ssr_markup_is_joined_static_strings() {
    let html = "<b>${ctx.a}</b>${ctx.b}<i>${x({y})}</i>";
    let parts = split_template_strings(html);
    let joined = parts.join("<!--lit-part--><!--/lit-part-->");
    assert_eq!(generate_ssr_wrapper(html, "H"), format!("<!--lit-part H-->\n{}\n<!--/lit-part-->", joined));
}

// --- wrapper ---

#[test]
fn wrapper_out_of_order_is_detected() {
    assert!(!is_wrapper_in_order("<template</template>"));
    assert!(is_wrapper_in_order("<template><p></p></template>"));
    assert!(is_wrapper_in_order("<div></div>"));
}

#[test]
fn js_module_exact_text() {
    let js = generate_js_module("  <template shadowrootmode=\"open\"><div>${ctx.x}</div></template>\n", "lit");
    let digest = compute_template_digest(&strings(&["<div>", "</div>"]));
    let expected = format!(
        "import {{ html }} from 'lit';\n\nexport const templateDigest = '{}';\n\n/**\n * Returns the template for this component.\n * Use with LitQuidElement.renderTemplate() for CSR rendering.\n */\nexport function getTemplate(ctx) {{\n  return html`<div>${{ctx.x}}</div>`;\n}}\n",
        digest
    );
    assert_eq!(js, expected);
}

#[test]
fn js_module_without_wrapper_keeps_content() {
    let js = generate_js_module("<p>hi</p>", "https://cdn/lit");
    assert!(js.starts_with("import { html } from 'https://cdn/lit';"));
    assert!(js.contains("return html`<p>hi</p>`;"));
}

// --- processing ---

#[test]
fn text_without_blocks_unchanged() {
    let (out, b) = process_liquid_content("<p>{ plain } text</p>").unwrap();
    assert_eq!(out, "<p>{ plain } text</p>");
    assert!(b.is_empty());
}

#[test]
fn unclosed_block_is_kept_as_text() {
    let (out, b) = process_liquid_content("a {{ x | csr").unwrap();
    assert_eq!(out, "a {{ x | csr");
    assert!(b.is_empty());
}

#[test]
fn filter_needing_argument_without_one_is_refused() {
    assert!(process_liquid_content_checked("{{ age | plus | csr }}").is_none());
    assert!(!is_supported_template("{{ age | plus | csr }}"));
    // With an explicit argument the chain is not translated, so nothing is refused.
    assert!(process_liquid_content_checked("{{ age | plus | csr: \"${this.age}\" }}").is_some());
}

#[test]
fn filter_arguments_are_parsed() {
    let (out, b) = process_liquid_content("{{ p | times: 2 | at_most: 9 | csr }}").unwrap();
    assert_eq!(out, "${Math.min((ctx.p*2),9)}");
    assert_eq!(b[0].var_name, "p");
    assert_eq!(b[0].filters, vec![
        ("times".to_string(), vec!["2".to_string()]),
        ("at_most".to_string(), vec!["9".to_string()]),
    ]);
}

#[test]
fn every_filter_translation() {
    let cases = [
        ("downcase", "${ctx.v.toLowerCase()}"),
        ("strip", "${ctx.v.trim()}"),
        ("minus: 1", "${(ctx.v-1)}"),
        ("divided_by: 2", "${(ctx.v/2)}"),
        ("modulo: 3", "${(ctx.v%3)}"),
        ("floor", "${Math.floor(ctx.v)}"),
        ("ceil", "${Math.ceil(ctx.v)}"),
        ("abs", "${Math.abs(ctx.v)}"),
        ("append: \"!\"", "${(ctx.v+\"!\")}"),
        ("prepend: \"$\"", "${(\"$\"+ctx.v)}"),
        ("at_least: 0", "${Math.max(ctx.v,0)}"),
        ("truncate", "${(ctx.v.length>50?ctx.v.slice(0,50)+'...':String(ctx.v))}"),
        ("truncate: 5", "${(ctx.v.length>5?ctx.v.slice(0,5)+'...':String(ctx.v))}"),
        ("replace: \"a\"", "${ctx.v.replaceAll(\"a\",\"\")}"),
        ("remove: \"a\"", "${ctx.v.replaceAll(\"a\",\"\")}"),
        ("join", "${ctx.v.join(\", \")}"),
        ("first", "${ctx.v[0]}"),
        ("last", "${ctx.v[ctx.v.length-1]}"),
        ("reverse", "${[...ctx.v].reverse()}"),
        ("url_encode", "${encodeURIComponent(ctx.v)}"),
        ("url_decode", "${decodeURIComponent(ctx.v)}"),
    ];
    for (filter, expected) in cases {
        let input = format!("{{{{ v | {} | csr }}}}", filter);
        let (out, _) = process_liquid_content(&input).unwrap();
        assert_eq!(out, expected, "filter {}", filter);
    }
}

#[test]
fn pipe_inside_quotes_does_not_split() {
    let (out, b) = process_liquid_content("{{ v | append: \"a|b\" | csr }}").unwrap();
    assert_eq!(out, "${(ctx.v+\"a|b\")}");
    assert_eq!(b[0].filters.len(), 1);
}

#[test]
fn explicit_arg_escapes_and_this_replacement() {
    let (out, _) = process_liquid_content(r#"{{ v | csr: "${this.a + \"x\" + this.b}" }}"#).unwrap();
    assert_eq!(out, r#"${ctx.a + \"x\" + ctx.b}"#);
}

#[test]
fn explicit_arg_without_quote_gives_nothing() {
    let (out, b) = process_liquid_content("<a>{{ v | csr: x }}</a>").unwrap();
    assert_eq!(out, "<a></a>");
    assert_eq!(b.len(), 1);
}

#[test]
fn csr_first_segment_is_skipped() {
    let (out, b) = process_liquid_content("{{ csr | upcase }}").unwrap();
    assert_eq!(out, "");
    assert!(b.is_empty());
}

#[test]
fn unicode_whitespace_is_trimmed() {
    let (out, b) = process_liquid_content("{{\u{3000}name\u{00A0}|\tcsr }}").unwrap();
    assert_eq!(out, "${ctx.name}");
    assert_eq!(b[0].var_name, "name");
}

// --- parsed template ---

#[test]
fn parsed_template_outputs() {
    let content = "<template shadowrootmode=\"open\">\n  <p>{{ name | upcase | csr }}</p>\n</template>\n";
    assert!(is_supported_template(content));
    let p = ParsedTemplate::from_liquid(content, None).unwrap();
    assert_eq!(p.static_segments, vec!["<p>", "</p>"]);
    assert_eq!(p.bindings.len(), 1);
    assert_eq!(p.template_open_tag.as_deref(), Some("<template shadowrootmode=\"open\">"));
    assert_eq!(p.digest, compute_template_digest(&p.static_segments));
    assert_eq!(p.to_json_manifest(), format!("{{\"digest\":\"{}\"}}\n", p.digest));
    let js = p.to_js_module();
    assert!(js.starts_with(&format!("import {{ html }} from '{}';", DEFAULT_LIT_IMPORT)));
    assert!(js.contains(&format!("export const templateDigest = '{}';", p.digest)));
    assert!(js.contains("return html`<p>${ctx.code.toUpperCase()}</p>`;") == false);
    assert!(js.contains("return html`<p>${ctx.name.toUpperCase()}</p>`;"));
    let processed = "<template shadowrootmode=\"open\">\n  <p>${ctx.name.toUpperCase()}</p>\n</template>\n";
    assert_eq!(js, generate_js_module(processed, "lit"));
}

#[test]
fn parsed_template_custom_import_and_no_wrapper() {
    let p = ParsedTemplate::from_liquid("<i>x</i>", Some("https://cdn/lit")).unwrap();
    assert!(p.template_open_tag.is_none());
    assert!(p.to_js_module().starts_with("import { html } from 'https://cdn/lit';"));
    assert_eq!(p.static_segments, vec!["<i>x</i>"]);
}

// --- reload clients ---

#[test]
fn broadcast_keeps_live_clients_in_order() {
    let (tx1, rx1) = channel::<()>();
    let (tx2, rx2) = channel::<()>();
    let (tx3, rx3) = channel::<()>();
    let mut clients = SseClients::new();
    clients.add(tx1);
    clients.add(tx2);
    clients.add(tx3);
    drop(rx2);
    clients.broadcast_reload();
    assert!(rx1.try_recv().is_ok());
    assert!(rx3.try_recv().is_ok());
    // The dropped client was removed: a second broadcast reaches only the two others.
    clients.broadcast_reload();
    assert!(rx1.try_recv().is_ok());
    assert!(rx3.try_recv().is_ok());
    assert!(rx1.try_recv().is_err());
}

#[test]
fn emit_targets_are_split_and_trimmed() {
    assert_eq!(emit_targets(" csharp , ,go,"), vec!["csharp", "go"]);
    assert!(emit_targets("").is_empty());
}

// --- clientTemplateValue ---

#[test]
fn client_template_value_argument_is_extracted() {
    let input = "<h2>{{ firstName | capitalize | clientTemplateValue(${this.firstName}) }}</h2>";
    let (out, b) = process_liquid_content(input).unwrap();
    assert_eq!(out, "<h2>${this.firstName}</h2>");
    assert_eq!(b.len(), 1);
    assert_eq!(b[0].var_name, "firstName");
    assert_eq!(b[0].filters[0].0, "capitalize");
}

#[test]
fn client_template_value_keeps_nested_parentheses() {
    let (out, _) = process_liquid_content("{{ x | clientTemplateValue( ${this.f(a, (b))} ) }}").unwrap();
    assert_eq!(out, "${this.f(a, (b))}");
}

// --- segments and bindings ---

#[test]
fn template_with_segments_not_matching_bindings_is_refused() {
    let refused = ParsedTemplate::from_liquid("<p>{{ x | csr: \"plain\" }}</p>", None);
    assert_eq!(
        refused.err(),
        Some("the template's ${...} positions do not match its bindings".to_string())
    );
    let two = ParsedTemplate::from_liquid("{{ x | csr: \"${this.a}${this.b}\" }}", None);
    assert!(two.is_err());
    let ok = ParsedTemplate::from_liquid("<p>{{ x | csr }} {{ y | csr }}</p>", None).unwrap();
    assert_eq!(ok.static_segments.len(), ok.bindings.len() + 1);
}

// --- unknown filters ---

#[test]
fn unknown_filters_are_reported_in_order() {
    let content = "{{ a | foo | upcase | bar | csr }}{{ b | baz | csr: \"${this.b}\" }}{{ c | qux | csr }}";
    assert_eq!(unknown_filter_names(content), vec!["foo", "bar", "qux"]);
    assert!(unknown_filter_names("{{ a | upcase | csr }}").is_empty());
}

// --- live-reload server ---

#[test]
fn sse_texts() {
    assert_eq!(
        sse_preamble(),
        "HTTP/1.1 200 OK\r\nContent-Type: text/event-stream\r\nCache-Control: no-cache\r\nConnection: keep-alive\r\nAccess-Control-Allow-Origin: *\r\n\r\ndata: connected\n\n"
    );
    assert_eq!(sse_message(&SseEvent::Reload).as_deref(), Some("data: reload\n\n"));
    assert_eq!(sse_message(&SseEvent::Timeout).as_deref(), Some(": keepalive\n\n"));
    assert!(sse_message(&SseEvent::Disconnected).is_none());
}

#[test]
fn routes() {
    assert!(route("/live-reload", 35729).is_none());
    let js = route("/livereload.js", 35729).unwrap();
    assert_eq!(js.status, 200);
    assert_eq!(js.content_type.as_deref(), Some("application/javascript"));
    assert!(js.allow_any_origin);
    let expected = "(() => {\n    const es = new EventSource('http://localhost:35729/live-reload');\n    es.onmessage = (e) => {\n        if (e.data === 'reload') {\n            console.log('[litquid] Reloading...');\n            location.reload();\n        }\n    };\n    es.onerror = () => console.log('[litquid] Live reload disconnected, retrying...');\n})();\n";
    assert_eq!(js.body, expected);
    assert!(route("/livereload.js", 7).unwrap().body.contains("localhost:7/live-reload"));
    let health = route("/health", 1).unwrap();
    assert_eq!((health.status, health.body.as_str(), health.allow_any_origin), (200, "ok", true));
    assert!(health.content_type.is_none());
    let missing = route("/other", 1).unwrap();
    assert_eq!((missing.status, missing.body.as_str(), missing.allow_any_origin), (404, "Not Found", false));
}

#[test]
fn changed_paths_are_queued_once_when_liquid() {
    let mut pending: Vec<String> = Vec::new();
    queue_change(&mut pending, "/t/a.liquid");
    queue_change(&mut pending, "/t/b.txt");
    queue_change(&mut pending, "/t/a.liquid");
    queue_change(&mut pending, "/t/.liquid");
    queue_change(&mut pending, "/t/c.liquid");
    assert_eq!(pending, vec!["/t/a.liquid", "/t/c.liquid"]);
}

#[test]
fn reload_only_after_a_regeneration() {
    assert!(!any_regenerated(&vec![]));
    assert!(!any_regenerated(&vec![false, false]));
    assert!(any_regenerated(&vec![false, true]));
}

#[test]
fn retain_delivered_keeps_flagged_clients() {
    let (tx1, rx1) = channel::<()>();
    let (tx2, rx2) = channel::<()>();
    let kept = retain_delivered(vec![tx1, tx2], &vec![false, true]);
    assert_eq!(kept.len(), 1);
    kept[0].send(()).unwrap();
    assert!(rx2.try_recv().is_ok());
    assert!(rx1.try_recv().is_err());
}

#[test]
fn base64_known_values_and_padding() {
    let enc = |b: &[u8]| -> String { litquid::digest::base64_encode(&b.to_vec()).into_iter().collect() };
    assert_eq!(enc(b""), "");
    assert_eq!(enc(b"M"), "TQ==");
    assert_eq!(enc(b"Ma"), "TWE=");
    assert_eq!(enc(b"Man"), "TWFu");
    assert_eq!(enc(b"foobar"), "Zm9vYmFy");
    assert_eq!(enc(&[0xfb, 0xff, 0xbf]), "+/+/");
    let all: Vec<u8> = (0u8..=255).collect();
    let out = enc(&all);
    assert_eq!(out.len(), 4 * ((all.len() + 2) / 3));
    assert!(out.chars().all(|c| c.is_ascii_alphanumeric() || c == '+' || c == '/' || c == '='));
}

#[test]
fn split_at_first_interpolation_on_values() {
    let t = "b${ctx.y}c";
    let whole = format!("a {}{}", "${ctx.f({x: 1})}", t);
    let mut expected = vec!["a ".to_string()];
    expected.extend(split_template_strings(t));
    assert_eq!(split_template_strings(&whole), expected);
}

#[test]
fn content_around_block_on_values() {
    let a = "<p>";
    let e = " name | upcase | csr ";
    let b = "</p>{{ age | csr }}";
    let whole = format!("{}{{{{{}}}}}{}", a, e, b);
    let (out, bs) = process_liquid_content(&whole).unwrap();
    let (block_out, block_bs) = process_liquid_content(&format!("{{{{{}}}}}", e)).unwrap();
    let (rest_out, rest_bs) = process_liquid_content(b).unwrap();
    assert_eq!(out, format!("{}{}{}", a, block_out, rest_out));
    assert_eq!(bs.len(), block_bs.len() + rest_bs.len());
    assert_eq!(bs[0].var_name, block_bs[0].var_name);
    assert_eq!(bs[0].filters, block_bs[0].filters);
    assert_eq!(bs[1].var_name, rest_bs[0].var_name);
}
