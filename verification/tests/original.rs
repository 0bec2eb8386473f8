use litquid::{
    compute_template_digest, generate_js_module, generate_ssr_wrapper, process_liquid_content,
    split_template_strings,
};

// --- csr with explicit arg ---

#[test]
fn test_csr_explicit_arg() {
    let input = r#"<div>
  {{ firstName | capitalize | csr: "${this.firstName}" }}
  {{ lastName | csr: "${this.lastName}" }}
  {{ age | plus: 1 }}
</div>"#;

    let expected = "<div>\n  ${ctx.firstName}\n  ${ctx.lastName}\n  \n</div>";

    let (result, bindings) = process_liquid_content(input).unwrap();
    assert_eq!(result, expected);
    assert_eq!(bindings.len(), 2);
    assert_eq!(bindings[0].var_name, "firstName");
    assert_eq!(bindings[1].var_name, "lastName");
}

#[test]
fn test_csr_explicit_arg_multiple_in_one_expression() {
    let input = r#"{{ a | csr: "${this.a}" | csr: "${this.b}" }}"#;
    let (result, bindings) = process_liquid_content(input).unwrap();
    assert_eq!(result, "${ctx.a}${ctx.b}");
    assert_eq!(bindings.len(), 2);
}

#[test]
fn test_csr_explicit_arg_arbitrary_interpolation() {
    let input = r#"{{ items | csr: "${this.items.map(i => i.name).join(', ')}" }}"#;
    let (result, _) = process_liquid_content(input).unwrap();
    assert_eq!(result, "${ctx.items.map(i => i.name).join(', ')}");
}

#[test]
fn test_csr_explicit_arg_complex_expression() {
    let input = r#"{{ x | csr: "${this.fn(a, b)}" }}"#;
    let (result, _) = process_liquid_content(input).unwrap();
    assert_eq!(result, "${ctx.fn(a, b)}");
}

// --- csr without arg (auto-translation) ---

#[test]
fn test_csr_no_arg_no_filters() {
    let input = "{{ name | csr }}";
    let (result, bindings) = process_liquid_content(input).unwrap();
    assert_eq!(result, "${ctx.name}");
    assert_eq!(bindings[0].var_name, "name");
    assert!(bindings[0].filters.is_empty());
}

#[test]
fn test_csr_no_arg_capitalize() {
    let input = "{{ firstName | capitalize | csr }}";
    let (result, bindings) = process_liquid_content(input).unwrap();
    assert_eq!(
        result,
        "${(ctx.firstName.charAt(0).toUpperCase()+ctx.firstName.slice(1).toLowerCase())}"
    );
    assert_eq!(bindings[0].filters[0].0, "capitalize");
}

#[test]
fn test_csr_no_arg_upcase() {
    let input = "{{ code | upcase | csr }}";
    let (result, _) = process_liquid_content(input).unwrap();
    assert_eq!(result, "${ctx.code.toUpperCase()}");
}

#[test]
fn test_csr_no_arg_plus() {
    let input = "{{ age | plus: 1 | csr }}";
    let (result, _) = process_liquid_content(input).unwrap();
    assert_eq!(result, "${(ctx.age+1)}");
}

#[test]
fn test_csr_no_arg_chained_times_round() {
    let input = "{{ price | times: 1.2 | round | csr }}";
    let (result, _) = process_liquid_content(input).unwrap();
    assert_eq!(result, "${Math.round((ctx.price*1.2))}");
}

#[test]
fn test_csr_no_arg_default() {
    let input = r#"{{ title | default: "Untitled" | csr }}"#;
    let (result, _) = process_liquid_content(input).unwrap();
    assert_eq!(result, r#"${(ctx.title??"Untitled")}"#);
}

#[test]
fn test_csr_no_arg_size() {
    let input = "{{ items | size | csr }}";
    let (result, _) = process_liquid_content(input).unwrap();
    assert_eq!(result, "${ctx.items.length}");
}

#[test]
fn test_csr_no_arg_unknown_filter_drops_it() {
    let input = "{{ name | some_custom_filter | csr }}";
    let (result, _) = process_liquid_content(input).unwrap();
    assert_eq!(result, "${ctx.name}");
}

// --- no csr filter at all ---

#[test]
fn test_no_csr_filter() {
    let input = "{{ age | plus: 1 }}";
    let (result, bindings) = process_liquid_content(input).unwrap();
    assert_eq!(result, "");
    assert!(bindings.is_empty());
}

// --- split_template_strings ---

#[test]
fn test_split_no_expressions() {
    let strings = split_template_strings("<div>hello</div>");
    assert_eq!(strings, vec!["<div>hello</div>"]);
}

#[test]
fn test_split_one_expression() {
    let strings = split_template_strings("<div>${ctx.name}</div>");
    assert_eq!(strings, vec!["<div>", "</div>"]);
}

#[test]
fn test_split_multiple_expressions() {
    let strings = split_template_strings("<h2>${ctx.first} ${ctx.last}</h2>");
    assert_eq!(strings, vec!["<h2>", " ", "</h2>"]);
}

#[test]
fn test_split_nested_braces() {
    let strings = split_template_strings("A${ctx.fn({x:1})}B");
    assert_eq!(strings, vec!["A", "B"]);
}

// --- compute_template_digest ---

#[test]
fn test_digest_is_12_chars() {
    let strings = vec!["<div>".to_string(), "</div>".to_string()];
    let digest = compute_template_digest(&strings);
    assert_eq!(digest.len(), 12);
}

#[test]
fn test_digest_same_strings_same_digest() {
    let s1 = vec!["hello ".to_string(), " world".to_string()];
    let s2 = vec!["hello ".to_string(), " world".to_string()];
    assert_eq!(compute_template_digest(&s1), compute_template_digest(&s2));
}

#[test]
fn test_digest_different_strings_different_digest() {
    let s1 = vec!["<div>".to_string(), "</div>".to_string()];
    let s2 = vec!["<span>".to_string(), "</span>".to_string()];
    assert_ne!(compute_template_digest(&s1), compute_template_digest(&s2));
}

#[test]
fn test_digest_empty_strings() {
    let strings = vec!["".to_string()];
    let digest = compute_template_digest(&strings);
    assert_eq!(digest.len(), 12);
}

// --- generate_ssr_wrapper ---

#[test]
fn test_ssr_wrapper_no_expressions() {
    let html = "<div>hello</div>";
    let digest = "TESTDIGEST==";
    let wrapper = generate_ssr_wrapper(html, digest);
    assert!(wrapper.starts_with("<!--lit-part TESTDIGEST==-->"));
    assert!(wrapper.contains("<div>hello</div>"));
    assert!(wrapper.ends_with("<!--/lit-part-->"));
}

#[test]
fn test_ssr_wrapper_replaces_expressions() {
    let html = "<p>${ctx.name}</p>";
    let wrapper = generate_ssr_wrapper(html, "HASH");
    assert!(wrapper.contains("<!--lit-part--><!--/lit-part-->"));
    assert!(!wrapper.contains("${ctx.name}"));
}

// --- generate_js_module ---

#[test]
fn test_js_module_includes_digest_export() {
    let html = "<div>${ctx.name}</div>";
    let js = generate_js_module(html, "lit");
    assert!(js.contains("export const templateDigest ="));
}

#[test]
fn test_js_module_strips_template_wrapper() {
    let html = "<template shadowrootmode=\"open\"><div>${ctx.x}</div></template>";
    let js = generate_js_module(html, "lit");
    assert!(!js.contains("<template"));
    assert!(js.contains("<div>"));
}
