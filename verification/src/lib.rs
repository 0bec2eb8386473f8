//! Converts Liquid templates into Lit template modules with SSR hydration support.
use vstd::prelude::*;

pub mod chars;
pub mod codegen;
pub mod digest;
pub mod laws;
pub mod liquid;
pub mod reload;
pub mod template;

verus! {

/// A dynamic binding extracted from a `csr` filter expression.
#[derive(Debug, Clone)]
pub struct Binding {
    /// Root variable name (first pipe segment of the Liquid expression)
    pub var_name: String,
    /// Ordered filter chain applied before the `csr` marker
    pub filters: Vec<(String, Vec<String>)>,
}

impl View for Binding {
    type V = liquid::BindingModel;

    open spec fn view(&self) -> liquid::BindingModel {
        (self.var_name@, self.filters.deep_view())
    }
}

/// Default Lit import path (CDN)
pub const DEFAULT_LIT_IMPORT: &'static str = "lit";

// ---------------------------------------------------------------------------
// Specifications of the generated text
// ---------------------------------------------------------------------------

/// A template can be processed: every auto-translated filter that needs an
/// argument has one, and the wrapper of the processed HTML can be cut away.
pub open spec fn template_supported(content: Seq<char>) -> bool {
    &&& liquid::liquid_content(content) is Some
    &&& template::wrapper_in_order(liquid::liquid_content(content).unwrap().0)
}

/// Why a template whose static segments do not match its bindings is refused.
pub open spec fn segment_mismatch_message() -> Seq<char> {
    "the template's ${...} positions do not match its bindings"@
}

/// The static strings of the client template of `html`.
pub open spec fn client_strings(html: Seq<char>) -> Seq<Seq<char>> {
    template::template_parts(template::client_content(html), 0)
}

/// The `.template.js` module for the client template `content`.
pub open spec fn js_module_text(lit_import: Seq<char>, digest: Seq<char>, content: Seq<char>) -> Seq<
    char,
> {
    "import { html } from '"@ + lit_import + "';\n\nexport const templateDigest = '"@ + digest
        + "';\n\n/**\n * Returns the template for this component.\n * Use with LitQuidElement.renderTemplate() for CSR rendering.\n */\nexport function getTemplate(ctx) {\n  return html`"@
        + content + "`;\n}\n"@
}

/// The `.template.json` manifest for `digest`.
pub open spec fn json_manifest_text(digest: Seq<char>) -> Seq<char> {
    "{\"digest\":\""@ + digest + "\"}\n"@
}

/// The SSR markup of `html`: the client template with each interpolation an
/// empty slot, between the opening and closing `lit-part` markers.
pub open spec fn ssr_wrapper_text(html: Seq<char>, digest: Seq<char>) -> Seq<char> {
    "<!--lit-part "@ + digest + "-->\n"@ + template::with_slots(template::client_content(html), 0)
        + "\n<!--/lit-part-->"@
}

/// The strings' characters.
pub open spec fn strings_view(ss: Seq<String>) -> Seq<Seq<char>> {
    ss.map_values(|s: String| s@)
}

// ---------------------------------------------------------------------------
// ParsedTemplate
// ---------------------------------------------------------------------------

/// All information extracted from a single `.liquid` template file.
///
/// Carries everything needed to emit a JS module, a JSON manifest, and
/// server-side render functions in any target language.
pub struct ParsedTemplate {
    /// Base64 digest matching `@lit-labs/ssr-client`'s `digestForTemplateResult`
    pub digest: String,
    /// Static HTML segments between dynamic bindings (length = `bindings.len() + 1`).
    /// Computed after stripping the outer `<template>` wrapper.
    pub static_segments: Vec<String>,
    /// Dynamic bindings in document order, one per `${...}` position in the template.
    pub bindings: Vec<Binding>,
    /// Opening `<template ...>` tag from the source file, if present.
    pub template_open_tag: Option<String>,
    /// The processed HTML, with `${...}` expressions in place of the bindings' blocks.
    pub processed_html: String,
    /// The Lit import path of the JS module.
    pub lit_import: String,
}

/// A parsed template as the library sees it.
pub struct TemplateModel {
    pub digest: Seq<char>,
    pub static_segments: Seq<Seq<char>>,
    pub bindings: Seq<liquid::BindingModel>,
    pub template_open_tag: Option<Seq<char>>,
    /// The processed HTML (with `${...}` in place of `csr` blocks).
    pub processed_html: Seq<char>,
    /// The Lit import path of the JS module.
    pub lit_import: Seq<char>,
}

impl View for ParsedTemplate {
    type V = TemplateModel;

    open spec fn view(&self) -> TemplateModel {
        TemplateModel {
            digest: self.digest@,
            static_segments: self.static_segments.deep_view(),
            bindings: liquid::bindings_view(self.bindings@),
            template_open_tag: self.template_open_tag.deep_view(),
            processed_html: self.processed_html@,
            lit_import: self.lit_import@,
        }
    }
}

impl ParsedTemplate {
    /// Parse the text of a `.liquid` template. A template whose static
    /// segments do not number one more than its bindings (so that the
    /// bindings do not stand one per `${...}` position) is refused.
    pub fn from_liquid(content: &str, lit_import: Option<&str>) -> (res: Result<ParsedTemplate, String>)
        requires
            template_supported(content@),
        ensures
            res is Ok <==> client_strings(liquid::liquid_content(content@).unwrap().0).len()
                == liquid::liquid_content(content@).unwrap().1.len() + 1,
            res matches Err(e) ==> e@ == segment_mismatch_message(),
            res matches Ok(p) ==> {
                &&& template::wrapper_in_order(p@.processed_html)
                &&& p@.processed_html == liquid::liquid_content(content@).unwrap().0
                &&& p@.bindings == liquid::liquid_content(content@).unwrap().1
                &&& p@.lit_import == (match lit_import {
                    Some(l) => l@,
                    None => DEFAULT_LIT_IMPORT@,
                })
                &&& p@.static_segments == client_strings(p@.processed_html)
                &&& p@.static_segments.len() == p@.bindings.len() + 1
                &&& p@.digest == digest::template_digest(client_strings(p@.processed_html))
                &&& p@.template_open_tag == template::open_tag(p@.processed_html)
            },
    {
        let chars = chars::chars_of(content);
        let processed = liquid::process_content(&chars);
        let (html, bindings, _) = processed.unwrap();
        let client = template::client_content_of(&html);
        let parts = template::split_parts(&client);
        if !(parts.len() > 0 && parts.len() - 1 == bindings.len()) {
            return Err(chars::string_of(&chars::chars_of(
                "the template's ${...} positions do not match its bindings",
            )));
        }
        let lit = match lit_import {
            Some(l) => chars::chars_of(l),
            None => chars::chars_of(DEFAULT_LIT_IMPORT),
        };
        let open = template::extract_template_open_tag(&html);
        let digest = digest::digest_of(&parts);
        let segments = strings_of_parts(&parts);
        let template_open_tag = match open {
            Some(t) => Some(chars::string_of(&t)),
            None => None,
        };
        proof {
            if template_open_tag is Some {
                assert(template_open_tag.unwrap().deep_view() == template_open_tag.unwrap()@);
            }
        }
        Ok(
            ParsedTemplate {
                digest: chars::string_of(&digest),
                static_segments: segments,
                bindings,
                template_open_tag,
                processed_html: chars::string_of(&html),
                lit_import: chars::string_of(&lit),
            },
        )
    }

    /// Generate the `.template.js` module content.
    pub fn to_js_module(&self) -> (res: String)
        requires
            template::wrapper_in_order(self@.processed_html),
        ensures
            res@ == js_module_text(
                self@.lit_import,
                self@.digest,
                template::client_content(self@.processed_html),
            ),
    {
        let html = chars::chars_of(self.processed_html.as_str());
        let lit = chars::chars_of(self.lit_import.as_str());
        let digest = chars::chars_of(self.digest.as_str());
        let content = template::client_content_of(&html);
        chars::string_of(&js_module_chars(&lit, &digest, &content))
    }

    /// Generate the `.template.json` manifest content.
    pub fn to_json_manifest(&self) -> (res: String)
        ensures
            res@ == json_manifest_text(self@.digest),
    {
        let mut out = chars::chars_of("{\"digest\":\"");
        chars::extend_str(&mut out, self.digest.as_str());
        chars::extend_str(&mut out, "\"}\n");
        chars::string_of(&out)
    }
}

fn strings_of_parts(parts: &Vec<Vec<char>>) -> (res: Vec<String>)
    ensures
        res.deep_view() == parts.deep_view(),
{
    let mut out: Vec<String> = Vec::new();
    let mut k: usize = 0;
    while k < parts.len()
        invariant
            k <= parts.len(),
            out.deep_view() == parts.deep_view().take(k as int),
        decreases parts.len() - k,
    {
        let s = chars::string_of(&parts[k]);
        assert(parts@[k as int].deep_view() =~= parts@[k as int]@);
        let ghost old_dv = out.deep_view();
        out.push(s);
        assert(out.deep_view() =~= old_dv.push(parts@[k as int]@));
        assert(parts.deep_view().take(k + 1) =~= parts.deep_view().take(k as int).push(
            parts@[k as int]@,
        ));
        k = k + 1;
    }
    assert(parts.deep_view().take(parts.len() as int) =~= parts.deep_view());
    out
}

/// The JS module text, built from its pieces.
fn js_module_chars(lit: &Vec<char>, digest: &Vec<char>, content: &Vec<char>) -> (res: Vec<char>)
    ensures
        res@ == js_module_text(lit@, digest@, content@),
{
    let mut out = chars::chars_of("import { html } from '");
    chars::extend(&mut out, lit);
    chars::extend_str(&mut out, "';\n\nexport const templateDigest = '");
    chars::extend(&mut out, digest);
    chars::extend_str(
        &mut out,
        "';\n\n/**\n * Returns the template for this component.\n * Use with LitQuidElement.renderTemplate() for CSR rendering.\n */\nexport function getTemplate(ctx) {\n  return html`",
    );
    chars::extend(&mut out, content);
    chars::extend_str(&mut out, "`;\n}\n");
    out
}

// ---------------------------------------------------------------------------
// Public functions
// ---------------------------------------------------------------------------

/// Process liquid content: the HTML with `${...}` expressions in place of
/// `{{ ... | csr }}` (and `clientTemplateValue(...)`) blocks, and the bindings of
/// those blocks; `None` where an auto-translated filter that needs an argument
/// has none.
pub fn process_liquid_content_checked(content: &str) -> (res: Option<(String, Vec<Binding>)>)
    ensures
        res matches Some(r) ==> {
            &&& liquid::liquid_content(content@) is Some
            &&& liquid::liquid_content(content@).unwrap().0 == r.0@
            &&& liquid::liquid_content(content@).unwrap().1 == liquid::bindings_view(r.1@)
        },
        res is None ==> liquid::liquid_content(content@) is None,
{
    let chars = chars::chars_of(content);
    match liquid::process_content(&chars) {
        Some(r) => {
            let (html, bindings, _) = r;
            Some((chars::string_of(&html), bindings))
        },
        None => None,
    }
}

/// Process liquid content using character-based parsing.
/// Returns `(processed_html, bindings)` where processed_html has `${...}` expressions
/// in place of `{{ ... | csr }}` blocks, and bindings carries the structured metadata
/// for each dynamic position.
pub fn process_liquid_content(content: &str) -> (res: Result<(String, Vec<Binding>), String>)
    requires
        liquid::liquid_content(content@) is Some,
    ensures
        res matches Ok(r) && liquid::liquid_content(content@).unwrap().0 == r.0@
            && liquid::liquid_content(content@).unwrap().1 == liquid::bindings_view(r.1@),
{
    let r = process_liquid_content_checked(content);
    Ok(r.unwrap())
}

/// The names of the unknown filters that translating the filter chains of
/// `content` drops, in document order (each one is left out of the JavaScript).
pub fn unknown_filter_names(content: &str) -> (res: Vec<String>)
    requires
        liquid::liquid_content(content@) is Some,
    ensures
        res.deep_view() == liquid::liquid_content(content@).unwrap().2,
{
    let chars = chars::chars_of(content);
    let r = liquid::process_content(&chars).unwrap();
    strings_of_parts(&r.2)
}

/// The template of `content` can be processed (see `template_supported`).
pub fn is_supported_template(content: &str) -> (res: bool)
    ensures
        res == template_supported(content@),
{
    let chars = chars::chars_of(content);
    match liquid::process_content(&chars) {
        Some(r) => template::wrapper_in_order_exec(&r.0),
        None => false,
    }
}

/// The wrapper of `html` can be cut away (see `wrapper_in_order`).
pub fn is_wrapper_in_order(html: &str) -> (res: bool)
    ensures
        res == template::wrapper_in_order(html@),
{
    template::wrapper_in_order_exec(&chars::chars_of(html))
}

/// Split processed HTML (with ${...} expressions) into static template strings.
///
/// This matches the `strings` array that the JS `html` tagged template literal receives —
/// the static string parts between each `${...}` interpolation.
pub fn split_template_strings(html: &str) -> (res: Vec<String>)
    ensures
        res.deep_view() == template::template_parts(html@, 0),
{
    let parts = template::split_parts(&chars::chars_of(html));
    strings_of_parts(&parts)
}

/// Compute the Lit template digest matching `@lit-labs/ssr-client`'s `digestForTemplateResult`.
///
/// DJB2-inspired with two 32-bit accumulators (init 5381) and UTF-16 code units;
/// the unit index restarts with each string. The output is the Base64 encoding
/// of the little-endian bytes of the two accumulators (8 bytes, 12 characters).
pub fn compute_template_digest(strings: &[String]) -> (res: String)
    ensures
        res@ == digest::template_digest(strings_view(strings@)),
        res@.len() == 12,
{
    let mut parts: Vec<Vec<char>> = Vec::new();
    let mut k: usize = 0;
    while k < strings.len()
        invariant
            k <= strings.len(),
            parts.deep_view() == strings_view(strings@).take(k as int),
        decreases strings.len() - k,
    {
        let p = chars::chars_of(strings[k].as_str());
        assert(p.deep_view() =~= p@);
        let ghost old_dv = parts.deep_view();
        parts.push(p);
        assert(parts.deep_view() =~= old_dv.push(strings@[k as int]@));
        assert(strings_view(strings@).take(k + 1) =~= strings_view(strings@).take(k as int).push(
            strings@[k as int]@,
        ));
        k = k + 1;
    }
    assert(strings_view(strings@).take(strings.len() as int) =~= strings_view(strings@));
    chars::string_of(&digest::digest_of(&parts))
}

/// Generate an SSR wrapper for the processed template HTML.
pub fn generate_ssr_wrapper(processed_html: &str, digest: &str) -> (res: String)
    requires
        template::wrapper_in_order(processed_html@),
    ensures
        res@ == ssr_wrapper_text(processed_html@, digest@),
{
    let html = chars::chars_of(processed_html);
    let content = template::client_content_of(&html);
    let slots = template::replace_with_slots(&content);
    let mut out = chars::chars_of("<!--lit-part ");
    chars::extend_str(&mut out, digest);
    chars::extend_str(&mut out, "-->\n");
    chars::extend(&mut out, &slots);
    chars::extend_str(&mut out, "\n<!--/lit-part-->");
    chars::string_of(&out)
}

/// Generate the JS module content (digest computed internally).
pub fn generate_js_module(html_content: &str, lit_import: &str) -> (res: String)
    requires
        template::wrapper_in_order(html_content@),
    ensures
        res@ == js_module_text(
            lit_import@,
            digest::template_digest(client_strings(html_content@)),
            template::client_content(html_content@),
        ),
{
    let html = chars::chars_of(html_content);
    let content = template::client_content_of(&html);
    let parts = template::split_parts(&content);
    let digest = digest::digest_of(&parts);
    let lit = chars::chars_of(lit_import);
    chars::string_of(&js_module_chars(&lit, &digest, &content))
}

} // verus!
