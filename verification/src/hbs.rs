//! The templating collaborator: an opaque engine that renders a registered
//! template over a context of plain values.  What a render returns depends on
//! the engine's registered templates, so nothing is claimed of the output
//! text; the generator's contracts stop at the body it hands in.

use vstd::prelude::*;

verus! {

/// The template engine.
#[verifier::external_type_specification]
#[verifier::external_body]
pub struct ExHandlebars<'a>(handlebars::Handlebars<'a>);

/// Relies on `Handlebars::new`: a fresh engine.
#[verifier::external_body]
pub fn engine_new() -> handlebars::Handlebars<'static> {
    handlebars::Handlebars::new()
}

/// Relies on `Handlebars::register_template_string`: the template is parsed
/// and registered under the name; a malformed template is refused.
#[verifier::external_body]
pub fn engine_register(
    hbs: &mut handlebars::Handlebars<'static>,
    name: &str,
    template: &str,
) -> (r: Result<(), String>) {
    match hbs.register_template_string(name, template) {
        Ok(_) => Ok(()),
        Err(e) => Err(e.to_string()),
    }
}

/// Relies on `Handlebars::render` and `serde_json`'s value building: the
/// named template is rendered over a context holding the title and, for a
/// content page, the body and the stylesheet path.
#[verifier::external_body]
pub fn engine_render(
    hbs: &handlebars::Handlebars<'static>,
    name: &str,
    title: &String,
    body_and_stylesheet: Option<(&String, &String)>,
) -> (r: Result<String, String>) {
    let mut ctx = serde_json::Map::new();
    ctx.insert("title".to_string(), serde_json::Value::String(title.clone()));
    if let Some((body, stylesheet)) = body_and_stylesheet {
        ctx.insert("body".to_string(), serde_json::Value::String(body.clone()));
        ctx.insert("stylesheet".to_string(), serde_json::Value::String(stylesheet.clone()));
    }
    match hbs.render(name, &serde_json::Value::Object(ctx)) {
        Ok(s) => Ok(s),
        Err(e) => Err(e.to_string()),
    }
}

} // verus!
