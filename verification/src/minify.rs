use vstd::prelude::*;
use crate::errors::AppError;

verus! {

/// What minifier::js::minify produces for a JavaScript source text, or
/// nothing when the minifier rejects the source: a function of it alone.
pub uninterp spec fn js_minified(src: Seq<char>) -> Option<Seq<char>>;

/// What minifier::css::minify produces for a CSS source text, or nothing when
/// the minifier rejects the source: a function of the source alone.
pub uninterp spec fn css_minified(src: Seq<char>) -> Option<Seq<char>>;

/// Relies on minifier::js::minify: it is deterministic, and rejects a source
/// if and only if its tokenizer fails.
#[verifier::external_body]
fn js_minify_call(src: &str) -> (r: Result<String, ()>)
    ensures
        r is Ok <==> js_minified(src@) is Some,
        r matches Ok(s) ==> js_minified(src@) == Some(s@),
{
    match minifier::js::minify(src) {
        Ok(m) => Ok(m.to_string()),
        Err(_) => Err(()),
    }
}

/// Relies on minifier::css::minify: it is deterministic, and rejects a source
/// if and only if its tokenizer fails.
#[verifier::external_body]
fn css_minify_call(src: &str) -> (r: Result<String, ()>)
    ensures
        r is Ok <==> css_minified(src@) is Some,
        r matches Ok(s) ==> css_minified(src@) == Some(s@),
{
    match minifier::css::minify(src) {
        Ok(m) => Ok(m.to_string()),
        Err(_) => Err(()),
    }
}

/// Minify a JavaScript source text, or report that the minifier rejected it.
pub fn minify_js(src: &str) -> (r: Result<String, AppError>)
    ensures
        r is Ok <==> js_minified(src@) is Some,
        r matches Ok(s) ==> js_minified(src@) == Some(s@),
        r matches Err(e) ==> e == AppError::MinifyError,
{
    match js_minify_call(src) {
        Ok(s) => Ok(s),
        Err(_) => Err(AppError::MinifyError),
    }
}

/// Minify a CSS source text, or report that the minifier rejected it.
pub fn minify_css(src: &str) -> (r: Result<String, AppError>)
    ensures
        r is Ok <==> css_minified(src@) is Some,
        r matches Ok(s) ==> css_minified(src@) == Some(s@),
        r matches Err(e) ==> e == AppError::MinifyError,
{
    match css_minify_call(src) {
        Ok(s) => Ok(s),
        Err(_) => Err(AppError::MinifyError),
    }
}

} // verus!
