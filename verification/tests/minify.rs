use webp_batch::errors::AppError;
use webp_batch::minify::{minify_css, minify_js};

#[test]
fn css_minify_matches_the_minifier() {
    let src = "a  {  color : red ; }";
    let ours = minify_css(src).expect("accepted css");
    let theirs = minifier::css::minify(src).expect("accepted css").to_string();
    assert_eq!(ours, theirs);
    assert!(ours.len() < src.len());
}

#[test]
fn css_minify_is_not_the_identity() {
    let src = "p   {   margin : 0 ; }";
    let ours = minify_css(src).expect("accepted css");
    assert_ne!(ours, src);
}

#[test]
fn unclosed_comment_is_minify_error() {
    assert_eq!(minify_css("a{color:red}/* unclosed"), Err(AppError::MinifyError));
}

#[test]
fn js_minify_matches_the_minifier() {
    let src = "function  add_one ( x )  { return x + 1 ; }";
    let ours = minify_js(src).expect("accepted js");
    let theirs = minifier::js::minify(src).expect("accepted js").to_string();
    assert_eq!(ours, theirs);
    assert!(ours.len() < src.len());
}

#[test]
fn js_minify_drops_extra_spaces() {
    let src = "var   x   =   1 ;";
    let ours = minify_js(src).expect("accepted js");
    assert_ne!(ours, src);
    assert!(!ours.contains("  "));
}
