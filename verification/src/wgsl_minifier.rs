//! The WGSL minifier extension: shrinks compiled shaders in place.
//!
//! The compute part lives here, verified around two trusted wrappers: the
//! module pipeline (parse, identifier minification, validation, writing) and
//! the whitespace compaction. The reading and rewriting of the artifact file
//! is left to the caller that hosts this extension in a build.

use vstd::prelude::*;

use crate::chars::{chars_eq, str_to_chars};

verus! {

/// Whether the minification pipeline accepts a source text: it parses as
/// WGSL and the minified module validates. A function of the text alone.
pub uninterp spec fn wgsl_minify_ok(s: Seq<char>) -> bool;

/// What the pipeline emits for an accepted source: the module written back
/// as WGSL with minified identifiers. A function of the text alone.
pub uninterp spec fn wgsl_minified(s: Seq<char>) -> Seq<char>;

/// What wgsl_minifier::minify_wgsl_source returns: a whitespace-compacted
/// form of the source, a function of the characters alone.
pub uninterp spec fn compact_wgsl(s: Seq<char>) -> Seq<char>;

/// The parenthesis nesting depth after the first `i` characters of `s`.
pub open spec fn paren_depth(s: Seq<char>, i: int) -> int
    decreases i,
{
    if i <= 0 {
        0
    } else {
        paren_depth(s, i - 1) + (if s[i - 1] == '(' {
            1int
        } else if s[i - 1] == ')' {
            -1int
        } else {
            0int
        })
    }
}

/// Every closing parenthesis matches an earlier opening one and none stays
/// open at the end.
pub open spec fn balanced_parens(s: Seq<char>) -> bool {
    &&& paren_depth(s, s.len() as int) == 0
    &&& forall|i: int| 0 <= i <= s.len() ==> paren_depth(s, i) >= 0
}

/// Relies on naga::front::wgsl::parse_str, wgsl_minifier::minify_module,
/// naga::valid::Validator::validate (all flags, all capabilities) and
/// naga::back::wgsl::write_string, run as one pipeline: the writer indexes
/// the validation info by the module's handles, so the pairing of the two
/// must stay internal to the call. The error is the failing tool's
/// diagnostic. The emitted WGSL has structurally paired parentheses (the
/// writer opens and closes them together and WGSL has no string literals to
/// hide one in), which the compaction step requires.
#[verifier::external_body]
fn run_minify_pipeline(source: &str) -> (r: Result<String, String>)
    ensures
        r is Ok <==> wgsl_minify_ok(source@),
        r matches Ok(t) ==> t@ == wgsl_minified(source@) && balanced_parens(t@),
{
    let mut module =
        naga::front::wgsl::parse_str(source).map_err(|e| e.emit_to_string(source))?;
    wgsl_minifier::minify_module(&mut module);
    let info = naga::valid::Validator::new(
        naga::valid::ValidationFlags::all(),
        naga::valid::Capabilities::all(),
    ).validate(&module).map_err(|e| e.to_string())?;
    naga::back::wgsl::write_string(&module, &info, naga::back::wgsl::WriterFlags::empty())
        .map_err(|e| e.to_string())
}

/// Relies on wgsl_minifier::minify_wgsl_source: removes the whitespace the
/// grammar does not need. It walks matching parentheses with a stack and
/// aborts on unbalanced input, so balance is required here.
#[verifier::external_body]
fn minify_wgsl_text(source: &str) -> (r: String)
    requires
        balanced_parens(source@),
    ensures
        r@ == compact_wgsl(source@),
{
    wgsl_minifier::minify_wgsl_source(source)
}

/// Removes all the characters it can from built shaders.
pub struct WgslMinifierExtension {
    /// Whether shaders should only be minified in release builds.
    pub release_only: bool,
}

impl WgslMinifierExtension {
    /// Whether this extension minifies under the given build profile.
    pub fn should_minify(&self, profile: &str) -> (b: bool)
        ensures
            b == (!self.release_only || profile@ == "release"@),
    {
        if !self.release_only {
            return true;
        }
        let expected = str_to_chars("release");
        let given = str_to_chars(profile);
        chars_eq(&given, &expected)
    }

    /// The minified form of a built shader, or nothing when the build
    /// profile says to leave it alone.
    ///
    /// When minification is due, it succeeds exactly when the pipeline
    /// accepts the source, and the result is the compacted form of the
    /// re-written module; a failure carries the failing tool's diagnostic.
    pub fn minify_built_source(&self, profile: &str, source: &str) -> (r: Result<
        Option<String>,
        String,
    >)
        ensures
            (self.release_only && profile@ != "release"@) ==> r == Ok::<Option<String>, String>(
                None,
            ),
            (!self.release_only || profile@ == "release"@) ==> (r is Ok <==> wgsl_minify_ok(
                source@,
            )),
            r matches Ok(Some(text)) ==> text@ == compact_wgsl(wgsl_minified(source@)) && (
            !self.release_only || profile@ == "release"@),
    {
        if !self.should_minify(profile) {
            return Ok(None);
        }
        match run_minify_pipeline(source) {
            Err(e) => Err(e),
            Ok(text) => Ok(Some(minify_wgsl_text(text.as_str()))),
        }
    }
}

} // verus!
