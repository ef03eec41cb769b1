//! Mermaid diagrams (```mermaid blocks) rendered to SVG with the `merman` crate.
use vstd::prelude::*;

verus! {

/// Name for what merman gives for the diagram source `code` rendered to SVG
/// with the diagram id `diagram_id`: `Some` of the SVG text, or `None` on a
/// parse, layout or render error and when the source holds no diagram.
/// merman's default SVG request uses its deterministic environment (fixed
/// clock, seed and text measurement), so the SVG depends on the arguments alone.
pub uninterp spec fn merman_svg_of(code: Seq<char>, diagram_id: Seq<char>) -> Option<Seq<char>>;

/// `merman::Renderer::new().render(..)` on `RenderRequest::svg` for `code`,
/// with merman's default operation control and SVG request, its diagram id
/// set to `diagram_id`. The result is named `merman_svg_of`. merman returns
/// its parse, layout and render failures as errors; nothing here shows that
/// its rendering code can never panic, and a panic there would be merman's.
#[verifier::external_body]
fn merman_svg(code: &str, diagram_id: &str) -> (res: Option<String>)
    ensures
        res is None <==> merman_svg_of(code@, diagram_id@) is None,
        res matches Some(s) ==> merman_svg_of(code@, diagram_id@) == Some(s@),
{
    let mut svg_request = merman::SvgRequest::default();
    svg_request.options.diagram_id = Some(diagram_id.to_string());
    let request = merman::RenderRequest::svg(code, merman::OperationControl::default(), svg_request);
    match merman::Renderer::new().render(request) {
        Ok(merman::RenderOutput::Svg(Some(svg))) => Some(svg.svg().to_string()),
        _ => None,
    }
}

/// The diagram id of the application's Mermaid diagrams (the prefix of the
/// ids inside their SVG).
pub const MERMAID_DIAGRAM_ID: &'static str = "oryn-mermaid";

/// Renders a Mermaid diagram to SVG text with the diagram id `oryn-mermaid`;
/// `None` on a parse or layout error or when there is no diagram (the caller
/// then shows an empty image in its place).
pub fn render_mermaid_diagram(code: &str) -> (res: Option<String>)
    ensures
        res is None <==> merman_svg_of(code@, MERMAID_DIAGRAM_ID@) is None,
        res matches Some(s) ==> merman_svg_of(code@, MERMAID_DIAGRAM_ID@) == Some(s@),
{
    merman_svg(code, MERMAID_DIAGRAM_ID)
}

} // verus!
