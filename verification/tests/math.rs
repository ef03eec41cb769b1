use oryn::markdown::math::{format_display_math, format_inline_math, latex_to_unicode, rewrite_latex_layout, rewrite_latex_scripts, rewrite_latex_symbols, strip_latex_environments};

#[test]
fn greek_letters_become_symbols() {
    assert_eq!(latex_to_unicode("\\alpha + \\beta = \\Gamma"), "α + β = Γ");
}

#[test]
fn fractions_use_the_regex_rewrite() {
    assert_eq!(latex_to_unicode("\\frac{a}{b}"), "(a / b)");
    assert_eq!(latex_to_unicode("\\frac {1} {2}"), "(1 / 2)");
}

#[test]
fn nested_fractions_are_rewritten() {
    assert_eq!(latex_to_unicode("\\frac{\\frac{a}{b}}{c}"), "((a / b) / c)");
}

#[test]
fn text_blocks_keep_their_content() {
    assert_eq!(latex_to_unicode("\\text{speed} = \\mathrm{v}"), "speed = v");
}

#[test]
fn scripts_become_unicode() {
    assert_eq!(latex_to_unicode("x^2 + y_1"), "x² + y₁");
    assert_eq!(latex_to_unicode("a_{n}"), "aₙ");
    assert_eq!(latex_to_unicode("e^{x}"), "eˣ");
}

#[test]
fn delimiters_and_operators() {
    assert_eq!(latex_to_unicode("\\left( a \\cdot b \\right)"), "( a  ·  b )");
    assert_eq!(latex_to_unicode("x \\le y \\ne z"), "x ≤ y ≠ z");
    assert_eq!(latex_to_unicode("\\sum x \\to \\infty"), "∑ x → ∞");
}

#[test]
fn environments_and_alignment() {
    assert_eq!(latex_to_unicode("\\begin{aligned} a &= b \\\\ c &= d \\end{aligned}"), "a  =  b \n c  =  d");
}

#[test]
fn longer_commands_are_rewritten_before_their_prefixes() {
    assert_eq!(latex_to_unicode("a \\leftarrow b"), "a ← b");
    assert_eq!(latex_to_unicode("x \\geq y \\leq z \\neq w"), "x ≥ y ≤ z ≠ w");
    assert_eq!(latex_to_unicode("x \\ge y \\le z \\ne w"), "x ≥ y ≤ z ≠ w");
}

#[test]
fn braces_are_removed_and_result_trimmed() {
    assert_eq!(latex_to_unicode("  {x}  "), "x");
}

#[test]
fn stages_on_their_own() {
    assert_eq!(strip_latex_environments("\\begin{equation}x\\end{equation}"), "x");
    assert_eq!(rewrite_latex_layout("a\\quad b\\!c"), "a    bc");
    assert_eq!(rewrite_latex_symbols("\\pi\\in\\Omega"), "π∈Ω");
    assert_eq!(rewrite_latex_scripts(" x^n_t {} "), "xⁿₜ");
}

#[test]
fn inline_math_is_italic_and_padded() {
    assert_eq!(format_inline_math("\\pi"), " *π* ");
    assert_eq!(format_inline_math(""), " ** ");
}

#[test]
fn display_math_is_the_rendering() {
    assert_eq!(format_display_math("x^2"), "x²");
    assert_eq!(format_display_math("a \\times b"), latex_to_unicode("a \\times b"));
}
