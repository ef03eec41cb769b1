//! LaTeX math formatting for inline (`$...$`) and display (`$$...$$`) math:
//! environments, text blocks, spacing, delimiters, fractions, Greek letters,
//! operators and sub/superscripts become plain Unicode notation.
use vstd::prelude::*;
use crate::text::{chars_of, extend_chars, replace_all, replace_str, string_from_chars, trim, trim_chars};

verus! {

// =============================================================================
// Regular expressions (the `regex` crate)
// =============================================================================

/// Name for what the `regex` crate gives for `pattern`, `haystack` and
/// `replacement`: `Some` of the text that `Regex::new(pattern)` followed by
/// `replace_all(haystack, replacement)` returns (with `$1`, `$2` expanded to
/// capture groups), or `None` where `Regex::new` refuses the pattern.
pub uninterp spec fn regex_replaced(pattern: Seq<char>, haystack: Seq<char>, replacement: Seq<char>) -> Option<Seq<char>>;

/// `regex::Regex::new(pattern)` followed by `Regex::replace_all(haystack,
/// replacement)`. The result is named `regex_replaced`; `None` stands for the
/// error of `Regex::new`.
#[verifier::external_body]
fn regex_replace_all(pattern: &str, haystack: &str, replacement: &str) -> (res: Option<String>)
    ensures
        match res {
            Some(r) => regex_replaced(pattern@, haystack@, replacement@) == Some(r@),
            None => regex_replaced(pattern@, haystack@, replacement@) is None,
        },
{
    match regex::Regex::new(pattern) {
        Ok(re) => Some(re.replace_all(haystack, replacement).into_owned()),
        Err(_) => None,
    }
}

/// `s` with every match of `pattern` replaced by `replacement`; `s` itself
/// where the pattern does not compile.
pub open spec fn regex_rewrite(pattern: Seq<char>, s: Seq<char>, replacement: Seq<char>) -> Seq<char> {
    match regex_replaced(pattern, s, replacement) {
        Some(t) => t,
        None => s,
    }
}

fn regex_rewrite_chars(pattern: &str, v: Vec<char>, replacement: &str) -> (res: Vec<char>)
    ensures
        res@ == regex_rewrite(pattern@, v@, replacement@),
{
    let s = string_from_chars(&v);
    match regex_replace_all(pattern, s.as_str(), replacement) {
        Some(r) => chars_of(r.as_str()),
        None => v,
    }
}

/// Pattern of `\text{...}`, `\mathrm{...}`, `\mathbf{...}`, `\mathsf{...}`, `\mathtt{...}`.
pub const RE_TEXT: &'static str = "\\\\(?:text|mathrm|mathbf|mathsf|mathtt)\\s*\\{([^}]+)\\}";

/// Pattern of `\frac{numerator}{denominator}`.
pub const RE_FRAC: &'static str = "\\\\frac\\s*\\{([^}]+)\\}\\s*\\{([^}]+)\\}";

/// Pattern of a braced subscript `_{...}`.
pub const RE_SUB_BRAC: &'static str = "_\\{([^}]+)\\}";

/// Pattern of a braced superscript `^{...}`.
pub const RE_SUP_BRAC: &'static str = "\\^\\{([^}]+)\\}";

// =============================================================================
// Literal rewriting stages
// =============================================================================

/// Environment markers (`\begin{aligned}`, `\end{array}`, ...) removed.
pub open spec fn latex_environments(s: Seq<char>) -> Seq<char> {
    let s = replace_all(s, "\\begin{aligned}"@, ""@);
    let s = replace_all(s, "\\end{aligned}"@, ""@);
    let s = replace_all(s, "\\begin{array}"@, ""@);
    let s = replace_all(s, "\\end{array}"@, ""@);
    let s = replace_all(s, "\\begin{equation}"@, ""@);
    let s = replace_all(s, "\\end{equation}"@, ""@);
    s
}

/// Spacing commands, alignment markers, line breaks, `\left`/`\right` delimiters and `\cdot`, `\times`, `\div` rewritten.
pub open spec fn latex_layout(s: Seq<char>) -> Seq<char> {
    let s = replace_all(s, "\\qquad"@, "      "@);
    let s = replace_all(s, "\\quad"@, "   "@);
    let s = replace_all(s, "\\,"@, " "@);
    let s = replace_all(s, "\\;"@, " "@);
    let s = replace_all(s, "\\!"@, ""@);
    let s = replace_all(s, "&="@, " = "@);
    let s = replace_all(s, "&"@, " "@);
    let s = replace_all(s, "\\\\"@, "\n"@);
    let s = replace_all(s, "\\left("@, "("@);
    let s = replace_all(s, "\\right)"@, ")"@);
    let s = replace_all(s, "\\left["@, "["@);
    let s = replace_all(s, "\\right]"@, "]"@);
    let s = replace_all(s, "\\left\\{"@, "{"@);
    let s = replace_all(s, "\\right\\}"@, "}"@);
    let s = replace_all(s, "\\cdot"@, " · "@);
    let s = replace_all(s, "\\times"@, " × "@);
    let s = replace_all(s, "\\div"@, " ÷ "@);
    s
}

/// Lowercase Greek letter commands rewritten to their letters.
pub open spec fn latex_greek_lower(s: Seq<char>) -> Seq<char> {
    let s = replace_all(s, "\\alpha"@, "α"@);
    let s = replace_all(s, "\\beta"@, "β"@);
    let s = replace_all(s, "\\gamma"@, "γ"@);
    let s = replace_all(s, "\\delta"@, "δ"@);
    let s = replace_all(s, "\\epsilon"@, "ε"@);
    let s = replace_all(s, "\\zeta"@, "ζ"@);
    let s = replace_all(s, "\\eta"@, "η"@);
    let s = replace_all(s, "\\theta"@, "θ"@);
    let s = replace_all(s, "\\iota"@, "ι"@);
    let s = replace_all(s, "\\kappa"@, "κ"@);
    let s = replace_all(s, "\\lambda"@, "λ"@);
    let s = replace_all(s, "\\mu"@, "μ"@);
    let s = replace_all(s, "\\nu"@, "ν"@);
    let s = replace_all(s, "\\xi"@, "ξ"@);
    let s = replace_all(s, "\\pi"@, "π"@);
    let s = replace_all(s, "\\rho"@, "ρ"@);
    let s = replace_all(s, "\\sigma"@, "σ"@);
    let s = replace_all(s, "\\tau"@, "τ"@);
    let s = replace_all(s, "\\upsilon"@, "υ"@);
    let s = replace_all(s, "\\phi"@, "φ"@);
    let s = replace_all(s, "\\chi"@, "χ"@);
    let s = replace_all(s, "\\psi"@, "ψ"@);
    let s = replace_all(s, "\\omega"@, "ω"@);
    s
}

/// Uppercase Greek letter commands rewritten to their letters.
pub open spec fn latex_greek_upper(s: Seq<char>) -> Seq<char> {
    let s = replace_all(s, "\\Gamma"@, "Γ"@);
    let s = replace_all(s, "\\Delta"@, "Δ"@);
    let s = replace_all(s, "\\Theta"@, "Θ"@);
    let s = replace_all(s, "\\Lambda"@, "Λ"@);
    let s = replace_all(s, "\\Xi"@, "Ξ"@);
    let s = replace_all(s, "\\Pi"@, "Π"@);
    let s = replace_all(s, "\\Sigma"@, "Σ"@);
    let s = replace_all(s, "\\Phi"@, "Φ"@);
    let s = replace_all(s, "\\Psi"@, "Ψ"@);
    let s = replace_all(s, "\\Omega"@, "Ω"@);
    s
}

/// Operator and symbol commands rewritten to their Unicode symbols. No
/// command is cut into a symbol and leftover letters: a command is rewritten
/// before any shorter command that is a prefix of it (`\leftarrow` before
/// `\le`), and `\leq`, `\geq`, `\neq`, LaTeX's other spellings of `\le`,
/// `\ge`, `\ne`, become the same symbols rather than `≤q`, `≥q`, `≠q`.
pub open spec fn latex_operators(s: Seq<char>) -> Seq<char> {
    let s = replace_all(s, "\\infty"@, "∞"@);
    let s = replace_all(s, "\\sqrt"@, "√"@);
    let s = replace_all(s, "\\leftarrow"@, "←"@);
    let s = replace_all(s, "\\leq"@, "≤"@);
    let s = replace_all(s, "\\le"@, "≤"@);
    let s = replace_all(s, "\\geq"@, "≥"@);
    let s = replace_all(s, "\\ge"@, "≥"@);
    let s = replace_all(s, "\\neq"@, "≠"@);
    let s = replace_all(s, "\\ne"@, "≠"@);
    let s = replace_all(s, "\\pm"@, "±"@);
    let s = replace_all(s, "\\mp"@, "∓"@);
    let s = replace_all(s, "\\approx"@, "≈"@);
    let s = replace_all(s, "\\equiv"@, "≡"@);
    let s = replace_all(s, "\\partial"@, "∂"@);
    let s = replace_all(s, "\\nabla"@, "∇"@);
    let s = replace_all(s, "\\sum"@, "∑"@);
    let s = replace_all(s, "\\int"@, "∫"@);
    let s = replace_all(s, "\\prod"@, "∏"@);
    let s = replace_all(s, "\\rightarrow"@, "→"@);
    let s = replace_all(s, "\\to"@, "→"@);
    let s = replace_all(s, "\\Rightarrow"@, "⇒"@);
    let s = replace_all(s, "\\Leftarrow"@, "⇐"@);
    let s = replace_all(s, "\\in"@, "∈"@);
    let s = replace_all(s, "\\notin"@, "∉"@);
    let s = replace_all(s, "\\cap"@, "∩"@);
    let s = replace_all(s, "\\cup"@, "∪"@);
    s
}

/// Single-character superscripts rewritten to superscript characters.
pub open spec fn latex_superscripts(s: Seq<char>) -> Seq<char> {
    let s = replace_all(s, "^0"@, "⁰"@);
    let s = replace_all(s, "^1"@, "¹"@);
    let s = replace_all(s, "^2"@, "²"@);
    let s = replace_all(s, "^3"@, "³"@);
    let s = replace_all(s, "^4"@, "⁴"@);
    let s = replace_all(s, "^5"@, "⁵"@);
    let s = replace_all(s, "^6"@, "⁶"@);
    let s = replace_all(s, "^7"@, "⁷"@);
    let s = replace_all(s, "^8"@, "⁸"@);
    let s = replace_all(s, "^9"@, "⁹"@);
    let s = replace_all(s, "^+"@, "⁺"@);
    let s = replace_all(s, "^-"@, "⁻"@);
    let s = replace_all(s, "^n"@, "ⁿ"@);
    let s = replace_all(s, "^x"@, "ˣ"@);
    let s = replace_all(s, "^t"@, "ᵗ"@);
    s
}

/// Single-character subscripts rewritten to subscript characters.
pub open spec fn latex_subscripts(s: Seq<char>) -> Seq<char> {
    let s = replace_all(s, "_0"@, "₀"@);
    let s = replace_all(s, "_1"@, "₁"@);
    let s = replace_all(s, "_2"@, "₂"@);
    let s = replace_all(s, "_3"@, "₃"@);
    let s = replace_all(s, "_4"@, "₄"@);
    let s = replace_all(s, "_5"@, "₅"@);
    let s = replace_all(s, "_6"@, "₆"@);
    let s = replace_all(s, "_7"@, "₇"@);
    let s = replace_all(s, "_8"@, "₈"@);
    let s = replace_all(s, "_9"@, "₉"@);
    let s = replace_all(s, "_i"@, "ᵢ"@);
    let s = replace_all(s, "_j"@, "ⱼ"@);
    let s = replace_all(s, "_n"@, "ₙ"@);
    let s = replace_all(s, "_m"@, "ₘ"@);
    let s = replace_all(s, "_t"@, "ₜ"@);
    s
}

/// Remaining curly braces removed.
pub open spec fn latex_braces(s: Seq<char>) -> Seq<char> {
    let s = replace_all(s, "{"@, ""@);
    let s = replace_all(s, "}"@, ""@);
    s
}

/// Greek letters, then operators and symbols, rewritten.
pub open spec fn latex_symbols(s: Seq<char>) -> Seq<char> {
    latex_operators(latex_greek_upper(latex_greek_lower(s)))
}

/// Superscripts, subscripts and braces rewritten, then surrounding whitespace trimmed.
pub open spec fn latex_scripts(s: Seq<char>) -> Seq<char> {
    trim(latex_braces(latex_subscripts(latex_superscripts(s))))
}

/// The Unicode rendering of a LaTeX expression: the literal stages and the
/// regular-expression rewrites, in the order the conversion applies them.
pub open spec fn latex_unicode(expr: Seq<char>) -> Seq<char> {
    let s = latex_environments(expr);
    let s = regex_rewrite(RE_TEXT@, s, "$1"@);
    let s = latex_layout(s);
    let s = regex_rewrite(RE_FRAC@, s, "($1 / $2)"@);
    let s = regex_rewrite(RE_FRAC@, s, "($1 / $2)"@);
    let s = regex_rewrite(RE_FRAC@, s, "($1 / $2)"@);
    let s = latex_symbols(s);
    let s = regex_rewrite(RE_SUB_BRAC@, s, "_$1"@);
    let s = regex_rewrite(RE_SUP_BRAC@, s, "^$1"@);
    latex_scripts(s)
}

// =============================================================================
// Laws of the symbol stages
// =============================================================================

/// Is `c` an ASCII letter?
pub open spec fn ascii_letter(c: char) -> bool {
    ('a' <= c && c <= 'z') || ('A' <= c && c <= 'Z')
}

/// Does `s` hold no backslash?
pub open spec fn backslash_free(s: Seq<char>) -> bool {
    forall|j: int| 0 <= j < s.len() ==> s[j] != '\\'
}

/// Is `cmd` a LaTeX command word: a backslash followed by one or more ASCII letters?
pub open spec fn command_word(cmd: Seq<char>) -> bool {
    &&& cmd.len() >= 2
    &&& cmd[0] == '\\'
    &&& forall|j: int| 1 <= j < cmd.len() ==> ascii_letter(cmd[j])
}

/// Is `p` a prefix of `s`?
pub open spec fn is_prefix_of(p: Seq<char>, s: Seq<char>) -> bool {
    p.len() <= s.len() && s.take(p.len() as int) == p
}

/// Does the text `b` after a command end the command word (it is empty or
/// does not start with a letter)?
pub open spec fn ends_command(b: Seq<char>) -> bool {
    b.len() == 0 || !ascii_letter(b[0])
}

/// The text after applying the rewrite rules from index `k` on, in order.
pub open spec fn apply_rules_from(s: Seq<char>, rules: Seq<(Seq<char>, Seq<char>)>, k: int) -> Seq<char>
    decreases rules.len() - k,
{
    if k < 0 || k >= rules.len() {
        s
    } else {
        apply_rules_from(replace_all(s, rules[k].0, rules[k].1), rules, k + 1)
    }
}

/// Every rule rewrites a command word into text without a backslash.
pub open spec fn command_rules(rules: Seq<(Seq<char>, Seq<char>)>) -> bool {
    forall|j: int| 0 <= j < rules.len() ==> command_word(#[trigger] rules[j].0) && backslash_free(rules[j].1)
}

proof fn lemma_replace_backslash_free(s: Seq<char>, pat: Seq<char>, rep: Seq<char>)
    requires
        backslash_free(s),
        command_word(pat),
    ensures
        replace_all(s, pat, rep) == s,
    decreases s.len(),
{
    if s.len() >= pat.len() {
        assert(s.take(pat.len() as int)[0] != pat[0]);
        lemma_replace_backslash_free(s.skip(1), pat, rep);
        assert(seq![s[0]] + s.skip(1) =~= s);
    }
}

proof fn lemma_rules_backslash_free(s: Seq<char>, rules: Seq<(Seq<char>, Seq<char>)>, k: int)
    requires
        backslash_free(s),
        command_rules(rules),
        0 <= k,
    ensures
        apply_rules_from(s, rules, k) == s,
    decreases rules.len() - k,
{
    if k < rules.len() {
        assert(command_word(rules[k].0));
        lemma_replace_backslash_free(s, rules[k].0, rules[k].1);
        lemma_rules_backslash_free(s, rules, k + 1);
    }
}

proof fn lemma_replace_after_plain(x: Seq<char>, t: Seq<char>, pat: Seq<char>, rep: Seq<char>)
    requires
        backslash_free(x),
        command_word(pat),
    ensures
        replace_all(x + t, pat, rep) == x + replace_all(t, pat, rep),
    decreases x.len(),
{
    if x.len() == 0 {
        assert(x + t =~= t);
    } else {
        let s = x + t;
        if s.len() < pat.len() {
            assert(t.len() < pat.len());
        } else {
            assert(s.take(pat.len() as int)[0] == x[0]);
            lemma_replace_after_plain(x.skip(1), t, pat, rep);
            assert(s.skip(1) =~= x.skip(1) + t);
            assert(seq![x[0]] + (x.skip(1) + replace_all(t, pat, rep)) =~= x + replace_all(t, pat, rep));
        }
    }
}

proof fn lemma_replace_at_command(cmd: Seq<char>, y: Seq<char>, pat: Seq<char>, rep: Seq<char>)
    requires
        command_word(cmd),
        command_word(pat),
        backslash_free(y),
        ends_command(y),
        pat == cmd || !is_prefix_of(pat, cmd),
    ensures
        pat == cmd ==> replace_all(cmd + y, pat, rep) == rep + y,
        pat != cmd ==> replace_all(cmd + y, pat, rep) == cmd + y,
{
    let s = cmd + y;
    assert(s.take(cmd.len() as int) =~= cmd);
    assert(s.skip(cmd.len() as int) =~= y);
    lemma_replace_backslash_free(y, pat, rep);
    if pat != cmd && s.len() >= pat.len() {
        if pat.len() <= cmd.len() {
            assert(s.take(pat.len() as int) =~= cmd.take(pat.len() as int));
        } else {
            assert(s.take(pat.len() as int)[cmd.len() as int] == y[0]);
            assert(ascii_letter(pat[cmd.len() as int]));
        }
        assert(s.take(pat.len() as int) != pat);
        let rest = cmd.skip(1) + y;
        assert(backslash_free(rest)) by {
            assert forall|j: int| 0 <= j < rest.len() implies rest[j] != '\\' by {
                if j < cmd.len() - 1 {
                    assert(rest[j] == cmd[j + 1]);
                    assert(ascii_letter(cmd[j + 1]));
                } else {
                    assert(rest[j] == y[j - (cmd.len() - 1)]);
                }
            }
        }
        lemma_replace_backslash_free(rest, pat, rep);
        assert(s.skip(1) =~= rest);
        assert(seq![s[0]] + rest =~= s);
    }
}

/// No rule from index `k` up to (not including) `i` has a command that is a
/// prefix of rule `i`'s command.
pub open spec fn no_earlier_prefix(rules: Seq<(Seq<char>, Seq<char>)>, i: int, k: int) -> bool
    decreases i - k,
{
    k >= i || (!is_prefix_of(rules[k].0, rules[i].0) && no_earlier_prefix(rules, i, k + 1))
}

/// Rewriting by command rules: a command word with plain text around it,
/// not followed by a letter, becomes its rule's text when no earlier rule's
/// command is a prefix of it.
proof fn lemma_rules_at_command(a: Seq<char>, b: Seq<char>, rules: Seq<(Seq<char>, Seq<char>)>, i: int, k: int)
    requires
        command_rules(rules),
        0 <= k <= i < rules.len(),
        no_earlier_prefix(rules, i, k),
        backslash_free(a),
        backslash_free(b),
        ends_command(b),
    ensures
        apply_rules_from(a + rules[i].0 + b, rules, k) == a + rules[i].1 + b,
    decreases i - k,
{
    let cmd = rules[i].0;
    assert(command_word(cmd));
    assert(command_word(rules[k].0));
    assert(a + cmd + b =~= a + (cmd + b));
    lemma_replace_after_plain(a, cmd + b, rules[k].0, rules[k].1);
    if k == i {
        lemma_replace_at_command(cmd, b, cmd, rules[k].1);
        assert(a + (rules[i].1 + b) =~= a + rules[i].1 + b);
        let r = a + rules[i].1 + b;
        assert(backslash_free(rules[i].1));
        assert(backslash_free(r)) by {
            assert forall|j: int| 0 <= j < r.len() implies r[j] != '\\' by {
                if j < a.len() {
                } else if j < a.len() + rules[i].1.len() {
                    assert(r[j] == rules[i].1[j - a.len()]);
                } else {
                    assert(r[j] == b[j - a.len() - rules[i].1.len()]);
                }
            }
        }
        lemma_rules_backslash_free(r, rules, k + 1);
    } else {
        assert(!is_prefix_of(rules[k].0, cmd));
        assert(rules[k].0 != cmd) by {
            if rules[k].0 == cmd {
                assert(cmd.take(cmd.len() as int) =~= cmd);
            }
        }
        lemma_replace_at_command(cmd, b, rules[k].0, rules[k].1);
        lemma_rules_at_command(a, b, rules, i, k + 1);
    }
}

/// LaTeX operator and relation commands with the Unicode characters they denote (in the order the operator stage rewrites them).
pub open spec fn operator_symbols() -> Seq<(Seq<char>, Seq<char>)> {
    seq![
        ("\\infty"@, "∞"@),
        ("\\sqrt"@, "√"@),
        ("\\leftarrow"@, "←"@),
        ("\\leq"@, "≤"@),
        ("\\le"@, "≤"@),
        ("\\geq"@, "≥"@),
        ("\\ge"@, "≥"@),
        ("\\neq"@, "≠"@),
        ("\\ne"@, "≠"@),
        ("\\pm"@, "±"@),
        ("\\mp"@, "∓"@),
        ("\\approx"@, "≈"@),
        ("\\equiv"@, "≡"@),
        ("\\partial"@, "∂"@),
        ("\\nabla"@, "∇"@),
        ("\\sum"@, "∑"@),
        ("\\int"@, "∫"@),
        ("\\prod"@, "∏"@),
        ("\\rightarrow"@, "→"@),
        ("\\to"@, "→"@),
        ("\\Rightarrow"@, "⇒"@),
        ("\\Leftarrow"@, "⇐"@),
        ("\\in"@, "∈"@),
        ("\\notin"@, "∉"@),
        ("\\cap"@, "∩"@),
        ("\\cup"@, "∪"@),
    ]
}

/// LaTeX lowercase Greek letter commands with their Unicode letters.
pub open spec fn greek_lower_letters() -> Seq<(Seq<char>, Seq<char>)> {
    seq![
        ("\\alpha"@, "α"@),
        ("\\beta"@, "β"@),
        ("\\gamma"@, "γ"@),
        ("\\delta"@, "δ"@),
        ("\\epsilon"@, "ε"@),
        ("\\zeta"@, "ζ"@),
        ("\\eta"@, "η"@),
        ("\\theta"@, "θ"@),
        ("\\iota"@, "ι"@),
        ("\\kappa"@, "κ"@),
        ("\\lambda"@, "λ"@),
        ("\\mu"@, "μ"@),
        ("\\nu"@, "ν"@),
        ("\\xi"@, "ξ"@),
        ("\\pi"@, "π"@),
        ("\\rho"@, "ρ"@),
        ("\\sigma"@, "σ"@),
        ("\\tau"@, "τ"@),
        ("\\upsilon"@, "υ"@),
        ("\\phi"@, "φ"@),
        ("\\chi"@, "χ"@),
        ("\\psi"@, "ψ"@),
        ("\\omega"@, "ω"@),
    ]
}

/// LaTeX uppercase Greek letter commands with their Unicode letters.
pub open spec fn greek_upper_letters() -> Seq<(Seq<char>, Seq<char>)> {
    seq![
        ("\\Gamma"@, "Γ"@),
        ("\\Delta"@, "Δ"@),
        ("\\Theta"@, "Θ"@),
        ("\\Lambda"@, "Λ"@),
        ("\\Xi"@, "Ξ"@),
        ("\\Pi"@, "Π"@),
        ("\\Sigma"@, "Σ"@),
        ("\\Phi"@, "Φ"@),
        ("\\Psi"@, "Ψ"@),
        ("\\Omega"@, "Ω"@),
    ]
}

proof fn lemma_latex_operators_as_rules(s: Seq<char>)
    ensures
        latex_operators(s) == apply_rules_from(s, operator_symbols(), 0),
{
    reveal_with_fuel(apply_rules_from, 28);
}

proof fn lemma_not_prefix(p: Seq<char>, s: Seq<char>, d: int)
    requires
        p.len() > s.len() || (0 <= d < p.len() && d < s.len() && p[d] != s[d]),
    ensures
        !is_prefix_of(p, s),
{
    if p.len() <= s.len() && s.take(p.len() as int) == p {
        assert(s.take(p.len() as int)[d] == s[d]);
    }
}

proof fn lemma_operator_symbols_no_earlier_prefix(i: int)
    requires
        0 <= i < operator_symbols().len(),
    ensures
        no_earlier_prefix(operator_symbols(), i, 0),
{
    reveal_with_fuel(no_earlier_prefix, 27);
    reveal_strlit("\\infty");
    reveal_strlit("\\sqrt");
    reveal_strlit("\\leftarrow");
    reveal_strlit("\\leq");
    reveal_strlit("\\le");
    reveal_strlit("\\geq");
    reveal_strlit("\\ge");
    reveal_strlit("\\neq");
    reveal_strlit("\\ne");
    reveal_strlit("\\pm");
    reveal_strlit("\\mp");
    reveal_strlit("\\approx");
    reveal_strlit("\\equiv");
    reveal_strlit("\\partial");
    reveal_strlit("\\nabla");
    reveal_strlit("\\sum");
    reveal_strlit("\\int");
    reveal_strlit("\\prod");
    reveal_strlit("\\rightarrow");
    reveal_strlit("\\to");
    reveal_strlit("\\Rightarrow");
    reveal_strlit("\\Leftarrow");
    reveal_strlit("\\in");
    reveal_strlit("\\notin");
    reveal_strlit("\\cap");
    reveal_strlit("\\cup");
    let t = operator_symbols();
    if i == 0 {
    } else if i == 1 {
    } else if i == 2 {
        lemma_not_prefix(t[0].0, t[2].0, 1);
        lemma_not_prefix(t[1].0, t[2].0, 1);
    } else if i == 3 {
    } else if i == 4 {
    } else if i == 5 {
        lemma_not_prefix(t[3].0, t[5].0, 1);
        lemma_not_prefix(t[4].0, t[5].0, 1);
    } else if i == 6 {
        lemma_not_prefix(t[4].0, t[6].0, 1);
    } else if i == 7 {
        lemma_not_prefix(t[3].0, t[7].0, 1);
        lemma_not_prefix(t[4].0, t[7].0, 1);
        lemma_not_prefix(t[5].0, t[7].0, 1);
        lemma_not_prefix(t[6].0, t[7].0, 1);
    } else if i == 8 {
        lemma_not_prefix(t[4].0, t[8].0, 1);
        lemma_not_prefix(t[6].0, t[8].0, 1);
    } else if i == 9 {
        lemma_not_prefix(t[4].0, t[9].0, 1);
        lemma_not_prefix(t[6].0, t[9].0, 1);
        lemma_not_prefix(t[8].0, t[9].0, 1);
    } else if i == 10 {
        lemma_not_prefix(t[4].0, t[10].0, 1);
        lemma_not_prefix(t[6].0, t[10].0, 1);
        lemma_not_prefix(t[8].0, t[10].0, 1);
        lemma_not_prefix(t[9].0, t[10].0, 1);
    } else if i == 11 {
        lemma_not_prefix(t[0].0, t[11].0, 1);
        lemma_not_prefix(t[1].0, t[11].0, 1);
        lemma_not_prefix(t[3].0, t[11].0, 1);
        lemma_not_prefix(t[4].0, t[11].0, 1);
        lemma_not_prefix(t[5].0, t[11].0, 1);
        lemma_not_prefix(t[6].0, t[11].0, 1);
        lemma_not_prefix(t[7].0, t[11].0, 1);
        lemma_not_prefix(t[8].0, t[11].0, 1);
        lemma_not_prefix(t[9].0, t[11].0, 1);
        lemma_not_prefix(t[10].0, t[11].0, 1);
    } else if i == 12 {
        lemma_not_prefix(t[0].0, t[12].0, 1);
        lemma_not_prefix(t[1].0, t[12].0, 1);
        lemma_not_prefix(t[3].0, t[12].0, 1);
        lemma_not_prefix(t[4].0, t[12].0, 1);
        lemma_not_prefix(t[5].0, t[12].0, 1);
        lemma_not_prefix(t[6].0, t[12].0, 1);
        lemma_not_prefix(t[7].0, t[12].0, 1);
        lemma_not_prefix(t[8].0, t[12].0, 1);
        lemma_not_prefix(t[9].0, t[12].0, 1);
        lemma_not_prefix(t[10].0, t[12].0, 1);
    } else if i == 13 {
        lemma_not_prefix(t[0].0, t[13].0, 1);
        lemma_not_prefix(t[1].0, t[13].0, 1);
        lemma_not_prefix(t[3].0, t[13].0, 1);
        lemma_not_prefix(t[4].0, t[13].0, 1);
        lemma_not_prefix(t[5].0, t[13].0, 1);
        lemma_not_prefix(t[6].0, t[13].0, 1);
        lemma_not_prefix(t[7].0, t[13].0, 1);
        lemma_not_prefix(t[8].0, t[13].0, 1);
        lemma_not_prefix(t[9].0, t[13].0, 2);
        lemma_not_prefix(t[10].0, t[13].0, 1);
        lemma_not_prefix(t[11].0, t[13].0, 1);
        lemma_not_prefix(t[12].0, t[13].0, 1);
    } else if i == 14 {
        lemma_not_prefix(t[0].0, t[14].0, 1);
        lemma_not_prefix(t[1].0, t[14].0, 1);
        lemma_not_prefix(t[3].0, t[14].0, 1);
        lemma_not_prefix(t[4].0, t[14].0, 1);
        lemma_not_prefix(t[5].0, t[14].0, 1);
        lemma_not_prefix(t[6].0, t[14].0, 1);
        lemma_not_prefix(t[7].0, t[14].0, 2);
        lemma_not_prefix(t[8].0, t[14].0, 2);
        lemma_not_prefix(t[9].0, t[14].0, 1);
        lemma_not_prefix(t[10].0, t[14].0, 1);
        lemma_not_prefix(t[12].0, t[14].0, 1);
    } else if i == 15 {
        lemma_not_prefix(t[3].0, t[15].0, 1);
        lemma_not_prefix(t[4].0, t[15].0, 1);
        lemma_not_prefix(t[5].0, t[15].0, 1);
        lemma_not_prefix(t[6].0, t[15].0, 1);
        lemma_not_prefix(t[7].0, t[15].0, 1);
        lemma_not_prefix(t[8].0, t[15].0, 1);
        lemma_not_prefix(t[9].0, t[15].0, 1);
        lemma_not_prefix(t[10].0, t[15].0, 1);
    } else if i == 16 {
        lemma_not_prefix(t[3].0, t[16].0, 1);
        lemma_not_prefix(t[4].0, t[16].0, 1);
        lemma_not_prefix(t[5].0, t[16].0, 1);
        lemma_not_prefix(t[6].0, t[16].0, 1);
        lemma_not_prefix(t[7].0, t[16].0, 1);
        lemma_not_prefix(t[8].0, t[16].0, 1);
        lemma_not_prefix(t[9].0, t[16].0, 1);
        lemma_not_prefix(t[10].0, t[16].0, 1);
        lemma_not_prefix(t[15].0, t[16].0, 1);
    } else if i == 17 {
        lemma_not_prefix(t[1].0, t[17].0, 1);
        lemma_not_prefix(t[3].0, t[17].0, 1);
        lemma_not_prefix(t[4].0, t[17].0, 1);
        lemma_not_prefix(t[5].0, t[17].0, 1);
        lemma_not_prefix(t[6].0, t[17].0, 1);
        lemma_not_prefix(t[7].0, t[17].0, 1);
        lemma_not_prefix(t[8].0, t[17].0, 1);
        lemma_not_prefix(t[9].0, t[17].0, 2);
        lemma_not_prefix(t[10].0, t[17].0, 1);
        lemma_not_prefix(t[15].0, t[17].0, 1);
        lemma_not_prefix(t[16].0, t[17].0, 1);
    } else if i == 18 {
        lemma_not_prefix(t[0].0, t[18].0, 1);
        lemma_not_prefix(t[1].0, t[18].0, 1);
        lemma_not_prefix(t[2].0, t[18].0, 1);
        lemma_not_prefix(t[3].0, t[18].0, 1);
        lemma_not_prefix(t[4].0, t[18].0, 1);
        lemma_not_prefix(t[5].0, t[18].0, 1);
        lemma_not_prefix(t[6].0, t[18].0, 1);
        lemma_not_prefix(t[7].0, t[18].0, 1);
        lemma_not_prefix(t[8].0, t[18].0, 1);
        lemma_not_prefix(t[9].0, t[18].0, 1);
        lemma_not_prefix(t[10].0, t[18].0, 1);
        lemma_not_prefix(t[11].0, t[18].0, 1);
        lemma_not_prefix(t[12].0, t[18].0, 1);
        lemma_not_prefix(t[13].0, t[18].0, 1);
        lemma_not_prefix(t[14].0, t[18].0, 1);
        lemma_not_prefix(t[15].0, t[18].0, 1);
        lemma_not_prefix(t[16].0, t[18].0, 1);
        lemma_not_prefix(t[17].0, t[18].0, 1);
    } else if i == 19 {
        lemma_not_prefix(t[4].0, t[19].0, 1);
        lemma_not_prefix(t[6].0, t[19].0, 1);
        lemma_not_prefix(t[8].0, t[19].0, 1);
        lemma_not_prefix(t[9].0, t[19].0, 1);
        lemma_not_prefix(t[10].0, t[19].0, 1);
    } else if i == 20 {
        lemma_not_prefix(t[0].0, t[20].0, 1);
        lemma_not_prefix(t[1].0, t[20].0, 1);
        lemma_not_prefix(t[2].0, t[20].0, 1);
        lemma_not_prefix(t[3].0, t[20].0, 1);
        lemma_not_prefix(t[4].0, t[20].0, 1);
        lemma_not_prefix(t[5].0, t[20].0, 1);
        lemma_not_prefix(t[6].0, t[20].0, 1);
        lemma_not_prefix(t[7].0, t[20].0, 1);
        lemma_not_prefix(t[8].0, t[20].0, 1);
        lemma_not_prefix(t[9].0, t[20].0, 1);
        lemma_not_prefix(t[10].0, t[20].0, 1);
        lemma_not_prefix(t[11].0, t[20].0, 1);
        lemma_not_prefix(t[12].0, t[20].0, 1);
        lemma_not_prefix(t[13].0, t[20].0, 1);
        lemma_not_prefix(t[14].0, t[20].0, 1);
        lemma_not_prefix(t[15].0, t[20].0, 1);
        lemma_not_prefix(t[16].0, t[20].0, 1);
        lemma_not_prefix(t[17].0, t[20].0, 1);
        lemma_not_prefix(t[18].0, t[20].0, 1);
        lemma_not_prefix(t[19].0, t[20].0, 1);
    } else if i == 21 {
        lemma_not_prefix(t[0].0, t[21].0, 1);
        lemma_not_prefix(t[1].0, t[21].0, 1);
        lemma_not_prefix(t[2].0, t[21].0, 1);
        lemma_not_prefix(t[3].0, t[21].0, 1);
        lemma_not_prefix(t[4].0, t[21].0, 1);
        lemma_not_prefix(t[5].0, t[21].0, 1);
        lemma_not_prefix(t[6].0, t[21].0, 1);
        lemma_not_prefix(t[7].0, t[21].0, 1);
        lemma_not_prefix(t[8].0, t[21].0, 1);
        lemma_not_prefix(t[9].0, t[21].0, 1);
        lemma_not_prefix(t[10].0, t[21].0, 1);
        lemma_not_prefix(t[11].0, t[21].0, 1);
        lemma_not_prefix(t[12].0, t[21].0, 1);
        lemma_not_prefix(t[13].0, t[21].0, 1);
        lemma_not_prefix(t[14].0, t[21].0, 1);
        lemma_not_prefix(t[15].0, t[21].0, 1);
        lemma_not_prefix(t[16].0, t[21].0, 1);
        lemma_not_prefix(t[17].0, t[21].0, 1);
        lemma_not_prefix(t[19].0, t[21].0, 1);
    } else if i == 22 {
        lemma_not_prefix(t[4].0, t[22].0, 1);
        lemma_not_prefix(t[6].0, t[22].0, 1);
        lemma_not_prefix(t[8].0, t[22].0, 1);
        lemma_not_prefix(t[9].0, t[22].0, 1);
        lemma_not_prefix(t[10].0, t[22].0, 1);
        lemma_not_prefix(t[19].0, t[22].0, 1);
    } else if i == 23 {
        lemma_not_prefix(t[0].0, t[23].0, 1);
        lemma_not_prefix(t[1].0, t[23].0, 1);
        lemma_not_prefix(t[3].0, t[23].0, 1);
        lemma_not_prefix(t[4].0, t[23].0, 1);
        lemma_not_prefix(t[5].0, t[23].0, 1);
        lemma_not_prefix(t[6].0, t[23].0, 1);
        lemma_not_prefix(t[7].0, t[23].0, 2);
        lemma_not_prefix(t[8].0, t[23].0, 2);
        lemma_not_prefix(t[9].0, t[23].0, 1);
        lemma_not_prefix(t[10].0, t[23].0, 1);
        lemma_not_prefix(t[12].0, t[23].0, 1);
        lemma_not_prefix(t[14].0, t[23].0, 2);
        lemma_not_prefix(t[15].0, t[23].0, 1);
        lemma_not_prefix(t[16].0, t[23].0, 1);
        lemma_not_prefix(t[17].0, t[23].0, 1);
        lemma_not_prefix(t[19].0, t[23].0, 1);
        lemma_not_prefix(t[22].0, t[23].0, 1);
    } else if i == 24 {
        lemma_not_prefix(t[3].0, t[24].0, 1);
        lemma_not_prefix(t[4].0, t[24].0, 1);
        lemma_not_prefix(t[5].0, t[24].0, 1);
        lemma_not_prefix(t[6].0, t[24].0, 1);
        lemma_not_prefix(t[7].0, t[24].0, 1);
        lemma_not_prefix(t[8].0, t[24].0, 1);
        lemma_not_prefix(t[9].0, t[24].0, 1);
        lemma_not_prefix(t[10].0, t[24].0, 1);
        lemma_not_prefix(t[15].0, t[24].0, 1);
        lemma_not_prefix(t[16].0, t[24].0, 1);
        lemma_not_prefix(t[19].0, t[24].0, 1);
        lemma_not_prefix(t[22].0, t[24].0, 1);
    } else if i == 25 {
        lemma_not_prefix(t[3].0, t[25].0, 1);
        lemma_not_prefix(t[4].0, t[25].0, 1);
        lemma_not_prefix(t[5].0, t[25].0, 1);
        lemma_not_prefix(t[6].0, t[25].0, 1);
        lemma_not_prefix(t[7].0, t[25].0, 1);
        lemma_not_prefix(t[8].0, t[25].0, 1);
        lemma_not_prefix(t[9].0, t[25].0, 1);
        lemma_not_prefix(t[10].0, t[25].0, 1);
        lemma_not_prefix(t[15].0, t[25].0, 1);
        lemma_not_prefix(t[16].0, t[25].0, 1);
        lemma_not_prefix(t[19].0, t[25].0, 1);
        lemma_not_prefix(t[22].0, t[25].0, 1);
        lemma_not_prefix(t[24].0, t[25].0, 2);
    }
}

proof fn lemma_operator_symbols_are_command_rules()
    ensures
        command_rules(operator_symbols()),
{
    reveal_strlit("\\infty");
    reveal_strlit("∞");
    reveal_strlit("\\sqrt");
    reveal_strlit("√");
    reveal_strlit("\\leftarrow");
    reveal_strlit("←");
    reveal_strlit("\\leq");
    reveal_strlit("≤");
    reveal_strlit("\\le");
    reveal_strlit("≤");
    reveal_strlit("\\geq");
    reveal_strlit("≥");
    reveal_strlit("\\ge");
    reveal_strlit("≥");
    reveal_strlit("\\neq");
    reveal_strlit("≠");
    reveal_strlit("\\ne");
    reveal_strlit("≠");
    reveal_strlit("\\pm");
    reveal_strlit("±");
    reveal_strlit("\\mp");
    reveal_strlit("∓");
    reveal_strlit("\\approx");
    reveal_strlit("≈");
    reveal_strlit("\\equiv");
    reveal_strlit("≡");
    reveal_strlit("\\partial");
    reveal_strlit("∂");
    reveal_strlit("\\nabla");
    reveal_strlit("∇");
    reveal_strlit("\\sum");
    reveal_strlit("∑");
    reveal_strlit("\\int");
    reveal_strlit("∫");
    reveal_strlit("\\prod");
    reveal_strlit("∏");
    reveal_strlit("\\rightarrow");
    reveal_strlit("→");
    reveal_strlit("\\to");
    reveal_strlit("→");
    reveal_strlit("\\Rightarrow");
    reveal_strlit("⇒");
    reveal_strlit("\\Leftarrow");
    reveal_strlit("⇐");
    reveal_strlit("\\in");
    reveal_strlit("∈");
    reveal_strlit("\\notin");
    reveal_strlit("∉");
    reveal_strlit("\\cap");
    reveal_strlit("∩");
    reveal_strlit("\\cup");
    reveal_strlit("∪");
    let t = operator_symbols();
    assert forall|j: int| 0 <= j < t.len() implies command_word(#[trigger] t[j].0) && backslash_free(t[j].1) by {
    }
}

/// The operator stage turns each operator command, between text without a
/// backslash and not followed by a letter, into the Unicode character it
/// denotes (`\cap` into `∩`, `\leftarrow` into `←`).
pub proof fn lemma_operator_symbols(a: Seq<char>, b: Seq<char>, i: int)
    requires
        0 <= i < operator_symbols().len(),
        backslash_free(a),
        backslash_free(b),
        ends_command(b),
    ensures
        latex_operators(a + operator_symbols()[i].0 + b) == a + operator_symbols()[i].1 + b,
{
    lemma_latex_operators_as_rules(a + operator_symbols()[i].0 + b);
    lemma_operator_symbols_no_earlier_prefix(i);
    lemma_operator_symbols_are_command_rules();
    lemma_rules_at_command(a, b, operator_symbols(), i, 0);
}

proof fn lemma_latex_greek_lower_as_rules(s: Seq<char>)
    ensures
        latex_greek_lower(s) == apply_rules_from(s, greek_lower_letters(), 0),
{
    reveal_with_fuel(apply_rules_from, 25);
}

proof fn lemma_greek_lower_letters_are_command_rules()
    ensures
        command_rules(greek_lower_letters()),
{
    reveal_strlit("\\alpha");
    reveal_strlit("α");
    reveal_strlit("\\beta");
    reveal_strlit("β");
    reveal_strlit("\\gamma");
    reveal_strlit("γ");
    reveal_strlit("\\delta");
    reveal_strlit("δ");
    reveal_strlit("\\epsilon");
    reveal_strlit("ε");
    reveal_strlit("\\zeta");
    reveal_strlit("ζ");
    reveal_strlit("\\eta");
    reveal_strlit("η");
    reveal_strlit("\\theta");
    reveal_strlit("θ");
    reveal_strlit("\\iota");
    reveal_strlit("ι");
    reveal_strlit("\\kappa");
    reveal_strlit("κ");
    reveal_strlit("\\lambda");
    reveal_strlit("λ");
    reveal_strlit("\\mu");
    reveal_strlit("μ");
    reveal_strlit("\\nu");
    reveal_strlit("ν");
    reveal_strlit("\\xi");
    reveal_strlit("ξ");
    reveal_strlit("\\pi");
    reveal_strlit("π");
    reveal_strlit("\\rho");
    reveal_strlit("ρ");
    reveal_strlit("\\sigma");
    reveal_strlit("σ");
    reveal_strlit("\\tau");
    reveal_strlit("τ");
    reveal_strlit("\\upsilon");
    reveal_strlit("υ");
    reveal_strlit("\\phi");
    reveal_strlit("φ");
    reveal_strlit("\\chi");
    reveal_strlit("χ");
    reveal_strlit("\\psi");
    reveal_strlit("ψ");
    reveal_strlit("\\omega");
    reveal_strlit("ω");
    let t = greek_lower_letters();
    assert forall|j: int| 0 <= j < t.len() implies command_word(#[trigger] t[j].0) && backslash_free(t[j].1) by {
    }
}

proof fn lemma_greek_lower_letters_no_earlier_prefix(i: int)
    requires
        0 <= i < greek_lower_letters().len(),
    ensures
        no_earlier_prefix(greek_lower_letters(), i, 0),
{
    reveal_with_fuel(no_earlier_prefix, 24);
    reveal_strlit("\\alpha");
    reveal_strlit("\\beta");
    reveal_strlit("\\gamma");
    reveal_strlit("\\delta");
    reveal_strlit("\\epsilon");
    reveal_strlit("\\zeta");
    reveal_strlit("\\eta");
    reveal_strlit("\\theta");
    reveal_strlit("\\iota");
    reveal_strlit("\\kappa");
    reveal_strlit("\\lambda");
    reveal_strlit("\\mu");
    reveal_strlit("\\nu");
    reveal_strlit("\\xi");
    reveal_strlit("\\pi");
    reveal_strlit("\\rho");
    reveal_strlit("\\sigma");
    reveal_strlit("\\tau");
    reveal_strlit("\\upsilon");
    reveal_strlit("\\phi");
    reveal_strlit("\\chi");
    reveal_strlit("\\psi");
    reveal_strlit("\\omega");
    let t = greek_lower_letters();
    if i == 0 {
    } else if i == 1 {
    } else if i == 2 {
        lemma_not_prefix(t[0].0, t[2].0, 1);
        lemma_not_prefix(t[1].0, t[2].0, 1);
    } else if i == 3 {
        lemma_not_prefix(t[0].0, t[3].0, 1);
        lemma_not_prefix(t[1].0, t[3].0, 1);
        lemma_not_prefix(t[2].0, t[3].0, 1);
    } else if i == 4 {
        lemma_not_prefix(t[0].0, t[4].0, 1);
        lemma_not_prefix(t[1].0, t[4].0, 1);
        lemma_not_prefix(t[2].0, t[4].0, 1);
        lemma_not_prefix(t[3].0, t[4].0, 1);
    } else if i == 5 {
        lemma_not_prefix(t[1].0, t[5].0, 1);
    } else if i == 6 {
    } else if i == 7 {
        lemma_not_prefix(t[0].0, t[7].0, 1);
        lemma_not_prefix(t[1].0, t[7].0, 1);
        lemma_not_prefix(t[2].0, t[7].0, 1);
        lemma_not_prefix(t[3].0, t[7].0, 1);
        lemma_not_prefix(t[5].0, t[7].0, 1);
        lemma_not_prefix(t[6].0, t[7].0, 1);
    } else if i == 8 {
        lemma_not_prefix(t[1].0, t[8].0, 1);
        lemma_not_prefix(t[5].0, t[8].0, 1);
        lemma_not_prefix(t[6].0, t[8].0, 1);
    } else if i == 9 {
        lemma_not_prefix(t[0].0, t[9].0, 1);
        lemma_not_prefix(t[1].0, t[9].0, 1);
        lemma_not_prefix(t[2].0, t[9].0, 1);
        lemma_not_prefix(t[3].0, t[9].0, 1);
        lemma_not_prefix(t[5].0, t[9].0, 1);
        lemma_not_prefix(t[6].0, t[9].0, 1);
        lemma_not_prefix(t[7].0, t[9].0, 1);
        lemma_not_prefix(t[8].0, t[9].0, 1);
    } else if i == 10 {
        lemma_not_prefix(t[0].0, t[10].0, 1);
        lemma_not_prefix(t[1].0, t[10].0, 1);
        lemma_not_prefix(t[2].0, t[10].0, 1);
        lemma_not_prefix(t[3].0, t[10].0, 1);
        lemma_not_prefix(t[5].0, t[10].0, 1);
        lemma_not_prefix(t[6].0, t[10].0, 1);
        lemma_not_prefix(t[7].0, t[10].0, 1);
        lemma_not_prefix(t[8].0, t[10].0, 1);
        lemma_not_prefix(t[9].0, t[10].0, 1);
    } else if i == 11 {
    } else if i == 12 {
        lemma_not_prefix(t[11].0, t[12].0, 1);
    } else if i == 13 {
        lemma_not_prefix(t[11].0, t[13].0, 1);
        lemma_not_prefix(t[12].0, t[13].0, 1);
    } else if i == 14 {
        lemma_not_prefix(t[11].0, t[14].0, 1);
        lemma_not_prefix(t[12].0, t[14].0, 1);
        lemma_not_prefix(t[13].0, t[14].0, 1);
    } else if i == 15 {
        lemma_not_prefix(t[6].0, t[15].0, 1);
        lemma_not_prefix(t[11].0, t[15].0, 1);
        lemma_not_prefix(t[12].0, t[15].0, 1);
        lemma_not_prefix(t[13].0, t[15].0, 1);
        lemma_not_prefix(t[14].0, t[15].0, 1);
    } else if i == 16 {
        lemma_not_prefix(t[0].0, t[16].0, 1);
        lemma_not_prefix(t[1].0, t[16].0, 1);
        lemma_not_prefix(t[2].0, t[16].0, 1);
        lemma_not_prefix(t[3].0, t[16].0, 1);
        lemma_not_prefix(t[5].0, t[16].0, 1);
        lemma_not_prefix(t[6].0, t[16].0, 1);
        lemma_not_prefix(t[7].0, t[16].0, 1);
        lemma_not_prefix(t[8].0, t[16].0, 1);
        lemma_not_prefix(t[9].0, t[16].0, 1);
        lemma_not_prefix(t[11].0, t[16].0, 1);
        lemma_not_prefix(t[12].0, t[16].0, 1);
        lemma_not_prefix(t[13].0, t[16].0, 1);
        lemma_not_prefix(t[14].0, t[16].0, 1);
        lemma_not_prefix(t[15].0, t[16].0, 1);
    } else if i == 17 {
        lemma_not_prefix(t[6].0, t[17].0, 1);
        lemma_not_prefix(t[11].0, t[17].0, 1);
        lemma_not_prefix(t[12].0, t[17].0, 1);
        lemma_not_prefix(t[13].0, t[17].0, 1);
        lemma_not_prefix(t[14].0, t[17].0, 1);
        lemma_not_prefix(t[15].0, t[17].0, 1);
    } else if i == 18 {
        lemma_not_prefix(t[0].0, t[18].0, 1);
        lemma_not_prefix(t[1].0, t[18].0, 1);
        lemma_not_prefix(t[2].0, t[18].0, 1);
        lemma_not_prefix(t[3].0, t[18].0, 1);
        lemma_not_prefix(t[4].0, t[18].0, 1);
        lemma_not_prefix(t[5].0, t[18].0, 1);
        lemma_not_prefix(t[6].0, t[18].0, 1);
        lemma_not_prefix(t[7].0, t[18].0, 1);
        lemma_not_prefix(t[8].0, t[18].0, 1);
        lemma_not_prefix(t[9].0, t[18].0, 1);
        lemma_not_prefix(t[10].0, t[18].0, 1);
        lemma_not_prefix(t[11].0, t[18].0, 1);
        lemma_not_prefix(t[12].0, t[18].0, 1);
        lemma_not_prefix(t[13].0, t[18].0, 1);
        lemma_not_prefix(t[14].0, t[18].0, 1);
        lemma_not_prefix(t[15].0, t[18].0, 1);
        lemma_not_prefix(t[16].0, t[18].0, 1);
        lemma_not_prefix(t[17].0, t[18].0, 1);
    } else if i == 19 {
        lemma_not_prefix(t[6].0, t[19].0, 1);
        lemma_not_prefix(t[11].0, t[19].0, 1);
        lemma_not_prefix(t[12].0, t[19].0, 1);
        lemma_not_prefix(t[13].0, t[19].0, 1);
        lemma_not_prefix(t[14].0, t[19].0, 2);
        lemma_not_prefix(t[15].0, t[19].0, 1);
        lemma_not_prefix(t[17].0, t[19].0, 1);
    } else if i == 20 {
        lemma_not_prefix(t[6].0, t[20].0, 1);
        lemma_not_prefix(t[11].0, t[20].0, 1);
        lemma_not_prefix(t[12].0, t[20].0, 1);
        lemma_not_prefix(t[13].0, t[20].0, 1);
        lemma_not_prefix(t[14].0, t[20].0, 1);
        lemma_not_prefix(t[15].0, t[20].0, 1);
        lemma_not_prefix(t[17].0, t[20].0, 1);
        lemma_not_prefix(t[19].0, t[20].0, 1);
    } else if i == 21 {
        lemma_not_prefix(t[6].0, t[21].0, 1);
        lemma_not_prefix(t[11].0, t[21].0, 1);
        lemma_not_prefix(t[12].0, t[21].0, 1);
        lemma_not_prefix(t[13].0, t[21].0, 1);
        lemma_not_prefix(t[14].0, t[21].0, 2);
        lemma_not_prefix(t[15].0, t[21].0, 1);
        lemma_not_prefix(t[17].0, t[21].0, 1);
        lemma_not_prefix(t[19].0, t[21].0, 2);
        lemma_not_prefix(t[20].0, t[21].0, 1);
    } else if i == 22 {
        lemma_not_prefix(t[0].0, t[22].0, 1);
        lemma_not_prefix(t[1].0, t[22].0, 1);
        lemma_not_prefix(t[2].0, t[22].0, 1);
        lemma_not_prefix(t[3].0, t[22].0, 1);
        lemma_not_prefix(t[5].0, t[22].0, 1);
        lemma_not_prefix(t[6].0, t[22].0, 1);
        lemma_not_prefix(t[7].0, t[22].0, 1);
        lemma_not_prefix(t[8].0, t[22].0, 1);
        lemma_not_prefix(t[9].0, t[22].0, 1);
        lemma_not_prefix(t[11].0, t[22].0, 1);
        lemma_not_prefix(t[12].0, t[22].0, 1);
        lemma_not_prefix(t[13].0, t[22].0, 1);
        lemma_not_prefix(t[14].0, t[22].0, 1);
        lemma_not_prefix(t[15].0, t[22].0, 1);
        lemma_not_prefix(t[16].0, t[22].0, 1);
        lemma_not_prefix(t[17].0, t[22].0, 1);
        lemma_not_prefix(t[19].0, t[22].0, 1);
        lemma_not_prefix(t[20].0, t[22].0, 1);
        lemma_not_prefix(t[21].0, t[22].0, 1);
    }
}

/// The lowercase Greek stage turns each letter command, between text without a
/// backslash and not followed by a letter, into its Greek letter (`\theta` into
/// `θ`).
pub proof fn lemma_greek_lower_letters(a: Seq<char>, b: Seq<char>, i: int)
    requires
        0 <= i < greek_lower_letters().len(),
        backslash_free(a),
        backslash_free(b),
        ends_command(b),
    ensures
        latex_greek_lower(a + greek_lower_letters()[i].0 + b) == a + greek_lower_letters()[i].1 + b,
{
    lemma_latex_greek_lower_as_rules(a + greek_lower_letters()[i].0 + b);
    lemma_greek_lower_letters_no_earlier_prefix(i);
    lemma_greek_lower_letters_are_command_rules();
    lemma_rules_at_command(a, b, greek_lower_letters(), i, 0);
}

proof fn lemma_latex_greek_upper_as_rules(s: Seq<char>)
    ensures
        latex_greek_upper(s) == apply_rules_from(s, greek_upper_letters(), 0),
{
    reveal_with_fuel(apply_rules_from, 12);
}

proof fn lemma_greek_upper_letters_are_command_rules()
    ensures
        command_rules(greek_upper_letters()),
{
    reveal_strlit("\\Gamma");
    reveal_strlit("Γ");
    reveal_strlit("\\Delta");
    reveal_strlit("Δ");
    reveal_strlit("\\Theta");
    reveal_strlit("Θ");
    reveal_strlit("\\Lambda");
    reveal_strlit("Λ");
    reveal_strlit("\\Xi");
    reveal_strlit("Ξ");
    reveal_strlit("\\Pi");
    reveal_strlit("Π");
    reveal_strlit("\\Sigma");
    reveal_strlit("Σ");
    reveal_strlit("\\Phi");
    reveal_strlit("Φ");
    reveal_strlit("\\Psi");
    reveal_strlit("Ψ");
    reveal_strlit("\\Omega");
    reveal_strlit("Ω");
    let t = greek_upper_letters();
    assert forall|j: int| 0 <= j < t.len() implies command_word(#[trigger] t[j].0) && backslash_free(t[j].1) by {
    }
}

proof fn lemma_greek_upper_letters_no_earlier_prefix(i: int)
    requires
        0 <= i < greek_upper_letters().len(),
    ensures
        no_earlier_prefix(greek_upper_letters(), i, 0),
{
    reveal_with_fuel(no_earlier_prefix, 11);
    reveal_strlit("\\Gamma");
    reveal_strlit("\\Delta");
    reveal_strlit("\\Theta");
    reveal_strlit("\\Lambda");
    reveal_strlit("\\Xi");
    reveal_strlit("\\Pi");
    reveal_strlit("\\Sigma");
    reveal_strlit("\\Phi");
    reveal_strlit("\\Psi");
    reveal_strlit("\\Omega");
    let t = greek_upper_letters();
    if i == 0 {
    } else if i == 1 {
        lemma_not_prefix(t[0].0, t[1].0, 1);
    } else if i == 2 {
        lemma_not_prefix(t[0].0, t[2].0, 1);
        lemma_not_prefix(t[1].0, t[2].0, 1);
    } else if i == 3 {
        lemma_not_prefix(t[0].0, t[3].0, 1);
        lemma_not_prefix(t[1].0, t[3].0, 1);
        lemma_not_prefix(t[2].0, t[3].0, 1);
    } else if i == 4 {
    } else if i == 5 {
        lemma_not_prefix(t[4].0, t[5].0, 1);
    } else if i == 6 {
        lemma_not_prefix(t[0].0, t[6].0, 1);
        lemma_not_prefix(t[1].0, t[6].0, 1);
        lemma_not_prefix(t[2].0, t[6].0, 1);
        lemma_not_prefix(t[4].0, t[6].0, 1);
        lemma_not_prefix(t[5].0, t[6].0, 1);
    } else if i == 7 {
        lemma_not_prefix(t[4].0, t[7].0, 1);
        lemma_not_prefix(t[5].0, t[7].0, 2);
    } else if i == 8 {
        lemma_not_prefix(t[4].0, t[8].0, 1);
        lemma_not_prefix(t[5].0, t[8].0, 2);
        lemma_not_prefix(t[7].0, t[8].0, 2);
    } else if i == 9 {
        lemma_not_prefix(t[0].0, t[9].0, 1);
        lemma_not_prefix(t[1].0, t[9].0, 1);
        lemma_not_prefix(t[2].0, t[9].0, 1);
        lemma_not_prefix(t[4].0, t[9].0, 1);
        lemma_not_prefix(t[5].0, t[9].0, 1);
        lemma_not_prefix(t[6].0, t[9].0, 1);
        lemma_not_prefix(t[7].0, t[9].0, 1);
        lemma_not_prefix(t[8].0, t[9].0, 1);
    }
}

/// The uppercase Greek stage turns each letter command, between text without a
/// backslash and not followed by a letter, into its Greek letter (`\Omega` into
/// `Ω`).
pub proof fn lemma_greek_upper_letters(a: Seq<char>, b: Seq<char>, i: int)
    requires
        0 <= i < greek_upper_letters().len(),
        backslash_free(a),
        backslash_free(b),
        ends_command(b),
    ensures
        latex_greek_upper(a + greek_upper_letters()[i].0 + b) == a + greek_upper_letters()[i].1 + b,
{
    lemma_latex_greek_upper_as_rules(a + greek_upper_letters()[i].0 + b);
    lemma_greek_upper_letters_no_earlier_prefix(i);
    lemma_greek_upper_letters_are_command_rules();
    lemma_rules_at_command(a, b, greek_upper_letters(), i, 0);
}

/// Does `s` hold no `m`?
pub open spec fn free_of(s: Seq<char>, m: char) -> bool {
    forall|j: int| 0 <= j < s.len() ==> s[j] != m
}

/// Every rule rewrites a two-character mark (`m` and one other character)
/// into text without `m`.
pub open spec fn mark_rules(rules: Seq<(Seq<char>, Seq<char>)>, m: char) -> bool {
    forall|j: int|
        0 <= j < rules.len() ==> {
            &&& (#[trigger] rules[j].0).len() == 2
            &&& rules[j].0[0] == m
            &&& rules[j].0[1] != m
            &&& free_of(rules[j].1, m)
        }
}

/// No rule from index `k` up to (not including) `i` has rule `i`'s mark.
pub open spec fn no_earlier_equal(rules: Seq<(Seq<char>, Seq<char>)>, i: int, k: int) -> bool
    decreases i - k,
{
    k >= i || (rules[k].0 != rules[i].0 && no_earlier_equal(rules, i, k + 1))
}

proof fn lemma_replace_free_of(s: Seq<char>, pat: Seq<char>, rep: Seq<char>, m: char)
    requires
        free_of(s, m),
        pat.len() > 0,
        pat[0] == m,
    ensures
        replace_all(s, pat, rep) == s,
    decreases s.len(),
{
    if s.len() >= pat.len() {
        assert(s.take(pat.len() as int)[0] != pat[0]);
        lemma_replace_free_of(s.skip(1), pat, rep, m);
        assert(seq![s[0]] + s.skip(1) =~= s);
    }
}

proof fn lemma_replace_after_free_of(x: Seq<char>, t: Seq<char>, pat: Seq<char>, rep: Seq<char>, m: char)
    requires
        free_of(x, m),
        pat.len() > 0,
        pat[0] == m,
    ensures
        replace_all(x + t, pat, rep) == x + replace_all(t, pat, rep),
    decreases x.len(),
{
    if x.len() == 0 {
        assert(x + t =~= t);
    } else {
        let s = x + t;
        if s.len() >= pat.len() {
            assert(s.take(pat.len() as int)[0] == x[0]);
            lemma_replace_after_free_of(x.skip(1), t, pat, rep, m);
            assert(s.skip(1) =~= x.skip(1) + t);
            assert(seq![x[0]] + (x.skip(1) + replace_all(t, pat, rep)) =~= x + replace_all(t, pat, rep));
        }
    }
}

proof fn lemma_rules_free_of(s: Seq<char>, rules: Seq<(Seq<char>, Seq<char>)>, k: int, m: char)
    requires
        free_of(s, m),
        mark_rules(rules, m),
        0 <= k,
    ensures
        apply_rules_from(s, rules, k) == s,
    decreases rules.len() - k,
{
    if k < rules.len() {
        assert(rules[k].0.len() == 2);
        lemma_replace_free_of(s, rules[k].0, rules[k].1, m);
        lemma_rules_free_of(s, rules, k + 1, m);
    }
}

/// Rewriting by mark rules: a mark with text without `m` around it becomes
/// its rule's text when no earlier rule has the same mark.
proof fn lemma_rules_at_mark(a: Seq<char>, b: Seq<char>, rules: Seq<(Seq<char>, Seq<char>)>, i: int, k: int, m: char)
    requires
        mark_rules(rules, m),
        0 <= k <= i < rules.len(),
        no_earlier_equal(rules, i, k),
        free_of(a, m),
        free_of(b, m),
    ensures
        apply_rules_from(a + rules[i].0 + b, rules, k) == a + rules[i].1 + b,
    decreases i - k,
{
    let p = rules[i].0;
    let pat = rules[k].0;
    assert(p.len() == 2 && pat.len() == 2);
    assert(a + p + b =~= a + (p + b));
    lemma_replace_after_free_of(a, p + b, pat, rules[k].1, m);
    let s = p + b;
    assert(s.take(2) =~= p);
    if k == i {
        assert(s.skip(2) =~= b);
        lemma_replace_free_of(b, pat, rules[k].1, m);
        let r = a + rules[i].1 + b;
        assert(a + (rules[i].1 + b) =~= r);
        assert(free_of(r, m)) by {
            assert forall|j: int| 0 <= j < r.len() implies r[j] != m by {
                if j < a.len() {
                } else if j < a.len() + rules[i].1.len() {
                    assert(r[j] == rules[i].1[j - a.len()]);
                } else {
                    assert(r[j] == b[j - a.len() - rules[i].1.len()]);
                }
            }
        }
        lemma_rules_free_of(r, rules, k + 1, m);
    } else {
        let rest = s.skip(1);
        assert(rest =~= seq![p[1]] + b);
        assert(free_of(rest, m)) by {
            assert forall|j: int| 0 <= j < rest.len() implies rest[j] != m by {
                if j > 0 {
                    assert(rest[j] == b[j - 1]);
                }
            }
        }
        lemma_replace_free_of(rest, pat, rules[k].1, m);
        assert(seq![s[0]] + rest =~= s);
        lemma_rules_at_mark(a, b, rules, i, k + 1, m);
    }
}

/// Single-character superscripts (`^` and a character) with the Unicode superscript characters they denote.
pub open spec fn superscript_marks() -> Seq<(Seq<char>, Seq<char>)> {
    seq![
        ("^0"@, "⁰"@),
        ("^1"@, "¹"@),
        ("^2"@, "²"@),
        ("^3"@, "³"@),
        ("^4"@, "⁴"@),
        ("^5"@, "⁵"@),
        ("^6"@, "⁶"@),
        ("^7"@, "⁷"@),
        ("^8"@, "⁸"@),
        ("^9"@, "⁹"@),
        ("^+"@, "⁺"@),
        ("^-"@, "⁻"@),
        ("^n"@, "ⁿ"@),
        ("^x"@, "ˣ"@),
        ("^t"@, "ᵗ"@),
    ]
}

proof fn lemma_latex_superscripts_as_rules(s: Seq<char>)
    ensures
        latex_superscripts(s) == apply_rules_from(s, superscript_marks(), 0),
{
    reveal_with_fuel(apply_rules_from, 17);
}

proof fn lemma_superscript_marks_are_mark_rules()
    ensures
        mark_rules(superscript_marks(), '^'),
{
    reveal_strlit("^0");
    reveal_strlit("⁰");
    reveal_strlit("^1");
    reveal_strlit("¹");
    reveal_strlit("^2");
    reveal_strlit("²");
    reveal_strlit("^3");
    reveal_strlit("³");
    reveal_strlit("^4");
    reveal_strlit("⁴");
    reveal_strlit("^5");
    reveal_strlit("⁵");
    reveal_strlit("^6");
    reveal_strlit("⁶");
    reveal_strlit("^7");
    reveal_strlit("⁷");
    reveal_strlit("^8");
    reveal_strlit("⁸");
    reveal_strlit("^9");
    reveal_strlit("⁹");
    reveal_strlit("^+");
    reveal_strlit("⁺");
    reveal_strlit("^-");
    reveal_strlit("⁻");
    reveal_strlit("^n");
    reveal_strlit("ⁿ");
    reveal_strlit("^x");
    reveal_strlit("ˣ");
    reveal_strlit("^t");
    reveal_strlit("ᵗ");
    let t = superscript_marks();
    assert forall|j: int| 0 <= j < t.len() implies {
        &&& (#[trigger] t[j].0).len() == 2
        &&& t[j].0[0] == '^'
        &&& t[j].0[1] != '^'
        &&& free_of(t[j].1, '^')
    } by {
    }
}

proof fn lemma_superscript_marks_no_earlier_equal(i: int)
    requires
        0 <= i < superscript_marks().len(),
    ensures
        no_earlier_equal(superscript_marks(), i, 0),
{
    reveal_with_fuel(no_earlier_equal, 16);
    reveal_strlit("^0");
    reveal_strlit("^1");
    reveal_strlit("^2");
    reveal_strlit("^3");
    reveal_strlit("^4");
    reveal_strlit("^5");
    reveal_strlit("^6");
    reveal_strlit("^7");
    reveal_strlit("^8");
    reveal_strlit("^9");
    reveal_strlit("^+");
    reveal_strlit("^-");
    reveal_strlit("^n");
    reveal_strlit("^x");
    reveal_strlit("^t");
    let t = superscript_marks();
    if i == 0 {
    } else if i == 1 {
        assert(t[0].0[1] != t[1].0[1]);
    } else if i == 2 {
        assert(t[0].0[1] != t[2].0[1]);
        assert(t[1].0[1] != t[2].0[1]);
    } else if i == 3 {
        assert(t[0].0[1] != t[3].0[1]);
        assert(t[1].0[1] != t[3].0[1]);
        assert(t[2].0[1] != t[3].0[1]);
    } else if i == 4 {
        assert(t[0].0[1] != t[4].0[1]);
        assert(t[1].0[1] != t[4].0[1]);
        assert(t[2].0[1] != t[4].0[1]);
        assert(t[3].0[1] != t[4].0[1]);
    } else if i == 5 {
        assert(t[0].0[1] != t[5].0[1]);
        assert(t[1].0[1] != t[5].0[1]);
        assert(t[2].0[1] != t[5].0[1]);
        assert(t[3].0[1] != t[5].0[1]);
        assert(t[4].0[1] != t[5].0[1]);
    } else if i == 6 {
        assert(t[0].0[1] != t[6].0[1]);
        assert(t[1].0[1] != t[6].0[1]);
        assert(t[2].0[1] != t[6].0[1]);
        assert(t[3].0[1] != t[6].0[1]);
        assert(t[4].0[1] != t[6].0[1]);
        assert(t[5].0[1] != t[6].0[1]);
    } else if i == 7 {
        assert(t[0].0[1] != t[7].0[1]);
        assert(t[1].0[1] != t[7].0[1]);
        assert(t[2].0[1] != t[7].0[1]);
        assert(t[3].0[1] != t[7].0[1]);
        assert(t[4].0[1] != t[7].0[1]);
        assert(t[5].0[1] != t[7].0[1]);
        assert(t[6].0[1] != t[7].0[1]);
    } else if i == 8 {
        assert(t[0].0[1] != t[8].0[1]);
        assert(t[1].0[1] != t[8].0[1]);
        assert(t[2].0[1] != t[8].0[1]);
        assert(t[3].0[1] != t[8].0[1]);
        assert(t[4].0[1] != t[8].0[1]);
        assert(t[5].0[1] != t[8].0[1]);
        assert(t[6].0[1] != t[8].0[1]);
        assert(t[7].0[1] != t[8].0[1]);
    } else if i == 9 {
        assert(t[0].0[1] != t[9].0[1]);
        assert(t[1].0[1] != t[9].0[1]);
        assert(t[2].0[1] != t[9].0[1]);
        assert(t[3].0[1] != t[9].0[1]);
        assert(t[4].0[1] != t[9].0[1]);
        assert(t[5].0[1] != t[9].0[1]);
        assert(t[6].0[1] != t[9].0[1]);
        assert(t[7].0[1] != t[9].0[1]);
        assert(t[8].0[1] != t[9].0[1]);
    } else if i == 10 {
        assert(t[0].0[1] != t[10].0[1]);
        assert(t[1].0[1] != t[10].0[1]);
        assert(t[2].0[1] != t[10].0[1]);
        assert(t[3].0[1] != t[10].0[1]);
        assert(t[4].0[1] != t[10].0[1]);
        assert(t[5].0[1] != t[10].0[1]);
        assert(t[6].0[1] != t[10].0[1]);
        assert(t[7].0[1] != t[10].0[1]);
        assert(t[8].0[1] != t[10].0[1]);
        assert(t[9].0[1] != t[10].0[1]);
    } else if i == 11 {
        assert(t[0].0[1] != t[11].0[1]);
        assert(t[1].0[1] != t[11].0[1]);
        assert(t[2].0[1] != t[11].0[1]);
        assert(t[3].0[1] != t[11].0[1]);
        assert(t[4].0[1] != t[11].0[1]);
        assert(t[5].0[1] != t[11].0[1]);
        assert(t[6].0[1] != t[11].0[1]);
        assert(t[7].0[1] != t[11].0[1]);
        assert(t[8].0[1] != t[11].0[1]);
        assert(t[9].0[1] != t[11].0[1]);
        assert(t[10].0[1] != t[11].0[1]);
    } else if i == 12 {
        assert(t[0].0[1] != t[12].0[1]);
        assert(t[1].0[1] != t[12].0[1]);
        assert(t[2].0[1] != t[12].0[1]);
        assert(t[3].0[1] != t[12].0[1]);
        assert(t[4].0[1] != t[12].0[1]);
        assert(t[5].0[1] != t[12].0[1]);
        assert(t[6].0[1] != t[12].0[1]);
        assert(t[7].0[1] != t[12].0[1]);
        assert(t[8].0[1] != t[12].0[1]);
        assert(t[9].0[1] != t[12].0[1]);
        assert(t[10].0[1] != t[12].0[1]);
        assert(t[11].0[1] != t[12].0[1]);
    } else if i == 13 {
        assert(t[0].0[1] != t[13].0[1]);
        assert(t[1].0[1] != t[13].0[1]);
        assert(t[2].0[1] != t[13].0[1]);
        assert(t[3].0[1] != t[13].0[1]);
        assert(t[4].0[1] != t[13].0[1]);
        assert(t[5].0[1] != t[13].0[1]);
        assert(t[6].0[1] != t[13].0[1]);
        assert(t[7].0[1] != t[13].0[1]);
        assert(t[8].0[1] != t[13].0[1]);
        assert(t[9].0[1] != t[13].0[1]);
        assert(t[10].0[1] != t[13].0[1]);
        assert(t[11].0[1] != t[13].0[1]);
        assert(t[12].0[1] != t[13].0[1]);
    } else if i == 14 {
        assert(t[0].0[1] != t[14].0[1]);
        assert(t[1].0[1] != t[14].0[1]);
        assert(t[2].0[1] != t[14].0[1]);
        assert(t[3].0[1] != t[14].0[1]);
        assert(t[4].0[1] != t[14].0[1]);
        assert(t[5].0[1] != t[14].0[1]);
        assert(t[6].0[1] != t[14].0[1]);
        assert(t[7].0[1] != t[14].0[1]);
        assert(t[8].0[1] != t[14].0[1]);
        assert(t[9].0[1] != t[14].0[1]);
        assert(t[10].0[1] != t[14].0[1]);
        assert(t[11].0[1] != t[14].0[1]);
        assert(t[12].0[1] != t[14].0[1]);
        assert(t[13].0[1] != t[14].0[1]);
    }
}

/// The superscript stage turns each single-character superscript, in text with
/// no other `^`, into its superscript character (`x^2` into `x²`).
pub proof fn lemma_superscript_marks(a: Seq<char>, b: Seq<char>, i: int)
    requires
        0 <= i < superscript_marks().len(),
        free_of(a, '^'),
        free_of(b, '^'),
    ensures
        latex_superscripts(a + superscript_marks()[i].0 + b) == a + superscript_marks()[i].1 + b,
{
    lemma_latex_superscripts_as_rules(a + superscript_marks()[i].0 + b);
    lemma_superscript_marks_no_earlier_equal(i);
    lemma_superscript_marks_are_mark_rules();
    lemma_rules_at_mark(a, b, superscript_marks(), i, 0, '^');
}

/// Single-character subscripts (`_` and a character) with the Unicode subscript characters they denote.
pub open spec fn subscript_marks() -> Seq<(Seq<char>, Seq<char>)> {
    seq![
        ("_0"@, "₀"@),
        ("_1"@, "₁"@),
        ("_2"@, "₂"@),
        ("_3"@, "₃"@),
        ("_4"@, "₄"@),
        ("_5"@, "₅"@),
        ("_6"@, "₆"@),
        ("_7"@, "₇"@),
        ("_8"@, "₈"@),
        ("_9"@, "₉"@),
        ("_i"@, "ᵢ"@),
        ("_j"@, "ⱼ"@),
        ("_n"@, "ₙ"@),
        ("_m"@, "ₘ"@),
        ("_t"@, "ₜ"@),
    ]
}

proof fn lemma_latex_subscripts_as_rules(s: Seq<char>)
    ensures
        latex_subscripts(s) == apply_rules_from(s, subscript_marks(), 0),
{
    reveal_with_fuel(apply_rules_from, 17);
}

proof fn lemma_subscript_marks_are_mark_rules()
    ensures
        mark_rules(subscript_marks(), '_'),
{
    reveal_strlit("_0");
    reveal_strlit("₀");
    reveal_strlit("_1");
    reveal_strlit("₁");
    reveal_strlit("_2");
    reveal_strlit("₂");
    reveal_strlit("_3");
    reveal_strlit("₃");
    reveal_strlit("_4");
    reveal_strlit("₄");
    reveal_strlit("_5");
    reveal_strlit("₅");
    reveal_strlit("_6");
    reveal_strlit("₆");
    reveal_strlit("_7");
    reveal_strlit("₇");
    reveal_strlit("_8");
    reveal_strlit("₈");
    reveal_strlit("_9");
    reveal_strlit("₉");
    reveal_strlit("_i");
    reveal_strlit("ᵢ");
    reveal_strlit("_j");
    reveal_strlit("ⱼ");
    reveal_strlit("_n");
    reveal_strlit("ₙ");
    reveal_strlit("_m");
    reveal_strlit("ₘ");
    reveal_strlit("_t");
    reveal_strlit("ₜ");
    let t = subscript_marks();
    assert forall|j: int| 0 <= j < t.len() implies {
        &&& (#[trigger] t[j].0).len() == 2
        &&& t[j].0[0] == '_'
        &&& t[j].0[1] != '_'
        &&& free_of(t[j].1, '_')
    } by {
    }
}

proof fn lemma_subscript_marks_no_earlier_equal(i: int)
    requires
        0 <= i < subscript_marks().len(),
    ensures
        no_earlier_equal(subscript_marks(), i, 0),
{
    reveal_with_fuel(no_earlier_equal, 16);
    reveal_strlit("_0");
    reveal_strlit("_1");
    reveal_strlit("_2");
    reveal_strlit("_3");
    reveal_strlit("_4");
    reveal_strlit("_5");
    reveal_strlit("_6");
    reveal_strlit("_7");
    reveal_strlit("_8");
    reveal_strlit("_9");
    reveal_strlit("_i");
    reveal_strlit("_j");
    reveal_strlit("_n");
    reveal_strlit("_m");
    reveal_strlit("_t");
    let t = subscript_marks();
    if i == 0 {
    } else if i == 1 {
        assert(t[0].0[1] != t[1].0[1]);
    } else if i == 2 {
        assert(t[0].0[1] != t[2].0[1]);
        assert(t[1].0[1] != t[2].0[1]);
    } else if i == 3 {
        assert(t[0].0[1] != t[3].0[1]);
        assert(t[1].0[1] != t[3].0[1]);
        assert(t[2].0[1] != t[3].0[1]);
    } else if i == 4 {
        assert(t[0].0[1] != t[4].0[1]);
        assert(t[1].0[1] != t[4].0[1]);
        assert(t[2].0[1] != t[4].0[1]);
        assert(t[3].0[1] != t[4].0[1]);
    } else if i == 5 {
        assert(t[0].0[1] != t[5].0[1]);
        assert(t[1].0[1] != t[5].0[1]);
        assert(t[2].0[1] != t[5].0[1]);
        assert(t[3].0[1] != t[5].0[1]);
        assert(t[4].0[1] != t[5].0[1]);
    } else if i == 6 {
        assert(t[0].0[1] != t[6].0[1]);
        assert(t[1].0[1] != t[6].0[1]);
        assert(t[2].0[1] != t[6].0[1]);
        assert(t[3].0[1] != t[6].0[1]);
        assert(t[4].0[1] != t[6].0[1]);
        assert(t[5].0[1] != t[6].0[1]);
    } else if i == 7 {
        assert(t[0].0[1] != t[7].0[1]);
        assert(t[1].0[1] != t[7].0[1]);
        assert(t[2].0[1] != t[7].0[1]);
        assert(t[3].0[1] != t[7].0[1]);
        assert(t[4].0[1] != t[7].0[1]);
        assert(t[5].0[1] != t[7].0[1]);
        assert(t[6].0[1] != t[7].0[1]);
    } else if i == 8 {
        assert(t[0].0[1] != t[8].0[1]);
        assert(t[1].0[1] != t[8].0[1]);
        assert(t[2].0[1] != t[8].0[1]);
        assert(t[3].0[1] != t[8].0[1]);
        assert(t[4].0[1] != t[8].0[1]);
        assert(t[5].0[1] != t[8].0[1]);
        assert(t[6].0[1] != t[8].0[1]);
        assert(t[7].0[1] != t[8].0[1]);
    } else if i == 9 {
        assert(t[0].0[1] != t[9].0[1]);
        assert(t[1].0[1] != t[9].0[1]);
        assert(t[2].0[1] != t[9].0[1]);
        assert(t[3].0[1] != t[9].0[1]);
        assert(t[4].0[1] != t[9].0[1]);
        assert(t[5].0[1] != t[9].0[1]);
        assert(t[6].0[1] != t[9].0[1]);
        assert(t[7].0[1] != t[9].0[1]);
        assert(t[8].0[1] != t[9].0[1]);
    } else if i == 10 {
        assert(t[0].0[1] != t[10].0[1]);
        assert(t[1].0[1] != t[10].0[1]);
        assert(t[2].0[1] != t[10].0[1]);
        assert(t[3].0[1] != t[10].0[1]);
        assert(t[4].0[1] != t[10].0[1]);
        assert(t[5].0[1] != t[10].0[1]);
        assert(t[6].0[1] != t[10].0[1]);
        assert(t[7].0[1] != t[10].0[1]);
        assert(t[8].0[1] != t[10].0[1]);
        assert(t[9].0[1] != t[10].0[1]);
    } else if i == 11 {
        assert(t[0].0[1] != t[11].0[1]);
        assert(t[1].0[1] != t[11].0[1]);
        assert(t[2].0[1] != t[11].0[1]);
        assert(t[3].0[1] != t[11].0[1]);
        assert(t[4].0[1] != t[11].0[1]);
        assert(t[5].0[1] != t[11].0[1]);
        assert(t[6].0[1] != t[11].0[1]);
        assert(t[7].0[1] != t[11].0[1]);
        assert(t[8].0[1] != t[11].0[1]);
        assert(t[9].0[1] != t[11].0[1]);
        assert(t[10].0[1] != t[11].0[1]);
    } else if i == 12 {
        assert(t[0].0[1] != t[12].0[1]);
        assert(t[1].0[1] != t[12].0[1]);
        assert(t[2].0[1] != t[12].0[1]);
        assert(t[3].0[1] != t[12].0[1]);
        assert(t[4].0[1] != t[12].0[1]);
        assert(t[5].0[1] != t[12].0[1]);
        assert(t[6].0[1] != t[12].0[1]);
        assert(t[7].0[1] != t[12].0[1]);
        assert(t[8].0[1] != t[12].0[1]);
        assert(t[9].0[1] != t[12].0[1]);
        assert(t[10].0[1] != t[12].0[1]);
        assert(t[11].0[1] != t[12].0[1]);
    } else if i == 13 {
        assert(t[0].0[1] != t[13].0[1]);
        assert(t[1].0[1] != t[13].0[1]);
        assert(t[2].0[1] != t[13].0[1]);
        assert(t[3].0[1] != t[13].0[1]);
        assert(t[4].0[1] != t[13].0[1]);
        assert(t[5].0[1] != t[13].0[1]);
        assert(t[6].0[1] != t[13].0[1]);
        assert(t[7].0[1] != t[13].0[1]);
        assert(t[8].0[1] != t[13].0[1]);
        assert(t[9].0[1] != t[13].0[1]);
        assert(t[10].0[1] != t[13].0[1]);
        assert(t[11].0[1] != t[13].0[1]);
        assert(t[12].0[1] != t[13].0[1]);
    } else if i == 14 {
        assert(t[0].0[1] != t[14].0[1]);
        assert(t[1].0[1] != t[14].0[1]);
        assert(t[2].0[1] != t[14].0[1]);
        assert(t[3].0[1] != t[14].0[1]);
        assert(t[4].0[1] != t[14].0[1]);
        assert(t[5].0[1] != t[14].0[1]);
        assert(t[6].0[1] != t[14].0[1]);
        assert(t[7].0[1] != t[14].0[1]);
        assert(t[8].0[1] != t[14].0[1]);
        assert(t[9].0[1] != t[14].0[1]);
        assert(t[10].0[1] != t[14].0[1]);
        assert(t[11].0[1] != t[14].0[1]);
        assert(t[12].0[1] != t[14].0[1]);
        assert(t[13].0[1] != t[14].0[1]);
    }
}

/// The subscript stage turns each single-character subscript, in text with no
/// other `_`, into its subscript character (`x_1` into `x₁`).
pub proof fn lemma_subscript_marks(a: Seq<char>, b: Seq<char>, i: int)
    requires
        0 <= i < subscript_marks().len(),
        free_of(a, '_'),
        free_of(b, '_'),
    ensures
        latex_subscripts(a + subscript_marks()[i].0 + b) == a + subscript_marks()[i].1 + b,
{
    lemma_latex_subscripts_as_rules(a + subscript_marks()[i].0 + b);
    lemma_subscript_marks_no_earlier_equal(i);
    lemma_subscript_marks_are_mark_rules();
    lemma_rules_at_mark(a, b, subscript_marks(), i, 0, '_');
}

fn environments_chars(v: Vec<char>) -> (res: Vec<char>)
    ensures
        res@ == latex_environments(v@),
{
    let v = replace_str(&v, "\\begin{aligned}", "");
    let v = replace_str(&v, "\\end{aligned}", "");
    let v = replace_str(&v, "\\begin{array}", "");
    let v = replace_str(&v, "\\end{array}", "");
    let v = replace_str(&v, "\\begin{equation}", "");
    let v = replace_str(&v, "\\end{equation}", "");
    v
}

fn layout_chars(v: Vec<char>) -> (res: Vec<char>)
    ensures
        res@ == latex_layout(v@),
{
    let v = replace_str(&v, "\\qquad", "      ");
    let v = replace_str(&v, "\\quad", "   ");
    let v = replace_str(&v, "\\,", " ");
    let v = replace_str(&v, "\\;", " ");
    let v = replace_str(&v, "\\!", "");
    let v = replace_str(&v, "&=", " = ");
    let v = replace_str(&v, "&", " ");
    let v = replace_str(&v, "\\\\", "\n");
    let v = replace_str(&v, "\\left(", "(");
    let v = replace_str(&v, "\\right)", ")");
    let v = replace_str(&v, "\\left[", "[");
    let v = replace_str(&v, "\\right]", "]");
    let v = replace_str(&v, "\\left\\{", "{");
    let v = replace_str(&v, "\\right\\}", "}");
    let v = replace_str(&v, "\\cdot", " · ");
    let v = replace_str(&v, "\\times", " × ");
    let v = replace_str(&v, "\\div", " ÷ ");
    v
}

fn greek_lower_chars(v: Vec<char>) -> (res: Vec<char>)
    ensures
        res@ == latex_greek_lower(v@),
{
    let v = replace_str(&v, "\\alpha", "α");
    let v = replace_str(&v, "\\beta", "β");
    let v = replace_str(&v, "\\gamma", "γ");
    let v = replace_str(&v, "\\delta", "δ");
    let v = replace_str(&v, "\\epsilon", "ε");
    let v = replace_str(&v, "\\zeta", "ζ");
    let v = replace_str(&v, "\\eta", "η");
    let v = replace_str(&v, "\\theta", "θ");
    let v = replace_str(&v, "\\iota", "ι");
    let v = replace_str(&v, "\\kappa", "κ");
    let v = replace_str(&v, "\\lambda", "λ");
    let v = replace_str(&v, "\\mu", "μ");
    let v = replace_str(&v, "\\nu", "ν");
    let v = replace_str(&v, "\\xi", "ξ");
    let v = replace_str(&v, "\\pi", "π");
    let v = replace_str(&v, "\\rho", "ρ");
    let v = replace_str(&v, "\\sigma", "σ");
    let v = replace_str(&v, "\\tau", "τ");
    let v = replace_str(&v, "\\upsilon", "υ");
    let v = replace_str(&v, "\\phi", "φ");
    let v = replace_str(&v, "\\chi", "χ");
    let v = replace_str(&v, "\\psi", "ψ");
    let v = replace_str(&v, "\\omega", "ω");
    v
}

fn greek_upper_chars(v: Vec<char>) -> (res: Vec<char>)
    ensures
        res@ == latex_greek_upper(v@),
{
    let v = replace_str(&v, "\\Gamma", "Γ");
    let v = replace_str(&v, "\\Delta", "Δ");
    let v = replace_str(&v, "\\Theta", "Θ");
    let v = replace_str(&v, "\\Lambda", "Λ");
    let v = replace_str(&v, "\\Xi", "Ξ");
    let v = replace_str(&v, "\\Pi", "Π");
    let v = replace_str(&v, "\\Sigma", "Σ");
    let v = replace_str(&v, "\\Phi", "Φ");
    let v = replace_str(&v, "\\Psi", "Ψ");
    let v = replace_str(&v, "\\Omega", "Ω");
    v
}

fn operators_chars(v: Vec<char>) -> (res: Vec<char>)
    ensures
        res@ == latex_operators(v@),
{
    let v = replace_str(&v, "\\infty", "∞");
    let v = replace_str(&v, "\\sqrt", "√");
    let v = replace_str(&v, "\\leftarrow", "←");
    let v = replace_str(&v, "\\leq", "≤");
    let v = replace_str(&v, "\\le", "≤");
    let v = replace_str(&v, "\\geq", "≥");
    let v = replace_str(&v, "\\ge", "≥");
    let v = replace_str(&v, "\\neq", "≠");
    let v = replace_str(&v, "\\ne", "≠");
    let v = replace_str(&v, "\\pm", "±");
    let v = replace_str(&v, "\\mp", "∓");
    let v = replace_str(&v, "\\approx", "≈");
    let v = replace_str(&v, "\\equiv", "≡");
    let v = replace_str(&v, "\\partial", "∂");
    let v = replace_str(&v, "\\nabla", "∇");
    let v = replace_str(&v, "\\sum", "∑");
    let v = replace_str(&v, "\\int", "∫");
    let v = replace_str(&v, "\\prod", "∏");
    let v = replace_str(&v, "\\rightarrow", "→");
    let v = replace_str(&v, "\\to", "→");
    let v = replace_str(&v, "\\Rightarrow", "⇒");
    let v = replace_str(&v, "\\Leftarrow", "⇐");
    let v = replace_str(&v, "\\in", "∈");
    let v = replace_str(&v, "\\notin", "∉");
    let v = replace_str(&v, "\\cap", "∩");
    let v = replace_str(&v, "\\cup", "∪");
    v
}

fn superscripts_chars(v: Vec<char>) -> (res: Vec<char>)
    ensures
        res@ == latex_superscripts(v@),
{
    let v = replace_str(&v, "^0", "⁰");
    let v = replace_str(&v, "^1", "¹");
    let v = replace_str(&v, "^2", "²");
    let v = replace_str(&v, "^3", "³");
    let v = replace_str(&v, "^4", "⁴");
    let v = replace_str(&v, "^5", "⁵");
    let v = replace_str(&v, "^6", "⁶");
    let v = replace_str(&v, "^7", "⁷");
    let v = replace_str(&v, "^8", "⁸");
    let v = replace_str(&v, "^9", "⁹");
    let v = replace_str(&v, "^+", "⁺");
    let v = replace_str(&v, "^-", "⁻");
    let v = replace_str(&v, "^n", "ⁿ");
    let v = replace_str(&v, "^x", "ˣ");
    let v = replace_str(&v, "^t", "ᵗ");
    v
}

fn subscripts_chars(v: Vec<char>) -> (res: Vec<char>)
    ensures
        res@ == latex_subscripts(v@),
{
    let v = replace_str(&v, "_0", "₀");
    let v = replace_str(&v, "_1", "₁");
    let v = replace_str(&v, "_2", "₂");
    let v = replace_str(&v, "_3", "₃");
    let v = replace_str(&v, "_4", "₄");
    let v = replace_str(&v, "_5", "₅");
    let v = replace_str(&v, "_6", "₆");
    let v = replace_str(&v, "_7", "₇");
    let v = replace_str(&v, "_8", "₈");
    let v = replace_str(&v, "_9", "₉");
    let v = replace_str(&v, "_i", "ᵢ");
    let v = replace_str(&v, "_j", "ⱼ");
    let v = replace_str(&v, "_n", "ₙ");
    let v = replace_str(&v, "_m", "ₘ");
    let v = replace_str(&v, "_t", "ₜ");
    v
}

fn braces_chars(v: Vec<char>) -> (res: Vec<char>)
    ensures
        res@ == latex_braces(v@),
{
    let v = replace_str(&v, "{", "");
    let v = replace_str(&v, "}", "");
    v
}

fn symbols_chars(v: Vec<char>) -> (res: Vec<char>)
    ensures
        res@ == latex_symbols(v@),
{
    operators_chars(greek_upper_chars(greek_lower_chars(v)))
}

fn scripts_chars(v: Vec<char>) -> (res: Vec<char>)
    ensures
        res@ == latex_scripts(v@),
{
    let v = braces_chars(subscripts_chars(superscripts_chars(v)));
    trim_chars(&v)
}

/// Removes LaTeX environment markers (`\begin{aligned}`, `\end{equation}`, ...).
pub fn strip_latex_environments(expr: &str) -> (res: String)
    ensures
        res@ == latex_environments(expr@),
{
    string_from_chars(&environments_chars(chars_of(expr)))
}

/// Rewrites spacing commands, alignment markers, line breaks and delimiters.
pub fn rewrite_latex_layout(s: &str) -> (res: String)
    ensures
        res@ == latex_layout(s@),
{
    string_from_chars(&layout_chars(chars_of(s)))
}

/// Rewrites Greek letter, operator and symbol commands to Unicode.
pub fn rewrite_latex_symbols(s: &str) -> (res: String)
    ensures
        res@ == latex_symbols(s@),
{
    string_from_chars(&symbols_chars(chars_of(s)))
}

/// Rewrites sub- and superscripts, removes braces and trims the result.
pub fn rewrite_latex_scripts(s: &str) -> (res: String)
    ensures
        res@ == latex_scripts(s@),
{
    string_from_chars(&scripts_chars(chars_of(s)))
}

/// Translates LaTeX macros, environments, fractions, text blocks, spacing,
/// Greek letters and sub/superscripts into Unicode notation.
pub fn latex_to_unicode(expr: &str) -> (res: String)
    ensures
        res@ == latex_unicode(expr@),
{
    let v = environments_chars(chars_of(expr));
    let v = regex_rewrite_chars(RE_TEXT, v, "$1");
    let v = layout_chars(v);
    let v = regex_rewrite_chars(RE_FRAC, v, "($1 / $2)");
    let v = regex_rewrite_chars(RE_FRAC, v, "($1 / $2)");
    let v = regex_rewrite_chars(RE_FRAC, v, "($1 / $2)");
    let v = symbols_chars(v);
    let v = regex_rewrite_chars(RE_SUB_BRAC, v, "_$1");
    let v = regex_rewrite_chars(RE_SUP_BRAC, v, "^$1");
    string_from_chars(&scripts_chars(v))
}

/// Inline math markup: the Unicode rendering in Markdown italics, padded by spaces.
pub open spec fn inline_math(expr: Seq<char>) -> Seq<char> {
    " *"@ + latex_unicode(expr) + "* "@
}

/// Formats an inline math expression (`$...$`) as italic Unicode text.
pub fn format_inline_math(expr: &str) -> (res: String)
    ensures
        res@ == inline_math(expr@),
{
    let u = latex_to_unicode(expr);
    let mut v = chars_of(" *");
    extend_chars(&mut v, u.as_str());
    extend_chars(&mut v, "* ");
    string_from_chars(&v)
}

/// Formats a display math expression (`$$...$$`): its Unicode rendering.
pub fn format_display_math(expr: &str) -> (res: String)
    ensures
        res@ == latex_unicode(expr@),
{
    latex_to_unicode(expr)
}

} // verus!
