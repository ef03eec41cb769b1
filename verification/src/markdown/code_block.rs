//! Syntax highlighting of fenced code blocks with the `syntect` crate: each
//! highlighted token becomes a `<font color="#rrggbb">` span of HTML-escaped text.
use vstd::prelude::*;
use syntect::easy::HighlightLines;
use syntect::highlighting::{Theme, ThemeSet};
use syntect::parsing::{SyntaxReference, SyntaxSet};
use crate::text::{chars_of, extend_chars, extend_vec, replace_all, replace_str, string_from_chars};

verus! {

// =============================================================================
// Outside types and calls (the `syntect` crate)
// =============================================================================

#[verifier::external_type_specification]
#[verifier::external_body]
pub struct ExSyntaxSet(SyntaxSet);

#[verifier::external_type_specification]
#[verifier::external_body]
pub struct ExSyntaxReference(SyntaxReference);

#[verifier::external_type_specification]
#[verifier::external_body]
pub struct ExThemeSet(ThemeSet);

#[verifier::external_type_specification]
#[verifier::external_body]
pub struct ExTheme(Theme);

#[verifier::external_type_specification]
#[verifier::external_body]
pub struct ExHighlightLines<'a>(HighlightLines<'a>);

/// syntect's built-in language definitions (for lines without their line
/// break); made only by `load_default_syntaxes`.
pub struct DefaultSyntaxes {
    set: SyntaxSet,
}

/// syntect's built-in color themes; made only by `load_default_themes`.
pub struct DefaultThemes {
    set: ThemeSet,
}

/// How a syntax was looked up in the built-in syntaxes.
pub enum SyntaxSource {
    /// By a language token (a file extension or a name), `find_syntax_by_token`.
    Token(Seq<char>),
    /// By the first line of a text (a shebang or mode line), `find_syntax_by_first_line`.
    FirstLine(Seq<char>),
    /// By its name, `find_syntax_by_name`.
    Name(Seq<char>),
}

/// A syntax found in the built-in syntaxes, with how it was found.
pub struct FoundSyntax<'s> {
    syntax: &'s SyntaxReference,
    source: Ghost<SyntaxSource>,
}

impl<'s> FoundSyntax<'s> {
    /// How the syntax was found.
    pub closed spec fn source(&self) -> SyntaxSource {
        self.source@
    }
}

/// A built-in theme, with its name (its key in the theme map).
pub struct FoundTheme<'t> {
    theme: &'t Theme,
    name: Ghost<Seq<char>>,
}

impl<'t> FoundTheme<'t> {
    /// The theme's name.
    pub closed spec fn name(&self) -> Seq<char> {
        self.name@
    }
}

/// What a highlighter has been given: its syntax, its theme and the lines
/// highlighted so far.
pub struct HighlightState {
    pub syntax: SyntaxSource,
    pub theme: Seq<char>,
    pub previous: Seq<Seq<char>>,
}

/// A line-by-line highlighter (`syntect::easy::HighlightLines`) with what
/// it has been given.
pub struct Highlighter<'t> {
    lines: HighlightLines<'t>,
    state: Ghost<HighlightState>,
}

impl<'t> Highlighter<'t> {
    /// The syntax, the theme and the lines highlighted so far.
    pub closed spec fn state(&self) -> HighlightState {
        self.state@
    }
}

/// Name for whether `SyntaxSet::find_syntax_by_token` finds a syntax for
/// `token` in the built-in syntaxes.
pub uninterp spec fn syntect_syntax_by_token(token: Seq<char>) -> bool;

/// Name for whether `SyntaxSet::find_syntax_by_first_line` recognises a
/// syntax from the first line of `text` in the built-in syntaxes.
pub uninterp spec fn syntect_syntax_by_first_line(text: Seq<char>) -> bool;

/// Name for whether `SyntaxSet::find_syntax_by_name` finds a built-in syntax
/// called `name`.
pub uninterp spec fn syntect_syntax_by_name(name: Seq<char>) -> bool;

/// Name for the tokens, as colors and texts, that `HighlightLines::highlight_line`
/// gives for `line` with the built-in syntax found by `syntax` and the built-in
/// theme `theme`, after the lines `previous` were highlighted; `None` for its error.
pub uninterp spec fn syntect_tokens(syntax: SyntaxSource, theme: Seq<char>, previous: Seq<Seq<char>>, line: Seq<char>) -> Option<Seq<TokenView>>;

/// The keys that syntect's documentation lists for the theme map of
/// `ThemeSet::load_defaults`.
pub open spec fn default_theme_name(name: Seq<char>) -> bool {
    ||| name == "base16-ocean.dark"@
    ||| name == "base16-eighties.dark"@
    ||| name == "base16-mocha.dark"@
    ||| name == "base16-ocean.light"@
    ||| name == "InspiredGitHub"@
    ||| name == "Solarized (dark)"@
    ||| name == "Solarized (light)"@
}

/// `SyntaxSet::load_defaults_newlines`: syntect's built-in language definitions.
#[verifier::external_body]
fn load_default_syntaxes() -> DefaultSyntaxes {
    DefaultSyntaxes { set: SyntaxSet::load_defaults_newlines() }
}

/// `ThemeSet::load_defaults`: syntect's built-in color themes.
#[verifier::external_body]
fn load_default_themes() -> DefaultThemes {
    DefaultThemes { set: ThemeSet::load_defaults() }
}

/// `SyntaxSet::find_syntax_by_token`: the syntax whose extension or name
/// matches `token`. Whether one is found is named `syntect_syntax_by_token`.
#[verifier::external_body]
fn find_syntax_by_token<'s>(syntaxes: &'s DefaultSyntaxes, token: &str) -> (res: Option<FoundSyntax<'s>>)
    ensures
        res is Some <==> syntect_syntax_by_token(token@),
        res matches Some(f) ==> f.source() == SyntaxSource::Token(token@),
{
    syntaxes.set.find_syntax_by_token(token).map(|syntax| FoundSyntax { syntax, source: Ghost(SyntaxSource::Token(token@)) })
}

/// `SyntaxSet::find_syntax_by_first_line`: the syntax recognised from the
/// first line of `text`. Whether one is found is named `syntect_syntax_by_first_line`.
#[verifier::external_body]
fn find_syntax_by_first_line<'s>(syntaxes: &'s DefaultSyntaxes, text: &str) -> (res: Option<FoundSyntax<'s>>)
    ensures
        res is Some <==> syntect_syntax_by_first_line(text@),
        res matches Some(f) ==> f.source() == SyntaxSource::FirstLine(text@),
{
    syntaxes.set.find_syntax_by_first_line(text).map(|syntax| FoundSyntax { syntax, source: Ghost(SyntaxSource::FirstLine(text@)) })
}

/// `SyntaxSet::find_syntax_by_name`: the syntax called `name`. Whether one is
/// found is named `syntect_syntax_by_name`.
#[verifier::external_body]
fn find_syntax_by_name<'s>(syntaxes: &'s DefaultSyntaxes, name: &str) -> (res: Option<FoundSyntax<'s>>)
    ensures
        res is Some <==> syntect_syntax_by_name(name@),
        res matches Some(f) ==> f.source() == SyntaxSource::Name(name@),
{
    syntaxes.set.find_syntax_by_name(name).map(|syntax| FoundSyntax { syntax, source: Ghost(SyntaxSource::Name(name@)) })
}

/// The theme called `name` in the `themes` map (`BTreeMap::get`); by syntect's
/// documentation of `ThemeSet::load_defaults`, it is there for the listed names.
#[verifier::external_body]
fn theme_by_name<'t>(themes: &'t DefaultThemes, name: &str) -> (res: Option<FoundTheme<'t>>)
    ensures
        default_theme_name(name@) ==> res is Some,
        res matches Some(f) ==> f.name() == name@,
{
    themes.set.themes.get(name).map(|theme| FoundTheme { theme, name: Ghost(name@) })
}

/// The first theme, in name order, of the `themes` map (`iter().next()`),
/// with its key.
#[verifier::external_body]
fn first_theme<'t>(themes: &'t DefaultThemes) -> (res: Option<FoundTheme<'t>>) {
    themes.set.themes.iter().next().map(|(key, theme)| FoundTheme { theme, name: Ghost(key@) })
}

/// `HighlightLines::new`: a line-by-line highlighter for a syntax in a theme,
/// which has highlighted no line yet.
#[verifier::external_body]
fn new_highlighter<'t>(syntax: &FoundSyntax, theme: &FoundTheme<'t>) -> (res: Highlighter<'t>)
    ensures
        res.state() == (HighlightState { syntax: syntax.source(), theme: theme.name(), previous: Seq::empty() }),
{
    Highlighter {
        lines: HighlightLines::new(syntax.syntax, theme.theme),
        state: Ghost(HighlightState { syntax: syntax.source(), theme: theme.name(), previous: Seq::empty() }),
    }
}

/// `HighlightLines::highlight_line`: the styled tokens of the next line, each
/// as its foreground color and its text, named `syntect_tokens`; `None` for
/// syntect's error. syntect's documentation states that the token texts,
/// concatenated, make the line.
#[verifier::external_body]
fn highlight_line(h: &mut Highlighter, line: &str, syntaxes: &DefaultSyntaxes) -> (res: Option<Vec<StyledSpan>>)
    ensures
        final(h).state() == (HighlightState { previous: old(h).state().previous.push(line@), ..old(h).state() }),
        option_tokens(res) == syntect_tokens(old(h).state().syntax, old(h).state().theme, old(h).state().previous, line@),
        res matches Some(spans) ==> span_texts(spans_view(spans@)) == line@,
{
    h.state = Ghost(HighlightState { previous: h.state@.previous.push(line@), ..h.state@ });
    h.lines.highlight_line(line, &syntaxes.set).ok().map(|ranges| ranges.into_iter().map(|(style, text)| StyledSpan {
        red: style.foreground.r,
        green: style.foreground.g,
        blue: style.foreground.b,
        text: text.to_string(),
    }).collect())
}

// =============================================================================
// Highlighted tokens and their markup
// =============================================================================

/// A highlighted token: its foreground color and its text.
pub struct StyledSpan {
    pub red: u8,
    pub green: u8,
    pub blue: u8,
    pub text: String,
}

/// A highlighted token as a mathematical value.
pub struct TokenView {
    pub red: u8,
    pub green: u8,
    pub blue: u8,
    pub text: Seq<char>,
}

impl View for StyledSpan {
    type V = TokenView;

    open spec fn view(&self) -> TokenView {
        TokenView { red: self.red, green: self.green, blue: self.blue, text: self.text@ }
    }
}

/// The views of a sequence of tokens.
pub open spec fn spans_view(spans: Seq<StyledSpan>) -> Seq<TokenView> {
    Seq::new(spans.len(), |i: int| spans[i]@)
}

/// The view of a line's highlight result.
pub open spec fn option_tokens(h: Option<Vec<StyledSpan>>) -> Option<Seq<TokenView>> {
    match h {
        Some(spans) => Some(spans_view(spans@)),
        None => None,
    }
}

/// The views of the highlight results of the lines.
pub open spec fn highlights_view(hs: Seq<Option<Vec<StyledSpan>>>) -> Seq<Option<Seq<TokenView>>> {
    Seq::new(hs.len(), |i: int| option_tokens(hs[i]))
}

/// Texts of a sequence of tokens, concatenated.
pub open spec fn span_texts(spans: Seq<TokenView>) -> Seq<char>
    decreases spans.len(),
{
    if spans.len() == 0 {
        Seq::empty()
    } else {
        span_texts(spans.drop_last()) + spans.last().text
    }
}

/// `s` with `&`, `<` and `>` written as HTML character references.
pub open spec fn escaped_html(s: Seq<char>) -> Seq<char> {
    replace_all(replace_all(replace_all(s, "&"@, "&amp;"@), "<"@, "&lt;"@), ">"@, "&gt;"@)
}

/// Lowercase hexadecimal digit for `d` (0 to 15).
pub open spec fn hex_digit(d: int) -> char {
    if d < 10 {
        crate::text::digit_char(d)
    } else if d == 10 {
        'a'
    } else if d == 11 {
        'b'
    } else if d == 12 {
        'c'
    } else if d == 13 {
        'd'
    } else if d == 14 {
        'e'
    } else {
        'f'
    }
}

/// A byte as two lowercase hexadecimal digits (`{:02x}`).
pub open spec fn hex_byte(b: u8) -> Seq<char> {
    seq![hex_digit((b / 16) as int), hex_digit((b % 16) as int)]
}

/// Markup of one token: a font tag in its color around its escaped text.
pub open spec fn span_markup(s: TokenView) -> Seq<char> {
    "<font color=\"#"@ + hex_byte(s.red) + hex_byte(s.green) + hex_byte(s.blue) + "\">"@
        + escaped_html(s.text) + "</font>"@
}

/// Markup of a sequence of tokens.
pub open spec fn spans_markup(spans: Seq<TokenView>) -> Seq<char>
    decreases spans.len(),
{
    if spans.len() == 0 {
        Seq::empty()
    } else {
        spans_markup(spans.drop_last()) + span_markup(spans.last())
    }
}

/// Markup of one line: its tokens when it was highlighted, else the escaped line.
pub open spec fn line_markup(line: Seq<char>, highlighted: Option<Seq<TokenView>>) -> Seq<char> {
    match highlighted {
        Some(spans) => spans_markup(spans),
        None => escaped_html(line),
    }
}

/// The highlight result given for line `i`; none beyond the given results.
pub open spec fn highlight_at(hs: Seq<Option<Seq<TokenView>>>, i: int) -> Option<Seq<TokenView>> {
    if 0 <= i < hs.len() {
        hs[i]
    } else {
        None
    }
}

/// Markup of the lines, each followed by a line break.
pub open spec fn lines_markup(lines: Seq<Seq<char>>, hs: Seq<Option<Seq<TokenView>>>) -> Seq<char>
    decreases lines.len(),
{
    if lines.len() == 0 {
        Seq::empty()
    } else {
        lines_markup(lines.drop_last(), hs) + line_markup(lines.last(), highlight_at(hs, lines.len() - 1))
            + seq!['\n']
    }
}

/// Highlighted markup of a code block: the lines' markup, without its final
/// line break when the code does not end with one.
pub open spec fn code_markup(code: Seq<char>, hs: Seq<Option<Seq<TokenView>>>) -> Seq<char> {
    let m = lines_markup(text_lines(code), hs);
    if !(code.len() > 0 && code.last() == '\n') && m.len() > 0 && m.last() == '\n' {
        m.drop_last()
    } else {
        m
    }
}

/// The named highlight results of the lines of a code block: each line's
/// tokens from a highlighter that was given the lines before it, none for
/// every line when no syntax was found.
pub open spec fn named_highlights(syntax: Option<SyntaxSource>, theme: Seq<char>, lines: Seq<Seq<char>>) -> Seq<Option<Seq<TokenView>>> {
    Seq::new(lines.len(), |i: int| match syntax {
        Some(src) => syntect_tokens(src, theme, lines.take(i), lines[i]),
        None => None,
    })
}

/// The syntax a code block is highlighted with: the one for the language
/// token `lang`, else the one recognised from the code's first line, else
/// `Plain Text`.
pub open spec fn chosen_syntax(lang: Seq<char>, code: Seq<char>) -> Option<SyntaxSource> {
    if syntect_syntax_by_token(lang) {
        Some(SyntaxSource::Token(lang))
    } else if syntect_syntax_by_first_line(code) {
        Some(SyntaxSource::FirstLine(code))
    } else if syntect_syntax_by_name("Plain Text"@) {
        Some(SyntaxSource::Name("Plain Text"@))
    } else {
        None
    }
}

// =============================================================================
// Lines (`str::lines`)
// =============================================================================

/// `line` without one final carriage return.
pub open spec fn strip_cr(line: Seq<char>) -> Seq<char> {
    if line.len() > 0 && line.last() == '\r' {
        line.drop_last()
    } else {
        line
    }
}

/// Lines of `s` after the partial line `cur`: lines end at `\n` (a `\r`
/// before it is dropped), and a final line break starts no new line.
pub open spec fn lines_after(s: Seq<char>, cur: Seq<char>) -> Seq<Seq<char>>
    decreases s.len(),
{
    if s.len() == 0 {
        if cur.len() == 0 {
            Seq::empty()
        } else {
            seq![cur]
        }
    } else if s[0] == '\n' {
        seq![strip_cr(cur)] + lines_after(s.drop_first(), Seq::empty())
    } else {
        lines_after(s.drop_first(), cur.push(s[0]))
    }
}

/// The lines of a text, as `str::lines` splits it.
pub open spec fn text_lines(s: Seq<char>) -> Seq<Seq<char>> {
    lines_after(s, Seq::empty())
}

/// Splits a text into its lines, as `str::lines` does.
pub fn split_lines(s: &str) -> (res: Vec<String>)
    ensures
        res@.len() == text_lines(s@).len(),
        forall|i: int| 0 <= i < res@.len() ==> #[trigger] res@[i]@ == text_lines(s@)[i],
{
    let v = chars_of(s);
    let mut out: Vec<String> = Vec::new();
    let mut cur: Vec<char> = Vec::new();
    let mut i: usize = 0;
    assert(v@.skip(0) == v@);
    while i < v.len()
        invariant
            i <= v.len(),
            v@ == s@,
            ({
                let outs = Seq::new(out@.len(), |k: int| out@[k]@);
                text_lines(s@) == outs + lines_after(v@.skip(i as int), cur@)
            }),
        decreases v.len() - i,
    {
        let ghost outs_before = Seq::new(out@.len(), |k: int| out@[k]@);
        assert(v@.skip(i as int).drop_first() == v@.skip(i + 1));
        if v[i] == '\n' {
            if cur.len() > 0 && cur[cur.len() - 1] == '\r' {
                cur.pop();
            }
            let line = string_from_chars(&cur);
            out.push(line);
            cur = Vec::new();
            let ghost outs_after = Seq::new(out@.len(), |k: int| out@[k]@);
            assert(outs_after == outs_before.push(line@));
        } else {
            cur.push(v[i]);
            let ghost outs_after = Seq::new(out@.len(), |k: int| out@[k]@);
            assert(outs_after == outs_before);
        }
        i += 1;
    }
    assert(v@.skip(i as int) == Seq::<char>::empty());
    let ghost outs_before = Seq::new(out@.len(), |k: int| out@[k]@);
    if cur.len() > 0 {
        let line = string_from_chars(&cur);
        out.push(line);
        let ghost outs_after = Seq::new(out@.len(), |k: int| out@[k]@);
        assert(outs_after == outs_before.push(line@));
        assert(outs_after == text_lines(s@));
    } else {
        assert(outs_before == text_lines(s@));
    }
    out
}

// =============================================================================
// Markup
// =============================================================================

/// Escapes HTML special characters (`&`, `<`, `>`) of a code string.
pub fn escape_html(input: &str) -> (res: String)
    ensures
        res@ == escaped_html(input@),
{
    let v = escape_html_chars(&chars_of(input));
    string_from_chars(&v)
}

fn escape_html_chars(v: &Vec<char>) -> (res: Vec<char>)
    ensures
        res@ == escaped_html(v@),
{
    let a = replace_str(v, "&", "&amp;");
    let b = replace_str(&a, "<", "&lt;");
    replace_str(&b, ">", "&gt;")
}

fn hex_digit_char(d: u8) -> (c: char)
    requires
        d < 16,
    ensures
        c == hex_digit(d as int),
{
    if d == 0 {
        '0'
    } else if d == 1 {
        '1'
    } else if d == 2 {
        '2'
    } else if d == 3 {
        '3'
    } else if d == 4 {
        '4'
    } else if d == 5 {
        '5'
    } else if d == 6 {
        '6'
    } else if d == 7 {
        '7'
    } else if d == 8 {
        '8'
    } else if d == 9 {
        '9'
    } else if d == 10 {
        'a'
    } else if d == 11 {
        'b'
    } else if d == 12 {
        'c'
    } else if d == 13 {
        'd'
    } else if d == 14 {
        'e'
    } else {
        'f'
    }
}

fn push_hex_byte(v: &mut Vec<char>, b: u8)
    ensures
        final(v)@ == old(v)@ + hex_byte(b),
{
    v.push(hex_digit_char(b / 16));
    v.push(hex_digit_char(b % 16));
}

fn push_span_markup(v: &mut Vec<char>, s: &StyledSpan)
    ensures
        final(v)@ == old(v)@ + span_markup(s@),
{
    extend_chars(v, "<font color=\"#");
    push_hex_byte(v, s.red);
    push_hex_byte(v, s.green);
    push_hex_byte(v, s.blue);
    extend_chars(v, "\">");
    let e = escape_html_chars(&chars_of(s.text.as_str()));
    extend_vec(v, &e);
    extend_chars(v, "</font>");
}

fn push_line_markup(v: &mut Vec<char>, line: &str, h: &Option<Vec<StyledSpan>>)
    ensures
        final(v)@ == old(v)@ + line_markup(line@, option_tokens(*h)),
{
    match h {
        Some(spans) => {
            let ghost start = v@;
            let ghost views = spans_view(spans@);
            let mut k: usize = 0;
            while k < spans.len()
                invariant
                    k <= spans.len(),
                    views == spans_view(spans@),
                    v@ == start + spans_markup(views.take(k as int)),
                decreases spans.len() - k,
            {
                assert(views.take(k + 1).drop_last() == views.take(k as int));
                assert(views.take(k + 1).last() == spans@[k as int]@);
                push_span_markup(v, &spans[k]);
                k += 1;
            }
            assert(views.take(spans.len() as int) == views);
        },
        None => {
            let e = escape_html_chars(&chars_of(line));
            extend_vec(v, &e);
        },
    }
}

/// Markup of a code block from the highlight result of each of its lines: a
/// line's colored tokens, or the escaped line where it has none, one line per
/// line break, without a final line break unless the code ends with one.
pub fn render_highlighted_code(code: &str, highlighted: &Vec<Option<Vec<StyledSpan>>>) -> (res: String)
    ensures
        res@ == code_markup(code@, highlights_view(highlighted@)),
{
    let lines = split_lines(code);
    let ghost line_views = Seq::new(lines@.len(), |k: int| lines@[k]@);
    assert(line_views == text_lines(code@));
    let mut v: Vec<char> = Vec::new();
    let mut i: usize = 0;
    while i < lines.len()
        invariant
            i <= lines.len(),
            line_views == text_lines(code@),
            line_views.len() == lines@.len(),
            forall|k: int| 0 <= k < lines@.len() ==> #[trigger] line_views[k] == lines@[k]@,
            v@ == lines_markup(line_views.take(i as int), highlights_view(highlighted@)),
        decreases lines.len() - i,
    {
        assert(line_views.take(i + 1).drop_last() == line_views.take(i as int));
        if i < highlighted.len() {
            push_line_markup(&mut v, lines[i].as_str(), &highlighted[i]);
        } else {
            let none: Option<Vec<StyledSpan>> = None;
            push_line_markup(&mut v, lines[i].as_str(), &none);
        }
        v.push('\n');
        i += 1;
    }
    assert(line_views.take(lines.len() as int) == line_views);
    let code_chars = chars_of(code);
    let ends_with_newline = code_chars.len() > 0 && code_chars[code_chars.len() - 1] == '\n';
    if !ends_with_newline && v.len() > 0 && v[v.len() - 1] == '\n' {
        v.pop();
    }
    string_from_chars(&v)
}

/// Formats a fenced code block with syntax highlighting. The syntax is found
/// from the language token `lang`, else from the code's first line, else it
/// is plain text; the theme is `base16-ocean.dark`, else the first one
/// available. Each line is highlighted after the lines before it; a line that
/// syntect cannot highlight, and every line when no syntax is found, is
/// escaped without color.
pub fn highlight_code_block(code: &str, lang: &str) -> (res: String)
    ensures
        res@ == code_markup(code@, named_highlights(chosen_syntax(lang@, code@), "base16-ocean.dark"@, text_lines(code@))),
        forall|k: int|
            0 <= k < text_lines(code@).len() ==> (#[trigger] named_highlights(
                chosen_syntax(lang@, code@),
                "base16-ocean.dark"@,
                text_lines(code@),
            )[k] matches Some(t) ==> span_texts(t) == text_lines(code@)[k]),
{
    let syntaxes = load_default_syntaxes();
    let themes = load_default_themes();
    let lines = split_lines(code);
    let ghost line_views = Seq::new(lines@.len(), |k: int| lines@[k]@);
    assert(line_views == text_lines(code@));
    let syntax = match find_syntax_by_token(&syntaxes, lang) {
        Some(s) => Some(s),
        None => match find_syntax_by_first_line(&syntaxes, code) {
            Some(s) => Some(s),
            None => find_syntax_by_name(&syntaxes, "Plain Text"),
        },
    };
    let ghost chosen = chosen_syntax(lang@, code@);
    assert(syntax matches Some(f) ==> chosen == Some(f.source()));
    assert(syntax is None ==> chosen is None);
    proof {
        reveal_strlit("base16-ocean.dark");
    }
    let theme = match theme_by_name(&themes, "base16-ocean.dark") {
        Some(t) => Some(t),
        None => first_theme(&themes),
    };
    assert(theme matches Some(t) && t.name() == "base16-ocean.dark"@);
    let ghost named = named_highlights(chosen, "base16-ocean.dark"@, line_views);
    let mut hs: Vec<Option<Vec<StyledSpan>>> = Vec::new();
    match (syntax, theme) {
        (Some(syntax), Some(theme)) => {
            let mut h = new_highlighter(&syntax, &theme);
            assert(theme.name() == "base16-ocean.dark"@);
            assert(line_views.take(0) =~= Seq::<Seq<char>>::empty());
            let mut i: usize = 0;
            while i < lines.len()
                invariant
                    i <= lines.len(),
                    hs@.len() == i,
                    line_views.len() == lines@.len(),
                    forall|k: int| 0 <= k < lines@.len() ==> #[trigger] line_views[k] == lines@[k]@,
                    chosen == Some(syntax.source()),
                    named == named_highlights(chosen, "base16-ocean.dark"@, line_views),
                    h.state() == (HighlightState {
                        syntax: syntax.source(),
                        theme: "base16-ocean.dark"@,
                        previous: line_views.take(i as int),
                    }),
                    forall|k: int| 0 <= k < i ==> #[trigger] option_tokens(hs@[k]) == named[k],
                    forall|k: int| 0 <= k < i ==> (#[trigger] named[k] matches Some(t) ==> span_texts(t) == line_views[k]),
                decreases lines.len() - i,
            {
                assert(line_views.take(i as int).push(line_views[i as int]) == line_views.take(i + 1));
                let r = highlight_line(&mut h, lines[i].as_str(), &syntaxes);
                hs.push(r);
                i += 1;
            }
        },
        _ => {
            let mut i: usize = 0;
            while i < lines.len()
                invariant
                    i <= lines.len(),
                    hs@.len() == i,
                    line_views.len() == lines@.len(),
                    chosen is None,
                    named == named_highlights(chosen, "base16-ocean.dark"@, line_views),
                    forall|k: int| 0 <= k < i ==> #[trigger] option_tokens(hs@[k]) == named[k],
                decreases lines.len() - i,
            {
                hs.push(None);
                i += 1;
            }
        },
    }
    assert(highlights_view(hs@) =~= named);
    assert forall|k: int| 0 <= k < line_views.len() implies (#[trigger] named[k] matches Some(t) ==> span_texts(t) == line_views[k]) by {
        assert(option_tokens(hs@[k]) == named[k]);
    }
    render_highlighted_code(code, &hs)
}

// =============================================================================
// Laws
// =============================================================================

/// Replacing a single character distributes over concatenation.
proof fn lemma_replace_char_concat(x: Seq<char>, y: Seq<char>, c: char, rep: Seq<char>)
    ensures
        replace_all(x + y, seq![c], rep) == replace_all(x, seq![c], rep) + replace_all(y, seq![c], rep),
    decreases x.len(),
{
    let pat = seq![c];
    if x.len() == 0 {
        assert(x + y =~= y);
        assert(replace_all(x, pat, rep) =~= Seq::<char>::empty());
    } else {
        let xy = x + y;
        lemma_replace_char_concat(x.skip(1), y, c, rep);
        assert(xy.skip(1) =~= x.skip(1) + y);
        assert(xy.take(1) =~= x.take(1));
        assert(xy[0] == x[0]);
        if x.take(1) == pat {
            assert(replace_all(xy, pat, rep) == rep + replace_all(xy.skip(1), pat, rep));
            assert(replace_all(x, pat, rep) == rep + replace_all(x.skip(1), pat, rep));
        } else {
            assert(replace_all(xy, pat, rep) == seq![xy[0]] + replace_all(xy.skip(1), pat, rep));
            assert(replace_all(x, pat, rep) == seq![x[0]] + replace_all(x.skip(1), pat, rep));
        }
    }
}

proof fn lemma_escape_patterns()
    ensures
        "&"@ == seq!['&'],
        "<"@ == seq!['<'],
        ">"@ == seq!['>'],
{
    reveal_strlit("&");
    reveal_strlit("<");
    reveal_strlit(">");
    assert("&"@ =~= seq!['&']);
    assert("<"@ =~= seq!['<']);
    assert(">"@ =~= seq!['>']);
}

/// Escaping distributes over concatenation.
proof fn lemma_escaped_concat(x: Seq<char>, y: Seq<char>)
    ensures
        escaped_html(x + y) == escaped_html(x) + escaped_html(y),
{
    lemma_escape_patterns();
    let a1 = replace_all(x, seq!['&'], "&amp;"@);
    let a2 = replace_all(y, seq!['&'], "&amp;"@);
    lemma_replace_char_concat(x, y, '&', "&amp;"@);
    let b1 = replace_all(a1, seq!['<'], "&lt;"@);
    let b2 = replace_all(a2, seq!['<'], "&lt;"@);
    lemma_replace_char_concat(a1, a2, '<', "&lt;"@);
    lemma_replace_char_concat(b1, b2, '>', "&gt;"@);
}

/// A character other than `&`, `<`, `>` is its own escape; nothing escapes to nothing.
proof fn lemma_escaped_plain_char(d: char)
    requires
        d != '&' && d != '<' && d != '>',
    ensures
        escaped_html(seq![d]) == seq![d],
        escaped_html(Seq::<char>::empty()) == Seq::<char>::empty(),
{
    lemma_escape_patterns();
    let e = Seq::<char>::empty();
    assert(replace_all(e, seq!['&'], "&amp;"@) == e);
    assert(replace_all(e, seq!['<'], "&lt;"@) == e);
    assert(replace_all(e, seq!['>'], "&gt;"@) == e);
    assert(seq![d].skip(1) =~= e);
    assert(seq![d].take(1) =~= seq![d]);
    assert(seq![d] + e =~= seq![d]);
    assert(seq![d] != seq!['&']) by {
        assert(seq![d][0] != seq!['&'][0]);
    }
    assert(seq![d] != seq!['<']) by {
        assert(seq![d][0] != seq!['<'][0]);
    }
    assert(seq![d] != seq!['>']) by {
        assert(seq![d][0] != seq!['>'][0]);
    }
    assert(replace_all(seq![d], seq!['&'], "&amp;"@) == seq![d]);
    assert(replace_all(seq![d], seq!['<'], "&lt;"@) == seq![d]);
    assert(replace_all(seq![d], seq!['>'], "&gt;"@) == seq![d]);
}

/// HTML escaping works character by character: `&`, `<` and `>` become
/// `&amp;`, `&lt;` and `&gt;`, every other character stays, and the escape of
/// a concatenation is the concatenation of the escapes.
pub proof fn lemma_escape_html_by_character(x: Seq<char>, y: Seq<char>, d: char)
    ensures
        escaped_html(x + y) == escaped_html(x) + escaped_html(y),
        escaped_html(seq!['&']) == seq!['&', 'a', 'm', 'p', ';'],
        escaped_html(seq!['<']) == seq!['&', 'l', 't', ';'],
        escaped_html(seq!['>']) == seq!['&', 'g', 't', ';'],
        d != '&' && d != '<' && d != '>' ==> escaped_html(seq![d]) == seq![d],
        escaped_html(Seq::<char>::empty()) == Seq::<char>::empty(),
{
    lemma_escaped_concat(x, y);
    lemma_escape_patterns();
    lemma_escaped_plain_char('a');
    if d != '&' && d != '<' && d != '>' {
        lemma_escaped_plain_char(d);
    }
    reveal_strlit("&amp;");
    reveal_strlit("&lt;");
    reveal_strlit("&gt;");
    let e = Seq::<char>::empty();
    assert("&amp;"@ =~= seq!['&', 'a', 'm', 'p', ';']);
    assert("&lt;"@ =~= seq!['&', 'l', 't', ';']);
    assert("&gt;"@ =~= seq!['&', 'g', 't', ';']);
    // `&`
    let amp = seq!['&'];
    assert(amp.take(1) =~= amp);
    assert(amp.skip(1) =~= e);
    assert(replace_all(e, amp, "&amp;"@) == e);
    assert(replace_all(amp, amp, "&amp;"@) =~= "&amp;"@);
    let w = "&amp;"@;
    assert(replace_all(w, seq!['<'], "&lt;"@) == w) by {
        lemma_replace_absent_char(w, '<', "&lt;"@);
    }
    assert(replace_all(w, seq!['>'], "&gt;"@) == w) by {
        lemma_replace_absent_char(w, '>', "&gt;"@);
    }
    // `<`
    let lt = seq!['<'];
    assert(replace_all(lt, amp, "&amp;"@) == lt) by {
        lemma_replace_absent_char(lt, '&', "&amp;"@);
    }
    assert(lt.take(1) =~= lt);
    assert(lt.skip(1) =~= e);
    assert(replace_all(e, lt, "&lt;"@) == e);
    assert(replace_all(lt, lt, "&lt;"@) =~= "&lt;"@);
    assert(replace_all("&lt;"@, seq!['>'], "&gt;"@) == "&lt;"@) by {
        lemma_replace_absent_char("&lt;"@, '>', "&gt;"@);
    }
    // `>`
    let gt = seq!['>'];
    assert(replace_all(gt, amp, "&amp;"@) == gt) by {
        lemma_replace_absent_char(gt, '&', "&amp;"@);
    }
    assert(replace_all(gt, lt, "&lt;"@) == gt) by {
        lemma_replace_absent_char(gt, '<', "&lt;"@);
    }
    assert(gt.take(1) =~= gt);
    assert(gt.skip(1) =~= e);
    assert(replace_all(e, gt, "&gt;"@) == e);
    assert(replace_all(gt, gt, "&gt;"@) =~= "&gt;"@);
}

/// Replacing a character that does not occur changes nothing.
proof fn lemma_replace_absent_char(s: Seq<char>, c: char, rep: Seq<char>)
    requires
        forall|j: int| 0 <= j < s.len() ==> s[j] != c,
    ensures
        replace_all(s, seq![c], rep) == s,
    decreases s.len(),
{
    if s.len() >= 1 {
        assert(s.take(1)[0] != seq![c][0]);
        lemma_replace_absent_char(s.skip(1), c, rep);
        assert(seq![s[0]] + s.skip(1) =~= s);
    }
}

/// Markup of lines where no line was highlighted.
proof fn lemma_lines_markup_unhighlighted(ls: Seq<Seq<char>>, hs: Seq<Option<Seq<TokenView>>>)
    requires
        forall|i: int| 0 <= i < hs.len() ==> #[trigger] hs[i] is None,
    ensures
        lines_markup(ls, hs) == lines_markup(ls, Seq::empty()),
    decreases ls.len(),
{
    if ls.len() > 0 {
        lemma_lines_markup_unhighlighted(ls.drop_last(), hs);
        assert(highlight_at(hs, ls.len() - 1) is None);
    }
}

proof fn lemma_lines_markup_concat(a: Seq<Seq<char>>, b: Seq<Seq<char>>)
    ensures
        lines_markup(a + b, Seq::empty()) == lines_markup(a, Seq::empty()) + lines_markup(b, Seq::empty()),
    decreases b.len(),
{
    let e = Seq::<Option<Seq<TokenView>>>::empty();
    if b.len() == 0 {
        assert(a + b =~= a);
        assert(lines_markup(b, e) =~= Seq::<char>::empty());
    } else {
        lemma_lines_markup_concat(a, b.drop_last());
        assert((a + b).drop_last() =~= a + b.drop_last());
        assert((a + b).last() == b.last());
    }
}

/// The text `x` as unhighlighted markup: escaped, with a line break added
/// when it does not end with one.
pub open spec fn plain_lines_markup(x: Seq<char>) -> Seq<char> {
    if x.len() > 0 && x.last() != '\n' {
        escaped_html(x) + seq!['\n']
    } else {
        escaped_html(x)
    }
}

proof fn lemma_lines_after_markup(s: Seq<char>, cur: Seq<char>)
    requires
        forall|j: int| 0 <= j < s.len() ==> s[j] != '\r',
        forall|j: int| 0 <= j < cur.len() ==> cur[j] != '\r' && cur[j] != '\n',
    ensures
        lines_markup(lines_after(s, cur), Seq::empty()) == plain_lines_markup(cur + s),
    decreases s.len(),
{
    let e = Seq::<Option<Seq<TokenView>>>::empty();
    lemma_escaped_plain_char('\n');
    if s.len() == 0 {
        assert(cur + s =~= cur);
        if cur.len() > 0 {
            assert(lines_markup(seq![cur], e) == lines_markup(Seq::<Seq<char>>::empty(), e) + line_markup(cur, None) + seq!['\n']) by {
                assert(seq![cur].drop_last() =~= Seq::<Seq<char>>::empty());
            }
        }
    } else if s[0] == '\n' {
        let rest = s.drop_first();
        lemma_lines_after_markup(rest, Seq::empty());
        assert(Seq::<char>::empty() + rest =~= rest);
        assert(strip_cr(cur) == cur);
        lemma_lines_markup_concat(seq![cur], lines_after(rest, Seq::empty()));
        assert(lines_markup(seq![cur], e) == escaped_html(cur) + seq!['\n']) by {
            assert(seq![cur].drop_last() =~= Seq::<Seq<char>>::empty());
            assert(seq![cur].last() == cur);
            assert(lines_markup(Seq::<Seq<char>>::empty(), e) == Seq::<char>::empty());
            assert(highlight_at(e, 0) is None);
            assert(Seq::<char>::empty() + escaped_html(cur) + seq!['\n'] =~= escaped_html(cur) + seq!['\n']);
        }
        assert(cur + s =~= (cur + seq!['\n']) + rest);
        lemma_escaped_concat(cur, seq!['\n']);
        lemma_escaped_concat(cur + seq!['\n'], rest);
        if rest.len() == 0 {
            assert((cur + seq!['\n']) + rest =~= cur + seq!['\n']);
        } else {
            assert((cur + s).last() == rest.last());
            lemma_escaped_concat(escaped_html(cur) + seq!['\n'], Seq::empty());
            assert(escaped_html(cur) + seq!['\n'] + (escaped_html(rest) + seq!['\n']) =~= escaped_html(cur) + seq!['\n']
                + escaped_html(rest) + seq!['\n']);
        }
    } else {
        let rest = s.drop_first();
        let c2 = cur.push(s[0]);
        lemma_lines_after_markup(rest, c2);
        assert(c2 + rest =~= cur + s);
    }
}

/// A code block in which no line is highlighted is marked up as its text
/// with `&`, `<` and `>` escaped: every line, blank ones included, keeps its
/// line break, and the last line has one only where the code ends with one.
pub proof fn lemma_unhighlighted_code_markup(code: Seq<char>, hs: Seq<Option<Seq<TokenView>>>)
    requires
        forall|i: int| 0 <= i < hs.len() ==> #[trigger] hs[i] is None,
        forall|j: int| 0 <= j < code.len() ==> code[j] != '\r',
    ensures
        code_markup(code, hs) == escaped_html(code),
{
    lemma_lines_markup_unhighlighted(text_lines(code), hs);
    lemma_lines_after_markup(code, Seq::empty());
    assert(Seq::<char>::empty() + code =~= code);
    let m = lines_markup(text_lines(code), hs);
    lemma_escaped_plain_char('\n');
    if code.len() > 0 && code.last() != '\n' {
        assert(m == escaped_html(code) + seq!['\n']);
        assert(m.drop_last() =~= escaped_html(code));
    }
}

proof fn lemma_concat_contains(a: Seq<char>, b: Seq<char>, x: char)
    ensures
        (a + b).contains(x) <==> (a.contains(x) || b.contains(x)),
{
    let t = a + b;
    if a.contains(x) {
        let k = choose|k: int| 0 <= k < a.len() && a[k] == x;
        assert(t[k] == x);
    }
    if b.contains(x) {
        let k = choose|k: int| 0 <= k < b.len() && b[k] == x;
        assert(t[a.len() + k] == x);
    }
    if t.contains(x) {
        let k = choose|k: int| 0 <= k < t.len() && t[k] == x;
        if k < a.len() {
            assert(a[k] == x);
        } else {
            assert(b[k - a.len()] == x);
        }
    }
}

/// Replacing a character by text without it leaves no occurrence of it.
proof fn lemma_replace_removes(s: Seq<char>, c: char, rep: Seq<char>)
    requires
        !rep.contains(c),
    ensures
        !replace_all(s, seq![c], rep).contains(c),
    decreases s.len(),
{
    if s.len() >= 1 {
        lemma_replace_removes(s.skip(1), c, rep);
        let tail = replace_all(s.skip(1), seq![c], rep);
        if s.take(1) == seq![c] {
            lemma_concat_contains(rep, tail, c);
        } else {
            assert(s.take(1)[0] == s[0]);
            assert(s[0] != c) by {
                if s[0] == c {
                    assert(s.take(1) =~= seq![c]);
                }
            }
            lemma_concat_contains(seq![s[0]], tail, c);
        }
    }
}

/// Replacing a pattern by text without `d` introduces no `d`.
proof fn lemma_replace_keeps_absent(s: Seq<char>, pat: Seq<char>, rep: Seq<char>, d: char)
    requires
        !s.contains(d),
        !rep.contains(d),
    ensures
        !replace_all(s, pat, rep).contains(d),
    decreases s.len(),
{
    if pat.len() > 0 && s.len() >= pat.len() {
        let k = if s.take(pat.len() as int) == pat { pat.len() as int } else { 1 };
        assert(!s.skip(k).contains(d)) by {
            if s.skip(k).contains(d) {
                let j = choose|j: int| 0 <= j < s.skip(k).len() && s.skip(k)[j] == d;
                assert(s[k + j] == d);
            }
        }
        lemma_replace_keeps_absent(s.skip(k), pat, rep, d);
        let tail = replace_all(s.skip(k), pat, rep);
        if s.take(pat.len() as int) == pat {
            lemma_concat_contains(rep, tail, d);
        } else {
            assert(s[0] != d);
            lemma_concat_contains(seq![s[0]], tail, d);
        }
    }
}

/// Escaped text holds no `<` and no `>`: it cannot open or close a markup tag.
pub proof fn lemma_escaped_html_has_no_angle_brackets(s: Seq<char>)
    ensures
        !escaped_html(s).contains('<'),
        !escaped_html(s).contains('>'),
{
    reveal_strlit("&");
    reveal_strlit("&amp;");
    reveal_strlit("<");
    reveal_strlit("&lt;");
    reveal_strlit(">");
    reveal_strlit("&gt;");
    assert("&"@ == seq!['&']);
    assert("<"@ == seq!['<']);
    assert(">"@ == seq!['>']);
    let a = replace_all(s, "&"@, "&amp;"@);
    let b = replace_all(a, "<"@, "&lt;"@);
    assert(!"&lt;"@.contains('<')) by {
        if "&lt;"@.contains('<') {
            let k = choose|k: int| 0 <= k < 4 && "&lt;"@[k] == '<';
        }
    }
    assert(!"&gt;"@.contains('<') && !"&gt;"@.contains('>')) by {
        if "&gt;"@.contains('<') {
            let k = choose|k: int| 0 <= k < 4 && "&gt;"@[k] == '<';
        }
        if "&gt;"@.contains('>') {
            let k = choose|k: int| 0 <= k < 4 && "&gt;"@[k] == '>';
        }
    }
    lemma_replace_removes(a, '<', "&lt;"@);
    lemma_replace_removes(b, '>', "&gt;"@);
    lemma_replace_keeps_absent(b, ">"@, "&gt;"@, '<');
}

} // verus!
