//! The line composer: turns a message into wrapped, styled display
//! lines. Prose is wrapped at the display width, asides are dimmed,
//! fence-marker lines keep their own style, and code bodies are handed
//! to the highlighting service line by line.

use vstd::prelude::*;
use vstd::string::StringExecFns;
use syntect::easy::HighlightLines;
use syntect::util::LinesWithEndings;
use crate::aside::{split_think, split_think_spec, AsideSpan};
use crate::config::{model_label, model_label_spec};
use crate::scanner::{opt_view, parse_fences, scan_spec, segs_view, SegView, Segment};
use crate::text::{
    chars_of, concat_all, find_nl, is_prefix, split_lines, split_sep_from, starts_with_chars,
    string_from_chars, sub_vec, views_of,
};

verus! {

/// The style of one display run.
#[derive(Clone, Copy, PartialEq, Eq, Structural, Debug)]
pub enum StyleTag {
    /// A message under a speaker prefix: the user's own, or the model's.
    Speaker { own: bool },
    Normal,
    FenceMarker,
    Aside,
    SyntaxColor { red: u8, green: u8, blue: u8 },
}

/// One styled run of text.
#[derive(PartialEq, Eq, Debug)]
pub struct Run {
    pub text: Vec<char>,
    pub style: StyleTag,
}

impl View for Run {
    type V = (Seq<char>, StyleTag);

    open spec fn view(&self) -> (Seq<char>, StyleTag) {
        (self.text@, self.style)
    }
}

/// One display line: an ordered sequence of styled runs.
#[derive(PartialEq, Eq, Debug)]
pub struct DisplayLine {
    pub runs: Vec<Run>,
}

impl View for DisplayLine {
    type V = Seq<(Seq<char>, StyleTag)>;

    open spec fn view(&self) -> Seq<(Seq<char>, StyleTag)> {
        self.runs@.map_values(|r: Run| r@)
    }
}

pub open spec fn dls_view(v: Seq<DisplayLine>) -> Seq<Seq<(Seq<char>, StyleTag)>> {
    v.map_values(|d: DisplayLine| d@)
}

/// What the wrapping service yields on one logical line at one width: an
/// ordered list of pieces. A function of the line and the width alone.
pub uninterp spec fn wrap_of(line: Seq<char>, width: int) -> Seq<Seq<char>>;

/// What the highlighting service yields on one code block: per physical
/// line, runs of text each with a foreground color, or no color for a
/// line the service failed on and that is kept verbatim. A function of
/// the language token and the body alone, since the service state is
/// created fresh per block from the bundled assets.
pub uninterp spec fn highlight_of(lang: Option<Seq<char>>, code: Seq<char>) -> Seq<
    Seq<(Seq<char>, Option<(u8, u8, u8)>)>,
>;

/// The concatenated texts of one display line's runs.
pub open spec fn line_content(runs: Seq<(Seq<char>, StyleTag)>) -> Seq<char>
    decreases runs.len(),
{
    if runs.len() == 0 {
        Seq::empty()
    } else {
        runs[0].0 + line_content(runs.drop_first())
    }
}

/// A text without the characters that wrapping may drop: the spaces it
/// trims at breaks and the line feeds it splits at.
pub open spec fn sans_breaks(s: Seq<char>) -> Seq<char> {
    s.filter(|c: char| c != ' ' && c != '\n')
}

/// The view of an optional string.
pub open spec fn opt_str_view(o: &Option<String>) -> Option<Seq<char>> {
    match o {
        Some(s) => Some(s@),
        None => None,
    }
}

pub open spec fn code_run(rt: (Seq<char>, Option<(u8, u8, u8)>)) -> (Seq<char>, StyleTag) {
    match rt.1 {
        Some(c) => (rt.0, StyleTag::SyntaxColor { red: c.0, green: c.1, blue: c.2 }),
        None => (rt.0, StyleTag::Normal),
    }
}

pub open spec fn code_lines(hl: Seq<Seq<(Seq<char>, Option<(u8, u8, u8)>)>>) -> Seq<
    Seq<(Seq<char>, StyleTag)>,
> {
    hl.map_values(
        |line: Seq<(Seq<char>, Option<(u8, u8, u8)>)>|
            line.map_values(|rt: (Seq<char>, Option<(u8, u8, u8)>)| code_run(rt)),
    )
}

/// A piece without its trailing carriage return, if it carried one.
pub open spec fn strip_cr(l: Seq<char>) -> Seq<char> {
    if l.len() > 0 && l.last() == '\r' {
        l.take(l.len() - 1)
    } else {
        l
    }
}

/// The logical lines of a chunk, as the wrapper sees them: split at
/// newlines, the trailing empty piece dropped, and a carriage return
/// stripped before each break — a final piece that had no break keeps
/// its characters.
pub open spec fn logical_lines(s: Seq<char>) -> Seq<Seq<char>> {
    let ps = split_sep_from(s, 0);
    if ps.last().len() == 0 {
        ps.drop_last().map_values(|l: Seq<char>| strip_cr(l))
    } else {
        ps.drop_last().map_values(|l: Seq<char>| strip_cr(l)).push(ps.last())
    }
}

/// Each wrapped piece as one display line with a single uniform run.
pub open spec fn styled_lines(pieces: Seq<Seq<char>>, style: StyleTag) -> Seq<
    Seq<(Seq<char>, StyleTag)>,
> {
    pieces.map_values(|p: Seq<char>| seq![(p, style)])
}

/// The display lines of a list of logical lines, each wrapped.
pub open spec fn wrap_lines(lines: Seq<Seq<char>>, width: int, style: StyleTag) -> Seq<
    Seq<(Seq<char>, StyleTag)>,
>
    decreases lines.len(),
{
    if lines.len() == 0 {
        Seq::empty()
    } else {
        styled_lines(wrap_of(lines[0], width), style) + wrap_lines(
            lines.drop_first(),
            width,
            style,
        )
    }
}

/// The display lines of one text chunk under one style.
pub open spec fn wrap_chunk(chunk: Seq<char>, width: int, style: StyleTag) -> Seq<
    Seq<(Seq<char>, StyleTag)>,
> {
    wrap_lines(logical_lines(chunk), width, style)
}

/// The display lines of a list of aside spans: aside spans take the
/// aside style, the rest the base style.
pub open spec fn compose_spans(
    spans: Seq<(Seq<char>, bool)>,
    base: StyleTag,
    width: int,
) -> Seq<Seq<(Seq<char>, StyleTag)>>
    decreases spans.len(),
{
    if spans.len() == 0 {
        Seq::empty()
    } else {
        let style = if spans[0].1 {
            StyleTag::Aside
        } else {
            base
        };
        wrap_chunk(spans[0].0, width, style) + compose_spans(spans.drop_first(), base, width)
    }
}

/// The display lines of one segment.
pub open spec fn compose_seg(seg: SegView, base: StyleTag, width: int) -> Seq<
    Seq<(Seq<char>, StyleTag)>,
> {
    match seg {
        SegView::Text { content } => compose_spans(split_think_spec(content), base, width),
        SegView::Fence { line } => styled_lines(wrap_of(line, width), StyleTag::FenceMarker),
        SegView::Code { lang, body } => code_lines(highlight_of(lang, body)),
    }
}

pub open spec fn compose_segs(segs: Seq<SegView>, base: StyleTag, width: int) -> Seq<
    Seq<(Seq<char>, StyleTag)>,
>
    decreases segs.len(),
{
    if segs.len() == 0 {
        Seq::empty()
    } else {
        compose_seg(segs[0], base, width) + compose_segs(segs.drop_first(), base, width)
    }
}

/// The base style a message takes from its speaker prefix; neither
/// prefix matching falls back to the normal style. The responder's
/// prefix is tried first.
pub open spec fn base_style(ollama: Seq<char>, you: Seq<char>, msg: Seq<char>) -> StyleTag {
    if is_prefix(ollama + seq![':'], msg) {
        StyleTag::Speaker { own: false }
    } else if is_prefix(you + seq![':'], msg) {
        StyleTag::Speaker { own: true }
    } else {
        StyleTag::Normal
    }
}

/// Everything the composer yields on one message at one width.
pub open spec fn compose_spec(ollama: Seq<char>, you: Seq<char>, msg: Seq<char>, width: int) -> Seq<
    Seq<(Seq<char>, StyleTag)>,
> {
    compose_segs(scan_spec(msg), base_style(ollama, you, msg), width)
}

/// Wrap idempotence: the composer is a pure function of the message,
/// the width and the two labels, so composing the same message twice at
/// the same width yields identical display-line sequences.
pub proof fn lemma_compose_deterministic(
    ollama: Seq<char>,
    you: Seq<char>,
    msg: Seq<char>,
    width: int,
    a: Seq<Seq<(Seq<char>, StyleTag)>>,
    b: Seq<Seq<(Seq<char>, StyleTag)>>,
)
    requires
        a == compose_spec(ollama, you, msg, width),
        b == compose_spec(ollama, you, msg, width),
    ensures
        a == b,
{
}

#[verifier::external_type_specification]
#[verifier::external_body]
pub struct ExSyntaxSet(syntect::parsing::SyntaxSet);

#[verifier::external_type_specification]
#[verifier::external_body]
pub struct ExTheme(syntect::highlighting::Theme);

/// The styling service: the two speaker labels and the highlighting
/// assets. The asset fields are private, so `Styler::new` — which always
/// installs the bundled syntax set and theme — is the only way to build
/// one; that is what lets `highlight_of` depend on the language token
/// and body alone.
pub struct Styler {
    pub ollama_label: String,
    pub you_label: String,
    syntax: syntect::parsing::SyntaxSet,
    theme: syntect::highlighting::Theme,
}

/// Relies on syntect's bundled newline-aware syntax definitions.
#[verifier::external_body]
fn default_syntax_set() -> syntect::parsing::SyntaxSet {
    syntect::parsing::SyntaxSet::load_defaults_newlines()
}

/// Relies on syntect-assets' bundled themes; an unknown name falls back
/// to the default theme rather than failing.
#[verifier::external_body]
fn default_theme() -> syntect::highlighting::Theme {
    syntect_assets::assets::HighlightingAssets::from_binary().get_theme(
        "Visual Studio Dark+",
    ).clone()
}

/// Relies on whoami for the login name. The value depends on the
/// machine and session, so nothing is stated of it.
#[verifier::external_body]
fn login_name() -> Option<String> {
    whoami::username().ok()
}

/// Relies on textwrap::wrap: deterministic word-wrapping of one line to
/// the width, pieces in order; a line with no break point is broken at
/// the width. The only characters it ever discards are spaces (trailing
/// spaces of each piece, the spaces consumed at breaks) and the line
/// feeds it splits the text at; nothing is invented or reordered, so the
/// pieces and the line agree once both are read without those characters.
#[verifier::external_body]
fn wrap_pieces(line: &Vec<char>, width: usize) -> (r: Vec<Vec<char>>)
    ensures
        views_of(r@) == wrap_of(line@, width as int),
        sans_breaks(concat_all(views_of(r@))) == sans_breaks(line@),
{
    let s: String = line.iter().collect();
    textwrap::wrap(&s, width).into_iter().map(|p| p.chars().collect()).collect()
}

impl Styler {
    /// The responder's label, as contracts see it.
    pub closed spec fn spec_ollama_label(&self) -> Seq<char> {
        self.ollama_label@
    }

    /// The user's label, as contracts see it.
    pub closed spec fn spec_you_label(&self) -> Seq<char> {
        self.you_label@
    }

    /// Builds the styler for a configured model name: the model's label
    /// before any separator, the login name as the user's label (a fixed
    /// fallback when none can be read), and the bundled assets.
    pub fn new(model: &String) -> (s: Styler)
        ensures
            s.spec_ollama_label() == model_label_spec(model@),
    {
        let label = model_label(model);
        let you = match login_name() {
            Some(u) => u,
            None => String::from_str("you"),
        };
        Styler {
            ollama_label: label,
            you_label: you,
            syntax: default_syntax_set(),
            theme: default_theme(),
        }
    }

    /// Relies on syntect's HighlightLines, driven over the physical
    /// lines of the block in order. The assets are always the bundled
    /// ones (the fields are private and `new` is the only constructor),
    /// so the outcome is a function of the language token and the body.
    /// Content is never dropped: each physical line, terminator kept,
    /// yields one display line, and syntect's highlight iterator
    /// documents that its tokens concatenate back to the input line; a
    /// line the service fails on is kept verbatim as one unstyled run.
    #[verifier::external_body]
    fn highlight_block(&self, lang: &Option<String>, code: &String) -> (r: Vec<DisplayLine>)
        ensures
            dls_view(r@) == code_lines(highlight_of(opt_str_view(lang), code@)),
            r@.len() == split_lines(code@).len(),
            forall|i: int|
                0 <= i < r@.len() ==> #[trigger] line_content(r@[i]@) == split_lines(code@)[i],
    {
        let sx = lang.as_deref().and_then(|l| self.syntax.find_syntax_by_token(l));
        let sx = sx.unwrap_or_else(|| self.syntax.find_syntax_plain_text());
        let mut h = HighlightLines::new(sx, &self.theme);
        LinesWithEndings::from(code.as_str()).map(|raw| DisplayLine {
            runs: match h.highlight_line(raw, &self.syntax) {
                Ok(rs) => rs.iter().map(|(st, sl)| Run {
                    text: sl.chars().collect(),
                    style: StyleTag::SyntaxColor { red: st.foreground.r, green: st.foreground.g, blue: st.foreground.b },
                }).collect(),
                Err(_) => vec![Run { text: raw.chars().collect(), style: StyleTag::Normal }],
            },
        }).collect()
    }

    /// Composes one message into display lines at the given width,
    /// exactly as `compose_spec` states.
    pub fn style_message(&self, msg: &str, wrap_width: usize) -> (out: Vec<DisplayLine>)
        ensures
            dls_view(out@) == compose_spec(self.spec_ollama_label(), self.spec_you_label(), msg@,
                wrap_width as int),
    {
        let mv = chars_of(msg);
        let mut op = chars_of(self.ollama_label.as_str());
        op.push(':');
        let mut yp = chars_of(self.you_label.as_str());
        yp.push(':');
        proof {
            assert(op@ =~= self.spec_ollama_label() + seq![':']);
            assert(yp@ =~= self.spec_you_label() + seq![':']);
        }
        let base = if starts_with_chars(&mv, &op) {
            StyleTag::Speaker { own: false }
        } else if starts_with_chars(&mv, &yp) {
            StyleTag::Speaker { own: true }
        } else {
            StyleTag::Normal
        };
        let ghost gbase = base_style(self.spec_ollama_label(), self.spec_you_label(), msg@);
        proof {
            assert(base == gbase);
        }
        let segs = parse_fences(&mv);
        let ghost gsegs = scan_spec(msg@);
        let mut out: Vec<DisplayLine> = Vec::new();
        proof {
            assert(gsegs.skip(0) =~= gsegs);
            assert(dls_view(out@) =~= Seq::<Seq<(Seq<char>, StyleTag)>>::empty());
            assert(dls_view(out@) + compose_segs(gsegs, gbase, wrap_width as int) =~= compose_segs(
                gsegs,
                gbase,
                wrap_width as int,
            ));
        }
        let mut i: usize = 0;
        while i < segs.len()
            invariant
                i <= segs.len(),
                base == gbase,
                segs_view(segs@) == gsegs,
                gsegs == scan_spec(msg@),
                gbase == base_style(self.spec_ollama_label(), self.spec_you_label(), msg@),
                compose_spec(self.spec_ollama_label(), self.spec_you_label(), msg@, wrap_width as int)
                    == dls_view(out@) + compose_segs(gsegs.skip(i as int), gbase, wrap_width as int),
            decreases segs.len() - i,
        {
            let ghost rem = gsegs.skip(i as int);
            proof {
                assert(rem[0] == gsegs[i as int]);
                assert(gsegs[i as int] == segs_view(segs@)[i as int]);
                assert(rem.drop_first() =~= gsegs.skip(i + 1));
            }
            let ghost pre = dls_view(out@);
            match &segs[i] {
                Segment::Text(t) => {
                    let spans = split_think(t);
                    let ghost gspans = split_think_spec(t@);
                    proof {
                        assert(gspans.skip(0) =~= gspans);
                        assert(pre + compose_spans(gspans, gbase, wrap_width as int) =~= pre
                            + compose_spans(gspans, gbase, wrap_width as int));
                    }
                    let mut k: usize = 0;
                    while k < spans.len()
                        invariant
                            k <= spans.len(),
                            base == gbase,
                            crate::aside::spans_view(spans@) == gspans,
                            pre + compose_spans(gspans, gbase, wrap_width as int) == dls_view(out@)
                                + compose_spans(gspans.skip(k as int), gbase, wrap_width as int),
                        decreases spans.len() - k,
                    {
                        let ghost srem = gspans.skip(k as int);
                        let sp: &AsideSpan = &spans[k];
                        proof {
                            assert(srem[0] == gspans[k as int]);
                            let kk = k as int;
                            assert(crate::aside::spans_view(spans@)[kk] == spans@[kk]@);
                            assert(srem[0] == (sp.content@, sp.is_aside));
                            assert(srem.drop_first() =~= gspans.skip(k + 1));
                        }
                        let style = if sp.is_aside {
                            StyleTag::Aside
                        } else {
                            base
                        };
                        proof {
                            assert(style == (if srem[0].1 {
                                StyleTag::Aside
                            } else {
                                gbase
                            }));
                            assert(compose_spans(srem, gbase, wrap_width as int) == wrap_chunk(
                                srem[0].0,
                                wrap_width as int,
                                style,
                            ) + compose_spans(srem.drop_first(), gbase, wrap_width as int));
                        }
                        let mut wl = wrap_chunk_exec(&sp.content, wrap_width, style);
                        let ghost pre2 = dls_view(out@);
                        out.append(&mut wl);
                        proof {
                            assert(dls_view(out@) =~= pre2 + wrap_chunk(
                                srem[0].0,
                                wrap_width as int,
                                style,
                            ));
                            assert(pre2 + (wrap_chunk(srem[0].0, wrap_width as int, style)
                                + compose_spans(gspans.skip(k + 1), gbase, wrap_width as int)) =~= (
                            pre2 + wrap_chunk(srem[0].0, wrap_width as int, style)) + compose_spans(
                                gspans.skip(k + 1),
                                gbase,
                                wrap_width as int,
                            ));
                        }
                        k = k + 1;
                    }
                    proof {
                        assert(gspans.skip(spans@.len() as int) =~= Seq::<(Seq<char>, bool)>::empty());
                        assert(dls_view(out@) + Seq::<Seq<(Seq<char>, StyleTag)>>::empty()
                            =~= dls_view(out@));
                    }
                },
                Segment::Fence(l) => {
                    let pieces = wrap_pieces(l, wrap_width);
                    push_styled(&mut out, &pieces, StyleTag::FenceMarker);
                    proof {
                        assert(dls_view(out@) =~= pre + styled_lines(
                            wrap_of(l@, wrap_width as int),
                            StyleTag::FenceMarker,
                        ));
                    }
                },
                Segment::Code { lang, code } => {
                    let lang_s: Option<String> = match lang {
                        Some(lv) => Some(string_from_chars(lv)),
                        None => None,
                    };
                    let code_s = string_from_chars(code);
                    proof {
                        assert(opt_str_view(&lang_s) == opt_view(*lang));
                    }
                    let mut hl = self.highlight_block(&lang_s, &code_s);
                    out.append(&mut hl);
                    proof {
                        assert(dls_view(out@) =~= pre + code_lines(
                            highlight_of(opt_view(*lang), code@),
                        ));
                    }
                },
            }
            proof {
                assert(dls_view(out@) + compose_segs(gsegs.skip(i + 1), gbase, wrap_width as int)
                    =~= pre + (compose_seg(rem[0], gbase, wrap_width as int) + compose_segs(
                    gsegs.skip(i + 1),
                    gbase,
                    wrap_width as int,
                )));
            }
            i = i + 1;
        }
        proof {
            assert(gsegs.skip(segs@.len() as int) =~= Seq::<SegView>::empty());
            assert(dls_view(out@) + Seq::<Seq<(Seq<char>, StyleTag)>>::empty() =~= dls_view(out@));
        }
        out
    }
}

/// Splits a chunk into its logical lines: at newlines, the trailing
/// empty piece dropped, carriage returns before breaks stripped.
fn logical_lines_exec(chunk: &Vec<char>) -> (r: Vec<Vec<char>>)
    ensures
        views_of(r@) == logical_lines(chunk@),
{
    let mut ps: Vec<Vec<char>> = Vec::new();
    let mut pos: usize = 0;
    let mut more: bool = true;
    proof {
        assert(views_of(ps@) =~= Seq::<Seq<char>>::empty());
        assert(views_of(ps@) + split_sep_from(chunk@, 0) =~= split_sep_from(chunk@, 0));
    }
    while more
        invariant
            pos <= chunk.len(),
            more ==> split_sep_from(chunk@, 0) == views_of(ps@) + split_sep_from(
                chunk@,
                pos as int,
            ),
            !more ==> views_of(ps@) == split_sep_from(chunk@, 0),
        decreases (if more {
            chunk@.len() - pos + 1
        } else {
            0int
        }),
    {
        let j = find_nl(chunk, pos);
        let piece = sub_vec(chunk, pos, j);
        let ghost frames = split_sep_from(chunk@, pos as int);
        ps.push(piece);
        if j < chunk.len() {
            proof {
                assert(frames == seq![piece@] + split_sep_from(chunk@, j + 1));
                assert(views_of(ps@) =~= views_of(ps@.drop_last()) + seq![piece@]);
                assert((views_of(ps@.drop_last()) + seq![piece@]) + split_sep_from(chunk@, j + 1)
                    =~= views_of(ps@.drop_last()) + (seq![piece@] + split_sep_from(chunk@, j + 1)));
            }
            pos = j + 1;
        } else {
            more = false;
            proof {
                assert(frames =~= seq![piece@]);
                assert(views_of(ps@) =~= views_of(ps@.drop_last()) + seq![piece@]);
            }
        }
    }
    let ghost full = split_sep_from(chunk@, 0);
    proof {
        assert(full.len() >= 1);
    }
    let ghost before = views_of(ps@);
    let mut strip_last: bool = true;
    if ps[ps.len() - 1].len() == 0 {
        let _ = ps.pop();
        proof {
            assert(views_of(ps@) =~= before.drop_last());
        }
    } else {
        strip_last = false;
    }
    let ghost kept = views_of(ps@);
    let mut r: Vec<Vec<char>> = Vec::new();
    let mut k: usize = 0;
    while k < ps.len()
        invariant
            k <= ps.len(),
            views_of(ps@) == kept,
            full == split_sep_from(chunk@, 0),
            full.len() >= 1,
            strip_last ==> kept == full.drop_last() && full.last().len() == 0,
            !strip_last ==> kept == full && full.last().len() > 0,
            r@.len() == k,
            forall|j: int|
                0 <= j < k ==> (#[trigger] r@[j])@ == (if strip_last || j < kept.len() - 1 {
                    strip_cr(kept[j])
                } else {
                    kept[j]
                }),
        decreases ps.len() - k,
    {
        let piece = &ps[k];
        let n = piece.len();
        let do_strip = strip_last || k + 1 < ps.len();
        let stripped = if do_strip && n > 0 && piece[n - 1] == '\r' {
            sub_vec(piece, 0, n - 1)
        } else {
            sub_vec(piece, 0, n)
        };
        proof {
            assert(piece@ == views_of(ps@)[k as int]);
            if do_strip && n > 0 && piece@.last() == '\r' {
                assert(piece@.subrange(0, n - 1) =~= piece@.take(n - 1));
                assert(stripped@ == strip_cr(kept[k as int]));
            } else {
                assert(piece@.subrange(0, n as int) =~= piece@);
                if do_strip {
                    assert(stripped@ == strip_cr(kept[k as int]));
                }
            }
        }
        r.push(stripped);
        k = k + 1;
    }
    proof {
        let ll = logical_lines(chunk@);
        if strip_last {
            assert(ll == full.drop_last().map_values(|l: Seq<char>| strip_cr(l)));
        } else {
            assert(ll == full.drop_last().map_values(|l: Seq<char>| strip_cr(l)).push(
                full.last(),
            ));
        }
        assert forall|j: int| 0 <= j < r@.len() implies (#[trigger] r@[j])@ == ll[j] by {
            if !strip_last && j == kept.len() - 1 {
                assert(ll[j] == full.last());
            } else {
                assert(ll[j] == strip_cr(full.drop_last()[j]));
                assert(full.drop_last()[j] == kept[j]);
            }
        }
        assert(views_of(r@) =~= ll);
    }
    r
}

/// Pushes each wrapped piece as one single-run display line.
fn push_styled(out: &mut Vec<DisplayLine>, pieces: &Vec<Vec<char>>, style: StyleTag)
    ensures
        dls_view(final(out)@) == dls_view(old(out)@) + styled_lines(views_of(pieces@), style),
{
    let ghost base_len = out@.len();
    let mut k: usize = 0;
    while k < pieces.len()
        invariant
            k <= pieces.len(),
            out@.len() == base_len + k,
            base_len == old(out)@.len(),
            forall|j: int| 0 <= j < base_len ==> out@[j] == old(out)@[j],
            forall|j: int|
                0 <= j < k ==> (#[trigger] out@[base_len + j])@ == seq![
                    (views_of(pieces@)[j], style),
                ],
        decreases pieces.len() - k,
    {
        let piece = sub_vec(&pieces[k], 0, pieces[k].len());
        proof {
            assert(piece@ == views_of(pieces@)[k as int]);
        }
        let mut runs: Vec<Run> = Vec::new();
        runs.push(Run { text: piece, style: style });
        let dl = DisplayLine { runs: runs };
        proof {
            assert(dl.runs@.len() == 1);
            assert(dl@.len() == 1);
            assert(dl@[0] == dl.runs@[0]@);
            assert(dl@ =~= seq![(views_of(pieces@)[k as int], style)]);
        }
        out.push(dl);
        k = k + 1;
    }
    proof {
        let res = dls_view(out@);
        let rhs = dls_view(old(out)@) + styled_lines(views_of(pieces@), style);
        assert forall|i: int| 0 <= i < res.len() implies res[i] == rhs[i] by {
            if i < base_len {
                assert(out@[i] == old(out)@[i]);
            } else {
                assert(out@[base_len + (i - base_len)]@ == seq![
                    (views_of(pieces@)[i - base_len], style),
                ]);
            }
        }
        assert(res =~= rhs);
    }
}

/// Wraps one chunk under one style: its logical lines, each wrapped and
/// emitted as single-run display lines.
fn wrap_chunk_exec(chunk: &Vec<char>, width: usize, style: StyleTag) -> (r: Vec<DisplayLine>)
    ensures
        dls_view(r@) == wrap_chunk(chunk@, width as int, style),
{
    let lines = logical_lines_exec(chunk);
    let ghost glines = logical_lines(chunk@);
    let mut r: Vec<DisplayLine> = Vec::new();
    proof {
        assert(glines.skip(0) =~= glines);
        assert(dls_view(r@) =~= Seq::<Seq<(Seq<char>, StyleTag)>>::empty());
        assert(dls_view(r@) + wrap_lines(glines, width as int, style) =~= wrap_lines(
            glines,
            width as int,
            style,
        ));
    }
    let mut i: usize = 0;
    while i < lines.len()
        invariant
            i <= lines.len(),
            views_of(lines@) == glines,
            wrap_chunk(chunk@, width as int, style) == dls_view(r@) + wrap_lines(
                glines.skip(i as int),
                width as int,
                style,
            ),
        decreases lines.len() - i,
    {
        let ghost rem = glines.skip(i as int);
        proof {
            assert(rem[0] == glines[i as int]);
            assert(glines[i as int] == views_of(lines@)[i as int]);
            assert(rem.drop_first() =~= glines.skip(i + 1));
        }
        let pieces = wrap_pieces(&lines[i], width);
        let ghost pre = dls_view(r@);
        push_styled(&mut r, &pieces, style);
        proof {
            assert(pre + (styled_lines(wrap_of(rem[0], width as int), style) + wrap_lines(
                glines.skip(i + 1),
                width as int,
                style,
            )) =~= (pre + styled_lines(wrap_of(rem[0], width as int), style)) + wrap_lines(
                glines.skip(i + 1),
                width as int,
                style,
            ));
        }
        i = i + 1;
    }
    proof {
        assert(glines.skip(lines@.len() as int) =~= Seq::<Seq<char>>::empty());
        assert(dls_view(r@) + Seq::<Seq<(Seq<char>, StyleTag)>>::empty() =~= dls_view(r@));
    }
    r
}

} // verus!
