//! The segment scanner: classifies a raw message, line by line, into
//! plain text, fence-marker lines and fenced code, never failing on
//! malformed input — an unterminated fence degrades to flushing the
//! trailing content in whichever mode was open.

use vstd::prelude::*;
use crate::text::{
    blank_char, concat_all, is_blank, lemma_split_lines_concat, lemma_trim_start_at, lines_of,
    split_lines, sub_vec, trim_bounds, trim_spec, trim_start_spec, views_of,
};

verus! {

/// A classified slice of a message: plain prose, a fence-marker line
/// kept exactly as read, or the body of a fenced code block with the
/// language token of its opening fence.
#[derive(PartialEq, Eq, Debug)]
pub enum Segment {
    Text(Vec<char>),
    Fence(Vec<char>),
    Code { lang: Option<Vec<char>>, code: Vec<char> },
}

/// The mathematical shape of a segment.
pub enum SegView {
    Text { content: Seq<char> },
    Fence { line: Seq<char> },
    Code { lang: Option<Seq<char>>, body: Seq<char> },
}

pub open spec fn opt_view(o: Option<Vec<char>>) -> Option<Seq<char>> {
    match o {
        Some(v) => Some(v@),
        None => None,
    }
}

impl View for Segment {
    type V = SegView;

    open spec fn view(&self) -> SegView {
        match self {
            Segment::Text(t) => SegView::Text { content: t@ },
            Segment::Fence(l) => SegView::Fence { line: l@ },
            Segment::Code { lang, code } => SegView::Code {
                lang: opt_view(*lang),
                body: code@,
            },
        }
    }
}

pub open spec fn segs_view(v: Seq<Segment>) -> Seq<SegView> {
    v.map_values(|g: Segment| g@)
}

/// A line opens or closes a fence when its content, after leading
/// whitespace, starts with three backticks.
pub open spec fn is_fence_line(line: Seq<char>) -> bool {
    let t = trim_start_spec(line);
    t.len() >= 3 && t[0] == '`' && t[1] == '`' && t[2] == '`'
}

/// The language token of an opening fence line: what follows the three
/// backticks, trimmed; empty means none.
pub open spec fn lang_of(line: Seq<char>) -> Option<Seq<char>> {
    let t = trim_start_spec(line);
    let l = trim_spec(t.subrange(3, t.len() as int));
    if l.len() == 0 {
        None
    } else {
        Some(l)
    }
}

/// The segment that flushing the line buffer yields: nothing when the
/// buffer is empty, a code segment in fence mode, a text segment outside.
pub open spec fn flush_seg(in_code: bool, lang: Option<Seq<char>>, buf: Seq<char>) -> Seq<SegView> {
    if buf.len() == 0 {
        Seq::empty()
    } else if in_code {
        seq![SegView::Code { lang: lang, body: buf }]
    } else {
        seq![SegView::Text { content: buf }]
    }
}

/// The scanner over a list of lines, carrying the open mode, the pending
/// language token and the accumulated buffer.
pub open spec fn scan_lines(
    lines: Seq<Seq<char>>,
    in_code: bool,
    lang: Option<Seq<char>>,
    buf: Seq<char>,
) -> Seq<SegView>
    decreases lines.len(),
{
    if lines.len() == 0 {
        flush_seg(in_code, lang, buf)
    } else {
        let line = lines[0];
        if is_fence_line(line) {
            flush_seg(in_code, lang, buf) + seq![SegView::Fence { line: line }] + scan_lines(
                lines.drop_first(),
                !in_code,
                if in_code {
                    None
                } else {
                    lang_of(line)
                },
                Seq::empty(),
            )
        } else {
            scan_lines(lines.drop_first(), in_code, lang, buf + line)
        }
    }
}

/// What the scanner yields on a whole message.
pub open spec fn scan_spec(s: Seq<char>) -> Seq<SegView> {
    scan_lines(split_lines(s), false, None, Seq::empty())
}

/// The literal content a segment carries.
pub open spec fn seg_content(s: SegView) -> Seq<char> {
    match s {
        SegView::Text { content } => content,
        SegView::Fence { line } => line,
        SegView::Code { lang, body } => body,
    }
}

/// The concatenated contents of a list of segments.
pub open spec fn segs_content(ss: Seq<SegView>) -> Seq<char>
    decreases ss.len(),
{
    if ss.len() == 0 {
        Seq::empty()
    } else {
        seg_content(ss[0]) + segs_content(ss.drop_first())
    }
}

proof fn lemma_segs_content_app(a: Seq<SegView>, b: Seq<SegView>)
    ensures
        segs_content(a + b) == segs_content(a) + segs_content(b),
    decreases a.len(),
{
    if a.len() == 0 {
        assert(a + b =~= b);
        assert(segs_content(a) + segs_content(b) =~= segs_content(b));
    } else {
        lemma_segs_content_app(a.drop_first(), b);
        assert((a + b).drop_first() =~= a.drop_first() + b);
        assert((a + b)[0] == a[0]);
        assert(seg_content(a[0]) + (segs_content(a.drop_first()) + segs_content(b)) =~= (
        seg_content(a[0]) + segs_content(a.drop_first())) + segs_content(b));
    }
}

proof fn lemma_flush_content(in_code: bool, lang: Option<Seq<char>>, buf: Seq<char>)
    ensures
        segs_content(flush_seg(in_code, lang, buf)) == buf,
{
    let f = flush_seg(in_code, lang, buf);
    if buf.len() == 0 {
        assert(segs_content(f) =~= buf);
    } else {
        assert(f.drop_first() =~= Seq::<SegView>::empty());
        assert(seg_content(f[0]) + segs_content(f.drop_first()) =~= buf);
    }
}

proof fn lemma_scan_lines_content(
    lines: Seq<Seq<char>>,
    in_code: bool,
    lang: Option<Seq<char>>,
    buf: Seq<char>,
)
    ensures
        segs_content(scan_lines(lines, in_code, lang, buf)) == buf + concat_all(lines),
    decreases lines.len(),
{
    if lines.len() == 0 {
        lemma_flush_content(in_code, lang, buf);
        assert(buf + concat_all(lines) =~= buf);
    } else {
        let line = lines[0];
        if is_fence_line(line) {
            let nl = if in_code {
                None
            } else {
                lang_of(line)
            };
            let fl = flush_seg(in_code, lang, buf);
            let fe = seq![SegView::Fence { line: line }];
            let rec = scan_lines(lines.drop_first(), !in_code, nl, Seq::empty());
            lemma_scan_lines_content(lines.drop_first(), !in_code, nl, Seq::empty());
            lemma_flush_content(in_code, lang, buf);
            lemma_segs_content_app(fl + fe, rec);
            lemma_segs_content_app(fl, fe);
            assert(fe.drop_first() =~= Seq::<SegView>::empty());
            assert(fe[0] == SegView::Fence { line: line });
            assert(segs_content(fe) == seg_content(fe[0]) + segs_content(fe.drop_first()));
            assert(line + Seq::<char>::empty() =~= line);
            assert(segs_content(fe) == line);
            assert(Seq::<char>::empty() + concat_all(lines.drop_first()) =~= concat_all(
                lines.drop_first(),
            ));
            assert((buf + line) + concat_all(lines.drop_first()) =~= buf + concat_all(lines));
        } else {
            lemma_scan_lines_content(lines.drop_first(), in_code, lang, buf + line);
            assert((buf + line) + concat_all(lines.drop_first()) =~= buf + concat_all(lines));
        }
    }
}

/// Segment round-trip: concatenating the literal content of every
/// segment the scanner yields reproduces the input exactly.
pub proof fn lemma_scan_roundtrip(s: Seq<char>)
    ensures
        segs_content(scan_spec(s)) == s,
{
    lemma_scan_lines_content(split_lines(s), false, None, Seq::empty());
    lemma_split_lines_concat(s, 0);
    assert(s.subrange(0, s.len() as int) =~= s);
    assert(Seq::<char>::empty() + s =~= s);
}

/// Whether a line is a fence line and, if so, its language token.
fn fence_info(line: &Vec<char>) -> (r: (bool, Option<Vec<char>>))
    ensures
        r.0 == is_fence_line(line@),
        r.0 ==> opt_view(r.1) == lang_of(line@),
{
    let mut k: usize = 0;
    while k < line.len() && blank_char(line[k])
        invariant
            k <= line.len(),
            forall|j: int| 0 <= j < k ==> is_blank(line@[j]),
        decreases line.len() - k,
    {
        k = k + 1;
    }
    proof {
        lemma_trim_start_at(line@, k as int);
    }
    let ghost t = trim_start_spec(line@);
    if line.len() - k < 3 {
        return (false, None);
    }
    if !(line[k] == '`' && line[k + 1] == '`' && line[k + 2] == '`') {
        proof {
            assert(t[0] == line@[k as int]);
            assert(t[1] == line@[k + 1]);
            assert(t[2] == line@[k + 2]);
        }
        return (false, None);
    }
    proof {
        assert(t[0] == line@[k as int]);
        assert(t[1] == line@[k + 1]);
        assert(t[2] == line@[k + 2]);
    }
    let (lo, hi) = trim_bounds(line, k + 3, line.len());
    proof {
        assert(t.subrange(3, t.len() as int) =~= line@.subrange(k + 3, line@.len() as int));
    }
    if lo == hi {
        (true, None)
    } else {
        let l = sub_vec(line, lo, hi);
        (true, Some(l))
    }
}

/// Scans a raw message into its ordered segments. Fence-marker lines are
/// kept exactly as read; an unterminated fence is closed implicitly at
/// end of input.
pub fn parse_fences(input: &Vec<char>) -> (segs: Vec<Segment>)
    ensures
        segs_view(segs@) == scan_spec(input@),
{
    let lines = lines_of(input);
    let ghost all = split_lines(input@);
    let mut segs: Vec<Segment> = Vec::new();
    let mut in_code: bool = false;
    let mut lang: Option<Vec<char>> = None;
    let mut buf: Vec<char> = Vec::new();
    proof {
        assert(all.skip(0) =~= all);
        assert(segs_view(segs@) =~= Seq::<SegView>::empty());
        assert(segs_view(segs@) + scan_lines(all, false, None, Seq::<char>::empty()) =~= scan_lines(
            all,
            false,
            None,
            Seq::<char>::empty(),
        ));
    }
    let mut i: usize = 0;
    while i < lines.len()
        invariant
            i <= lines.len(),
            views_of(lines@) == all,
            all == split_lines(input@),
            scan_spec(input@) == segs_view(segs@) + scan_lines(
                all.skip(i as int),
                in_code,
                opt_view(lang),
                buf@,
            ),
        decreases lines.len() - i,
    {
        let ghost rem = all.skip(i as int);
        proof {
            assert(rem.len() == lines@.len() - i);
            assert(rem[0] == views_of(lines@)[i as int]);
            assert(rem.drop_first() =~= all.skip(i + 1));
        }
        let line = &lines[i];
        let (fence, flang) = fence_info(line);
        if fence {
            let ghost pre = segs_view(segs@);
            let ghost fl = flush_seg(in_code, opt_view(lang), buf@);
            if buf.len() > 0 {
                if in_code {
                    segs.push(Segment::Code { lang: lang, code: buf });
                    lang = None;
                } else {
                    segs.push(Segment::Text(buf));
                }
                buf = Vec::new();
                proof {
                    assert(segs_view(segs@) =~= pre + fl);
                }
            } else {
                proof {
                    assert(segs_view(segs@) =~= pre + fl);
                }
            }
            let marker = sub_vec(line, 0, line.len());
            proof {
                assert(marker@ =~= rem[0]);
            }
            segs.push(Segment::Fence(marker));
            proof {
                assert(segs_view(segs@) =~= pre + fl + seq![SegView::Fence { line: rem[0] }]);
            }
            if in_code {
                lang = None;
            } else {
                lang = flang;
            }
            in_code = !in_code;
            proof {
                assert(segs_view(segs@) + scan_lines(
                    all.skip(i + 1),
                    in_code,
                    opt_view(lang),
                    Seq::<char>::empty(),
                ) =~= pre + (fl + seq![SegView::Fence { line: rem[0] }] + scan_lines(
                    all.skip(i + 1),
                    in_code,
                    opt_view(lang),
                    Seq::<char>::empty(),
                )));
            }
        } else {
            let ghost buf0 = buf@;
            proof {
                assert(buf0 + line@.subrange(0, 0) =~= buf0);
            }
            let mut j: usize = 0;
            while j < line.len()
                invariant
                    j <= line.len(),
                    buf@ == buf0 + line@.subrange(0, j as int),
                decreases line.len() - j,
            {
                buf.push(line[j]);
                proof {
                    assert(buf@ =~= buf0 + line@.subrange(0, j + 1));
                }
                j = j + 1;
            }
            proof {
                assert(line@.subrange(0, line@.len() as int) =~= line@);
                assert(buf@ == buf0 + rem[0]);
            }
        }
        i = i + 1;
    }
    proof {
        assert(all.skip(i as int) =~= Seq::<Seq<char>>::empty());
    }
    if buf.len() > 0 {
        let ghost pre = segs_view(segs@);
        let ghost fl = flush_seg(in_code, opt_view(lang), buf@);
        if in_code {
            segs.push(Segment::Code { lang: lang, code: buf });
        } else {
            segs.push(Segment::Text(buf));
        }
        proof {
            assert(segs_view(segs@) =~= pre + fl);
        }
    } else {
        proof {
            assert(segs_view(segs@) + flush_seg(in_code, opt_view(lang), buf@) =~= segs_view(
                segs@,
            ));
        }
    }
    segs
}

} // verus!
