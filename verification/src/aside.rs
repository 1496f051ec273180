//! The aside splitter: separates "reasoning aside" spans, delimited by a
//! literal start and end marker pair, out of a text span. An unterminated
//! aside runs to the end of the input; markers do not nest — the first
//! end marker closes the aside.

use vstd::prelude::*;
use crate::text::{find_from, find_pat, lemma_find_from, sub_vec};

verus! {

/// The marker that opens a reasoning aside.
pub open spec fn open_tag() -> Seq<char> {
    seq!['<', 't', 'h', 'i', 'n', 'k', '>']
}

/// The marker that closes a reasoning aside.
pub open spec fn close_tag() -> Seq<char> {
    seq!['<', '/', 't', 'h', 'i', 'n', 'k', '>']
}

fn open_tag_vec() -> (r: Vec<char>)
    ensures
        r@ == open_tag(),
{
    let mut r: Vec<char> = Vec::new();
    r.push('<');
    r.push('t');
    r.push('h');
    r.push('i');
    r.push('n');
    r.push('k');
    r.push('>');
    proof {
        assert(r@ =~= open_tag());
    }
    r
}

fn close_tag_vec() -> (r: Vec<char>)
    ensures
        r@ == close_tag(),
{
    let mut r: Vec<char> = Vec::new();
    r.push('<');
    r.push('/');
    r.push('t');
    r.push('h');
    r.push('i');
    r.push('n');
    r.push('k');
    r.push('>');
    proof {
        assert(r@ =~= close_tag());
    }
    r
}

/// One span of a text: its content with the markers stripped, and
/// whether it lay inside an aside.
#[derive(PartialEq, Eq, Debug)]
pub struct AsideSpan {
    pub content: Vec<char>,
    pub is_aside: bool,
}

impl View for AsideSpan {
    type V = (Seq<char>, bool);

    open spec fn view(&self) -> (Seq<char>, bool) {
        (self.content@, self.is_aside)
    }
}

pub open spec fn spans_view(v: Seq<AsideSpan>) -> Seq<(Seq<char>, bool)> {
    v.map_values(|a: AsideSpan| a@)
}

/// The splitter from position `pos` on: everything before the next start
/// marker is plain, what follows up to the first end marker (or the end
/// of input) is an aside, and the scan resumes after the end marker.
pub open spec fn split_think_from(s: Seq<char>, pos: int) -> Seq<(Seq<char>, bool)>
    decreases s.len() - pos,
    when 0 <= pos <= s.len()
    via split_think_from_dec
{
    match find_from(s, open_tag(), pos) {
        None => if pos == s.len() {
            Seq::empty()
        } else {
            seq![(s.subrange(pos, s.len() as int), false)]
        },
        Some(st) => {
            let before: Seq<(Seq<char>, bool)> = if st == pos {
                Seq::empty()
            } else {
                seq![(s.subrange(pos, st), false)]
            };
            let ao = st + open_tag().len();
            match find_from(s, close_tag(), ao) {
                None => before + seq![(s.subrange(ao, s.len() as int), true)],
                Some(en) => before + seq![(s.subrange(ao, en), true)] + split_think_from(
                    s,
                    en + close_tag().len(),
                ),
            }
        },
    }
}

#[via_fn]
proof fn split_think_from_dec(s: Seq<char>, pos: int) {
    if 0 <= pos <= s.len() {
        lemma_find_from(s, open_tag(), pos);
        match find_from(s, open_tag(), pos) {
            Some(st) => {
                lemma_find_from(s, close_tag(), st + open_tag().len());
            },
            None => {},
        }
    }
}

/// What the splitter yields on a whole text.
pub open spec fn split_think_spec(s: Seq<char>) -> Seq<(Seq<char>, bool)> {
    split_think_from(s, 0)
}

/// The text with exactly the marker tokens removed, following the same
/// scan the splitter makes.
pub open spec fn strip_think_from(s: Seq<char>, pos: int) -> Seq<char>
    decreases s.len() - pos,
    when 0 <= pos <= s.len()
    via strip_think_from_dec
{
    match find_from(s, open_tag(), pos) {
        None => s.subrange(pos, s.len() as int),
        Some(st) => {
            let ao = st + open_tag().len();
            match find_from(s, close_tag(), ao) {
                None => s.subrange(pos, st) + s.subrange(ao, s.len() as int),
                Some(en) => s.subrange(pos, st) + s.subrange(ao, en) + strip_think_from(
                    s,
                    en + close_tag().len(),
                ),
            }
        },
    }
}

#[via_fn]
proof fn strip_think_from_dec(s: Seq<char>, pos: int) {
    if 0 <= pos <= s.len() {
        lemma_find_from(s, open_tag(), pos);
        match find_from(s, open_tag(), pos) {
            Some(st) => {
                lemma_find_from(s, close_tag(), st + open_tag().len());
            },
            None => {},
        }
    }
}

pub open spec fn strip_think(s: Seq<char>) -> Seq<char> {
    strip_think_from(s, 0)
}

/// The concatenated contents of a list of spans.
pub open spec fn spans_content(sp: Seq<(Seq<char>, bool)>) -> Seq<char>
    decreases sp.len(),
{
    if sp.len() == 0 {
        Seq::empty()
    } else {
        sp[0].0 + spans_content(sp.drop_first())
    }
}

proof fn lemma_spans_content_app(a: Seq<(Seq<char>, bool)>, b: Seq<(Seq<char>, bool)>)
    ensures
        spans_content(a + b) == spans_content(a) + spans_content(b),
    decreases a.len(),
{
    if a.len() == 0 {
        assert(a + b =~= b);
        assert(spans_content(a) + spans_content(b) =~= spans_content(b));
    } else {
        lemma_spans_content_app(a.drop_first(), b);
        assert((a + b).drop_first() =~= a.drop_first() + b);
        assert((a + b)[0] == a[0]);
        assert(a[0].0 + (spans_content(a.drop_first()) + spans_content(b)) =~= (a[0].0
            + spans_content(a.drop_first())) + spans_content(b));
    }
}

proof fn lemma_single_span_content(c: Seq<char>, f: bool)
    ensures
        spans_content(seq![(c, f)]) == c,
{
    let sp = seq![(c, f)];
    assert(sp.drop_first() =~= Seq::<(Seq<char>, bool)>::empty());
    assert(sp[0] == (c, f));
    assert(spans_content(sp) == sp[0].0 + spans_content(sp.drop_first()));
    assert(c + Seq::<char>::empty() =~= c);
}

proof fn lemma_split_strip_from(s: Seq<char>, pos: int)
    requires
        0 <= pos <= s.len(),
    ensures
        spans_content(split_think_from(s, pos)) == strip_think_from(s, pos),
    decreases s.len() - pos,
{
    lemma_find_from(s, open_tag(), pos);
    match find_from(s, open_tag(), pos) {
        None => {
            if pos == s.len() {
                assert(s.subrange(pos, s.len() as int) =~= Seq::<char>::empty());
            } else {
                lemma_single_span_content(s.subrange(pos, s.len() as int), false);
            }
        },
        Some(st) => {
            let ao = st + open_tag().len();
            let before: Seq<(Seq<char>, bool)> = if st == pos {
                Seq::empty()
            } else {
                seq![(s.subrange(pos, st), false)]
            };
            if st == pos {
                assert(s.subrange(pos, st) =~= Seq::<char>::empty());
            } else {
                lemma_single_span_content(s.subrange(pos, st), false);
            }
            assert(spans_content(before) == s.subrange(pos, st));
            lemma_find_from(s, close_tag(), ao);
            match find_from(s, close_tag(), ao) {
                None => {
                    lemma_spans_content_app(before, seq![(s.subrange(ao, s.len() as int), true)]);
                    lemma_single_span_content(s.subrange(ao, s.len() as int), true);
                },
                Some(en) => {
                    let aside = seq![(s.subrange(ao, en), true)];
                    let rest = split_think_from(s, en + close_tag().len());
                    lemma_split_strip_from(s, en + close_tag().len());
                    lemma_spans_content_app(before + aside, rest);
                    lemma_spans_content_app(before, aside);
                    lemma_single_span_content(s.subrange(ao, en), true);
                    assert((s.subrange(pos, st) + s.subrange(ao, en)) + strip_think_from(
                        s,
                        en + close_tag().len(),
                    ) =~= s.subrange(pos, st) + s.subrange(ao, en) + strip_think_from(
                        s,
                        en + close_tag().len(),
                    ));
                },
            }
        },
    }
}

/// Aside round-trip: the concatenated span contents reproduce the text
/// with exactly the marker tokens removed.
pub proof fn lemma_aside_roundtrip(s: Seq<char>)
    ensures
        spans_content(split_think_spec(s)) == strip_think(s),
{
    lemma_split_strip_from(s, 0);
}

/// Splits a text into its aside and non-aside spans, in order.
pub fn split_think(text: &Vec<char>) -> (spans: Vec<AsideSpan>)
    ensures
        spans_view(spans@) == split_think_spec(text@),
{
    let ot = open_tag_vec();
    let ct = close_tag_vec();
    let mut spans: Vec<AsideSpan> = Vec::new();
    proof {
        assert(spans_view(spans@) =~= Seq::<(Seq<char>, bool)>::empty());
        assert(spans_view(spans@) + split_think_from(text@, 0) =~= split_think_from(text@, 0));
    }
    let mut pos: usize = 0;
    while pos < text.len()
        invariant
            pos <= text.len(),
            ot@ == open_tag(),
            ct@ == close_tag(),
            split_think_spec(text@) == spans_view(spans@) + split_think_from(text@, pos as int),
        decreases text.len() - pos,
    {
        let ghost pre = spans_view(spans@);
        let ghost cur = split_think_from(text@, pos as int);
        match find_pat(text, &ot, pos) {
            None => {
                let rest = sub_vec(text, pos, text.len());
                spans.push(AsideSpan { content: rest, is_aside: false });
                proof {
                    assert(cur =~= seq![(text@.subrange(pos as int, text@.len() as int), false)]);
                    assert(spans_view(spans@) =~= pre + cur);
                    assert(split_think_from(text@, text@.len() as int) =~= Seq::<(
                        Seq<char>,
                        bool,
                    )>::empty());
                    assert(pre + cur + split_think_from(text@, text@.len() as int) =~= pre + cur);
                }
                pos = text.len();
            },
            Some(st) => {
                let ghost before: Seq<(Seq<char>, bool)> = if st == pos {
                    Seq::empty()
                } else {
                    seq![(text@.subrange(pos as int, st as int), false)]
                };
                if st > pos {
                    let plain = sub_vec(text, pos, st);
                    spans.push(AsideSpan { content: plain, is_aside: false });
                }
                proof {
                    assert(spans_view(spans@) =~= pre + before);
                }
                let ghost pre2 = spans_view(spans@);
                let ao = st + 7;
                match find_pat(text, &ct, ao) {
                    None => {
                        let inner = sub_vec(text, ao, text.len());
                        spans.push(AsideSpan { content: inner, is_aside: true });
                        proof {
                            assert(cur == before + seq![
                                (text@.subrange(ao as int, text@.len() as int), true),
                            ]);
                            assert(spans_view(spans@) =~= pre2 + seq![
                                (text@.subrange(ao as int, text@.len() as int), true),
                            ]);
                            assert(spans_view(spans@) =~= pre + cur);
                            assert(split_think_from(text@, text@.len() as int) =~= Seq::<(
                                Seq<char>,
                                bool,
                            )>::empty());
                            assert(pre + cur + split_think_from(text@, text@.len() as int) =~= pre
                                + cur);
                        }
                        pos = text.len();
                    },
                    Some(en) => {
                        let inner = sub_vec(text, ao, en);
                        spans.push(AsideSpan { content: inner, is_aside: true });
                        proof {
                            assert(cur == before + seq![(text@.subrange(ao as int, en as int), true)]
                                + split_think_from(text@, en + close_tag().len()));
                            assert(spans_view(spans@) =~= pre2 + seq![
                                (text@.subrange(ao as int, en as int), true),
                            ]);
                            assert(pre + (before + seq![(text@.subrange(ao as int, en as int), true)])
                                + split_think_from(text@, en + 8) =~= pre + (before + seq![
                                (text@.subrange(ao as int, en as int), true),
                            ] + split_think_from(text@, en + 8)));
                        }
                        pos = en + 8;
                    },
                }
            },
        }
    }
    proof {
        assert(split_think_from(text@, pos as int) =~= Seq::<(Seq<char>, bool)>::empty());
        assert(spans_view(spans@) + split_think_from(text@, pos as int) =~= spans_view(spans@));
    }
    spans
}

} // verus!
