//! Tests of the text pipeline: scanner, aside splitter and composer.

use oma::aside::{split_think, AsideSpan};
use oma::compose::{StyleTag, Styler};
use oma::config::model_label;
use oma::scanner::{parse_fences, Segment};

fn cv(s: &str) -> Vec<char> {
    s.chars().collect()
}

fn seg_content(seg: &Segment) -> Vec<char> {
    match seg {
        Segment::Text(t) => t.clone(),
        Segment::Fence(l) => l.clone(),
        Segment::Code { code, .. } => code.clone(),
    }
}

#[test]
fn unterminated_fence_degrades() {
    let segs = parse_fences(&cv("a\n```py\nprint(1)\n"));
    assert_eq!(
        segs,
        vec![
            Segment::Text(cv("a\n")),
            Segment::Fence(cv("```py\n")),
            Segment::Code { lang: Some(cv("py")), code: cv("print(1)\n") },
        ]
    );
}

#[test]
fn closed_fence_clears_language() {
    let segs = parse_fences(&cv("```rs\nlet x = 1;\n```\nafter\n"));
    assert_eq!(
        segs,
        vec![
            Segment::Fence(cv("```rs\n")),
            Segment::Code { lang: Some(cv("rs")), code: cv("let x = 1;\n") },
            Segment::Fence(cv("```\n")),
            Segment::Text(cv("after\n")),
        ]
    );
}

#[test]
fn fence_without_language() {
    let segs = parse_fences(&cv("```\nx\n```\n"));
    assert_eq!(
        segs,
        vec![
            Segment::Fence(cv("```\n")),
            Segment::Code { lang: None, code: cv("x\n") },
            Segment::Fence(cv("```\n")),
        ]
    );
}

#[test]
fn scan_roundtrip_examples() {
    for input in [
        "",
        "a",
        "a\nb",
        "a\r\nb\r\n",
        "a\n```py\nprint(1)\n",
        "```\ncode\n```\ntail",
        "   ```indented\nbody\n",
        "no fences at all\njust text\n",
    ] {
        let segs = parse_fences(&cv(input));
        let mut joined: Vec<char> = Vec::new();
        for seg in &segs {
            joined.extend(seg_content(seg));
        }
        assert_eq!(joined, cv(input), "round trip failed for {:?}", input);
    }
}

#[test]
fn unterminated_aside() {
    let spans = split_think(&cv("hello <think>partial"));
    assert_eq!(
        spans,
        vec![
            AsideSpan { content: cv("hello "), is_aside: false },
            AsideSpan { content: cv("partial"), is_aside: true },
        ]
    );
}

#[test]
fn nested_looking_asides() {
    let spans = split_think(&cv("<think>a<think>b</think>c"));
    assert_eq!(
        spans,
        vec![
            AsideSpan { content: cv("a<think>b"), is_aside: true },
            AsideSpan { content: cv("c"), is_aside: false },
        ]
    );
}

#[test]
fn empty_unterminated_aside_is_kept() {
    let spans = split_think(&cv("x<think>"));
    assert_eq!(
        spans,
        vec![
            AsideSpan { content: cv("x"), is_aside: false },
            AsideSpan { content: cv(""), is_aside: true },
        ]
    );
}

#[test]
fn aside_roundtrip_examples() {
    for (input, stripped) in [
        ("hello <think>partial", "hello partial"),
        ("<think>a<think>b</think>c", "a<think>bc"),
        ("plain", "plain"),
        ("<think>x</think>", "x"),
        ("a<think>b</think>c<think>d</think>e", "abcde"),
    ] {
        let spans = split_think(&cv(input));
        let mut joined: Vec<char> = Vec::new();
        for sp in &spans {
            joined.extend(sp.content.clone());
        }
        assert_eq!(joined, cv(stripped), "aside round trip failed for {:?}", input);
    }
}

#[test]
fn model_label_cuts_at_separator() {
    assert_eq!(model_label(&"deepseek-r1:1.5b".to_string()), "deepseek-r1");
    assert_eq!(model_label(&"org/model".to_string()), "org");
    assert_eq!(model_label(&"plain".to_string()), "plain");
    assert_eq!(model_label(&"".to_string()), "");
}

#[test]
fn compose_is_idempotent() {
    let styler = Styler::new(&"deepseek-r1:1.5b".to_string());
    let msg = "deepseek-r1: hello <think>hmm</think>\n```py\nprint(1)\n```\ndone";
    let a = styler.style_message(msg, 20);
    let b = styler.style_message(msg, 20);
    assert_eq!(a, b);
}

#[test]
fn compose_wraps_long_lines() {
    let styler = Styler::new(&"m".to_string());
    let lines = styler.style_message("aaa bbb ccc ddd", 4);
    assert!(lines.len() >= 3, "expected the text to wrap into several lines");
    for line in &lines {
        assert_eq!(line.runs.len(), 1);
        assert_eq!(line.runs[0].style, StyleTag::Normal);
    }
}

#[test]
fn compose_keeps_code_content() {
    let styler = Styler::new(&"m".to_string());
    let lines = styler.style_message("```py\nprint(1)\n```\n", 80);
    // The code body is one physical line; its runs concatenate back to it.
    let mut found = false;
    for line in &lines {
        let joined: String = line
            .runs
            .iter()
            .map(|r| r.text.iter().collect::<String>())
            .collect();
        if joined == "print(1)\n" {
            found = true;
            assert!(line
                .runs
                .iter()
                .all(|r| matches!(r.style, StyleTag::SyntaxColor { .. })));
        }
    }
    assert!(found, "the highlighted code line was not emitted");
}

#[test]
fn compose_hard_cuts_unbreakable_lines() {
    let styler = Styler::new(&"m".to_string());
    let lines = styler.style_message("abcdefgh", 3);
    let joined: String = lines
        .iter()
        .flat_map(|l| l.runs.iter())
        .map(|r| r.text.iter().collect::<String>())
        .collect();
    assert_eq!(joined, "abcdefgh");
    for line in &lines {
        assert!(line.runs.iter().map(|r| r.text.len()).sum::<usize>() <= 3);
    }
}

#[test]
fn compose_strips_carriage_returns_before_breaks() {
    let styler = Styler::new(&"m".to_string());
    let lines = styler.style_message("x\r\ny", 80);
    assert_eq!(lines.len(), 2);
    assert_eq!(lines[0].runs[0].text, vec!['x']);
    assert_eq!(lines[1].runs[0].text, vec!['y']);
}

#[test]
fn compose_styles_asides_and_speakers() {
    let styler = Styler::new(&"bot".to_string());
    let lines = styler.style_message("bot: hi <think>why</think>", 80);
    assert!(lines
        .iter()
        .any(|l| l.runs.iter().any(|r| r.style == StyleTag::Aside)));
    assert!(lines
        .iter()
        .any(|l| l.runs.iter().any(|r| r.style == (StyleTag::Speaker { own: false }))));
}
