//! The event-driven pipeline: both byte scanners and the grouping pass.

use textile::pulp::first_pass::{FirstPassNode, PulpFirstPass};
use textile::pulp::pass_1::{FirstPass, FirstPassEvent};
use textile::pulp::pass_2::{SecondPass, SecondPassEvent};

#[test]
fn first_pass_implicit_paragraph() {
    let mut pulp = PulpFirstPass::new("A paragraph.\n\nAnd a paragraph with\na line break.");
    assert!(matches!(pulp.next(), Some(FirstPassNode::Text(0, 12))));
    assert!(matches!(pulp.next(), Some(FirstPassNode::Break(12, 14))));
    assert!(matches!(pulp.next(), Some(FirstPassNode::Text(14, 34))));
    assert!(matches!(pulp.next(), Some(FirstPassNode::NewLine(34, 35))));
    assert!(matches!(pulp.next(), Some(FirstPassNode::Text(35, 48))));
    assert!(matches!(pulp.next(), None));
}

#[test]
fn first_pass_bulleted_list() {
    let mut pulp = PulpFirstPass::new("* Item A\n** Item A1\n** Item A2\nItem B\nItem C\n");
    assert!(matches!(pulp.next(), Some(FirstPassNode::Text(0, 8))));
    assert!(matches!(pulp.next(), Some(FirstPassNode::NewLine(8, 9))));
    assert!(matches!(pulp.next(), Some(FirstPassNode::Text(9, 19))));
    assert!(matches!(pulp.next(), Some(FirstPassNode::NewLine(19, 20))));
    assert!(matches!(pulp.next(), Some(FirstPassNode::Text(20, 30))));
    assert!(matches!(pulp.next(), Some(FirstPassNode::NewLine(30, 31))));
    assert!(matches!(pulp.next(), Some(FirstPassNode::Text(31, 37))));
    assert!(matches!(pulp.next(), Some(FirstPassNode::NewLine(37, 38))));
    assert!(matches!(pulp.next(), Some(FirstPassNode::Text(38, 44))));
    assert!(matches!(pulp.next(), Some(FirstPassNode::NewLine(44, 45))));
    assert!(matches!(pulp.next(), None));
}

#[test]
fn pass_1_implicit_paragraph() {
    let mut pulp = FirstPass::new("A paragraph.\n\nAnd a paragraph with\na line break.");
    assert!(matches!(pulp.next(), Some(FirstPassEvent::Line(0, 12))));
    assert!(matches!(pulp.next(), Some(FirstPassEvent::Break(12, 14))));
    assert!(matches!(pulp.next(), Some(FirstPassEvent::Line(14, 34))));
    assert!(matches!(pulp.next(), Some(FirstPassEvent::NewLine(34, 35))));
    assert!(matches!(pulp.next(), Some(FirstPassEvent::Line(35, 48))));
    assert!(matches!(pulp.next(), None));
}

#[test]
fn pass_1_bulleted_list() {
    let mut pulp = FirstPass::new("* Item A\n** Item A1\n** Item A2\nItem B\nItem C\n");
    assert!(matches!(pulp.next(), Some(FirstPassEvent::Line(0, 8))));
    assert!(matches!(pulp.next(), Some(FirstPassEvent::NewLine(8, 9))));
    assert!(matches!(pulp.next(), Some(FirstPassEvent::Line(9, 19))));
    assert!(matches!(pulp.next(), Some(FirstPassEvent::NewLine(19, 20))));
    assert!(matches!(pulp.next(), Some(FirstPassEvent::Line(20, 30))));
    assert!(matches!(pulp.next(), Some(FirstPassEvent::NewLine(30, 31))));
    assert!(matches!(pulp.next(), Some(FirstPassEvent::Line(31, 37))));
    assert!(matches!(pulp.next(), Some(FirstPassEvent::NewLine(37, 38))));
    assert!(matches!(pulp.next(), Some(FirstPassEvent::Line(38, 44))));
    assert!(matches!(pulp.next(), Some(FirstPassEvent::NewLine(44, 45))));
    assert!(matches!(pulp.next(), None));
}

#[test]
fn starting_blank_line() {
    let mut pulp = FirstPass::new("\nHello");
    assert!(matches!(pulp.next(), Some(FirstPassEvent::NewLine(0, 1))));
    assert!(matches!(pulp.next(), Some(FirstPassEvent::Line(1, 6))));
}

#[test]
fn starting_blank_lines() {
    let mut pulp = FirstPass::new("\n\nHello");
    assert!(matches!(pulp.next(), Some(FirstPassEvent::Break(0, 2))));
    assert!(matches!(pulp.next(), Some(FirstPassEvent::Line(2, 7))));
}

#[test]
fn pass_2_implicit_paragraph() {
    let mut pulp = SecondPass::new("A paragraph");
    assert!(matches!(pulp.next(), Some(SecondPassEvent::Paragraph)));
    assert!(matches!(pulp.next(), Some(SecondPassEvent::Text(0, 11))));
    assert!(matches!(pulp.next(), Some(SecondPassEvent::ParagraphEnd)));
    assert!(matches!(pulp.next(), None));
}

#[test]
fn pass_2_implicit_paragraphs() {
    let mut pulp = SecondPass::new("Paragraph 1\n\nParagraph 2");
    assert!(matches!(pulp.next(), Some(SecondPassEvent::Paragraph)));
    assert!(matches!(pulp.next(), Some(SecondPassEvent::Text(0, 11))));
    assert!(matches!(pulp.next(), Some(SecondPassEvent::ParagraphEnd)));
    assert!(matches!(pulp.next(), Some(SecondPassEvent::Paragraph)));
    assert!(matches!(pulp.next(), Some(SecondPassEvent::Text(13, 24))));
    assert!(matches!(pulp.next(), Some(SecondPassEvent::ParagraphEnd)));
    assert!(matches!(pulp.next(), None));
}

#[test]
fn paragraph_and_not_a_paragraph() {
    let mut pulp = SecondPass::new("Paragraph and newline\np. with fake");
    assert!(matches!(pulp.next(), Some(SecondPassEvent::Paragraph)));
    assert!(matches!(pulp.next(), Some(SecondPassEvent::Text(0, 21))));
    assert!(matches!(pulp.next(), Some(SecondPassEvent::LineBreak(21, 22))));
    assert!(matches!(pulp.next(), Some(SecondPassEvent::Text(22, 34))));
    assert!(matches!(pulp.next(), Some(SecondPassEvent::ParagraphEnd)));
    assert!(matches!(pulp.next(), None));
}
