//! Rendering of markdown, whole and streamed.

use chat_cli::ansi::{
    BLUE, BOLD, BRIGHT_WHITE, CYAN, DIM, GREEN, ITALIC, MAGENTA, RESET, STRIKETHROUGH, WHITE, YELLOW,
};
use chat_cli::render::{format_status_bar, render_markdown};
use chat_cli::stream::{animated_phase_label, StreamPhase, StreamRenderer};

#[test]
fn render_markdown_keeps_thinking_without_markers() {
    let rendered = render_markdown("answer\n<think>\nhello\n</think>\nworld", false);
    assert!(rendered.contains("hello"));
    assert!(rendered.contains("world"));
    assert!(!rendered.contains("Thinking"));
    assert!(!rendered.contains("╭"));
}

#[test]
fn render_markdown_renders_fenced_code_inside_thinking() {
    let rendered = render_markdown(
        "<think>\n```txt\nThis is the overwritten content using overwrite mode.\nLine 2\nLine 3\n```\n</think>\nDone",
        false,
    );
    assert!(rendered.contains("This is the overwritten content using overwrite mode."));
    assert!(rendered.contains("Line "));
    assert!(rendered.contains(&format!("{MAGENTA}2{RESET}")));
    assert!(!rendered.contains("```"));
}

#[test]
fn render_markdown_renders_markdown_list_items() {
    let rendered = render_markdown("- *第一项*\n1. 第二项", false);
    assert!(rendered.contains("•"));
    assert!(rendered.contains("第一项"));
    assert!(rendered.contains("1."));
    assert!(!rendered.contains("- *"));
}

#[test]
fn render_markdown_renders_task_list_items_with_checkboxes() {
    let rendered = render_markdown("- [x] 已完成任务\n- [ ] 未完成任务", false);
    assert!(rendered.contains("☑"));
    assert!(rendered.contains("☐"));
    assert!(rendered.contains("已完成任务"));
    assert!(rendered.contains("未完成任务"));
    assert!(!rendered.contains("[x]"));
    assert!(!rendered.contains("[ ]"));
}

#[test]
fn render_markdown_renders_strikethrough() {
    let rendered = render_markdown("~~删除线文本~~", false);
    assert!(rendered.contains(&format!("{STRIKETHROUGH}删除线文本{RESET}")));
    assert!(!rendered.contains("~~删除线文本~~"));
}

#[test]
fn render_markdown_renders_blockquotes_with_blue_bar() {
    let rendered = render_markdown("> 这是一段引用文本。\n> 可以包含多行。", false);
    assert!(rendered.contains(&format!("{BLUE}│{RESET}")));
    assert!(rendered.contains("这是一段引用文本。"));
    assert!(rendered.contains("可以包含多行。"));
    assert!(!rendered.contains("> 这是一段引用文本。"));
}

#[test]
fn render_markdown_renders_nested_blockquotes_with_multiple_bars() {
    let rendered = render_markdown(">> 第二层引用", false);
    assert!(rendered.contains(&format!("{BLUE}│{RESET} {BLUE}│{RESET}")));
    assert!(rendered.contains("第二层引用"));
    assert!(!rendered.contains(">> 第二层引用"));
}

#[test]
fn render_markdown_renders_bold_italic_inside_blockquote() {
    let rendered = render_markdown("> ***粗斜体***", false);
    assert!(rendered.contains(&format!("{BLUE}│{RESET}")));
    assert!(rendered.contains(&format!("{BOLD}{ITALIC}粗斜体{RESET}")));
    assert!(!rendered.contains("***粗斜体***"));
}

#[test]
fn render_markdown_renders_footnote_references_and_definitions() {
    let rendered = render_markdown("这是一段带有脚注的文本[^1]\n\n[^1]: 这是脚注内容", false);
    assert!(rendered.contains("这是一段带有脚注的文本"));
    assert!(rendered.contains("这是脚注内容"));
    assert!(rendered.contains("⁽¹⁾"));
    assert!(!rendered.contains("[^1]"));
    assert!(!rendered.contains("[^1]:"));
}

#[test]
fn render_markdown_renders_links_with_styled_label_and_url() {
    let rendered = render_markdown("[OpenAI](https://openai.com)", false);
    assert!(rendered.contains("OpenAI"));
    assert!(rendered.contains("<https://openai.com>"));
    assert!(!rendered.contains("[OpenAI](https://openai.com)"));
}

#[test]
fn render_markdown_renders_code_block_with_gutter() {
    let rendered = render_markdown("```rs\nfn main() {}\n```", false);
    assert!(!rendered.contains("▎"));
    assert!(rendered.contains(&format!("{BOLD}{CYAN}fn{RESET}")));
    assert!(rendered.contains("main() {}"));
}

#[test]
fn render_markdown_renders_basic_code_highlighting() {
    let rendered = render_markdown(
        "```rs\nfn main() { let value = \"hi\"; // note\n}\n```",
        false,
    );
    assert!(rendered.contains(&format!("{BOLD}{CYAN}fn{RESET}")));
    assert!(rendered.contains(&format!("{BOLD}{CYAN}let{RESET}")));
    assert!(rendered.contains(&format!("{YELLOW}\"hi\"")));
    assert!(rendered.contains(&format!("{GREEN}// note")));
}

#[test]
fn stream_renderer_reports_phase_transitions() {
    let mut renderer = StreamRenderer::new(false);
    let rendered = renderer.push("<think>\nplan\n</think>\nanswer");
    let phases = renderer.drain_phase_transitions();
    assert_eq!(phases, vec![StreamPhase::Thinking, StreamPhase::Answering]);
    assert!(rendered.contains("plan"));
    assert!(!rendered.contains("Thinking"));
}

#[test]
fn stream_renderer_buffers_partial_answer_without_newline() {
    let mut renderer = StreamRenderer::new(false);
    let rendered = renderer.push("hello");
    assert!(rendered.is_empty(), "partial line should be buffered");
    let flushed = renderer.flush();
    assert!(
        flushed.contains("hello"),
        "flush should output buffered content"
    );
}

#[test]
fn stream_renderer_buffers_partial_thinking_without_newline() {
    let mut renderer = StreamRenderer::new(false);
    let rendered = renderer.push("<think>plan");
    assert!(rendered.is_empty(), "partial thinking should be buffered");
    let flushed = renderer.flush();
    assert!(
        flushed.contains("plan"),
        "flush should output thinking content"
    );
}

#[test]
fn stream_renderer_flushes_blockquote_with_blue_bar() {
    let mut renderer = StreamRenderer::new(false);
    let rendered = renderer.push("> 这是引用");
    assert!(rendered.is_empty(), "partial quote should be buffered");
    let flushed = renderer.flush();
    assert!(flushed.contains(&format!("{BLUE}│{RESET}")));
    assert!(flushed.contains("这是引用"));
    assert!(!flushed.contains("> 这是引用"));
}

#[test]
fn stream_renderer_renders_code_block_with_gutter() {
    let mut renderer = StreamRenderer::new(false);
    let rendered = renderer.push("```rs\nfn main() {}\n```\n");
    assert!(!rendered.contains("▎"));
    assert!(rendered.contains(&format!("{BOLD}{CYAN}fn{RESET}")));
    assert!(rendered.contains("main() {}"));
}

#[test]
fn stream_renderer_renders_basic_code_highlighting() {
    let mut renderer = StreamRenderer::new(false);
    let rendered = renderer.push("```rs\nfn main() { let value = \"hi\"; }\n```\n");
    assert!(rendered.contains(&format!("{BOLD}{CYAN}fn{RESET}")));
    assert!(rendered.contains(&format!("{BOLD}{CYAN}let{RESET}")));
    assert!(rendered.contains(&format!("{YELLOW}\"hi\"")));
}

#[test]
fn format_status_bar_marks_temp_and_saved_sessions() {
    let saved = format_status_bar("deepseek", "deepseek-chat", "sess_01ABCDEF12345678");
    let temp = format_status_bar("deepseek", "deepseek-chat", "tmp_01ABCDEF12345678");
    assert!(saved.contains("[saved]"));
    assert!(temp.contains("[temp]"));
    assert!(saved.contains("01ABCDEF"));
    assert!(temp.contains("tmp_01ABCDEF"));
}

#[test]
fn animated_phase_label_moves_highlight() {
    let first = animated_phase_label(StreamPhase::Thinking, 0);
    let second = animated_phase_label(StreamPhase::Thinking, 1);
    assert_ne!(first, second);
    let plain_first = first
        .replace(BRIGHT_WHITE, "")
        .replace(WHITE, "")
        .replace(BOLD, "")
        .replace(DIM, "")
        .replace(RESET, "");
    let plain_second = second
        .replace(BRIGHT_WHITE, "")
        .replace(WHITE, "")
        .replace(BOLD, "")
        .replace(DIM, "")
        .replace(RESET, "");
    assert_eq!(plain_first, "thinking");
    assert_eq!(plain_second, "thinking");
}
