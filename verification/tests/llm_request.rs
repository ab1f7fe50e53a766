use koala::llm::request::{context_size, image_cost, is_deepseek, message_size, request_messages};
use koala::llm::{ImageAttachment, Message};

fn image(width: u32, height: u32) -> ImageAttachment {
    ImageAttachment { data_url: "data:image/png;base64,AQID".into(), width, height }
}

#[test]
fn reasoning_compatibility_is_scoped_to_deepseek_and_preserves_existing_values() {
    let mut original = Message::assistant("answer");
    original.reasoning_content = Some("full original reasoning".into());
    let messages = vec![Message::user("question"), Message::assistant("synthetic"), original];
    let generic = request_messages("https://gateway.example/v1", "other-model", messages.clone());
    assert!(generic[1].reasoning_content.is_none());
    let prepared = request_messages("https://gateway.example/v1", "vendor/DeepSeek-v4-flash", messages.clone());
    assert_eq!(prepared[1].reasoning_content.as_deref(), Some(""));
    assert_eq!(prepared[2].reasoning_content, messages[2].reasoning_content);
    assert!(prepared[0].reasoning_content.is_none());
    let native = request_messages("https://api.deepseek.com/v1", "alias", messages.clone());
    assert_eq!(native[1].reasoning_content.as_deref(), Some(""));
    assert!(messages[1].reasoning_content.is_none());
}

#[test]
fn deepseek_detection() {
    assert!(is_deepseek("https://api.deepseek.com", "x"));
    assert!(is_deepseek("not a url", "DEEPSEEK-chat"));
    assert!(!is_deepseek("https://deepseek.example.com/v1", "gpt"));
    assert!(!is_deepseek("not a url", "deep-seek"));
}

#[test]
fn image_budget_accepts_a_4k_screenshot_without_counting_full_resolution_tiles() {
    let message = Message::user_with_images("describe", vec![image(3840, 2160)]);
    let json = r#"{"role":"user","content":"describe"}"#;
    let size = context_size(&vec![message_size(json.len(), &message.images)]);
    assert!(size + 4096 < 40_000);
}

#[test]
fn image_context_estimate_ignores_base64_transport_length() {
    let plain = r#"{"role":"user","content":"hello"}"#;
    assert_eq!(
        context_size(&vec![message_size(plain.len(), &vec![])]),
        format!("[{plain}]").len()
    );
    let json = r#"{"role":"user","content":"look"}"#;
    let mut message = Message::user_with_images("look", vec![image(1920, 1080)]);
    let before = context_size(&vec![message_size(json.len(), &message.images)]);
    message.images[0].data_url.push_str(&"A".repeat(1_000_000));
    assert_eq!(context_size(&vec![message_size(json.len(), &message.images)]), before);
    assert!(before < 40_000);
}

#[test]
fn image_costs_follow_scaled_tiles() {
    // 1920x1080 scales to 2048x1152: 4 by 3 tiles.
    assert_eq!(image_cost(&image(1920, 1080)), 1024 + 12 * 1024);
    // Small images are not scaled up: one tile.
    assert_eq!(image_cost(&image(2, 3)), 2048);
    // 3840x2160 scales to 2048x1152 as well.
    assert_eq!(image_cost(&image(3840, 2160)), 1024 + 12 * 1024);
    assert_eq!(image_cost(&image(0, 0)), 1024);
    assert_eq!(image_cost(&image(u32::MAX, u32::MAX)), 1024 + 16 * 1024);
}

#[test]
fn sizes_saturate() {
    assert_eq!(context_size(&vec![]), 1);
    assert_eq!(context_size(&vec![usize::MAX, 5]), usize::MAX);
    assert_eq!(message_size(usize::MAX - 1, &vec![image(10, 10)]), usize::MAX);
}
