use llm_os::context::{ContextWindow, Role};

fn text_of_weight(w: usize) -> String {
    "x".repeat(4 * w)
}

#[test]
fn protected_then_external_over_capacity() {
    let mut c = ContextWindow::new(10);
    c.push_message(Role::System, &text_of_weight(3));
    c.push_message(Role::User, &text_of_weight(9));
    assert_eq!(c.current_tokens(), 12);
    assert_eq!(c.total_evicted(), 0);
    assert_eq!(c.message_count(), 2);
}

#[test]
fn oldest_external_evicted_first() {
    let mut c = ContextWindow::new(10);
    c.push_message(Role::System, &text_of_weight(2));
    c.push_message(Role::User, "aaaaaaaaaaaaaaaaaaaa");
    c.push_message(Role::User, "bbbbbbbbbbbbbbbbbbbb");
    assert_eq!(c.current_tokens(), 7);
    assert_eq!(c.total_evicted(), 1);
    assert_eq!(c.message_at(1).content, "bbbbbbbbbbbbbbbbbbbb");
    c.push_message(Role::User, &text_of_weight(4));
    assert_eq!(c.current_tokens(), 6);
    assert_eq!(c.total_evicted(), 2);
    assert_eq!(c.message_count(), 2);
    assert_eq!(c.message_at(0).role, Role::System);
    assert_eq!(c.message_at(1).token_count, 4);
}

#[test]
fn oversized_content_over_only_protected() {
    let mut c = ContextWindow::new(5);
    c.push_message(Role::System, "abcd");
    c.push_message(Role::User, &text_of_weight(8));
    assert_eq!(c.total_evicted(), 0);
    assert_eq!(c.current_tokens(), 9);
    assert!(c.current_tokens() > c.max_tokens());
}

#[test]
fn used_is_sum_of_weights() {
    let mut c = ContextWindow::new(12);
    let texts = ["a", "abcdefgh", "abcdefghijklmnop", "x", "abcdefghijkl", "ééééé"];
    for (i, t) in texts.iter().enumerate() {
        let role = if i == 0 { Role::System } else { Role::User };
        c.push_message(role, t);
        let mut sum = 0;
        for j in 0..c.message_count() {
            sum += c.message_at(j).token_count;
        }
        assert_eq!(c.current_tokens(), sum);
    }
}

#[test]
fn weight_counts_utf8_bytes() {
    let mut c = ContextWindow::new(100);
    c.push_message(Role::User, "éééé");
    assert_eq!(c.current_tokens(), 2);
    c.push_message(Role::User, "");
    assert_eq!(c.current_tokens(), 3);
    c.push_message(Role::User, "abc");
    assert_eq!(c.current_tokens(), 4);
}

#[test]
fn eviction_step_skips_protected() {
    let mut c = ContextWindow::new(100);
    c.push_message(Role::System, "sys");
    c.push_message(Role::User, "first");
    c.push_message(Role::Assistant, "second");
    let used = c.current_tokens();
    let m = c.evict_oldest().unwrap();
    assert_eq!(m.content, "first");
    assert_eq!(m.role, Role::User);
    assert_eq!(c.current_tokens(), used - m.token_count);
    assert_eq!(c.message_at(0).role, Role::System);
    assert_eq!(c.message_at(1).content, "second");
    let m2 = c.evict_oldest().unwrap();
    assert_eq!(m2.content, "second");
    assert!(c.evict_oldest().is_none());
    assert_eq!(c.message_count(), 1);
    assert_eq!(c.message_at(0).content, "sys");
}

#[test]
fn eviction_step_on_empty_buffer() {
    let mut c = ContextWindow::new(3);
    assert!(c.evict_oldest().is_none());
    assert_eq!(c.current_tokens(), 0);
}

#[test]
fn protected_survives_pressure() {
    let mut c = ContextWindow::new(4);
    c.push_message(Role::System, "protected");
    for _ in 0..5 {
        c.push_message(Role::User, &text_of_weight(3));
    }
    assert_eq!(c.message_at(0).content, "protected");
    assert_eq!(c.message_at(0).role, Role::System);
    assert_eq!(c.total_evicted(), 4);
}

#[test]
fn status_report() {
    let mut c = ContextWindow::new(10);
    c.push_message(Role::User, "abcd");
    assert_eq!(
        c.status(),
        "Context Window Status:\nTokens: 1/10 (10.0% full)\nMessages: 1\nEvicted: 0"
    );
    let c2 = ContextWindow::new(3);
    assert_eq!(
        c2.status(),
        "Context Window Status:\nTokens: 0/3 (0.0% full)\nMessages: 0\nEvicted: 0"
    );
}

#[test]
fn status_rounds_share() {
    let mut c = ContextWindow::new(3);
    c.push_message(Role::User, "abcd");
    assert_eq!(
        c.status(),
        "Context Window Status:\nTokens: 1/3 (33.3% full)\nMessages: 1\nEvicted: 0"
    );
    c.push_message(Role::User, "abcd");
    assert_eq!(
        c.status(),
        "Context Window Status:\nTokens: 2/3 (66.7% full)\nMessages: 2\nEvicted: 0"
    );
}

#[test]
fn role_names() {
    assert_eq!(Role::System.as_str(), "system");
    assert_eq!(Role::User.as_str(), "user");
    assert_eq!(Role::Assistant.as_str(), "assistant");
    assert_eq!(Role::Tool.as_str(), "tool");
}
