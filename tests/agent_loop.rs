use llm_os::agent::Agent;
use llm_os::context::Role;

fn booted() -> Agent {
    let mut a = Agent::new();
    a.boot();
    a
}

#[test]
fn boot_loads_prompt_and_tools() {
    let a = booted();
    assert_eq!(a.context.message_count(), 1);
    assert_eq!(a.context.message_at(0).role, Role::System);
    assert_eq!(a.tool_registry.tool_count(), 4);
    assert_eq!(a.context.max_tokens(), 4096);
    assert_eq!(a.context.current_tokens(), a.context.message_at(0).token_count);
}

#[test]
fn division_by_zero_is_not_recorded_as_tool_result() {
    let mut a = booted();
    let r = a.process_input("/tool calc 10 / 0");
    assert_eq!(r, "Tool error: Division by zero");
    assert_eq!(a.context.message_count(), 3);
    assert_eq!(a.context.message_at(1).role, Role::User);
    assert_eq!(a.context.message_at(2).role, Role::Assistant);
    assert_eq!(a.context.message_at(2).content, "Tool error: Division by zero");
}

#[test]
fn successful_tool_result_is_recorded() {
    let mut a = booted();
    let r = a.process_input("/tool calc 7 + 5");
    assert_eq!(r, "7 + 5 = 12");
    assert_eq!(a.context.message_count(), 4);
    assert_eq!(a.context.message_at(1).content, "/tool calc 7 + 5");
    assert_eq!(a.context.message_at(2).role, Role::Tool);
    assert_eq!(a.context.message_at(2).content, "7 + 5 = 12");
    assert_eq!(a.context.message_at(3).role, Role::Assistant);
    assert_eq!(a.context.message_at(3).content, "7 + 5 = 12");
}

#[test]
fn recall_of_missing_key_through_agent() {
    let mut a = booted();
    let r = a.process_input("/tool recall nothing");
    assert_eq!(r, "Tool error: Key 'nothing' not found in memory");
    assert_eq!(a.context.message_count(), 3);
}

#[test]
fn unknown_tool_through_agent() {
    let mut a = booted();
    let r = a.process_input("/tool xyz");
    assert_eq!(
        r,
        "Tool error: Unknown tool 'xyz'. Available: [\"calc\", \"echo\", \"recall\", \"store\"]"
    );
}

#[test]
fn store_and_recall_through_agent() {
    let mut a = booted();
    assert_eq!(a.process_input("/tool store name Ada Lovelace"), "Stored: name = Ada Lovelace");
    assert_eq!(a.process_input("/tool recall name"), "name = Ada Lovelace");
    assert_eq!(a.process_input("/tool recall name"), "name = Ada Lovelace");
}

#[test]
fn plain_content_is_echoed() {
    let mut a = booted();
    assert_eq!(a.process_input("hello"), "[echo] hello");
    assert_eq!(a.process_input("/tool"), "[echo] /tool");
    assert_eq!(a.context.message_count(), 5);
}

#[test]
fn help_text() {
    let mut a = booted();
    assert_eq!(
        a.process_input("/help"),
        "Available commands:\n/tool <name> <args>  \u{2014} invoke a tool\n/context             \u{2014} show context window status\n/help                \u{2014} show this help\n(anything else)      \u{2014} echoed back (LLM inference not yet connected)"
    );
}

#[test]
fn context_query_reports_after_input_recorded() {
    let mut a = Agent::new();
    let r = a.process_input("/context");
    assert_eq!(
        r,
        "Context Window Status:\nTokens: 2/4096 (0.0% full)\nMessages: 1\nEvicted: 0"
    );
    assert_eq!(a.context.message_count(), 2);
}

#[test]
fn tool_without_arguments() {
    let mut a = booted();
    assert_eq!(a.process_input("/tool echo"), "[echo] ");
}

#[test]
fn tool_name_ends_at_first_whitespace() {
    let mut a = booted();
    assert_eq!(a.process_input("/tool calc\t7 + 5"), "7 + 5 = 12");
    assert_eq!(a.process_input("/tool store k\tv"), "Stored: k = v");
    assert_eq!(a.process_input("/tool recall k"), "k = v");
}
