use llm_os::tools::{BuiltinTool, ToolRegistry};

fn full_registry() -> ToolRegistry {
    let mut r = ToolRegistry::new();
    r.register(BuiltinTool::Calculator);
    r.register(BuiltinTool::MemoryStore);
    r.register(BuiltinTool::MemoryRecall);
    r.register(BuiltinTool::Echo);
    r
}

#[test]
fn calc_adds() {
    let mut r = full_registry();
    assert_eq!(r.execute("calc", "7 + 5"), Ok("7 + 5 = 12".to_string()));
}

#[test]
fn calc_other_operators() {
    let mut r = full_registry();
    assert_eq!(r.execute("calc", "10 - 42"), Ok("10 - 42 = -32".to_string()));
    assert_eq!(r.execute("calc", "-6 * 7"), Ok("-6 * 7 = -42".to_string()));
    assert_eq!(r.execute("calc", "-7 / 2"), Ok("-7 / 2 = -3".to_string()));
    assert_eq!(r.execute("calc", "  +8   /\t-3 "), Ok("8 / -3 = -2".to_string()));
}

#[test]
fn calc_wraps_at_integer_width() {
    let mut r = full_registry();
    assert_eq!(
        r.execute("calc", "9223372036854775807 + 1"),
        Ok("9223372036854775807 + 1 = -9223372036854775808".to_string())
    );
    assert_eq!(
        r.execute("calc", "-9223372036854775808 / -1"),
        Ok("-9223372036854775808 / -1 = -9223372036854775808".to_string())
    );
}

#[test]
fn calc_division_by_zero() {
    let mut r = full_registry();
    assert_eq!(r.execute("calc", "10 / 0"), Err("Division by zero".to_string()));
}

#[test]
fn calc_bad_arguments() {
    let mut r = full_registry();
    let usage = "Usage: /tool calc <num> <op> <num> (e.g., /tool calc 42 + 7)".to_string();
    assert_eq!(r.execute("calc", "1 +"), Err(usage.clone()));
    assert_eq!(r.execute("calc", "1 + 2 3"), Err(usage.clone()));
    assert_eq!(r.execute("calc", ""), Err(usage));
    assert_eq!(r.execute("calc", "x + 2"), Err("Invalid number: x".to_string()));
    assert_eq!(r.execute("calc", "1 + 2y"), Err("Invalid number: 2y".to_string()));
    assert_eq!(
        r.execute("calc", "1 + 9223372036854775808"),
        Err("Invalid number: 9223372036854775808".to_string())
    );
    assert_eq!(
        r.execute("calc", "3 % 2"),
        Err("Unknown operator: % (use +, -, *, /)".to_string())
    );
}

#[test]
fn store_then_recall() {
    let mut r = full_registry();
    assert_eq!(
        r.execute("store", "color deep blue"),
        Ok("Stored: color = deep blue".to_string())
    );
    assert_eq!(r.execute("recall", "color"), Ok("color = deep blue".to_string()));
    assert_eq!(r.execute("recall", "  color "), Ok("color = deep blue".to_string()));
    assert_eq!(r.execute("recall", "color"), Ok("color = deep blue".to_string()));
}

#[test]
fn store_replaces_value() {
    let mut r = full_registry();
    r.execute("store", "k one").unwrap();
    r.execute("store", "k two").unwrap();
    assert_eq!(r.execute("recall", "k"), Ok("k = two".to_string()));
}

#[test]
fn store_needs_two_fields() {
    let mut r = full_registry();
    assert_eq!(
        r.execute("store", "lonely"),
        Err("Usage: /tool store <key> <value>".to_string())
    );
    assert_eq!(r.execute("recall", "lonely"), Err("Key 'lonely' not found in memory".to_string()));
}

#[test]
fn recall_missing_key() {
    let mut r = full_registry();
    r.execute("store", "a 1").unwrap();
    assert_eq!(r.execute("recall", "zz"), Err("Key 'zz' not found in memory".to_string()));
    assert_eq!(r.execute("recall", "a"), Ok("a = 1".to_string()));
}

#[test]
fn echo_tool() {
    let mut r = full_registry();
    assert_eq!(r.execute("echo", "hi there"), Ok("[echo] hi there".to_string()));
}

#[test]
fn unknown_tool_lists_names() {
    let mut r = full_registry();
    assert_eq!(
        r.execute("xyz", ""),
        Err("Unknown tool 'xyz'. Available: [\"calc\", \"echo\", \"recall\", \"store\"]".to_string())
    );
    let mut empty = ToolRegistry::new();
    assert_eq!(empty.execute("calc", "1 + 1"), Err("Unknown tool 'calc'. Available: []".to_string()));
}

#[test]
fn unregistered_tool_is_unknown() {
    let mut r = ToolRegistry::new();
    r.register(BuiltinTool::Echo);
    assert_eq!(
        r.execute("calc", "1 + 1"),
        Err("Unknown tool 'calc'. Available: [\"echo\"]".to_string())
    );
}

#[test]
fn register_replaces_and_counts() {
    let mut r = ToolRegistry::new();
    r.register(BuiltinTool::MemoryStore);
    r.register(BuiltinTool::Calculator);
    r.register(BuiltinTool::MemoryStore);
    assert_eq!(r.tool_count(), 2);
    assert_eq!(r.tool_names(), vec!["calc", "store"]);
    let full = full_registry();
    assert_eq!(full.tool_count(), 4);
    assert_eq!(full.tool_names(), vec!["calc", "echo", "recall", "store"]);
}

#[test]
fn tool_names_and_descriptions() {
    assert_eq!(BuiltinTool::Calculator.name(), "calc");
    assert_eq!(BuiltinTool::MemoryStore.name(), "store");
    assert_eq!(BuiltinTool::MemoryRecall.name(), "recall");
    assert_eq!(BuiltinTool::Echo.name(), "echo");
    assert_eq!(BuiltinTool::Echo.description(), "Echo input: /tool echo <text>");
    assert_eq!(
        BuiltinTool::Calculator.description(),
        "Evaluate arithmetic: /tool calc <expr> (supports +, -, *, /)"
    );
}

#[test]
fn store_splits_at_first_whitespace() {
    let mut r = full_registry();
    assert_eq!(r.execute("store", "k\tv"), Ok("Stored: k = v".to_string()));
    assert_eq!(r.execute("recall", "k"), Ok("k = v".to_string()));
    assert_eq!(r.execute("store", "k\nnew value"), Ok("Stored: k = new value".to_string()));
    assert_eq!(r.execute("recall", "k"), Ok("k = new value".to_string()));
}

#[test]
fn builtins_called_directly() {
    let mut r = ToolRegistry::new();
    assert_eq!(r.exec_calculator("6 * 7"), Ok("6 * 7 = 42".to_string()));
    assert_eq!(r.exec_memory_store("key value"), Ok("Stored: key = value".to_string()));
    assert_eq!(r.exec_memory_recall(" key "), Ok("key = value".to_string()));
    assert_eq!(r.exec_memory_recall("ghost"), Err("Key 'ghost' not found in memory".to_string()));
    assert_eq!(r.exec_memory_recall("key"), Ok("key = value".to_string()));
}
