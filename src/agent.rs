//! The orchestrator: records each input, routes it by its prefix, and
//! records the reply.
use vstd::prelude::*;
use crate::context::{
    appended, estimate, lemma_settle_weight, lemma_total_weight_push, status_text, total_weight,
    ContextWindow, Record, Role,
};
use crate::text::{chars_of, slice_chars, split_first_ws, split_once_ws, starts_with_chars, string_of};
use crate::tools::{dispatch, dispatch_effect, BuiltinTool, ToolRegistry};

verus! {

/// Capacity of the agent's buffer.
pub const CONTEXT_TOKENS: usize = 4096;

pub open spec fn help_text() -> Seq<char> {
    "Available commands:\n/tool <name> <args>  \u{2014} invoke a tool\n/context             \u{2014} show context window status\n/help                \u{2014} show this help\n(anything else)      \u{2014} echoed back (LLM inference not yet connected)"@
}

pub open spec fn system_prompt() -> Seq<char> {
    "You are an AI agent running as the sole process on a bare-metal x86_64 operating system. You have access to tools for calculation, memory storage, and memory recall. Process user input and respond helpfully."@
}

pub open spec fn has_prefix(s: Seq<char>, p: Seq<char>) -> bool {
    p.len() <= s.len() && s.take(p.len() as int) == p
}

/// What one input leads to: the reply, the tool output that is recorded (only
/// for a tool that succeeded), and the store afterwards.
pub ghost struct Turn {
    pub reply: Seq<char>,
    pub tool_output: Option<Seq<char>>,
    pub memory: Map<Seq<char>, Seq<char>>,
}

/// The outcome of `/tool <body>`: the tool name up to the first whitespace
/// character, the rest as arguments.
pub open spec fn tool_turn(
    ts: Seq<BuiltinTool>,
    mem: Map<Seq<char>, Seq<char>>,
    body: Seq<char>,
) -> Turn {
    let (name, rest) = split_first_ws(body);
    let args = match rest {
        Some(a) => a,
        None => Seq::empty(),
    };
    let eff = dispatch_effect(ts, mem, name, args);
    match dispatch(ts, mem, name, args) {
        Ok(out) => Turn { reply: out, tool_output: Some(out), memory: eff },
        Err(e) => Turn { reply: "Tool error: "@ + e, tool_output: None, memory: eff },
    }
}

/// The routing of one input, in order of priority: a tool call, a status
/// query, help, or plain content that is echoed. `rs` and `evicted` describe
/// the buffer once the input itself has been recorded.
pub open spec fn route(
    ts: Seq<BuiltinTool>,
    mem: Map<Seq<char>, Seq<char>>,
    rs: Seq<Record>,
    evicted: nat,
    cap: nat,
    input: Seq<char>,
) -> Turn {
    if has_prefix(input, "/tool "@) {
        tool_turn(ts, mem, input.skip("/tool "@.len() as int))
    } else if has_prefix(input, "/context"@) {
        Turn {
            reply: status_text(total_weight(rs), cap, rs.len(), evicted),
            tool_output: None,
            memory: mem,
        }
    } else if has_prefix(input, "/help"@) {
        Turn { reply: help_text(), tool_output: None, memory: mem }
    } else {
        Turn { reply: "[echo] "@ + input, tool_output: None, memory: mem }
    }
}

/// The records once the tool output, if any, is recorded.
pub open spec fn with_tool_output(rs: Seq<Record>, out: Option<Seq<char>>, cap: nat) -> Seq<Record> {
    match out {
        Some(o) => appended(rs, Role::Tool, o, cap),
        None => rs,
    }
}

/// The agent: one buffer and one capability table.
pub struct Agent {
    pub context: ContextWindow,
    pub tool_registry: ToolRegistry,
}

impl Agent {
    pub open spec fn wf(&self) -> bool {
        self.context.wf() && self.tool_registry.wf()
    }

    /// The turn that `input` leads to from this state.
    pub open spec fn turn_for(&self, input: Seq<char>) -> Turn {
        let cap = self.context.capacity();
        let rs = appended(self.context.records(), Role::User, input, cap);
        let evicted = self.context.evicted() + self.context.records().len() + 1 - rs.len();
        route(
            self.tool_registry.tools(),
            self.tool_registry.memory(),
            rs,
            evicted as nat,
            cap,
            input,
        )
    }

    /// Whether the counters stay within `usize` while `input` is handled.
    pub open spec fn can_take(&self, input: Seq<char>) -> bool {
        let t = self.turn_for(input);
        &&& self.context.used() + estimate(input) + 2 * estimate(t.reply) <= usize::MAX
        &&& self.context.evicted() + self.context.records().len() + 3 < usize::MAX
    }

    /// A fresh agent: an empty buffer of `CONTEXT_TOKENS` and an empty table.
    pub fn new() -> (r: Self)
        ensures
            r.wf(),
            r.context.records() == Seq::<Record>::empty(),
            r.context.capacity() == CONTEXT_TOKENS,
            r.context.used() == 0,
            r.context.evicted() == 0,
            r.tool_registry.tools() == Seq::<BuiltinTool>::empty(),
            r.tool_registry.memory() == Map::<Seq<char>, Seq<char>>::empty(),
    {
        Agent { context: ContextWindow::new(CONTEXT_TOKENS), tool_registry: ToolRegistry::new() }
    }

    /// Records the system prompt as a protected record and registers the four built-in tools.
    pub fn boot(&mut self)
        requires
            old(self).wf(),
            old(self).context.has_room_for(system_prompt()),
        ensures
            final(self).wf(),
            final(self).context.capacity() == old(self).context.capacity(),
            final(self).context.records() == appended(
                old(self).context.records(),
                Role::System,
                system_prompt(),
                old(self).context.capacity(),
            ),
            final(self).context.evicted() + final(self).context.records().len() == old(
                self,
            ).context.evicted() + old(self).context.records().len() + 1,
            forall|t: BuiltinTool| final(self).tool_registry.registered(t),
            final(self).tool_registry.memory() == old(self).tool_registry.memory(),
    {
        self.context.push_message(
            Role::System,
            "You are an AI agent running as the sole process on a bare-metal x86_64 operating system. You have access to tools for calculation, memory storage, and memory recall. Process user input and respond helpfully.",
        );
        self.tool_registry.register(BuiltinTool::Calculator);
        self.tool_registry.register(BuiltinTool::MemoryStore);
        self.tool_registry.register(BuiltinTool::MemoryRecall);
        self.tool_registry.register(BuiltinTool::Echo);
        proof {
            assert forall|t: BuiltinTool| self.tool_registry.registered(t) by {
                match t {
                    BuiltinTool::Calculator => {},
                    BuiltinTool::MemoryStore => {},
                    BuiltinTool::MemoryRecall => {},
                    BuiltinTool::Echo => {},
                }
            }
        }
    }

    /// Handles one line of input: records it, routes it, records the reply,
    /// and returns the reply.
    pub fn process_input(&mut self, input: &str) -> (r: String)
        requires
            old(self).wf(),
            old(self).can_take(input@),
        ensures
            final(self).wf(),
            ({
                let cap = old(self).context.capacity();
                let t = old(self).turn_for(input@);
                let rs = appended(old(self).context.records(), Role::User, input@, cap);
                &&& r@ == t.reply
                &&& final(self).context.capacity() == cap
                &&& final(self).context.records() == appended(
                    with_tool_output(rs, t.tool_output, cap),
                    Role::Assistant,
                    t.reply,
                    cap,
                )
                &&& final(self).tool_registry.tools() == old(self).tool_registry.tools()
                &&& final(self).tool_registry.memory() == t.memory
            }),
            final(self).context.evicted() + final(self).context.records().len() == old(
                self,
            ).context.evicted() + old(self).context.records().len() + 2 + if old(self).turn_for(
                input@,
            ).tool_output is Some {
                1int
            } else {
                0
            },
    {
        let ghost cap = self.context.capacity();
        let ghost t = self.turn_for(input@);
        let ghost used0 = self.context.used();
        proof {
            lemma_settle_weight(self.context.records(), estimate(input@), cap);
            lemma_total_weight_push(
                crate::context::settle(self.context.records(), estimate(input@), cap),
                Record { origin: Role::User, text: input@, weight: estimate(input@) },
            );
        }
        self.context.push_message(Role::User, input);
        let ghost rs = self.context.records();
        let v = chars_of(input);
        let tool_prefix = chars_of("/tool ");
        let response = if starts_with_chars(&v, &tool_prefix) {
            let body = slice_chars(&v, tool_prefix.len(), v.len());
            proof {
                assert(body@ =~= input@.skip("/tool "@.len() as int));
            }
            let body_text = string_of(&body);
            self.handle_tool_call(body_text.as_str())
        } else if starts_with_chars(&v, &chars_of("/context")) {
            self.context.status()
        } else if starts_with_chars(&v, &chars_of("/help")) {
            "Available commands:\n/tool <name> <args>  \u{2014} invoke a tool\n/context             \u{2014} show context window status\n/help                \u{2014} show this help\n(anything else)      \u{2014} echoed back (LLM inference not yet connected)".to_owned()
        } else {
            let mut out = "[echo] ".to_owned();
            out.append(input);
            out
        };
        proof {
            assert(response@ == t.reply);
            let rs2 = with_tool_output(rs, t.tool_output, cap);
            assert(self.context.records() == rs2);
            if t.tool_output is Some {
                lemma_settle_weight(rs, estimate(t.reply), cap);
                lemma_total_weight_push(
                    crate::context::settle(rs, estimate(t.reply), cap),
                    Record { origin: Role::Tool, text: t.reply, weight: estimate(t.reply) },
                );
            }
        }
        self.context.push_message(Role::Assistant, response.as_str());
        response
    }

    /// Runs `/tool` with `input` as the text after the prefix; only a
    /// successful result is recorded, as a `Tool` record.
    fn handle_tool_call(&mut self, input: &str) -> (r: String)
        requires
            old(self).wf(),
            tool_turn(old(self).tool_registry.tools(), old(self).tool_registry.memory(), input@).tool_output
                is Some ==> old(self).context.has_room_for(
                tool_turn(old(self).tool_registry.tools(), old(self).tool_registry.memory(), input@).reply,
            ),
        ensures
            final(self).wf(),
            ({
                let t = tool_turn(old(self).tool_registry.tools(), old(self).tool_registry.memory(), input@);
                let cap = old(self).context.capacity();
                &&& r@ == t.reply
                &&& final(self).context.capacity() == cap
                &&& final(self).context.records() == with_tool_output(old(self).context.records(), t.tool_output, cap)
                &&& final(self).context.evicted() + final(self).context.records().len() == old(
                    self,
                ).context.evicted() + old(self).context.records().len() + if t.tool_output is Some {
                    1int
                } else {
                    0
                }
                &&& final(self).context.used() <= old(self).context.used() + if t.tool_output is Some {
                    estimate(t.reply) as int
                } else {
                    0
                }
                &&& final(self).tool_registry.tools() == old(self).tool_registry.tools()
                &&& final(self).tool_registry.memory() == t.memory
            }),
    {
        let v = chars_of(input);
        let (name, rest) = split_once_ws(&v);
        let args = match rest {
            Some(a) => a,
            None => Vec::new(),
        };
        let name_text = string_of(&name);
        let args_text = string_of(&args);
        proof {
            assert(args@ == (match split_first_ws(input@).1 { Some(a) => a, None => Seq::<char>::empty() }));
        }
        match self.tool_registry.execute(name_text.as_str(), args_text.as_str()) {
            Ok(result) => {
                proof {
                    let cap = self.context.capacity();
                    lemma_settle_weight(self.context.records(), estimate(result@), cap);
                    lemma_total_weight_push(
                        crate::context::settle(self.context.records(), estimate(result@), cap),
                        Record { origin: Role::Tool, text: result@, weight: estimate(result@) },
                    );
                }
                self.context.push_message(Role::Tool, result.as_str());
                result
            },
            Err(e) => {
                let mut out = "Tool error: ".to_owned();
                out.append(e.as_str());
                out
            },
        }
    }
}

} // verus!
