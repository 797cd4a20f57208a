//! The capability table: built-in operations looked up by name, and the
//! key/value store that `store` and `recall` work on.
use vstd::prelude::*;
use crate::text::{
    back_ws, is_ws, skip_ws,
    ws_from,
    chars_eq, chars_of, dec_int, parse_i64, parse_i64_spec, push_chars, push_i64, split_first_ws,
    split_once_ws, split_words, trim, trim_chars, views_of, words,
};

verus! {

/// The built-in operations.
#[derive(Debug, Clone, Copy, PartialEq, Eq, Structural)]
pub enum BuiltinTool {
    /// Integer arithmetic on two operands.
    Calculator,
    /// Binds a key to a value.
    MemoryStore,
    /// Reads the value bound to a key.
    MemoryRecall,
    /// Hands its argument back.
    Echo,
}

pub open spec fn tool_name(t: BuiltinTool) -> Seq<char> {
    match t {
        BuiltinTool::Calculator => "calc"@,
        BuiltinTool::MemoryStore => "store"@,
        BuiltinTool::MemoryRecall => "recall"@,
        BuiltinTool::Echo => "echo"@,
    }
}

pub open spec fn tool_description(t: BuiltinTool) -> Seq<char> {
    match t {
        BuiltinTool::Calculator => "Evaluate arithmetic: /tool calc <expr> (supports +, -, *, /)"@,
        BuiltinTool::MemoryStore => "Store key-value: /tool store <key> <value>"@,
        BuiltinTool::MemoryRecall => "Recall by key: /tool recall <key>"@,
        BuiltinTool::Echo => "Echo input: /tool echo <text>"@,
    }
}

/// Position of a tool when the table is listed: by name, alphabetically.
pub open spec fn rank(t: BuiltinTool) -> nat {
    match t {
        BuiltinTool::Calculator => 0,
        BuiltinTool::Echo => 1,
        BuiltinTool::MemoryRecall => 2,
        BuiltinTool::MemoryStore => 3,
    }
}

fn rank_of(t: BuiltinTool) -> (r: u8)
    ensures
        r as nat == rank(t),
{
    match t {
        BuiltinTool::Calculator => 0,
        BuiltinTool::Echo => 1,
        BuiltinTool::MemoryRecall => 2,
        BuiltinTool::MemoryStore => 3,
    }
}

/// Distinct tools have distinct names.
pub proof fn lemma_tool_name_injective(a: BuiltinTool, b: BuiltinTool)
    ensures
        tool_name(a) == tool_name(b) ==> a == b,
{
    reveal_strlit("calc");
    reveal_strlit("store");
    reveal_strlit("recall");
    reveal_strlit("echo");
    if a != b {
        assert(tool_name(a).len() != tool_name(b).len() || tool_name(a)[0] != tool_name(b)[0]);
    }
}

impl BuiltinTool {
    pub fn name(&self) -> (r: &str)
        ensures
            r@ == tool_name(*self),
    {
        match self {
            BuiltinTool::Calculator => "calc",
            BuiltinTool::MemoryStore => "store",
            BuiltinTool::MemoryRecall => "recall",
            BuiltinTool::Echo => "echo",
        }
    }

    pub fn description(&self) -> (r: &str)
        ensures
            r@ == tool_description(*self),
    {
        match self {
            BuiltinTool::Calculator => "Evaluate arithmetic: /tool calc <expr> (supports +, -, *, /)",
            BuiltinTool::MemoryStore => "Store key-value: /tool store <key> <value>",
            BuiltinTool::MemoryRecall => "Recall by key: /tool recall <key>",
            BuiltinTool::Echo => "Echo input: /tool echo <text>",
        }
    }
}

/// The map that a list of bindings describes; a later binding of a key wins.
pub open spec fn to_map(s: Seq<(Seq<char>, Seq<char>)>) -> Map<Seq<char>, Seq<char>>
    decreases s.len(),
{
    if s.len() == 0 {
        Map::empty()
    } else {
        to_map(s.drop_last()).insert(s.last().0, s.last().1)
    }
}

pub open spec fn keys_unique(s: Seq<(Seq<char>, Seq<char>)>) -> bool {
    forall|i: int, j: int| 0 <= i < s.len() && 0 <= j < s.len() && i != j ==> s[i].0 != s[j].0
}

proof fn lemma_to_map_at(s: Seq<(Seq<char>, Seq<char>)>, i: int)
    requires
        keys_unique(s),
        0 <= i < s.len(),
    ensures
        to_map(s).contains_key(s[i].0),
        to_map(s)[s[i].0] == s[i].1,
    decreases s.len(),
{
    if i < s.len() - 1 {
        let d = s.drop_last();
        assert(keys_unique(d));
        assert(d[i] == s[i]);
        lemma_to_map_at(d, i);
        assert(s.last().0 != s[i].0);
    }
}

proof fn lemma_to_map_absent(s: Seq<(Seq<char>, Seq<char>)>, k: Seq<char>)
    requires
        forall|i: int| 0 <= i < s.len() ==> s[i].0 != k,
    ensures
        !to_map(s).contains_key(k),
    decreases s.len(),
{
    if s.len() > 0 {
        let d = s.drop_last();
        assert forall|i: int| 0 <= i < d.len() implies d[i].0 != k by {
            assert(d[i] == s[i]);
        }
        lemma_to_map_absent(d, k);
    }
}

proof fn lemma_to_map_update(s: Seq<(Seq<char>, Seq<char>)>, i: int, v: Seq<char>)
    requires
        keys_unique(s),
        0 <= i < s.len(),
    ensures
        to_map(s.update(i, (s[i].0, v))) == to_map(s).insert(s[i].0, v),
    decreases s.len(),
{
    let k = s[i].0;
    let u = s.update(i, (k, v));
    if i == s.len() - 1 {
        assert(u.drop_last() =~= s.drop_last());
        assert(to_map(u) =~= to_map(s).insert(k, v));
    } else {
        let d = s.drop_last();
        assert(keys_unique(d));
        assert(d[i] == s[i]);
        assert(u.drop_last() =~= d.update(i, (k, v)));
        lemma_to_map_update(d, i, v);
        assert(s.last().0 != k);
        assert(to_map(u) =~= to_map(s).insert(k, v));
    }
}

/// `a op b = r`, with each number in decimal.
pub open spec fn calc_line(a: i64, op: Seq<char>, b: i64, r: i64) -> Seq<char> {
    dec_int(a as int) + " "@ + op + " "@ + dec_int(b as int) + " = "@ + dec_int(r as int)
}

/// Quotient truncated toward zero; the one overflow, `i64::MIN / -1`, wraps to `i64::MIN`.
pub open spec fn quotient(a: i64, b: i64) -> i64 {
    match a.checked_div(b) {
        Some(q) => q,
        None => i64::MIN,
    }
}

/// What `calc` answers for `args`: three whitespace-separated fields, two
/// integers around one of `+ - * /`, computed with wrapping arithmetic.
pub open spec fn calc_outcome(args: Seq<char>) -> Result<Seq<char>, Seq<char>> {
    let ws = words(args);
    if ws.len() != 3 {
        Err("Usage: /tool calc <num> <op> <num> (e.g., /tool calc 42 + 7)"@)
    } else {
        match parse_i64_spec(ws[0]) {
            None => Err("Invalid number: "@ + ws[0]),
            Some(a) => match parse_i64_spec(ws[2]) {
                None => Err("Invalid number: "@ + ws[2]),
                Some(b) => {
                    let op = ws[1];
                    if op == "+"@ {
                        Ok(calc_line(a, op, b, a.wrapping_add(b)))
                    } else if op == "-"@ {
                        Ok(calc_line(a, op, b, a.wrapping_sub(b)))
                    } else if op == "*"@ {
                        Ok(calc_line(a, op, b, a.wrapping_mul(b)))
                    } else if op == "/"@ {
                        if b == 0 {
                            Err("Division by zero"@)
                        } else {
                            Ok(calc_line(a, op, b, quotient(a, b)))
                        }
                    } else {
                        Err("Unknown operator: "@ + op + " (use +, -, *, /)"@)
                    }
                },
            },
        }
    }
}

/// What `store` answers for `args`: a key up to the first whitespace character,
/// the rest as value.
pub open spec fn store_outcome(args: Seq<char>) -> Result<Seq<char>, Seq<char>> {
    let (key, rest) = split_first_ws(args);
    match rest {
        None => Err("Usage: /tool store <key> <value>"@),
        Some(value) => Ok("Stored: "@ + key + " = "@ + value),
    }
}

/// The store after `store` ran on `args`.
pub open spec fn store_effect(mem: Map<Seq<char>, Seq<char>>, args: Seq<char>) -> Map<
    Seq<char>,
    Seq<char>,
> {
    let (key, rest) = split_first_ws(args);
    match rest {
        None => mem,
        Some(value) => mem.insert(key, value),
    }
}

/// What `recall` answers for `args`: the trimmed key with its value.
pub open spec fn recall_outcome(mem: Map<Seq<char>, Seq<char>>, args: Seq<char>) -> Result<
    Seq<char>,
    Seq<char>,
> {
    let key = trim(args);
    if mem.contains_key(key) {
        Ok(key + " = "@ + mem[key])
    } else {
        Err("Key '"@ + key + "' not found in memory"@)
    }
}

/// What tool `t` answers for `args` against the store `mem`.
pub open spec fn run_outcome(t: BuiltinTool, mem: Map<Seq<char>, Seq<char>>, args: Seq<char>) -> Result<
    Seq<char>,
    Seq<char>,
> {
    match t {
        BuiltinTool::Calculator => calc_outcome(args),
        BuiltinTool::MemoryStore => store_outcome(args),
        BuiltinTool::MemoryRecall => recall_outcome(mem, args),
        BuiltinTool::Echo => Ok("[echo] "@ + args),
    }
}

/// The store after tool `t` ran on `args`.
pub open spec fn run_effect(t: BuiltinTool, mem: Map<Seq<char>, Seq<char>>, args: Seq<char>) -> Map<
    Seq<char>,
    Seq<char>,
> {
    match t {
        BuiltinTool::MemoryStore => store_effect(mem, args),
        _ => mem,
    }
}

/// `"n"` for a name `n`.
pub open spec fn quoted(n: Seq<char>) -> Seq<char> {
    "\""@ + n + "\""@
}

/// The quoted names, separated by `, `.
pub open spec fn joined(ns: Seq<Seq<char>>) -> Seq<char>
    decreases ns.len(),
{
    if ns.len() == 0 {
        Seq::empty()
    } else if ns.len() == 1 {
        quoted(ns[0])
    } else {
        joined(ns.drop_last()) + ", "@ + quoted(ns.last())
    }
}

pub open spec fn names_of(ts: Seq<BuiltinTool>) -> Seq<Seq<char>> {
    ts.map_values(|t: BuiltinTool| tool_name(t))
}

/// The error for a name that no registered tool has, listing the registered names.
pub open spec fn unknown_tool(name: Seq<char>, ts: Seq<BuiltinTool>) -> Seq<char> {
    "Unknown tool '"@ + name + "'. Available: ["@ + joined(names_of(ts)) + "]"@
}

/// The registered tool called `name`, if any.
pub open spec fn lookup(ts: Seq<BuiltinTool>, name: Seq<char>) -> Option<BuiltinTool> {
    if exists|i: int| 0 <= i < ts.len() && tool_name(ts[i]) == name {
        Some(ts[choose|i: int| 0 <= i < ts.len() && tool_name(ts[i]) == name])
    } else {
        None
    }
}

/// What `execute(name, args)` answers.
pub open spec fn dispatch(
    ts: Seq<BuiltinTool>,
    mem: Map<Seq<char>, Seq<char>>,
    name: Seq<char>,
    args: Seq<char>,
) -> Result<Seq<char>, Seq<char>> {
    match lookup(ts, name) {
        Some(t) => run_outcome(t, mem, args),
        None => Err(unknown_tool(name, ts)),
    }
}

/// The store after `execute(name, args)`.
pub open spec fn dispatch_effect(
    ts: Seq<BuiltinTool>,
    mem: Map<Seq<char>, Seq<char>>,
    name: Seq<char>,
    args: Seq<char>,
) -> Map<Seq<char>, Seq<char>> {
    match lookup(ts, name) {
        Some(t) => run_effect(t, mem, args),
        None => mem,
    }
}

proof fn lemma_no_ws(key: Seq<char>, value: Seq<char>, i: int)
    requires
        0 <= i <= key.len(),
        forall|j: int| 0 <= j < key.len() ==> !is_ws(#[trigger] key[j]),
    ensures
        ws_from(key + " "@ + value, i) == key.len(),
    decreases key.len() - i,
{
    reveal_strlit(" ");
    let args = key + " "@ + value;
    if i < key.len() {
        assert(args[i] == key[i]);
        lemma_no_ws(key, value, i + 1);
    } else {
        assert(args[i] == ' ');
    }
}

/// Once `store` has bound a key with no whitespace in it to a value, `recall`
/// of that key answers with exactly that value and leaves the store as it is,
/// however often it is asked.
pub proof fn lemma_recall_after_store(
    ts: Seq<BuiltinTool>,
    mem: Map<Seq<char>, Seq<char>>,
    key: Seq<char>,
    value: Seq<char>,
)
    requires
        ts.contains(BuiltinTool::MemoryStore),
        ts.contains(BuiltinTool::MemoryRecall),
        forall|j: int| 0 <= j < key.len() ==> !is_ws(#[trigger] key[j]),
    ensures
        ({
            let stored = dispatch_effect(ts, mem, "store"@, key + " "@ + value);
            &&& dispatch(ts, mem, "store"@, key + " "@ + value) == Ok::<Seq<char>, Seq<char>>(
                "Stored: "@ + key + " = "@ + value,
            )
            &&& stored == mem.insert(key, value)
            &&& dispatch(ts, stored, "recall"@, key) == Ok::<Seq<char>, Seq<char>>(key + " = "@ + value)
            &&& dispatch_effect(ts, stored, "recall"@, key) == stored
        }),
{
    let args = key + " "@ + value;
    reveal_strlit(" ");
    lemma_no_ws(key, value, 0);
    assert(args.take(key.len() as int) =~= key);
    assert(args.skip(key.len() as int + 1) =~= value);
    if key.len() > 0 {
        assert(skip_ws(key, 0) == 0);
        assert(back_ws(key, key.len() as int) == key.len());
        assert(key.subrange(0, key.len() as int) =~= key);
    } else {
        assert(key =~= Seq::<char>::empty());
    }
    assert(trim(key) == key);
    let s = choose|j: int| 0 <= j < ts.len() && ts[j] == BuiltinTool::MemoryStore;
    assert(tool_name(ts[s]) == "store"@);
    let js = choose|j: int| 0 <= j < ts.len() && tool_name(ts[j]) == "store"@;
    lemma_tool_name_injective(ts[js], BuiltinTool::MemoryStore);
    let r = choose|j: int| 0 <= j < ts.len() && ts[j] == BuiltinTool::MemoryRecall;
    assert(tool_name(ts[r]) == "recall"@);
    let jr = choose|j: int| 0 <= j < ts.len() && tool_name(ts[j]) == "recall"@;
    lemma_tool_name_injective(ts[jr], BuiltinTool::MemoryRecall);
}

pub open spec fn result_view(r: Result<String, String>) -> Result<Seq<char>, Seq<char>> {
    match r {
        Ok(s) => Ok(s@),
        Err(e) => Err(e@),
    }
}

/// The capability table.
pub struct ToolRegistry {
    tools: Vec<BuiltinTool>,
    memory: Vec<(Vec<char>, Vec<char>)>,
}

impl ToolRegistry {
    /// The registered tools, ordered by name.
    pub closed spec fn tools(&self) -> Seq<BuiltinTool> {
        self.tools@
    }

    pub closed spec fn bindings(&self) -> Seq<(Seq<char>, Seq<char>)> {
        self.memory@.map_values(|p: (Vec<char>, Vec<char>)| (p.0@, p.1@))
    }

    /// The key/value store.
    pub closed spec fn memory(&self) -> Map<Seq<char>, Seq<char>> {
        to_map(self.bindings())
    }

    pub closed spec fn bindings_wf(&self) -> bool {
        keys_unique(self.bindings())
    }

    /// The tools are listed by name without repeats, and each key is bound once.
    pub open spec fn wf(&self) -> bool {
        &&& forall|i: int, j: int|
            0 <= i < j < self.tools().len() ==> rank(self.tools()[i]) < rank(self.tools()[j])
        &&& self.bindings_wf()
    }

    pub open spec fn registered(&self, t: BuiltinTool) -> bool {
        self.tools().contains(t)
    }

    /// An empty table with an empty store.
    pub fn new() -> (r: Self)
        ensures
            r.wf(),
            r.tools() == Seq::<BuiltinTool>::empty(),
            r.memory() == Map::<Seq<char>, Seq<char>>::empty(),
    {
        let r = ToolRegistry { tools: Vec::new(), memory: Vec::new() };
        proof {
            assert(r.bindings() =~= Seq::<(Seq<char>, Seq<char>)>::empty());
        }
        r
    }

    /// Binds `tool` under its name; registering it again changes nothing.
    pub fn register(&mut self, tool: BuiltinTool)
        requires
            old(self).wf(),
        ensures
            final(self).wf(),
            forall|t: BuiltinTool| final(self).registered(t) <==> (old(self).registered(t) || t == tool),
            final(self).memory() == old(self).memory(),
    {
        let rk = rank_of(tool);
        let mut i: usize = 0;
        while i < self.tools.len() && rank_of(self.tools[i]) < rk
            invariant
                i <= self.tools@.len(),
                forall|j: int| 0 <= j < i ==> rank(self.tools@[j]) < rank(tool),
                self.tools@ == old(self).tools@,
                old(self).wf(),
                rk as nat == rank(tool),
            decreases self.tools@.len() - i,
        {
            i = i + 1;
        }
        if i < self.tools.len() && self.tools[i] == tool {
            return;
        }
        let ghost before = self.tools@;
        proof {
            assert(old(self).tools() == before);
            assert(forall|a: int, b: int| 0 <= a < b < before.len() ==> rank(before[a]) < rank(before[b]));
            if i < before.len() {
                assert(rank(before[i as int]) >= rank(tool));
                if rank(before[i as int]) == rank(tool) {
                    assert(before[i as int] == tool);
                }
                assert(rank(before[i as int]) > rank(tool));
            }
        }
        self.tools.insert(i, tool);
        proof {
            let after = self.tools@;
            assert(after =~= before.insert(i as int, tool));
            assert forall|a: int, b: int| 0 <= a < b < after.len() implies rank(after[a]) < rank(
                after[b],
            ) by {
                if b < i {
                } else if b == i {
                } else if a < i {
                    assert(after[b] == before[b - 1]);
                    if i < before.len() {
                        assert(rank(before[i as int]) <= rank(before[b - 1]) || b - 1 == i);
                    }
                } else if a == i {
                    assert(after[b] == before[b - 1]);
                    assert(rank(before[i as int]) > rank(tool));
                    if b - 1 > i {
                        assert(rank(before[i as int]) < rank(before[b - 1]));
                    }
                } else {
                    assert(after[a] == before[a - 1]);
                    assert(after[b] == before[b - 1]);
                }
            }
            assert forall|t: BuiltinTool| after.contains(t) <==> (before.contains(t) || t == tool) by {
                if after.contains(t) {
                    let k = choose|k: int| 0 <= k < after.len() && after[k] == t;
                    if k < i {
                        assert(before[k] == t);
                    } else if k > i {
                        assert(before[k - 1] == t);
                    }
                }
                if before.contains(t) {
                    let k = choose|k: int| 0 <= k < before.len() && before[k] == t;
                    if k < i {
                        assert(after[k] == t);
                    } else {
                        assert(after[k + 1] == t);
                    }
                }
                if t == tool {
                    assert(after[i as int] == t);
                }
            }
        }
    }

    /// Runs the tool called `name` on `args`; a name that no registered tool
    /// has is an error listing the registered names.
    pub fn execute(&mut self, name: &str, args: &str) -> (r: Result<String, String>)
        requires
            old(self).wf(),
        ensures
            final(self).wf(),
            final(self).tools() == old(self).tools(),
            result_view(r) == dispatch(old(self).tools(), old(self).memory(), name@, args@),
            final(self).memory() == dispatch_effect(
                old(self).tools(),
                old(self).memory(),
                name@,
                args@,
            ),
    {
        let wanted = chars_of(name);
        let mut i: usize = 0;
        while i < self.tools.len()
            invariant
                i <= self.tools@.len(),
                wanted@ == name@,
                forall|j: int| 0 <= j < i ==> tool_name(self.tools@[j]) != name@,
            ensures
                i <= self.tools@.len(),
                forall|j: int| 0 <= j < i ==> tool_name(self.tools@[j]) != name@,
                i < self.tools@.len() ==> tool_name(self.tools@[i as int]) == name@,
            decreases self.tools@.len() - i,
        {
            let candidate = chars_of(self.tools[i].name());
            if chars_eq(&candidate, &wanted) {
                break;
            }
            i = i + 1;
        }
        if i >= self.tools.len() {
            proof {
                assert(!(exists|j: int| 0 <= j < self.tools@.len() && tool_name(self.tools@[j]) == name@));
            }
            let names = self.tool_names();
            let mut msg = "Unknown tool '".to_owned();
            msg.append(name);
            msg.append("'. Available: [");
            let mut k: usize = 0;
            let ghost ns = names_of(self.tools@);
            let ghost head = msg@;
            while k < names.len()
                invariant
                    k <= names@.len(),
                    names@.len() == self.tools@.len(),
                    ns == names_of(self.tools@),
                    forall|j: int| 0 <= j < names@.len() ==> (#[trigger] names@[j])@ == tool_name(self.tools@[j]),
                    msg@ == head + joined(ns.take(k as int)),
                decreases names@.len() - k,
            {
                proof {
                    assert(ns.take(k + 1).drop_last() =~= ns.take(k as int));
                    assert(ns.take(k + 1).last() == names@[k as int]@);
                    if k == 0 {
                        assert(ns.take(0) =~= Seq::<Seq<char>>::empty());
                        assert(ns.take(1)[0] == ns.take(1).last());
                    }
                }
                if k > 0 {
                    msg.append(", ");
                }
                msg.append("\"");
                msg.append(names[k]);
                msg.append("\"");
                k = k + 1;
                proof {
                    assert(msg@ =~= head + joined(ns.take(k as int)));
                }
            }
            msg.append("]");
            proof {
                assert(ns.take(ns.len() as int) =~= ns);
                assert(msg@ =~= unknown_tool(name@, self.tools@));
            }
            return Err(msg);
        }
        let tool = self.tools[i];
        proof {
            assert(tool_name(tool) == name@);
            let j = choose|j: int| 0 <= j < self.tools@.len() && tool_name(self.tools@[j]) == name@;
            lemma_tool_name_injective(self.tools@[j], tool);
            assert(lookup(self.tools@, name@) == Some(tool));
        }
        match tool {
            BuiltinTool::Calculator => self.exec_calculator(args),
            BuiltinTool::MemoryStore => self.exec_memory_store(args),
            BuiltinTool::MemoryRecall => self.exec_memory_recall(args),
            BuiltinTool::Echo => {
                let mut out = "[echo] ".to_owned();
                out.append(args);
                Ok(out)
            },
        }
    }

    /// Integer arithmetic on `a op b`.
    pub fn exec_calculator(&self, expr: &str) -> (r: Result<String, String>)
        ensures
            result_view(r) == calc_outcome(expr@),
    {
        let v = chars_of(expr);
        let parts = split_words(&v);
        proof {
            assert(views_of(parts@).len() == parts@.len());
        }
        if parts.len() != 3 {
            return Err("Usage: /tool calc <num> <op> <num> (e.g., /tool calc 42 + 7)".to_owned());
        }
        proof {
            assert(views_of(parts@)[0] == parts@[0]@);
            assert(views_of(parts@)[1] == parts@[1]@);
            assert(views_of(parts@)[2] == parts@[2]@);
        }
        let a = match parse_i64(&parts[0]) {
            Some(a) => a,
            None => {
                let mut e = "Invalid number: ".to_owned();
                push_chars(&mut e, &parts[0]);
                return Err(e);
            },
        };
        let b = match parse_i64(&parts[2]) {
            Some(b) => b,
            None => {
                let mut e = "Invalid number: ".to_owned();
                push_chars(&mut e, &parts[2]);
                return Err(e);
            },
        };
        let op = &parts[1];
        let result = if chars_eq(op, &chars_of("+")) {
            a.wrapping_add(b)
        } else if chars_eq(op, &chars_of("-")) {
            a.wrapping_sub(b)
        } else if chars_eq(op, &chars_of("*")) {
            a.wrapping_mul(b)
        } else if chars_eq(op, &chars_of("/")) {
            if b == 0 {
                return Err("Division by zero".to_owned());
            }
            match a.checked_div(b) {
                Some(q) => q,
                None => i64::MIN,
            }
        } else {
            let mut e = "Unknown operator: ".to_owned();
            push_chars(&mut e, op);
            e.append(" (use +, -, *, /)");
            return Err(e);
        };
        let mut out = String::new();
        push_i64(&mut out, a);
        out.append(" ");
        push_chars(&mut out, op);
        out.append(" ");
        push_i64(&mut out, b);
        out.append(" = ");
        push_i64(&mut out, result);
        proof {
            assert(out@ =~= calc_line(a, op@, b, result));
        }
        Ok(out)
    }

    /// Index of the binding of `key`, if there is one.
    fn find_key(&self, key: &Vec<char>) -> (r: Option<usize>)
        ensures
            match r {
                Some(i) => i < self.bindings().len() && self.bindings()[i as int].0 == key@,
                None => forall|j: int| 0 <= j < self.bindings().len() ==> self.bindings()[j].0 != key@,
            },
    {
        let mut i: usize = 0;
        while i < self.memory.len()
            invariant
                i <= self.memory@.len(),
                self.bindings().len() == self.memory@.len(),
                forall|j: int| 0 <= j < i ==> self.bindings()[j].0 != key@,
            decreases self.memory@.len() - i,
        {
            proof {
                assert(self.bindings()[i as int].0 == self.memory@[i as int].0@);
            }
            if chars_eq(&self.memory[i].0, key) {
                return Some(i);
            }
            i = i + 1;
        }
        None
    }

    /// Binds the key before the first whitespace character to the rest of `args`.
    pub fn exec_memory_store(&mut self, args: &str) -> (r: Result<String, String>)
        requires
            old(self).wf(),
        ensures
            final(self).wf(),
            final(self).tools() == old(self).tools(),
            result_view(r) == store_outcome(args@),
            final(self).memory() == store_effect(old(self).memory(), args@),
    {
        let v = chars_of(args);
        let (key, rest) = split_once_ws(&v);
        let value = match rest {
            Some(value) => value,
            None => {
                return Err("Usage: /tool store <key> <value>".to_owned());
            },
        };
        let mut out = "Stored: ".to_owned();
        push_chars(&mut out, &key);
        out.append(" = ");
        push_chars(&mut out, &value);
        let ghost before = self.bindings();
        let ghost kv = (key@, value@);
        match self.find_key(&key) {
            Some(i) => {
                let _ = self.memory.remove(i);
                self.memory.insert(i, (key, value));
                proof {
                    assert(self.bindings() =~= before.update(i as int, kv));
                    lemma_to_map_update(before, i as int, value@);
                    assert forall|a: int, b: int|
                        0 <= a < self.bindings().len() && 0 <= b < self.bindings().len() && a != b
                        implies self.bindings()[a].0 != self.bindings()[b].0 by {
                        assert(before[a].0 != before[b].0);
                    }
                }
            },
            None => {
                self.memory.push((key, value));
                proof {
                    assert(self.bindings() =~= before.push(kv));
                    assert(self.bindings().drop_last() =~= before);
                    assert forall|a: int, b: int|
                        0 <= a < self.bindings().len() && 0 <= b < self.bindings().len() && a != b
                        implies self.bindings()[a].0 != self.bindings()[b].0 by {
                        if a < before.len() && b < before.len() {
                            assert(before[a].0 != before[b].0);
                        }
                    }
                }
            },
        }
        proof {
            assert(self.tools() == old(self).tools());
        }
        Ok(out)
    }

    /// The value bound to the trimmed key.
    pub fn exec_memory_recall(&self, args: &str) -> (r: Result<String, String>)
        requires
            self.wf(),
        ensures
            result_view(r) == recall_outcome(self.memory(), args@),
    {
        let v = chars_of(args);
        let key = trim_chars(&v);
        match self.find_key(&key) {
            Some(i) => {
                proof {
                    lemma_to_map_at(self.bindings(), i as int);
                    assert(self.bindings()[i as int].1 == self.memory@[i as int].1@);
                }
                let mut out = String::new();
                push_chars(&mut out, &key);
                out.append(" = ");
                push_chars(&mut out, &self.memory[i].1);
                Ok(out)
            },
            None => {
                proof {
                    lemma_to_map_absent(self.bindings(), key@);
                }
                let mut e = "Key '".to_owned();
                push_chars(&mut e, &key);
                e.append("' not found in memory");
                Err(e)
            },
        }
    }

    pub fn tool_count(&self) -> (r: usize)
        ensures
            r == self.tools().len(),
    {
        self.tools.len()
    }

    /// The names of the registered tools, ordered by name.
    pub fn tool_names(&self) -> (r: Vec<&str>)
        ensures
            r@.len() == self.tools().len(),
            forall|i: int| 0 <= i < r@.len() ==> (#[trigger] r@[i])@ == tool_name(self.tools()[i]),
    {
        let mut out: Vec<&str> = Vec::new();
        let mut i: usize = 0;
        while i < self.tools.len()
            invariant
                i <= self.tools@.len(),
                out@.len() == i,
                forall|j: int| 0 <= j < i ==> (#[trigger] out@[j])@ == tool_name(self.tools@[j]),
            decreases self.tools@.len() - i,
        {
            out.push(self.tools[i].name());
            i = i + 1;
        }
        out
    }
}

} // verus!
