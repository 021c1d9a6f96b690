//! The stack-machine interpreter.
//!
//! [`spec_run`] is a mathematical interpreter: from a chunk, a stack bound,
//! an operand stack and an instruction pointer it says what outcome
//! execution reaches. [`VirtualMachine::run`] is proved to return exactly
//! that outcome, so execution is deterministic: the same chunk and stack
//! always give the same result.
//!
//! Resource policy: pushing onto a full operand stack, an arithmetic
//! result outside 64 bits, and division by zero all halt with
//! `RuntimeError`; they never wrap, truncate or corrupt the stack.

use vstd::prelude::*;

use crate::chunk::Chunk;
use crate::chunk::OpCode;
use crate::chunk::spec_byte_op;
use crate::chunk::spec_op_byte;
use crate::parser::Parser;
use crate::parser::code_ok;
use crate::scanner::Scanner;
use crate::scanner::scan_spec;
use crate::token::TokenType;
use crate::value::is_number_lexeme;
use crate::value::lit_den;
use crate::value::lit_num;
use crate::value::Value;
use crate::value::add_val;
use crate::value::div_val;
use crate::value::mul_val;
use crate::value::neg_val;
use crate::value::spec_add;
use crate::value::spec_div;
use crate::value::spec_mul;
use crate::value::spec_neg;
use crate::value::spec_sub;
use crate::value::sub_val;

verus! {

/// The terminal outcome of one compile-or-execute pass.
#[derive(Debug, PartialEq, Eq, Structural, Copy, Clone)]
pub enum InterpretResult {
    Success,
    CompileError,
    RuntimeError,
}

/// A fixed-capacity LIFO stack. Pushing past `max_size` is refused and
/// reported to the caller; the stack itself is never corrupted.
pub struct VmStack<TValue> {
    pub max_size: usize,
    pub data: Vec<TValue>,
}

impl<TValue> VmStack<TValue> {
    /// Never more elements than the fixed capacity.
    pub open spec fn wf(self) -> bool {
        self.data@.len() <= self.max_size
    }

    pub fn new(max_size: usize) -> (s: Self)
        ensures
            s.wf(),
            s.max_size == max_size,
            s.data@ == Seq::<TValue>::empty(),
    {
        VmStack { max_size, data: Vec::with_capacity(max_size) }
    }

    /// Pushes a value; reports `false` and leaves the stack unchanged when
    /// it is already at capacity.
    pub fn push(&mut self, value: TValue) -> (ok: bool)
        requires
            old(self).wf(),
        ensures
            final(self).wf(),
            final(self).max_size == old(self).max_size,
            ok == (old(self).data@.len() < old(self).max_size),
            ok ==> final(self).data@ == old(self).data@.push(value),
            !ok ==> final(self).data@ == old(self).data@,
    {
        if self.data.len() >= self.max_size {
            false
        } else {
            self.data.push(value);
            true
        }
    }

    /// Pops the top value; `None` on an empty stack.
    pub fn pop(&mut self) -> (r: Option<TValue>)
        requires
            old(self).wf(),
        ensures
            final(self).wf(),
            final(self).max_size == old(self).max_size,
            old(self).data@.len() == 0 ==> r is None && final(self).data@ == old(self).data@,
            old(self).data@.len() > 0 ==> r == Some(old(self).data@.last()) && final(self).data@
                == old(self).data@.drop_last(),
    {
        let r = self.data.pop();
        proof {
            if old(self).data@.len() > 0 {
                assert(self.data@ =~= old(self).data@.drop_last());
            }
        }
        r
    }

    /// How many values the stack holds.
    pub fn len(&self) -> (n: usize)
        ensures
            n == self.data@.len(),
    {
        self.data.len()
    }
}

/// Every value on the operand stack is a well-formed fraction.
pub open spec fn all_wf(s: Seq<Value>) -> bool {
    forall|k: int| 0 <= k < s.len() ==> (#[trigger] s[k]).wf()
}

proof fn lemma_all_wf_push(s: Seq<Value>, v: Value)
    requires
        all_wf(s),
        v.wf(),
    ensures
        all_wf(s.push(v)),
{
    assert forall|k: int| 0 <= k < s.push(v).len() implies (#[trigger] s.push(v)[k]).wf() by {
        if k < s.len() {
            assert(s.push(v)[k] == s[k]);
        }
    }
}

proof fn lemma_all_wf_subrange(s: Seq<Value>, a: int, b: int)
    requires
        all_wf(s),
        0 <= a <= b <= s.len(),
    ensures
        all_wf(s.subrange(a, b)),
{
    assert forall|k: int| 0 <= k < s.subrange(a, b).len() implies (#[trigger] s.subrange(a, b)[
    k]).wf() by {
        assert(s.subrange(a, b)[k] == s[a + k]);
    }
}

/// The exact result of one binary instruction on left operand `l` and
/// right operand `r`; `None` on overflow or division by zero.
pub open spec fn spec_bin(op: OpCode, l: Value, r: Value) -> Option<Value> {
    match op {
        OpCode::Add => spec_add(l, r),
        OpCode::Subtract => spec_sub(l, r),
        OpCode::Multiply => spec_mul(l, r),
        OpCode::Divide => spec_div(l, r),
        _ => None,
    }
}

/// What one run of the virtual machine produces: the terminal state, the
/// value a `Return` instruction reported, and the operand stack left
/// behind.
pub struct RunOutcome {
    pub result: InterpretResult,
    pub value: Option<Value>,
    pub stack: Seq<Value>,
}

/// The mathematical interpreter. Fetches the opcode at `ip` (the sentinel
/// beyond the stream's end), dispatches, and recurses on the advanced
/// instruction pointer.
///
/// Binary instructions pop the right operand first, then the left, and
/// push `left OP right`, matching the order in which the compiler emits
/// operands: `10 - 4` computes to `6`.
pub open spec fn spec_run(c: Chunk, cap: nat, stack: Seq<Value>, ip: nat) -> RunOutcome
    decreases c.code@.len() - ip,
{
    if ip >= c.code@.len() {
        RunOutcome { result: InterpretResult::Success, value: None, stack }
    } else {
        let op = spec_byte_op(c.code@[ip as int]);
        if op == OpCode::EOP {
            RunOutcome { result: InterpretResult::Success, value: None, stack }
        } else if op == OpCode::Return {
            if stack.len() == 0 {
                RunOutcome { result: InterpretResult::RuntimeError, value: None, stack }
            } else {
                RunOutcome {
                    result: InterpretResult::Success,
                    value: Some(stack.last()),
                    stack: stack.drop_last(),
                }
            }
        } else if op == OpCode::Negate {
            if stack.len() == 0 {
                RunOutcome { result: InterpretResult::RuntimeError, value: None, stack }
            } else {
                match spec_neg(stack.last()) {
                    Some(v) => spec_run(c, cap, stack.drop_last().push(v), (ip + 1) as nat),
                    None => RunOutcome {
                        result: InterpretResult::RuntimeError,
                        value: None,
                        stack,
                    },
                }
            }
        } else if op == OpCode::Constant {
            if ip + 1 >= c.code@.len() {
                RunOutcome { result: InterpretResult::RuntimeError, value: None, stack }
            } else {
                let idx = c.code@[ip as int + 1] as int;
                if idx >= c.constants_view().len() {
                    RunOutcome { result: InterpretResult::RuntimeError, value: None, stack }
                } else if stack.len() >= cap {
                    RunOutcome { result: InterpretResult::RuntimeError, value: None, stack }
                } else {
                    spec_run(c, cap, stack.push(c.constants_view()[idx]), (ip + 2) as nat)
                }
            }
        } else {
            // one of the four binary arithmetic instructions
            if stack.len() < 2 {
                RunOutcome { result: InterpretResult::RuntimeError, value: None, stack }
            } else {
                let r = stack.last();
                let l = stack[stack.len() - 2];
                match spec_bin(op, l, r) {
                    Some(v) => spec_run(
                        c,
                        cap,
                        stack.subrange(0, stack.len() - 2).push(v),
                        (ip + 1) as nat,
                    ),
                    None => RunOutcome {
                        result: InterpretResult::RuntimeError,
                        value: None,
                        stack,
                    },
                }
            }
        }
    }
}

/// Executes one completed chunk on a fixed-capacity operand stack.
pub struct VirtualMachine {
    pub chunks: Chunk,
    pub stack: VmStack<Value>,
    pub ip: usize,
}

impl VirtualMachine {
    pub open spec fn wf(self) -> bool {
        &&& self.chunks.wf()
        &&& self.stack.wf()
        &&& all_wf(self.stack.data@)
        &&& self.ip <= self.chunks.code@.len()
    }

    /// A fresh machine: a wholly empty chunk (no code, no pooled
    /// constants, no line entries), an empty stack of capacity 256, and
    /// the instruction pointer at the start.
    pub fn new() -> (vm: VirtualMachine)
        ensures
            vm.wf(),
            vm.chunks.code@ == Seq::<u8>::empty(),
            vm.chunks.constants_view() == Seq::<Value>::empty(),
            vm.chunks.lines_view() == Seq::<usize>::empty(),
            vm.stack.data@ == Seq::<Value>::empty(),
            vm.stack.max_size == 256,
            vm.ip == 0,
    {
        VirtualMachine { chunks: Chunk::new(), stack: VmStack::new(256), ip: 0 }
    }

    /// Fetch-decode-dispatch until the program halts; returns the terminal
    /// state and the value reported by `Return`, exactly as [`spec_run`]
    /// says for the starting state.
    #[verifier::loop_isolation(false)]
    pub fn run(&mut self) -> (r: (InterpretResult, Option<Value>))
        requires
            old(self).wf(),
        ensures
            final(self).wf(),
            final(self).chunks == old(self).chunks,
            final(self).stack.max_size == old(self).stack.max_size,
            ({
                let o = spec_run(
                    old(self).chunks,
                    old(self).stack.max_size as nat,
                    old(self).stack.data@,
                    old(self).ip as nat,
                );
                &&& r.0 == o.result
                &&& r.1 == o.value
                &&& final(self).stack.data@ == o.stack
            }),
    {
        let ghost c = self.chunks;
        let ghost cap = self.stack.max_size as nat;
        let ghost o = spec_run(c, cap, self.stack.data@, self.ip as nat);
        let code_len = self.chunks.code.len();
        loop
            invariant
                self.wf(),
                self.chunks == c,
                self.stack.max_size == old(self).stack.max_size,
                code_len == c.code@.len(),
                spec_run(c, cap, self.stack.data@, self.ip as nat) == o,
            decreases c.code@.len() - self.ip,
        {
            let op = self.chunks.get_op_code(self.ip);
            match op {
                OpCode::Constant => {
                    if self.ip >= code_len - 1 {
                        return (InterpretResult::RuntimeError, None);
                    }
                    let idx = self.chunks.code[self.ip + 1];
                    match self.chunks.get_constant(idx as usize) {
                        Some(value) => {
                            proof {
                                lemma_all_wf_push(self.stack.data@, value);
                            }
                            if !self.stack.push(value) {
                                return (InterpretResult::RuntimeError, None);
                            }
                            self.ip = self.ip + 2;
                        },
                        None => {
                            return (InterpretResult::RuntimeError, None);
                        },
                    }
                },
                OpCode::Add => {
                    let n = self.stack.len();
                    if n < 2 {
                        return (InterpretResult::RuntimeError, None);
                    }
                    let value_a = self.stack.data[n - 1];
                    let value_b = self.stack.data[n - 2];
                    match add_val(value_b, value_a) {
                        Some(v) => {
                            self.binary_push(v);
                        },
                        None => {
                            return (InterpretResult::RuntimeError, None);
                        },
                    }
                },
                OpCode::Subtract => {
                    let n = self.stack.len();
                    if n < 2 {
                        return (InterpretResult::RuntimeError, None);
                    }
                    let value_a = self.stack.data[n - 1];
                    let value_b = self.stack.data[n - 2];
                    match sub_val(value_b, value_a) {
                        Some(v) => {
                            self.binary_push(v);
                        },
                        None => {
                            return (InterpretResult::RuntimeError, None);
                        },
                    }
                },
                OpCode::Multiply => {
                    let n = self.stack.len();
                    if n < 2 {
                        return (InterpretResult::RuntimeError, None);
                    }
                    let value_a = self.stack.data[n - 1];
                    let value_b = self.stack.data[n - 2];
                    match mul_val(value_b, value_a) {
                        Some(v) => {
                            self.binary_push(v);
                        },
                        None => {
                            return (InterpretResult::RuntimeError, None);
                        },
                    }
                },
                OpCode::Divide => {
                    let n = self.stack.len();
                    if n < 2 {
                        return (InterpretResult::RuntimeError, None);
                    }
                    let value_a = self.stack.data[n - 1];
                    let value_b = self.stack.data[n - 2];
                    match div_val(value_b, value_a) {
                        Some(v) => {
                            self.binary_push(v);
                        },
                        None => {
                            return (InterpretResult::RuntimeError, None);
                        },
                    }
                },
                OpCode::Negate => {
                    let n = self.stack.len();
                    if n < 1 {
                        return (InterpretResult::RuntimeError, None);
                    }
                    let value = self.stack.data[n - 1];
                    match neg_val(value) {
                        Some(v) => {
                            proof {
                                lemma_all_wf_subrange(self.stack.data@, 0, n - 1);
                                lemma_all_wf_push(self.stack.data@.subrange(0, n - 1), v);
                            }
                            self.stack.data.truncate(n - 1);
                            self.stack.data.push(v);
                            self.ip = self.ip + 1;
                        },
                        None => {
                            return (InterpretResult::RuntimeError, None);
                        },
                    }
                },
                OpCode::Return => {
                    match self.stack.pop() {
                        Some(v) => {
                            return (InterpretResult::Success, Some(v));
                        },
                        None => {
                            return (InterpretResult::RuntimeError, None);
                        },
                    }
                },
                OpCode::EOP => {
                    return (InterpretResult::Success, None);
                },
            }
        }
    }

    /// Compiles one source text and, when compilation succeeds, installs
    /// the chunk, resets the instruction pointer and operand stack, and
    /// executes it. On a compile error nothing is installed and nothing
    /// runs; the machine is left exactly as it was, ready for the next
    /// input.
    pub fn interpret(&mut self, source: &str) -> (r: (InterpretResult, Option<Value>))
        requires
            old(self).wf(),
            source@.len() < usize::MAX,
        ensures
            final(self).wf(),
            final(self).stack.max_size == old(self).stack.max_size,
            r.0 == InterpretResult::CompileError ==> *final(self) == *old(self),
            r.0 != InterpretResult::CompileError ==> ({
                let o = spec_run(
                    final(self).chunks,
                    old(self).stack.max_size as nat,
                    Seq::empty(),
                    0,
                );
                &&& r.0 == o.result
                &&& r.1 == o.value
                &&& final(self).stack.data@ == o.stack
                &&& final(self).chunks.code@.len() > 0
                &&& spec_byte_op(final(self).chunks.code@.last()) == OpCode::Return
                &&& code_ok(
                    final(self).chunks.code@,
                    final(self).chunks.constants_view().len() as int,
                    0,
                )
            }),
            ({
                // one numeric literal in, exactly its value out
                let t = scan_spec(source@, 0, 1);
                let lex = source@.subrange(t.start, t.end);
                let t2 = scan_spec(source@, t.end, t.after_line);
                (t.kind == TokenType::Number && t2.kind == TokenType::Eof && is_number_lexeme(lex)
                    && lit_num(lex) <= i64::MAX && lit_den(lex) <= i64::MAX && old(
                    self,
                ).stack.max_size >= 1) ==> {
                    &&& r.0 == InterpretResult::Success
                    &&& r.1 == Some((Value { num: lit_num(lex) as i64, den: lit_den(lex) as i64 }))
                }
            }),
            // a source with no expression at all compiles to nothing and runs nothing
            scan_spec(source@, 0, 1).kind == TokenType::Eof ==> r.0
                == InterpretResult::CompileError && *final(self) == *old(self),
            ({
                // one literal, one binary operator, one literal: the exact
                // result, with the left operand on the left
                let t = scan_spec(source@, 0, 1);
                let lex1 = source@.subrange(t.start, t.end);
                let t2 = scan_spec(source@, t.end, t.after_line);
                let t3 = scan_spec(source@, t2.end, t2.after_line);
                let t4 = scan_spec(source@, t3.end, t3.after_line);
                let lex2 = source@.subrange(t3.start, t3.end);
                let v1 = Value { num: lit_num(lex1) as i64, den: lit_den(lex1) as i64 };
                let v2 = Value { num: lit_num(lex2) as i64, den: lit_den(lex2) as i64 };
                (t.kind == TokenType::Number && is_number_lexeme(lex1) && lit_num(lex1)
                    <= i64::MAX && lit_den(lex1) <= i64::MAX && crate::parser::bin_opcode(
                    t2.kind,
                ) is Some && t3.kind == TokenType::Number && is_number_lexeme(lex2) && lit_num(
                    lex2,
                ) <= i64::MAX && lit_den(lex2) <= i64::MAX && t4.kind == TokenType::Eof && spec_bin(
                    crate::parser::bin_opcode(t2.kind)->Some_0,
                    v1,
                    v2,
                ) is Some && old(self).stack.max_size >= 2) ==> {
                    &&& r.0 == InterpretResult::Success
                    &&& r.1 == Some(
                        spec_bin(crate::parser::bin_opcode(t2.kind)->Some_0, v1, v2)->Some_0,
                    )
                }
            }),
    {
        let ghost t = scan_spec(source@, 0, 1);
        let ghost lex = source@.subrange(t.start, t.end);
        let ghost t2 = scan_spec(source@, t.end, t.after_line);
        let scanner = Scanner::new(source);
        let chunk = Chunk::new();
        let mut parser = Parser::new(scanner, chunk);
        let parse_result = parser.parse();

        if !parse_result {
            return (InterpretResult::CompileError, None);
        }
        self.chunks = parser.chunk;
        self.ip = 0;
        self.stack.data.clear();
        proof {
            assert(all_wf(self.stack.data@));
            lemma_spec_run_not_compile_error(
                self.chunks,
                self.stack.max_size as nat,
                self.stack.data@,
                0,
            );
            if t.kind == TokenType::Number && t2.kind == TokenType::Eof && is_number_lexeme(lex)
                && lit_num(lex) <= i64::MAX && lit_den(lex) <= i64::MAX && old(
                self,
            ).stack.max_size >= 1 {
                let v = Value { num: lit_num(lex) as i64, den: lit_den(lex) as i64 };
                assert(self.chunks.code@ =~= seq![
                    spec_op_byte(OpCode::Constant),
                    0u8,
                    spec_op_byte(OpCode::Return),
                ]);
                assert(self.chunks.constants_view() =~= seq![v]);
                lemma_run_single_constant(self.chunks, self.stack.max_size as nat, v);
            }
            ({
                let t3 = scan_spec(source@, t2.end, t2.after_line);
                let t4 = scan_spec(source@, t3.end, t3.after_line);
                let lex2 = source@.subrange(t3.start, t3.end);
                let v1 = Value { num: lit_num(lex) as i64, den: lit_den(lex) as i64 };
                let v2 = Value { num: lit_num(lex2) as i64, den: lit_den(lex2) as i64 };
                if t.kind == TokenType::Number && is_number_lexeme(lex) && lit_num(lex)
                    <= i64::MAX && lit_den(lex) <= i64::MAX && crate::parser::bin_opcode(
                    t2.kind,
                ) is Some && t3.kind == TokenType::Number && is_number_lexeme(lex2) && lit_num(
                    lex2,
                ) <= i64::MAX && lit_den(lex2) <= i64::MAX && t4.kind == TokenType::Eof && spec_bin(
                    crate::parser::bin_opcode(t2.kind)->Some_0,
                    v1,
                    v2,
                ) is Some && old(self).stack.max_size >= 2 {
                    let opb = spec_op_byte(crate::parser::bin_opcode(t2.kind)->Some_0);
                    assert(self.chunks.code@ =~= seq![
                        spec_op_byte(OpCode::Constant),
                        0u8,
                        spec_op_byte(OpCode::Constant),
                        1u8,
                        opb,
                        spec_op_byte(OpCode::Return),
                    ]);
                    assert(self.chunks.constants_view() =~= seq![v1, v2]);
                    lemma_run_binary_operand_order(
                        self.chunks,
                        self.stack.max_size as nat,
                        opb,
                        v1,
                        v2,
                    );
                }
            });
        }
        self.run()
    }

    /// Replaces the top two stack values with the given result and steps
    /// past the instruction.
    fn binary_push(&mut self, v: Value)
        requires
            old(self).wf(),
            old(self).stack.data@.len() >= 2,
            old(self).ip < old(self).chunks.code@.len(),
            old(self).chunks.code@.len() <= usize::MAX,
            v.wf(),
        ensures
            final(self).wf(),
            final(self).chunks == old(self).chunks,
            final(self).stack.max_size == old(self).stack.max_size,
            final(self).stack.data@ == old(self).stack.data@.subrange(
                0,
                old(self).stack.data@.len() - 2,
            ).push(v),
            final(self).ip == old(self).ip + 1,
    {
        let n = self.stack.data.len();
        proof {
            lemma_all_wf_subrange(self.stack.data@, 0, n - 2);
            lemma_all_wf_push(self.stack.data@.subrange(0, n - 2), v);
        }
        self.stack.data.truncate(n - 2);
        self.stack.data.push(v);
        self.ip = self.ip + 1;
    }
}

/// Execution never reports a compile error: that outcome belongs to the
/// compiler alone.
pub proof fn lemma_spec_run_not_compile_error(c: Chunk, cap: nat, stack: Seq<Value>, ip: nat)
    ensures
        spec_run(c, cap, stack, ip).result != InterpretResult::CompileError,
    decreases c.code@.len() - ip,
{
    if ip < c.code@.len() {
        let op = spec_byte_op(c.code@[ip as int]);
        if op == OpCode::Negate {
            if stack.len() > 0 && spec_neg(stack.last()) is Some {
                lemma_spec_run_not_compile_error(
                    c,
                    cap,
                    stack.drop_last().push(spec_neg(stack.last())->Some_0),
                    (ip + 1) as nat,
                );
            }
        } else if op == OpCode::Constant {
            if ip + 1 < c.code@.len() && (c.code@[ip as int + 1] as int) < c.constants_view().len()
                && stack.len() < cap {
                lemma_spec_run_not_compile_error(
                    c,
                    cap,
                    stack.push(c.constants_view()[c.code@[ip as int + 1] as int]),
                    (ip + 2) as nat,
                );
            }
        } else if op != OpCode::EOP && op != OpCode::Return {
            if stack.len() >= 2 && spec_bin(op, stack[stack.len() - 2], stack.last()) is Some {
                lemma_spec_run_not_compile_error(
                    c,
                    cap,
                    stack.subrange(0, stack.len() - 2).push(
                        spec_bin(op, stack[stack.len() - 2], stack.last())->Some_0,
                    ),
                    (ip + 1) as nat,
                );
            }
        }
    }
}

/// A program that loads one pooled value and returns it reports exactly
/// that value: running the code `[load-constant 0, return]` over the pool
/// `[v]` on an empty stack succeeds with `v`. Together with the
/// compiler's contract this pins down what a one-literal program
/// produces.
pub proof fn lemma_run_single_constant(c: Chunk, cap: nat, v: Value)
    requires
        c.code@ =~= seq![spec_op_byte(OpCode::Constant), 0u8, spec_op_byte(OpCode::Return)],
        c.constants_view() =~= seq![v],
        cap >= 1,
    ensures
        spec_run(c, cap, Seq::empty(), 0).result == InterpretResult::Success,
        spec_run(c, cap, Seq::empty(), 0).value == Some(v),
{
    reveal_with_fuel(spec_run, 3);
    let s1 = Seq::<Value>::empty().push(c.constants_view()[0]);
    assert(spec_byte_op(c.code@[0]) == OpCode::Constant);
    assert(spec_byte_op(c.code@[2]) == OpCode::Return);
    assert(spec_run(c, cap, Seq::empty(), 0) == spec_run(c, cap, s1, 2));
    assert(s1.last() == v);
}

/// Binary instructions consume their operands in emission order: over the
/// pool `[a, b]`, the program `[load-constant 0, load-constant 1, op,
/// return]` computes `a OP b`, with the first-emitted operand on the left
/// — compiling and running `10 - 4` gives `6`, never `-6`.
#[verifier::rlimit(60)]
pub proof fn lemma_run_binary_operand_order(c: Chunk, cap: nat, op: u8, a: Value, b: Value)
    requires
        c.code@ =~= seq![
            spec_op_byte(OpCode::Constant),
            0u8,
            spec_op_byte(OpCode::Constant),
            1u8,
            op,
            spec_op_byte(OpCode::Return),
        ],
        c.constants_view() =~= seq![a, b],
        cap >= 2,
        spec_byte_op(op) == OpCode::Add || spec_byte_op(op) == OpCode::Subtract || spec_byte_op(
            op,
        ) == OpCode::Multiply || spec_byte_op(op) == OpCode::Divide,
        spec_bin(spec_byte_op(op), a, b) is Some,
    ensures
        spec_run(c, cap, Seq::empty(), 0).result == InterpretResult::Success,
        spec_run(c, cap, Seq::empty(), 0).value == Some(
            spec_bin(spec_byte_op(op), a, b)->Some_0,
        ),
{
    let s1 = Seq::<Value>::empty().push(a);
    let s2 = s1.push(b);
    let v = spec_bin(spec_byte_op(op), a, b)->Some_0;
    let s3 = s2.subrange(0, s2.len() - 2).push(v);
    assert(spec_byte_op(c.code@[0]) == OpCode::Constant);
    assert(c.constants_view()[c.code@[1] as int] == a);
    assert(spec_byte_op(c.code@[2]) == OpCode::Constant);
    assert(c.constants_view()[c.code@[3] as int] == b);
    assert(spec_byte_op(c.code@[5]) == OpCode::Return);
    assert(spec_run(c, cap, Seq::empty(), 0) == spec_run(c, cap, s1, 2));
    assert(spec_run(c, cap, s1, 2) == spec_run(c, cap, s2, 4));
    assert(s2.last() == b);
    assert(s2[s2.len() - 2] == a);
    assert(spec_run(c, cap, s2, 4) == spec_run(c, cap, s3, 5));
    assert(s3.last() == v);
    assert(spec_run(c, cap, s3, 5).result == InterpretResult::Success);
    assert(spec_run(c, cap, s3, 5).value == Some(v));
}

/// Negation is applied to the value the preceding instruction pushed:
/// over the pool `[a]`, the program `[load-constant 0, negate, return]`
/// reports exactly `-a`.
pub proof fn lemma_run_negate(c: Chunk, cap: nat, a: Value)
    requires
        c.code@ =~= seq![
            spec_op_byte(OpCode::Constant),
            0u8,
            spec_op_byte(OpCode::Negate),
            spec_op_byte(OpCode::Return),
        ],
        c.constants_view() =~= seq![a],
        cap >= 1,
        spec_neg(a) is Some,
    ensures
        spec_run(c, cap, Seq::empty(), 0).result == InterpretResult::Success,
        spec_run(c, cap, Seq::empty(), 0).value == Some(spec_neg(a)->Some_0),
{
    let s1 = Seq::<Value>::empty().push(a);
    let v = spec_neg(a)->Some_0;
    let s2 = s1.drop_last().push(v);
    assert(spec_byte_op(c.code@[0]) == OpCode::Constant);
    assert(c.constants_view()[c.code@[1] as int] == a);
    assert(spec_byte_op(c.code@[2]) == OpCode::Negate);
    assert(spec_byte_op(c.code@[3]) == OpCode::Return);
    assert(spec_run(c, cap, Seq::empty(), 0) == spec_run(c, cap, s1, 2));
    assert(s1.last() == a);
    assert(spec_run(c, cap, s1, 2) == spec_run(c, cap, s2, 3));
    assert(s2.last() == v);
}

} // verus!
