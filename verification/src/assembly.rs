//! The assembler's error type: a message, the source step it points at, and
//! the operation token it belongs to.
//!
//! The exact user-visible rendering of a message is not part of any
//! contract; what each constructor states is the message text it builds.

use vstd::prelude::*;
use vstd::string::StringExecFns;

use crate::text::dec_spec;
use crate::text::dec_str;
use crate::text::join_spec;
use crate::text::join_with;
use crate::text::quote_list;
use crate::text::quote_str;
use crate::text::quoted_list_spec;
use crate::text::quoted_spec;

verus! {

/// A source token: its parts (the pieces between the dots of the written
/// form) and its position in the token stream.
pub struct Token {
    parts: Vec<String>,
    pos: usize,
}

impl Token {
    /// The token's parts.
    pub closed spec fn parts_view(self) -> Seq<Seq<char>> {
        self.parts@.map(|i: int, p: String| p@)
    }

    /// The token's position in the token stream.
    pub closed spec fn pos_view(self) -> int {
        self.pos as int
    }

    /// The written form: the parts joined by dots.
    pub open spec fn text_spec(self) -> Seq<char> {
        join_spec(self.parts_view(), '.')
    }

    /// A token from its parts and its position.
    pub fn new(parts: Vec<String>, pos: usize) -> (r: Token)
        ensures
            r.parts_view() == parts@.map(|i: int, p: String| p@),
            r.pos_view() == pos,
    {
        Token { parts, pos }
    }

    /// The parts.
    pub fn parts(&self) -> (r: &Vec<String>)
        ensures
            r@.map(|i: int, p: String| p@) == self.parts_view(),
    {
        &self.parts
    }

    /// The position in the token stream.
    pub fn pos(&self) -> (r: usize)
        ensures
            r == self.pos_view(),
    {
        self.pos
    }

    /// The written form: the parts joined by dots.
    pub fn text(&self) -> (r: String)
        ensures
            r@ == self.text_spec(),
    {
        proof {
            reveal_strlit(".");
        }
        join_with(&self.parts, ".")
    }
}

/// An error raised while assembling a source program.
pub struct AssemblyError {
    message: String,
    step: usize,
    op: String,
}

impl AssemblyError {
    /// The error message.
    pub closed spec fn message_view(self) -> Seq<char> {
        self.message@
    }

    /// The source step the error points at.
    pub closed spec fn step_view(self) -> int {
        self.step as int
    }

    /// The written form of the operation the error belongs to.
    pub closed spec fn op_view(self) -> Seq<char> {
        self.op@
    }

    /// An error at a token: the token's position and written form.
    fn from_token(token: &Token, message: String) -> (r: AssemblyError)
        ensures
            r.message_view() == message@,
            r.step_view() == token.pos_view(),
            r.op_view() == token.text_spec(),
    {
        AssemblyError { message, step: token.pos(), op: token.text() }
    }

    /// An error bound to no token.
    fn at_step(step: usize, message: String) -> (r: AssemblyError)
        ensures
            r.message_view() == message@,
            r.step_view() == step,
            r.op_view() == Seq::<char>::empty(),
    {
        AssemblyError { message, step, op: String::new() }
    }

    pub fn empty_source() -> (r: Self)
        ensures
            r.message_view() == "source code cannot be an empty string"@,
            r.step_view() == 0,
            r.op_view() == Seq::<char>::empty(),
    {
        Self::at_step(0, String::from_str("source code cannot be an empty string"))
    }

    pub fn unexpected_eof(step: usize) -> (r: Self)
        ensures
            r.message_view() == "unexpected EOF"@,
            r.step_view() == step,
            r.op_view() == Seq::<char>::empty(),
    {
        Self::at_step(step, String::from_str("unexpected EOF"))
    }

    pub fn unexpected_token(token: &Token, expected: &str) -> (r: Self)
        ensures
            r.message_view() == "unexpected token: expected '"@ + expected@ + "' but was '"@
                + token.text_spec() + "'"@,
            r.step_view() == token.pos_view(),
            r.op_view() == token.text_spec(),
    {
        let t = token.text();
        let m = String::from_str("unexpected token: expected '").concat(expected).concat(
            "' but was '",
        ).concat(t.as_str()).concat("'");
        Self::from_token(token, m)
    }

    pub fn empty_block(token: &Token) -> (r: Self)
        ensures
            r.message_view() == "a code block must contain at least one instruction"@,
            r.step_view() == token.pos_view(),
            r.op_view() == token.text_spec(),
    {
        Self::from_token(
            token,
            String::from_str("a code block must contain at least one instruction"),
        )
    }

    pub fn invalid_ast_body() -> (r: Self)
        ensures
            r.message_view() == "ast body contains no instructions"@,
            r.step_view() == 0,
            r.op_view() == Seq::<char>::empty(),
    {
        Self::at_step(0, String::from_str("ast body contains no instructions"))
    }

    pub fn invalid_op(token: &Token) -> (r: Self)
        ensures
            r.message_view() == "instruction '"@ + token.text_spec() + "' is invalid"@,
            r.step_view() == token.pos_view(),
            r.op_view() == token.text_spec(),
    {
        let t = token.text();
        let m = String::from_str("instruction '").concat(t.as_str()).concat("' is invalid");
        Self::from_token(token, m)
    }

    pub fn invalid_op_with_reason(token: &Token, reason: &str) -> (r: Self)
        ensures
            r.message_view() == "instruction '"@ + token.text_spec() + "' is invalid: "@
                + reason@,
            r.step_view() == token.pos_view(),
            r.op_view() == token.text_spec(),
    {
        let t = token.text();
        let m = String::from_str("instruction '").concat(t.as_str()).concat(
            "' is invalid: ",
        ).concat(reason);
        Self::from_token(token, m)
    }

    pub fn missing_param(token: &Token) -> (r: Self)
        ensures
            r.message_view() == "malformed instruction '"@ + token.text_spec()
                + "': missing required parameter"@,
            r.step_view() == token.pos_view(),
            r.op_view() == token.text_spec(),
    {
        let t = token.text();
        let m = String::from_str("malformed instruction '").concat(t.as_str()).concat(
            "': missing required parameter",
        );
        Self::from_token(token, m)
    }

    pub fn extra_param(token: &Token) -> (r: Self)
        ensures
            r.message_view() == "malformed instruction '"@ + token.text_spec()
                + "': too many parameters provided"@,
            r.step_view() == token.pos_view(),
            r.op_view() == token.text_spec(),
    {
        let t = token.text();
        let m = String::from_str("malformed instruction '").concat(t.as_str()).concat(
            "': too many parameters provided",
        );
        Self::from_token(token, m)
    }

    pub fn invalid_instruction(instruction: &str) -> (r: Self)
        ensures
            r.message_view() == "invalid instruction `"@ + instruction@ + "` is invalid"@,
            r.step_view() == 0,
            r.op_view() == Seq::<char>::empty(),
    {
        let m = String::from_str("invalid instruction `").concat(instruction).concat(
            "` is invalid",
        );
        Self::at_step(0, m)
    }

    pub fn invalid_instruction_with_reason(instruction: &str, reason: &str) -> (r: Self)
        ensures
            r.message_view() == "invalid instruction `"@ + instruction@ + "` is invalid: "@
                + reason@,
            r.step_view() == 0,
            r.op_view() == Seq::<char>::empty(),
    {
        let m = String::from_str("invalid instruction `").concat(instruction).concat(
            "` is invalid: ",
        ).concat(reason);
        Self::at_step(0, m)
    }

    pub fn invalid_param(token: &Token, part_idx: usize) -> (r: Self)
        requires
            part_idx < token.parts_view().len(),
        ensures
            r.message_view() == "malformed instruction `"@ + token.text_spec()
                + "`: parameter '"@ + token.parts_view()[part_idx as int] + "' is invalid"@,
            r.step_view() == token.pos_view(),
            r.op_view() == token.text_spec(),
    {
        let t = token.text();
        let m = String::from_str("malformed instruction `").concat(t.as_str()).concat(
            "`: parameter '",
        ).concat(token.parts()[part_idx].as_str()).concat("' is invalid");
        Self::from_token(token, m)
    }

    pub fn invalid_param_with_reason(token: &Token, part_idx: usize, reason: &str) -> (r: Self)
        requires
            part_idx < token.parts_view().len(),
        ensures
            r.message_view() == "malformed instruction '"@ + token.text_spec()
                + "', parameter "@ + token.parts_view()[part_idx as int] + " is invalid: "@
                + reason@,
            r.step_view() == token.pos_view(),
            r.op_view() == token.text_spec(),
    {
        let t = token.text();
        let m = String::from_str("malformed instruction '").concat(t.as_str()).concat(
            "', parameter ",
        ).concat(token.parts()[part_idx].as_str()).concat(" is invalid: ").concat(reason);
        Self::from_token(token, m)
    }

    pub fn dangling_else(token: &Token) -> (r: Self)
        ensures
            r.message_view() == "else without matching if"@,
            r.step_view() == token.pos_view(),
            r.op_view() == token.text_spec(),
    {
        Self::from_token(token, String::from_str("else without matching if"))
    }

    pub fn unmatched_if(token: &Token) -> (r: Self)
        ensures
            r.message_view() == "if without matching else/end"@,
            r.step_view() == token.pos_view(),
            r.op_view() == token.text_spec(),
    {
        Self::from_token(token, String::from_str("if without matching else/end"))
    }

    pub fn unmatched_while(token: &Token) -> (r: Self)
        ensures
            r.message_view() == "while without matching end"@,
            r.step_view() == token.pos_view(),
            r.op_view() == token.text_spec(),
    {
        Self::from_token(token, String::from_str("while without matching end"))
    }

    pub fn unmatched_repeat(token: &Token) -> (r: Self)
        ensures
            r.message_view() == "repeat without matching end"@,
            r.step_view() == token.pos_view(),
            r.op_view() == token.text_spec(),
    {
        Self::from_token(token, String::from_str("repeat without matching end"))
    }

    pub fn unmatched_else(token: &Token) -> (r: Self)
        ensures
            r.message_view() == "else without matching end"@,
            r.step_view() == token.pos_view(),
            r.op_view() == token.text_spec(),
    {
        Self::from_token(token, String::from_str("else without matching end"))
    }

    pub fn unmatched_comment(step: usize) -> (r: Self)
        ensures
            r.message_view() == "# comment delimiter without matching #"@,
            r.step_view() == step,
            r.op_view() == Seq::<char>::empty(),
    {
        Self::at_step(step, String::from_str("# comment delimiter without matching #"))
    }

    pub fn unmatched_begin(token: &Token) -> (r: Self)
        ensures
            r.message_view() == "begin without matching end"@,
            r.step_view() == token.pos_view(),
            r.op_view() == token.text_spec(),
    {
        Self::from_token(token, String::from_str("begin without matching end"))
    }

    pub fn dangling_ops_after_program(token: &Token) -> (r: Self)
        ensures
            r.message_view() == "dangling instructions after program end"@,
            r.step_view() == token.pos_view(),
            r.op_view() == token.text_spec(),
    {
        Self::from_token(token, String::from_str("dangling instructions after program end"))
    }

    pub fn duplicate_proc_label(token: &Token, label: &str) -> (r: Self)
        ensures
            r.message_view() == "duplicate procedure label: "@ + label@,
            r.step_view() == token.pos_view(),
            r.op_view() == token.text_spec(),
    {
        let m = String::from_str("duplicate procedure label: ").concat(label);
        Self::from_token(token, m)
    }

    pub fn invalid_proc_label(token: &Token, label: &str) -> (r: Self)
        ensures
            r.message_view() == "invalid procedure label: "@ + label@,
            r.step_view() == token.pos_view(),
            r.op_view() == token.text_spec(),
    {
        let m = String::from_str("invalid procedure label: ").concat(label);
        Self::from_token(token, m)
    }

    pub fn invalid_proc_locals(token: &Token, locals: &str) -> (r: Self)
        ensures
            r.message_view() == "invalid procedure locals: "@ + locals@,
            r.step_view() == token.pos_view(),
            r.op_view() == token.text_spec(),
    {
        let m = String::from_str("invalid procedure locals: ").concat(locals);
        Self::from_token(token, m)
    }

    pub fn unmatched_proc(token: &Token) -> (r: Self)
        ensures
            r.message_view() == "proc without matching end"@,
            r.step_view() == token.pos_view(),
            r.op_view() == token.text_spec(),
    {
        Self::from_token(token, String::from_str("proc without matching end"))
    }

    pub fn undefined_proc(token: &Token, label: &str) -> (r: Self)
        ensures
            r.message_view() == "undefined proc: "@ + label@,
            r.step_view() == token.pos_view(),
            r.op_view() == token.text_spec(),
    {
        let m = String::from_str("undefined proc: ").concat(label);
        Self::from_token(token, m)
    }

    pub fn undefined_imported_proc(procedure_id: String) -> (r: Self)
        ensures
            r.message_view() == "undefined imported procedure: "@ + quoted_spec(procedure_id@),
            r.step_view() == 0,
            r.op_view() == Seq::<char>::empty(),
    {
        let q = quote_str(procedure_id.as_str());
        let m = String::from_str("undefined imported procedure: ").concat(q.as_str());
        Self::at_step(0, m)
    }

    pub fn undefined_local_proc(index: u16) -> (r: Self)
        ensures
            r.message_view() == "undefined local procedure: "@ + dec_spec(index as nat),
            r.step_view() == 0,
            r.op_view() == Seq::<char>::empty(),
    {
        let d = dec_str(index as u64);
        let m = String::from_str("undefined local procedure: ").concat(d.as_str());
        Self::at_step(0, m)
    }

    pub fn undefined_kernel_proc(proc_hash: &[u8; 24]) -> (r: Self)
        ensures
            r.message_view() == "undefined kernel procedure hash: "@ + byte_list_spec(
                proc_hash@,
            ),
            r.step_view() == 0,
            r.op_view() == Seq::<char>::empty(),
    {
        let d = byte_list(proc_hash);
        let m = String::from_str("undefined kernel procedure hash: ").concat(d.as_str());
        Self::at_step(0, m)
    }

    pub fn proc_export_not_allowed(token: &Token, label: &str) -> (r: Self)
        ensures
            r.message_view() == "exported procedures not allowed in this context: "@ + label@,
            r.step_view() == token.pos_view(),
            r.op_view() == token.text_spec(),
    {
        let m = String::from_str("exported procedures not allowed in this context: ").concat(
            label,
        );
        Self::from_token(token, m)
    }

    pub fn proc_not_in_kernel(token: &Token, label: &str) -> (r: Self)
        ensures
            r.message_view() == "procedure '"@ + label@ + "' is not a part of the kernel"@,
            r.step_view() == token.pos_view(),
            r.op_view() == token.text_spec(),
    {
        let m = String::from_str("procedure '").concat(label).concat(
            "' is not a part of the kernel",
        );
        Self::from_token(token, m)
    }

    pub fn syscall_in_kernel() -> (r: Self)
        ensures
            r.message_view() == "syscall inside kernel"@,
            r.step_view() == 0,
            r.op_view() == Seq::<char>::empty(),
    {
        Self::at_step(0, String::from_str("syscall inside kernel"))
    }

    pub fn call_in_kernel() -> (r: Self)
        ensures
            r.message_view() == "call inside kernel"@,
            r.step_view() == 0,
            r.op_view() == Seq::<char>::empty(),
    {
        Self::at_step(0, String::from_str("call inside kernel"))
    }

    pub fn missing_import_source(path: &str) -> (r: Self)
        ensures
            r.message_view() == "module source not found: "@ + path@,
            r.step_view() == 0,
            r.op_view() == Seq::<char>::empty(),
    {
        let m = String::from_str("module source not found: ").concat(path);
        Self::at_step(0, m)
    }

    pub fn dangling_ops_after_module(token: &Token, path: &str) -> (r: Self)
        ensures
            r.message_view() == "dangling instructions after module end at "@ + path@,
            r.step_view() == token.pos_view(),
            r.op_view() == token.text_spec(),
    {
        let m = String::from_str("dangling instructions after module end at ").concat(
            path,
        );
        Self::from_token(token, m)
    }

    pub fn circular_module_dependency(module_chain: &Vec<String>) -> (r: Self)
        ensures
            r.message_view() == "circular module dependency in the following chain: "@
                + quoted_list_spec(module_chain@.map(|i: int, p: String| p@)),
            r.step_view() == 0,
            r.op_view() == Seq::<char>::empty(),
    {
        let chain = quote_list(module_chain);
        let m = String::from_str("circular module dependency in the following chain: ").concat(
            chain.as_str(),
        );
        Self::at_step(0, m)
    }

    pub fn duplicate_module_import(token: &Token, module: &str) -> (r: Self)
        ensures
            r.message_view() == "duplicate module import found: "@ + module@,
            r.step_view() == token.pos_view(),
            r.op_view() == token.text_spec(),
    {
        let m = String::from_str("duplicate module import found: ").concat(module);
        Self::from_token(token, m)
    }

    pub fn invalid_module_path(token: &Token, path: &str) -> (r: Self)
        ensures
            r.message_view() == "invalid module import path: "@ + path@,
            r.step_view() == token.pos_view(),
            r.op_view() == token.text_spec(),
    {
        let m = String::from_str("invalid module import path: ").concat(path);
        Self::from_token(token, m)
    }

    /// The error message.
    pub fn message(&self) -> (r: &String)
        ensures
            r@ == self.message_view(),
    {
        &self.message
    }

    /// The written form of the operation the error belongs to.
    pub fn operation(&self) -> (r: &String)
        ensures
            r@ == self.op_view(),
    {
        &self.op
    }

    /// The source step the error points at.
    pub fn step(&self) -> (r: usize)
        ensures
            r == self.step_view(),
    {
        self.step
    }

    /// The rendering other tooling shows: the step and the message.
    pub fn to_display_string(&self) -> (r: String)
        ensures
            r@ == "assembly error at "@ + dec_spec(self.step_view() as nat) + ": "@
                + self.message_view(),
    {
        let d = dec_str(self.step as u64);
        String::from_str("assembly error at ").concat(d.as_str()).concat(": ").concat(
            self.message.as_str(),
        )
    }
}

/// The inner text of a debug-rendered byte list: the bytes in decimal,
/// separated by a comma and a space.
pub open spec fn byte_items_spec(bytes: Seq<u8>) -> Seq<char>
    decreases bytes.len(),
{
    if bytes.len() == 0 {
        Seq::empty()
    } else if bytes.len() == 1 {
        dec_spec(bytes[0] as nat)
    } else {
        byte_items_spec(bytes.drop_last()) + seq![',', ' '] + dec_spec(bytes.last() as nat)
    }
}

/// A byte array as its debug rendering: bracketed decimal bytes separated by
/// a comma and a space.
pub open spec fn byte_list_spec(bytes: Seq<u8>) -> Seq<char> {
    seq!['['] + byte_items_spec(bytes) + seq![']']
}

/// Renders a 24-byte hash as its debug form.
fn byte_list(bytes: &[u8; 24]) -> (r: String)
    ensures
        r@ == byte_list_spec(bytes@),
{
    proof {
        reveal_strlit("[");
        reveal_strlit("]");
        reveal_strlit(", ");
    }
    let mut r = String::from_str("[");
    let mut i: usize = 0;
    proof {
        assert(bytes@.subrange(0, 0) =~= Seq::<u8>::empty());
        assert(r@ =~= seq!['['] + byte_items_spec(bytes@.subrange(0, 0)));
    }
    while i < 24
        invariant
            i <= 24,
            bytes@.len() == 24,
            r@ == seq!['['] + byte_items_spec(bytes@.subrange(0, i as int)),
        decreases 24 - i,
    {
        proof {
            reveal_strlit(", ");
        }
        if i > 0 {
            r.append(", ");
        }
        let d = dec_str(bytes[i] as u64);
        r.append(d.as_str());
        proof {
            assert(bytes@.subrange(0, i + 1).drop_last() =~= bytes@.subrange(0, i as int));
            assert(bytes@.subrange(0, i + 1).last() == bytes@[i as int]);
            assert(r@ =~= seq!['['] + byte_items_spec(bytes@.subrange(0, i + 1)));
        }
        i = i + 1;
    }
    proof {
        reveal_strlit("]");
        assert(bytes@.subrange(0, 24) =~= bytes@);
    }
    let r2 = r.concat("]");
    proof {
        assert(r2@ =~= byte_list_spec(bytes@));
    }
    r2
}

/// Why serializing or deserializing a program failed.
#[derive(Debug)]
pub enum SerializationError {
    InvalidBoolValue,
    StringTooLong,
    EndOfReader,
    InvalidOpCode,
    InvalidFieldElement,
}

} // verus!
