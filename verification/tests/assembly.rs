use miden_vm::assembly::AssemblyError;
use miden_vm::assembly::Token;
use miden_vm::text::dec_str;

fn token(parts: &[&str], pos: usize) -> Token {
    Token::new(parts.iter().map(|p| String::from(*p)).collect(), pos)
}

#[test]
fn token_text_joins_parts_with_dots() {
    let t = token(&["push", "local", "0"], 4);
    assert_eq!(t.text(), "push.local.0");
    assert_eq!(t.pos(), 4);
    assert_eq!(t.parts().len(), 3);
}

#[test]
fn literal_errors_carry_their_message() {
    let e = AssemblyError::empty_source();
    assert_eq!(e.message(), "source code cannot be an empty string");
    assert_eq!(e.step(), 0);
    assert_eq!(e.operation(), "");

    let e = AssemblyError::unexpected_eof(12);
    assert_eq!(e.message(), "unexpected EOF");
    assert_eq!(e.step(), 12);

    let e = AssemblyError::syscall_in_kernel();
    assert_eq!(e.message(), "syscall inside kernel");
    let e = AssemblyError::call_in_kernel();
    assert_eq!(e.message(), "call inside kernel");
    let e = AssemblyError::invalid_ast_body();
    assert_eq!(e.message(), "ast body contains no instructions");
    let e = AssemblyError::unmatched_comment(3);
    assert_eq!(e.message(), "# comment delimiter without matching #");
    assert_eq!(e.step(), 3);
}

#[test]
fn token_errors_carry_the_token() {
    let t = token(&["if", "true"], 9);
    let e = AssemblyError::unmatched_if(&t);
    assert_eq!(e.message(), "if without matching else/end");
    assert_eq!(e.step(), 9);
    assert_eq!(e.operation(), "if.true");

    let e = AssemblyError::empty_block(&t);
    assert_eq!(e.message(), "a code block must contain at least one instruction");
    let e = AssemblyError::dangling_else(&t);
    assert_eq!(e.message(), "else without matching if");
    let e = AssemblyError::unmatched_while(&t);
    assert_eq!(e.message(), "while without matching end");
    let e = AssemblyError::unmatched_repeat(&t);
    assert_eq!(e.message(), "repeat without matching end");
    let e = AssemblyError::unmatched_else(&t);
    assert_eq!(e.message(), "else without matching end");
    let e = AssemblyError::unmatched_begin(&t);
    assert_eq!(e.message(), "begin without matching end");
    let e = AssemblyError::unmatched_proc(&t);
    assert_eq!(e.message(), "proc without matching end");
    let e = AssemblyError::dangling_ops_after_program(&t);
    assert_eq!(e.message(), "dangling instructions after program end");
}

#[test]
fn formatted_errors_embed_their_arguments() {
    let t = token(&["push", "7"], 2);
    let e = AssemblyError::unexpected_token(&t, "end");
    assert_eq!(e.message(), "unexpected token: expected 'end' but was 'push.7'");
    assert_eq!(e.operation(), "push.7");

    let e = AssemblyError::invalid_op(&t);
    assert_eq!(e.message(), "instruction 'push.7' is invalid");
    let e = AssemblyError::invalid_op_with_reason(&t, "no such opcode");
    assert_eq!(e.message(), "instruction 'push.7' is invalid: no such opcode");
    let e = AssemblyError::missing_param(&t);
    assert_eq!(e.message(), "malformed instruction 'push.7': missing required parameter");
    let e = AssemblyError::extra_param(&t);
    assert_eq!(e.message(), "malformed instruction 'push.7': too many parameters provided");
    let e = AssemblyError::invalid_instruction("frob");
    assert_eq!(e.message(), "invalid instruction `frob` is invalid");
    let e = AssemblyError::invalid_instruction_with_reason("frob", "unknown");
    assert_eq!(e.message(), "invalid instruction `frob` is invalid: unknown");
    let e = AssemblyError::invalid_param(&t, 1);
    assert_eq!(e.message(), "malformed instruction `push.7`: parameter '7' is invalid");
    let e = AssemblyError::invalid_param_with_reason(&t, 1, "too large");
    assert_eq!(e.message(), "malformed instruction 'push.7', parameter 7 is invalid: too large");
}

#[test]
fn procedure_errors_embed_their_labels() {
    let t = token(&["proc", "foo"], 1);
    let e = AssemblyError::duplicate_proc_label(&t, "foo");
    assert_eq!(e.message(), "duplicate procedure label: foo");
    let e = AssemblyError::invalid_proc_label(&t, "1bad");
    assert_eq!(e.message(), "invalid procedure label: 1bad");
    let e = AssemblyError::invalid_proc_locals(&t, "x");
    assert_eq!(e.message(), "invalid procedure locals: x");
    let e = AssemblyError::undefined_proc(&t, "bar");
    assert_eq!(e.message(), "undefined proc: bar");
    let e = AssemblyError::proc_export_not_allowed(&t, "baz");
    assert_eq!(e.message(), "exported procedures not allowed in this context: baz");
    let e = AssemblyError::proc_not_in_kernel(&t, "qux");
    assert_eq!(e.message(), "procedure 'qux' is not a part of the kernel");
    let e = AssemblyError::undefined_imported_proc(String::from("std::math::u64::add"));
    assert_eq!(
        e.message(),
        &format!("undefined imported procedure: {:?}", "std::math::u64::add")
    );
    assert_eq!(e.message(), "undefined imported procedure: \"std::math::u64::add\"");
    let e = AssemblyError::undefined_local_proc(42);
    assert_eq!(e.message(), "undefined local procedure: 42");
}

#[test]
fn module_errors_embed_their_paths() {
    let t = token(&["use", "std::math"], 0);
    let e = AssemblyError::missing_import_source("std::math::u64");
    assert_eq!(e.message(), "module source not found: std::math::u64");
    let e = AssemblyError::dangling_ops_after_module(&t, "std::math::u64");
    assert_eq!(e.message(), "dangling instructions after module end at std::math::u64");
    let e = AssemblyError::duplicate_module_import(&t, "std::math");
    assert_eq!(e.message(), "duplicate module import found: std::math");
    let e = AssemblyError::invalid_module_path(&t, "::bad");
    assert_eq!(e.message(), "invalid module import path: ::bad");
    let chain = vec![String::from("a::b"), String::from("b::a")];
    let e = AssemblyError::circular_module_dependency(&chain);
    assert_eq!(
        e.message(),
        &format!("circular module dependency in the following chain: {chain:?}")
    );
    assert_eq!(
        e.message(),
        "circular module dependency in the following chain: [\"a::b\", \"b::a\"]"
    );
    let quoted = vec![String::from("a\"b")];
    let e = AssemblyError::circular_module_dependency(&quoted);
    assert_eq!(
        e.message(),
        "circular module dependency in the following chain: [\"a\\\"b\"]"
    );
}

#[test]
fn kernel_hash_errors_render_the_bytes() {
    let mut hash = [0u8; 24];
    hash[0] = 1;
    hash[23] = 255;
    let e = AssemblyError::undefined_kernel_proc(&hash);
    let expected = format!("undefined kernel procedure hash: {hash:?}");
    assert_eq!(e.message(), &expected);
    assert_eq!(
        e.message(),
        "undefined kernel procedure hash: [1, 0, 0, 0, 0, 0, 0, 0, 0, 0, 0, 0, 0, 0, 0, 0, 0, 0, 0, 0, 0, 0, 0, 255]"
    );
}

#[test]
fn display_string_renders_step_and_message() {
    let e = AssemblyError::unexpected_eof(105);
    assert_eq!(e.to_display_string(), "assembly error at 105: unexpected EOF");
}

#[test]
fn decimal_rendering() {
    assert_eq!(dec_str(0), "0");
    assert_eq!(dec_str(9), "9");
    assert_eq!(dec_str(10), "10");
    assert_eq!(dec_str(105), "105");
    assert_eq!(dec_str(18446744073709551615), "18446744073709551615");
}
