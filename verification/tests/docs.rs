use miden_vm::docs::build_stdlib_docs;
use miden_vm::docs::parse_new_state;
use miden_vm::docs::AsmSourceState;
use miden_vm::docs::Module;
use miden_vm::docs::Stdlib;

#[test]
fn module_names_come_from_the_namespace() {
    let module = Module::new(String::from("std::math::u64"));
    assert_eq!(module.name(), "u64");
    assert_eq!(module.section(), "math");
    assert!(module.functions().is_empty());
    assert!(module.comments().is_empty());
}

#[test]
fn module_with_one_separator_takes_the_whole_head_as_section() {
    let module = Module::new(String::from("std::crypto"));
    assert_eq!(module.name(), "crypto");
    assert_eq!(module.section(), "std");
}

#[test]
fn markdown_file_name_joins_name_and_section() {
    let module = Module::new(String::from("std::math::u64"));
    assert_eq!(module.markdown_file_name(), "u64_math.md");
}

#[test]
fn line_kinds() {
    assert_eq!(parse_new_state("#! module docs"), AsmSourceState::ModuleComment);
    assert_eq!(parse_new_state("# a comment"), AsmSourceState::Comment);
    assert_eq!(parse_new_state("export.add_unsafe"), AsmSourceState::Func);
    assert_eq!(parse_new_state("push.1"), AsmSourceState::Empty);
    assert_eq!(parse_new_state(""), AsmSourceState::Empty);
}

#[test]
fn parse_module_collects_functions_with_their_comments() {
    let source = "#! words about the module\n\
                  # adds two words\n\
                  # without overflow checks\n\
                  export.add_unsafe\n\
                  push.1\n\
                  # dangling comment\n\
                  \n\
                  export.mul_unsafe";
    let mut stdlib = Stdlib::new();
    miden_vm::docs::parse_module(
        String::from("std::math::u64"),
        String::from(source),
        &mut stdlib,
    );
    let modules = stdlib.modules();
    assert_eq!(modules.len(), 1);
    let (ns, module) = &modules[0];
    assert_eq!(ns, "std::math::u64");
    assert_eq!(module.comments().len(), 1);
    assert_eq!(module.comments()[0], " words about the module");
    let functions = module.functions();
    assert_eq!(functions.len(), 2);
    assert_eq!(functions[0].name(), "add_unsafe");
    assert_eq!(
        functions[0].comments(),
        &vec![String::from(" adds two words"), String::from(" without overflow checks")]
    );
    assert_eq!(functions[1].name(), "mul_unsafe");
    assert!(functions[1].comments().is_empty());
}

#[test]
fn parse_module_appends_to_an_existing_module() {
    let mut stdlib = Stdlib::new();
    miden_vm::docs::parse_module(
        String::from("std::sys::io"),
        String::from("export.first"),
        &mut stdlib,
    );
    miden_vm::docs::parse_module(
        String::from("std::sys::io"),
        String::from("export.second"),
        &mut stdlib,
    );
    let modules = stdlib.modules();
    assert_eq!(modules.len(), 1);
    let module = &modules[0].1;
    assert_eq!(module.functions().len(), 2);
    assert_eq!(module.functions()[0].name(), "first");
    assert_eq!(module.functions()[1].name(), "second");
}

#[test]
fn build_stdlib_docs_parses_every_entry() {
    let map = vec![
        (String::from("std::math::u64"), String::from("export.one")),
        (String::from("std::crypto::hashes"), String::from("# h\nexport.two")),
    ];
    let stdlib = build_stdlib_docs(&map);
    let modules = stdlib.modules();
    assert_eq!(modules.len(), 2);
    assert_eq!(modules[0].0, "std::math::u64");
    assert_eq!(modules[1].0, "std::crypto::hashes");
    assert_eq!(modules[1].1.functions()[0].name(), "two");
    assert_eq!(modules[1].1.functions()[0].comments(), &vec![String::from(" h")]);
}

#[test]
fn crlf_sources_parse_like_lf_sources() {
    let mut a = Stdlib::new();
    miden_vm::docs::parse_module(
        String::from("std::sys::io"),
        String::from("# doc\r\nexport.first\r\n"),
        &mut a,
    );
    let module = &a.modules()[0].1;
    assert_eq!(module.functions().len(), 1);
    assert_eq!(module.functions()[0].name(), "first");
    assert_eq!(module.functions()[0].comments(), &vec![String::from(" doc")]);
}
