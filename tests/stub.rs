use wasi_stub::leb::{push_leb128, push_sleb128};
use wasi_stub::{list_stubbed, stub_wasi_functions, Error, ShouldStub};

fn wat(text: &str) -> Vec<u8> {
    let buf = wast::parser::ParseBuffer::new(text).unwrap();
    let mut module: wast::Wat = wast::parser::parse(&buf).unwrap();
    module.encode().unwrap()
}

fn imports_of(binary: &[u8]) -> Vec<(String, String)> {
    let mut out = Vec::new();
    for payload in wasmparser::Parser::new(0).parse_all(binary) {
        if let wasmparser::Payload::ImportSection(s) = payload.unwrap() {
            for import in s.into_imports() {
                let import = import.unwrap();
                out.push((import.module.to_string(), import.name.to_string()));
            }
        }
    }
    out
}

fn bodies_of(binary: &[u8]) -> Vec<Vec<u8>> {
    let mut out = Vec::new();
    for payload in wasmparser::Parser::new(0).parse_all(binary) {
        if let wasmparser::Payload::CodeSectionEntry(body) = payload.unwrap() {
            let range = body.range();
            out.push(binary[range.start as usize..range.end as usize].to_vec());
        }
    }
    out
}

fn call_targets(body: &[u8]) -> Vec<u32> {
    let body = wasmparser::FunctionBody::new(wasmparser::BinaryReader::new(body, 0));
    let mut out = Vec::new();
    for op in body.get_operators_reader().unwrap() {
        match op.unwrap() {
            wasmparser::Operator::Call { function_index }
            | wasmparser::Operator::ReturnCall { function_index }
            | wasmparser::Operator::RefFunc { function_index } => out.push(function_index),
            _ => {}
        }
    }
    out
}

fn exports_of(binary: &[u8]) -> Vec<(String, u32)> {
    let mut out = Vec::new();
    for payload in wasmparser::Parser::new(0).parse_all(binary) {
        if let wasmparser::Payload::ExportSection(s) = payload.unwrap() {
            for e in s {
                let e = e.unwrap();
                out.push((e.name.to_string(), e.index));
            }
        }
    }
    out
}

const FD_WRITE: &str = r#"
(module
  (type $t (func (param i32 i32 i32 i32) (result i32)))
  (import "wasi_snapshot_preview1" "fd_write" (func $fd_write (type $t)))
  (memory 1)
  (func $main (export "main") (result i32)
    i32.const 0
    i32.const 0
    i32.const 0
    i32.const 0
    call $fd_write))
"#;

#[test]
fn scenario_a_fd_write_becomes_local_stub() {
    let input = wat(FD_WRITE);
    let out = stub_wasi_functions(&input, ShouldStub::default(), 76).ok().unwrap();
    wasmparser::validate(&out).unwrap();
    assert!(imports_of(&out).is_empty());
    let bodies = bodies_of(&out);
    assert_eq!(bodies.len(), 2);
    // Four i32 locals, `i32.const 76`, `end`.
    assert_eq!(
        bodies[0],
        vec![0x04, 0x01, 0x7f, 0x01, 0x7f, 0x01, 0x7f, 0x01, 0x7f, 0x41, 0xcc, 0x00, 0x0b]
    );
    assert_eq!(call_targets(&bodies[1]), vec![0]);
    assert_eq!(exports_of(&out), vec![("main".to_string(), 1)]);
}

#[test]
fn scenario_b_only_the_named_function_is_stubbed() {
    let input = wat(
        r#"
(module
  (import "env" "bar" (func $bar (result i32)))
  (import "env" "foo" (func $foo (result i32)))
  (func (export "run") (result i32)
    call $bar
    call $foo
    i32.add))
"#,
    );
    let mut policy = ShouldStub::empty();
    policy.stub_function("env".to_string(), "foo".to_string());
    let out = stub_wasi_functions(&input, policy, 76).ok().unwrap();
    wasmparser::validate(&out).unwrap();
    assert_eq!(imports_of(&out), vec![("env".to_string(), "bar".to_string())]);
    let bodies = bodies_of(&out);
    assert_eq!(bodies.len(), 2);
    assert_eq!(bodies[0], vec![0x00, 0x41, 0xcc, 0x00, 0x0b]);
    assert_eq!(call_targets(&bodies[1]), vec![0, 1]);
}

#[test]
fn scenario_b_with_default_policy_added_to() {
    let input = wat(
        r#"
(module
  (import "env" "bar" (func $bar))
  (import "env" "foo" (func $foo))
  (import "wasi_snapshot_preview1" "proc_exit" (func $exit (param i32)))
  (func (export "run")
    call $bar
    call $foo
    i32.const 0
    call $exit))
"#,
    );
    let mut policy = ShouldStub::default();
    policy.stub_function("env".to_string(), "foo".to_string());
    let out = stub_wasi_functions(&input, policy, 76).ok().unwrap();
    wasmparser::validate(&out).unwrap();
    assert_eq!(imports_of(&out), vec![("env".to_string(), "bar".to_string())]);
    assert_eq!(call_targets(&bodies_of(&out)[2]), vec![0, 1, 2]);
}

#[test]
fn scenario_c_list_reports_without_rewriting() {
    let input = wat(
        r#"
(module
  (import "env" "log" (func $log (param i32)))
  (import "wasi_snapshot_preview1" "fd_write" (func (param i32 i32 i32 i32) (result i32)))
  (import "wasi_snapshot_preview1" "proc_exit" (func (param i32)))
  (func (export "f") i32.const 1 call $log))
"#,
    );
    let names = list_stubbed(&input, &ShouldStub::default()).ok().unwrap();
    assert_eq!(
        names,
        vec![
            ("wasi_snapshot_preview1".to_string(), "fd_write".to_string()),
            ("wasi_snapshot_preview1".to_string(), "proc_exit".to_string()),
        ]
    );
}

#[test]
fn scenario_d_module_without_wasi_is_unchanged() {
    let input = wat(
        r#"
(module
  (memory (export "memory") 1)
  (global $g (mut i32) (i32.const 3))
  (func $double (param i32) (result i32) local.get 0 i32.const 2 i32.mul)
  (func (export "run") (result i32) i32.const 21 call $double)
  (data (i32.const 8) "hello"))
"#,
    );
    let out = stub_wasi_functions(&input, ShouldStub::default(), 76).ok().unwrap();
    assert_eq!(out, input);
}

#[test]
fn scenario_e_zero_results_give_empty_stub() {
    let input = wat(
        r#"
(module
  (import "wasi_snapshot_preview1" "proc_exit" (func $exit (param i32)))
  (func (export "quit") i32.const 3 call $exit))
"#,
    );
    let out = stub_wasi_functions(&input, ShouldStub::default(), 76).ok().unwrap();
    wasmparser::validate(&out).unwrap();
    assert!(imports_of(&out).is_empty());
    assert_eq!(bodies_of(&out)[0], vec![0x01, 0x01, 0x7f, 0x0b]);
}

#[test]
fn no_op_policy_keeps_imports_and_calls() {
    let input = wat(
        r#"
(module
  (import "env" "a" (func $a (param i32)))
  (import "env" "b" (func $b (result i32)))
  (func $inner (result i32) call $b)
  (func (export "run") call $inner call $a))
"#,
    );
    let out = stub_wasi_functions(&input, ShouldStub::empty(), 76).ok().unwrap();
    wasmparser::validate(&out).unwrap();
    assert_eq!(imports_of(&out), imports_of(&input));
    assert_eq!(exports_of(&out), exports_of(&input));
    assert_eq!(bodies_of(&out), bodies_of(&input));
}

#[test]
fn stubbed_module_leaves_no_import() {
    let input = wat(
        r#"
(module
  (import "env" "keep" (func $keep))
  (import "wasi_snapshot_preview1" "args_get" (func $args (param i32 i32) (result i32)))
  (import "wasi_snapshot_preview1" "environ_get" (func $env (param i32 i32) (result i32)))
  (import "wasi_snapshot_preview1" "clock_time_get" (func $clock (param i32 i64 i32) (result i32)))
  (func (export "run") (result i32)
    call $keep
    i32.const 0 i32.const 0 call $args drop
    i32.const 0 i32.const 0 call $env drop
    i32.const 0 i64.const 0 i32.const 0 call $clock))
"#,
    );
    let out = stub_wasi_functions(&input, ShouldStub::default(), 76).ok().unwrap();
    wasmparser::validate(&out).unwrap();
    let imports = imports_of(&out);
    assert!(imports.iter().all(|(m, _)| m != "wasi_snapshot_preview1"));
    assert_eq!(imports, vec![("env".to_string(), "keep".to_string())]);
    // The clock stub declares an i64 local for its second parameter.
    assert_eq!(
        bodies_of(&out)[2],
        vec![0x03, 0x01, 0x7f, 0x01, 0x7e, 0x01, 0x7f, 0x41, 0xcc, 0x00, 0x0b]
    );
}

#[test]
fn call_sites_keep_their_callee() {
    let input = wat(
        r#"
(module
  (type $v (func))
  (import "env" "log" (func $log (param i32)))
  (import "wasi_snapshot_preview1" "sched_yield" (func $yield (result i32)))
  (table 2 funcref)
  (elem (i32.const 0) func $helper $yield)
  (func $helper (param i32) local.get 0 call $log)
  (func (export "run") (result i32)
    i32.const 5 call $helper
    ref.func $helper drop
    call $yield)
  (func (export "tail") (result i32) return_call $yield))
"#,
    );
    let out = stub_wasi_functions(&input, ShouldStub::default(), 76).ok().unwrap();
    wasmparser::validate(&out).unwrap();
    let before = bodies_of(&input);
    let after = bodies_of(&out);
    assert_eq!(after.len(), before.len() + 1);
    for k in 0..before.len() {
        assert_eq!(call_targets(&after[k + 1]), call_targets(&before[k]));
    }
    assert_eq!(call_targets(&after[2]), vec![2, 2, 1]);
    assert_eq!(call_targets(&after[3]), vec![1]);
}

#[test]
fn return_value_is_configurable() {
    let input = wat(FD_WRITE);
    let out = stub_wasi_functions(&input, ShouldStub::default(), 5).ok().unwrap();
    assert_eq!(bodies_of(&out)[0][9..], [0x41, 0x05, 0x0b]);
    let out = stub_wasi_functions(&input, ShouldStub::default(), u32::MAX).ok().unwrap();
    wasmparser::validate(&out).unwrap();
    assert_eq!(bodies_of(&out)[0][9..], [0x41, 0x7f, 0x0b]);
}

#[test]
fn several_results_give_one_constant_each() {
    let input = wat(
        r#"
(module
  (import "wasi_snapshot_preview1" "pair" (func $pair (result i32 i32)))
  (func (export "run") (result i32) call $pair i32.add))
"#,
    );
    let out = stub_wasi_functions(&input, ShouldStub::default(), 1).ok().unwrap();
    wasmparser::validate(&out).unwrap();
    assert_eq!(bodies_of(&out)[0], vec![0x00, 0x41, 0x01, 0x41, 0x01, 0x0b]);
}

#[test]
fn reference_parameters_are_kept_as_locals() {
    let input = wat(
        r#"
(module
  (import "wasi_snapshot_preview1" "take" (func $take (param externref) (result i32)))
  (func (export "run") (result i32) ref.null extern call $take))
"#,
    );
    let out = stub_wasi_functions(&input, ShouldStub::default(), 76).ok().unwrap();
    wasmparser::validate(&out).unwrap();
    assert_eq!(bodies_of(&out)[0], vec![0x01, 0x01, 0x6f, 0x41, 0xcc, 0x00, 0x0b]);
}

#[test]
fn component_is_refused() {
    let component = vec![0x00, 0x61, 0x73, 0x6d, 0x0d, 0x00, 0x01, 0x00];
    assert!(matches!(
        stub_wasi_functions(&component, ShouldStub::default(), 76),
        Err(Error::Component)
    ));
    assert!(matches!(list_stubbed(&component, &ShouldStub::default()), Err(Error::Component)));
}

#[test]
fn malformed_input_is_refused() {
    assert!(matches!(
        stub_wasi_functions(b"not a module", ShouldStub::default(), 76),
        Err(Error::InvalidModule(_))
    ));
    let mut truncated = wat(FD_WRITE);
    truncated.truncate(truncated.len() - 3);
    assert!(matches!(
        stub_wasi_functions(&truncated, ShouldStub::default(), 76),
        Err(Error::InvalidModule(_))
    ));
}

#[test]
fn kept_import_after_stubbed_one_is_refused() {
    let input = wat(
        r#"
(module
  (import "wasi_snapshot_preview1" "proc_exit" (func $exit (param i32)))
  (import "env" "log" (func $log (param i32)))
  (func (export "run") i32.const 0 call $log i32.const 0 call $exit))
"#,
    );
    match stub_wasi_functions(&input, ShouldStub::default(), 76) {
        Err(Error::InterleavedImports { module, field }) => {
            assert_eq!(module, "env");
            assert_eq!(field, "log");
        }
        _ => panic!("expected an ordering error"),
    }
}

#[test]
fn module_without_code_is_refused() {
    let input = wat(
        r#"
(module
  (import "wasi_snapshot_preview1" "proc_exit" (func $exit (param i32)))
  (export "exit" (func $exit)))
"#,
    );
    assert!(matches!(
        stub_wasi_functions(&input, ShouldStub::default(), 76),
        Err(Error::NoCodeSection)
    ));
}

#[test]
fn non_i32_result_is_reported() {
    let input = wat(
        r#"
(module
  (import "wasi_snapshot_preview1" "now" (func $now (result i64)))
  (func (export "run") (result i64) call $now))
"#,
    );
    match stub_wasi_functions(&input, ShouldStub::default(), 76) {
        Err(Error::UnsupportedResultType { module, field }) => {
            assert_eq!(module, "wasi_snapshot_preview1");
            assert_eq!(field, "now");
        }
        _ => panic!("expected a result type error"),
    }
}

#[test]
fn leb128_values() {
    let mut out = Vec::new();
    push_leb128(&mut out, 624485);
    assert_eq!(out, vec![0xe5, 0x8e, 0x26]);
    let mut out = Vec::new();
    push_leb128(&mut out, 127);
    push_leb128(&mut out, 128);
    push_leb128(&mut out, u32::MAX);
    assert_eq!(out, vec![0x7f, 0x80, 0x01, 0xff, 0xff, 0xff, 0xff, 0x0f]);
    let mut out = Vec::new();
    push_sleb128(&mut out, -123456);
    assert_eq!(out, vec![0xc0, 0xbb, 0x78]);
    let mut out = Vec::new();
    push_sleb128(&mut out, 76);
    push_sleb128(&mut out, -1);
    push_sleb128(&mut out, 63);
    push_sleb128(&mut out, -64);
    push_sleb128(&mut out, i32::MIN);
    assert_eq!(
        out,
        vec![0xcc, 0x00, 0x7f, 0x3f, 0x40, 0x80, 0x80, 0x80, 0x80, 0x78]
    );
}

#[test]
fn default_policy_stubs_wasi_only() {
    let policy = ShouldStub::default();
    assert!(policy.should_stub("wasi_snapshot_preview1", "fd_write"));
    assert!(policy.should_stub("wasi_snapshot_preview1", "anything"));
    assert!(!policy.should_stub("env", "fd_write"));
    assert!(!ShouldStub::empty().should_stub("wasi_snapshot_preview1", "fd_write"));
}

#[test]
fn policy_builders() {
    let mut policy = ShouldStub::empty();
    policy.stub_function("env".to_string(), "foo".to_string());
    assert!(policy.should_stub("env", "foo"));
    assert!(!policy.should_stub("env", "bar"));
    policy.stub_function("env".to_string(), "bar".to_string());
    assert!(policy.should_stub("env", "bar"));
    policy.stub_module("env".to_string());
    assert!(policy.should_stub("env", "baz"));
    policy.stub_function("env".to_string(), "qux".to_string());
    assert!(policy.should_stub("env", "baz"));
    assert_eq!(policy.modules.len(), 1);
    assert!(!policy.should_stub("other", "foo"));
}
