use minicc::diagnostics::ErrorKind;
use minicc::driver::{compile_source, get_executable_name};

fn compile(src: &str) -> String {
    compile_source(src.to_string()).expect("compilation should succeed")
}

#[test]
fn return_two_emits_exact_text() {
    let out = compile("int main(void){return 2;}");
    let expected = "\t.globl main\nmain:\n\tpushq\t%rbp\n\tmovq\t%rsp, %rbp\n\tsubq\t$0, %rsp\n\tmovl\t$2, %eax\n\tmovq\t%rbp, %rsp\n\tpopq\t%rbp\n\tret\n\t.section .note.GNU-stack,\"\",@progbits\n";
    assert_eq!(out, expected);
}

#[test]
fn double_negation_emits_negl_twice() {
    let out = compile("int main(void){return -(-5);}");
    assert_eq!(out.matches("negl").count(), 2);
    assert!(out.contains("$5"));
}

#[test]
fn precedence_scenario_compiles() {
    let out = compile("int main(void){return 1 + 2 * 3;}");
    assert!(out.contains("imull"));
    assert!(out.contains("addl"));
}

#[test]
fn division_scenario_compiles() {
    let out = compile("int main(void){return (10 - 4) / 2;}");
    assert!(out.contains("idivl"));
    assert!(out.contains("cdq"));
    assert!(out.contains("subl"));
}

#[test]
fn logic_scenario_compiles() {
    let out = compile("int main(void){return !(0) && (3 > 2);}");
    assert!(out.contains("sete"));
    assert!(out.contains("setg"));
    assert!(out.contains("je\t.L"));
    assert!(out.contains(".Lfalse_label_0:"));
    assert!(out.contains(".Lfalse_label_1_end:"));
}

#[test]
fn variables_scenario_compiles() {
    let out = compile("int main(void){int a = 5; int b = a + 2; return b;}");
    assert!(out.contains("subq\t$16, %rsp"));
    assert!(out.contains("-4(%rbp)"));
    assert!(out.contains("-8(%rbp)"));
}

#[test]
fn emitted_text_always_carries_stack_marker_and_prologue() {
    let out = compile("int main(void){return 0;}");
    assert!(out.starts_with("\t.globl main\nmain:\n\tpushq\t%rbp\n"));
    assert!(out.ends_with("\t.section .note.GNU-stack,\"\",@progbits\n"));
}

#[test]
fn each_stage_reports_its_error_kind() {
    let lexical = compile_source("int main(void){return $;}".to_string()).unwrap_err();
    assert_eq!(lexical.kind, ErrorKind::Lexical);
    let syntactic = compile_source("int main(void){return ;}".to_string()).unwrap_err();
    assert_eq!(syntactic.kind, ErrorKind::Syntactic);
    let semantic = compile_source("int main(void){2 = 1;}".to_string()).unwrap_err();
    assert_eq!(semantic.kind, ErrorKind::Semantic);
}

#[test]
fn executable_name_strips_the_c_suffix() {
    assert_eq!(
        get_executable_name(&"dir/prog.c".to_string()),
        Some("dir/prog".to_string())
    );
}

#[test]
fn executable_name_requires_exactly_one_marker() {
    assert_eq!(get_executable_name(&"prog".to_string()), None);
    assert_eq!(get_executable_name(&"a.c.c".to_string()), None);
}
