use lucid::codegen::{module_generatable, CCodeGenerator, C_PREAMBLE};
use lucid::parse;

fn generate(src: &str) -> String {
    let module = parse(src).unwrap();
    assert!(module_generatable(&module));
    let mut generator = CCodeGenerator::new();
    generator.generate(&module).unwrap()
}

#[test]
fn test_generated_program_starts_with_preamble_and_ends_with_main() {
    let c = generate("x = 42\n");
    assert!(c.starts_with(C_PREAMBLE));
    assert!(c.contains("static int64_t lucid_var_x;\n"));
    assert!(c.contains("int main(int argc, char** argv) {\n    (void)argc; (void)argv;\n    lucid_var_x = 42LL;\n"));
    assert!(c.ends_with("    return 0;\n}\n"));
}

#[test]
fn test_generated_function() {
    let c = generate("def add(a: int, b: int) -> int:\n    return a + b\n");
    assert!(c.contains("int64_t lucid_fn_add(int64_t lucid_var_a, int64_t lucid_var_b);\n"));
    assert!(c.contains("int64_t lucid_fn_add(int64_t lucid_var_a, int64_t lucid_var_b) {\n    return lucid_as_int(lucid_wrap((lucid_var_a + lucid_var_b)));\n}\n"));
}

#[test]
fn test_generated_class() {
    let c = generate("class Point:\n    x: int\n    y: float\n\np = Point(1, 2.5)\n");
    assert!(c.contains("typedef struct Point Point;\n"));
    assert!(c.contains("struct Point {\n    int64_t x;\n    double y;\n};\n"));
    assert!(c.contains("Point* Point_new(int64_t x, double y) {\n    Point* self = (Point*)malloc(sizeof(Point));\n    self->x = x;\n    self->y = y;\n    return self;\n}\n"));
    assert!(c.contains("static Point* lucid_var_p;\n"));
    assert!(c.contains("    lucid_var_p = Point_new(1LL, 2.5);\n"));
}

#[test]
fn test_generated_loops_and_branches() {
    let c = generate("total = 0\nfor i in range(10):\n    if i > 5:\n        total = total + i\n    else:\n        total = total - 1\n");
    assert!(c.contains("    for (lucid_var_i = 0LL; lucid_var_i < 10LL; lucid_var_i += 1LL) {\n        if (lucid_bool_val((lucid_var_i > 5LL))) {\n            lucid_var_total = (lucid_var_total + lucid_var_i);\n        } else {\n            lucid_var_total = (lucid_var_total - 1LL);\n        }\n    }\n"), "{c}");
}

#[test]
fn test_float_literal_code_keeps_its_digits() {
    let c = generate("a = 3.0\nb = 2e3\nc = 7.25\n");
    assert!(c.contains("lucid_var_a = 3.0;"));
    assert!(c.contains("lucid_var_b = 2e3;"));
    assert!(c.contains("lucid_var_c = 7.25;"));
}

#[test]
fn test_string_literal_quotes_are_escaped() {
    let c = generate("s = \"say \\\"hi\\\"\"\nprint(s)\n");
    assert!(c.contains("lucid_var_s = \"say \\\"hi\\\"\";"), "{c}");
    assert!(c.contains("({ lucid_print_val(lucid_wrap(lucid_var_s)); printf(\"\\n\"); lucid_none(); });"));
}

#[test]
fn test_append_without_argument_is_not_generatable() {
    let module = parse("xs = [1]\nxs.append()\n").unwrap();
    assert!(!module_generatable(&module));
    let module = parse("xs = [1]\nxs.append(2)\n").unwrap();
    assert!(module_generatable(&module));
}

#[test]
fn test_new_temp_numbers_from_one() {
    let mut generator = CCodeGenerator::new();
    let c = generator.generate(&parse("xs = [1, 2]\n").unwrap()).unwrap();
    assert!(c.contains("({ LucidList* _lucid_tmp_1 = lucid_list_new(2); lucid_list_append(_lucid_tmp_1, lucid_wrap(1LL)); lucid_list_append(_lucid_tmp_1, lucid_wrap(2LL)); _lucid_tmp_1; })"), "{c}");
}

#[test]
fn test_generated_while_elif_and_operators() {
    let c = generate("n = 3\nwhile n > 0 and not (n == 7):\n    if n == 1:\n        n = -n\n    elif n == 2:\n        n = n // 2\n    else:\n        n = n - 1\n");
    assert!(c.contains("    while (lucid_bool_val((lucid_bool_val((lucid_var_n > 0LL)) && lucid_bool_val((!lucid_bool_val((lucid_var_n == 7LL))))))) {\n        if (lucid_bool_val((lucid_var_n == 1LL))) {\n            lucid_var_n = (-lucid_var_n);\n        } else if (lucid_bool_val((lucid_var_n == 2LL))) {\n            lucid_var_n = ((int64_t)((int64_t)lucid_var_n / (int64_t)2LL));\n        } else {\n            lucid_var_n = (lucid_var_n - 1LL);\n        }\n    }\n"), "{c}");
}

#[test]
fn test_generated_augmented_assignment() {
    let c = generate("n = 1\nn += 2\nn *= n\n");
    assert!(c.contains("    lucid_var_n += 2LL;\n    lucid_var_n *= lucid_var_n;\n"), "{c}");
}

#[test]
fn test_generated_prototypes_and_struct_lines() {
    let c = generate("class Box:\n    v: int\n\ndef one() -> int:\n    return 1\n");
    assert!(c.contains("typedef struct Box Box;"));
    assert!(c.contains("struct Box {"));
    assert!(c.contains("lucid_fn_one(void);"));
    assert!(c.contains("lucid_fn_one(void) {"));
}

#[test]
fn test_generated_conditional_expression() {
    let c = generate("a = 1\nb = 2 if a > 0 else 3\n");
    assert!(c.contains("lucid_var_b = lucid_wrap(((lucid_bool_val((lucid_var_a > 0LL))) ? (2LL) : (3LL)));"), "{c}");
}

#[test]
fn test_generated_list_literal() {
    let c = generate("xs = [1, 2]\n");
    assert!(c.contains("({ LucidList* _lucid_tmp_1 = lucid_list_new(2); lucid_list_append(_lucid_tmp_1, lucid_wrap(1LL)); lucid_list_append(_lucid_tmp_1, lucid_wrap(2LL)); _lucid_tmp_1; })"), "{c}");
}
