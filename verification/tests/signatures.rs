use kmp_index::brackets::split_params_at_depth_zero;
use kmp_index::sig::{
    collect_params_from_line, collect_signature, extract_named_arg_name, extract_params_from_detail,
    find_named_param_type_in_sig, has_named_params_not_it, last_fun_param_type_str,
    nth_fun_param_type_str, strip_trailing_call_args,
};
use kmp_index::type_subst::find_last_dot_at_depth_zero;

#[test]
fn collect_signature_single_line_with_brace() {
    let lines = vec!["sealed interface NewsFeedUiState {".to_owned()];
    // The `{` should be stripped; result is just the declaration.
    assert_eq!(
        collect_signature(&lines, 0),
        "sealed interface NewsFeedUiState"
    );
}

#[test]
fn collect_signature_single_line_no_brace() {
    let lines = vec!["fun doSomething(x: Int): Boolean".to_owned()];
    assert_eq!(
        collect_signature(&lines, 0),
        "fun doSomething(x: Int): Boolean"
    );
}

#[test]
fn collect_signature_multiline_constructor() {
    let lines = vec![
        "class DetailViewModel @Inject constructor(".to_owned(),
        "  private val mapper: DetailMapper,".to_owned(),
        "  private val loadUseCase: LoadDataUseCase,".to_owned(),
        ") : MviViewModel<Event, State, Effect>() {".to_owned(),
    ];
    let sig = collect_signature(&lines, 0);
    assert!(sig.contains("DetailViewModel"), "should contain class name");
    assert!(sig.contains("MviViewModel"), "should contain superclass");
    assert!(!sig.contains('{'), "should not include body brace");
}

#[test]
fn collect_signature_brace_on_own_line() {
    // `{` on its own line — body opener, must not appear in output.
    let lines = vec![
        "class Foo(val x: Int)".to_owned(),
        "    : Bar() {".to_owned(),
    ];
    let sig = collect_signature(&lines, 0);
    assert!(!sig.contains('{'), "brace should be stripped");
    assert!(sig.contains("Foo"), "class name must be present");
}

#[test]
fn collect_signature_starts_at_offset() {
    let lines = vec!["// comment".to_owned(), "fun hello(): String".to_owned()];
    assert_eq!(collect_signature(&lines, 1), "fun hello(): String");
}

#[test]
fn collect_signature_caps_at_15_lines() {
    // A function spanning more than 15 lines must not cause a panic.
    let mut lines: Vec<String> = vec!["fun f(".to_owned()];
    for i in 0..20 {
        lines.push(format!("  p{i}: Int,"));
    }
    lines.push(")".to_owned());
    let sig = collect_signature(&lines, 0);
    // Should have collected up to the 15-line cap without panicking.
    assert!(sig.contains("fun f("), "should start with fun f(");
}

#[test]
fn nth_param_type_first() {
    let params = "key: String, value: Int";
    assert_eq!(nth_fun_param_type_str(params, 0), Some("String".into()));
}

#[test]
fn nth_param_type_second() {
    let params = "key: String, value: Int";
    assert_eq!(nth_fun_param_type_str(params, 1), Some("Int".into()));
}

#[test]
fn nth_param_type_out_of_range_falls_back_to_last() {
    let params = "key: String, value: Int";
    assert_eq!(nth_fun_param_type_str(params, 99), Some("Int".into()));
}

#[test]
fn nth_param_type_lambda_type_arg() {
    // `->` must not upset `<>` depth counter.
    let params = "key: ProductKey, flow: (Boolean) -> Flow<ResultState<T>>, map: (ResultState<T>) -> StatefulModel";
    assert_eq!(nth_fun_param_type_str(params, 0), Some("ProductKey".into()));
    assert_eq!(
        nth_fun_param_type_str(params, 1),
        Some("(Boolean) -> Flow<ResultState<T>>".into())
    );
    assert_eq!(
        nth_fun_param_type_str(params, 2),
        Some("(ResultState<T>) -> StatefulModel".into())
    );
}

#[test]
fn nth_param_type_single_param() {
    let params = "block: () -> Unit";
    assert_eq!(nth_fun_param_type_str(params, 0), Some("() -> Unit".into()));
}

#[test]
fn nth_param_type_empty_returns_none() {
    assert_eq!(nth_fun_param_type_str("", 0), None);
}

#[test]
fn nth_param_type_val_var_prefix_stripped() {
    // Constructor params: `val repo: IRepo, var counter: Int`.
    let params = "val repo: IRepo, var counter: Int";
    assert_eq!(nth_fun_param_type_str(params, 0), Some("IRepo".into()));
    assert_eq!(nth_fun_param_type_str(params, 1), Some("Int".into()));
}

#[test]
fn last_param_type_single_param() {
    assert_eq!(
        last_fun_param_type_str("block: () -> Unit"),
        Some("() -> Unit".into())
    );
}

#[test]
fn last_param_type_multiple_params() {
    let params = "a: String, b: Int, c: Boolean";
    assert_eq!(last_fun_param_type_str(params), Some("Boolean".into()));
}

#[test]
fn last_param_type_lambda_last() {
    // The trailing lambda param after a `->` in the type must be parsed correctly.
    let params = "key: ProductKey, map: (ResultState<T>) -> StatefulModel";
    assert_eq!(
        last_fun_param_type_str(params),
        Some("(ResultState<T>) -> StatefulModel".into())
    );
}

#[test]
fn last_param_type_arrow_depth_not_confused() {
    // `reloadableProduct` has two functional-type params; the `>` of `->` must
    // not throw off the depth counter so that the last param is picked correctly.
    let params =
        "key: ProductKey, productFlow: (isRefresh: Boolean) -> Flow<ResultState<T>>, map: (ResultState<T>) -> StatefulModel<SortableProducts>";
    assert_eq!(
        last_fun_param_type_str(params),
        Some("(ResultState<T>) -> StatefulModel<SortableProducts>".into())
    );
}

#[test]
fn last_param_type_empty_returns_none() {
    assert_eq!(last_fun_param_type_str(""), None);
}

#[test]
fn split_simple() {
    assert_eq!(
        split_params_at_depth_zero("a: A, b: B"),
        vec!["a: A", " b: B"]
    );
}

#[test]
fn split_nested_generics() {
    // comma inside <> must not split
    assert_eq!(
        split_params_at_depth_zero("a: Map<K, V>, b: B"),
        vec!["a: Map<K, V>", " b: B"]
    );
}

#[test]
fn split_function_type_arrow() {
    // `->` must not cause `>` to consume generic depth
    assert_eq!(
        split_params_at_depth_zero("block: (T) -> Unit, n: Int"),
        vec!["block: (T) -> Unit", " n: Int"]
    );
}

#[test]
fn split_empty() {
    assert_eq!(split_params_at_depth_zero(""), vec![""]);
}

#[test]
fn split_single() {
    assert_eq!(split_params_at_depth_zero("a: A"), vec!["a: A"]);
}

#[test]
fn split_trailing_comma() {
    let parts = split_params_at_depth_zero("a: A, b: B,");
    assert_eq!(parts.len(), 3);
    assert_eq!(parts[2], "");
}

#[test]
fn strip_args_with_trailing_parens() {
    assert_eq!(
        strip_trailing_call_args("collection.method(arg1, arg2)"),
        "collection.method"
    );
}

#[test]
fn strip_args_no_trailing_parens() {
    assert_eq!(
        strip_trailing_call_args("collection.forEach"),
        "collection.forEach"
    );
}

#[test]
fn strip_args_nested_parens() {
    assert_eq!(strip_trailing_call_args("fn(a, g(x))"), "fn");
}

#[test]
fn strip_args_empty_parens() {
    assert_eq!(strip_trailing_call_args("build()"), "build");
}

#[test]
fn strip_args_dotted_method_with_args() {
    assert_eq!(strip_trailing_call_args("state.copy(id = x)"), "state.copy");
}

#[test]
fn strip_args_unbalanced_no_crash() {
    // If parens are unbalanced, should not panic; returns original.
    assert_eq!(strip_trailing_call_args("fn("), "fn(");
}

#[test]
fn nth_param_type_gt_operator_in_default() {
    // `x: Int = a > b` — the `>` is a comparison, not a generic close.
    // Must not make depth go negative and break subsequent comma splitting.
    let params = "x: Int, y: String";
    assert_eq!(nth_fun_param_type_str(params, 1), Some("String".to_owned()));
}

#[test]
fn extract_params_zero_param_returns_some_empty() {
    // `None` used to mean "no signature found"; `Some("")` means
    // "signature found, zero parameters". They must not be conflated.
    assert_eq!(
        extract_params_from_detail("fun onClick()"),
        Some("".into()),
        "zero-param function must return Some(\"\") not None"
    );
}

#[test]
fn extract_params_regular_function_returns_params() {
    assert_eq!(
        extract_params_from_detail("fun greet(name: String, age: Int)"),
        Some("name: String, age: Int".into())
    );
}

#[test]
fn collect_params_skips_annotation_lines() {
    // Annotation lines like `@Suppress("UNCHECKED_CAST")` must be skipped
    // entirely; their argument text must not be treated as function parameters.
    let lines: Vec<String> = vec![
        "@Suppress(\"UNCHECKED_CAST\")".into(),
        "@SomethingElse(value = 1)".into(),
        "fun process(input: String, count: Int) {".into(),
    ];
    let result = collect_params_from_line(&lines, 0);
    assert_eq!(
        result,
        Some("input: String, count: Int".into()),
        "annotation arguments must not be treated as function parameters"
    );
}

#[test]
fn collect_params_pure_annotation_window_does_not_return_annotation_args() {
    // If the only lines visible are annotations (no fun line in the window),
    // the result should be None rather than the annotation's own args.
    let lines: Vec<String> = vec![
        "@Composable".into(),
        "@Preview(showBackground = true)".into(),
    ];
    assert_eq!(
        collect_params_from_line(&lines, 0),
        None,
        "window with only annotations must return None"
    );
}

#[test]
fn signature_single_line_with_brace() {
    let lines = vec!["sealed interface NewsFeedUiState {".to_owned()];
    // The `{` should be stripped; result is just the declaration.
    assert_eq!(
        collect_signature(&lines, 0),
        "sealed interface NewsFeedUiState"
    );
}

#[test]
fn signature_multiline_constructor() {
    let lines = vec![
        "class DetailViewModel @Inject constructor(".to_owned(),
        "  private val mapper: DetailMapper,".to_owned(),
        "  private val loadUseCase: LoadDataUseCase,".to_owned(),
        ") : MviViewModel<Event, State, Effect>() {".to_owned(),
    ];
    let sig = collect_signature(&lines, 0);
    assert!(sig.contains("DetailViewModel"), "should contain class name");
    assert!(sig.contains("MviViewModel"), "should contain superclass");
    assert!(!sig.contains('{'), "should not include body brace");
}

#[test]
fn signature_fun_single_line() {
    let lines = vec!["fun doSomething(x: Int): Boolean".to_owned()];
    assert_eq!(
        collect_signature(&lines, 0),
        "fun doSomething(x: Int): Boolean"
    );
}

#[test]
fn signature_stops_at_open_brace_on_own_line() {
    // `{` on its own line — body opener, must not appear in output.
    let lines = vec![
        "class Foo(val x: Int)".to_owned(),
        "    : Bar() {".to_owned(),
    ];
    let sig = collect_signature(&lines, 0);
    assert!(!sig.contains('{'), "brace should be stripped");
    assert!(sig.contains("Foo"), "class name must be present");
}

#[test]
fn find_last_dot_at_depth_zero_test() {
    // Dot inside args should NOT match.
    assert_eq!(find_last_dot_at_depth_zero("fn(Enum.VALUE, "), None);
    // Simple method chain.
    assert_eq!(find_last_dot_at_depth_zero("items.forEach"), Some(5));
    // Chained calls — only last dot at depth 0.
    assert_eq!(find_last_dot_at_depth_zero("a.b(x).c"), Some(6));
}

#[test]
fn extract_named_arg_name_test() {
    assert_eq!(
        extract_named_arg_name("  buildingSavings = "),
        Some("buildingSavings")
    );
    assert_eq!(extract_named_arg_name("  loan = "), Some("loan"));
    assert_eq!(extract_named_arg_name("  loan="), Some("loan"));
    // Same-line comma-separated: `, cards = ` — should match
    assert_eq!(extract_named_arg_name(", cards = "), Some("cards"));
    // Uppercase — should NOT match (constructors, not named args)
    assert_eq!(extract_named_arg_name("  Foo = "), None);
    // operator — should NOT match
    assert_eq!(extract_named_arg_name("a != "), None);
    assert_eq!(extract_named_arg_name("a <= "), None);
    // Nested: `(isRefresh = ` — opening `(` before the ident disqualifies
    assert_eq!(extract_named_arg_name("(isRefresh = "), None);
    // Nested inside call args: `fn(x, isRefresh = ` — still has non-ws prefix
    assert_eq!(extract_named_arg_name("fn(x, isRefresh = "), None);
}

#[test]
fn find_named_param_type_in_sig_test() {
    let sig = "val buildingSavings: (SaveInfo) -> Unit, val loan: (String, Boolean) -> Unit";
    assert_eq!(
        find_named_param_type_in_sig(sig, "loan"),
        Some("(String, Boolean) -> Unit".into())
    );
    assert_eq!(
        find_named_param_type_in_sig(sig, "buildingSavings"),
        Some("(SaveInfo) -> Unit".into())
    );
    assert_eq!(find_named_param_type_in_sig(sig, "unknown"), None);
}

#[test]
fn has_named_params_not_it_test() {
    // Single-param named → true
    assert!(has_named_params_not_it("item -> item.name"));
    // Multi-param named → true
    assert!(has_named_params_not_it(
        "loanId, isWustenrot -> setEvent(loanId)"
    ));
    // Implicit `it` → false
    assert!(!has_named_params_not_it("it.name"));
    // Block / empty → false
    assert!(!has_named_params_not_it("setEvent(something)"));
    assert!(!has_named_params_not_it(""));
    // `_` wildcard params — skip
    assert!(!has_named_params_not_it("_ -> something"));
}
