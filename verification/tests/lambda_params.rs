use kmp_index::lambda_params::{
    find_lambda_brace_for_param, lambda_brace_pos_for_param, lambda_param_position_on_line,
    line_has_lambda_param,
};
use kmp_index::sig::has_named_params_not_it;
use kmp_index::type_subst::{extract_collection_element_type, find_last_dot_at_depth_zero};

#[test]
fn line_has_lambda_param_single() {
    assert!(line_has_lambda_param(
        "items.forEach { item -> item.name }",
        "item"
    ));
    assert!(!line_has_lambda_param("items.forEach { it.name }", "item"));
}

#[test]
fn line_has_lambda_param_multi() {
    // multi-param: `{ a, b -> }`
    assert!(line_has_lambda_param(
        "items.zip(other) { a, b -> a.id }",
        "a"
    ));
    assert!(line_has_lambda_param(
        "items.zip(other) { a, b -> a.id }",
        "b"
    ));
    assert!(!line_has_lambda_param(
        "items.zip(other) { a, b -> a.id }",
        "c"
    ));
}

#[test]
fn line_has_lambda_param_multiple_arrows_on_line() {
    // `{ isRefresh -> ... } { resultState ->` — two lambdas on same line
    let line = "reloadableProduct(ProductKey.FAMILY, { isRefresh -> getFamilyAccount(isRefresh) }) { resultState ->";
    assert!(
        line_has_lambda_param(line, "resultState"),
        "should find resultState even when isRefresh arrow comes first"
    );
    assert!(
        line_has_lambda_param(line, "isRefresh"),
        "should still find isRefresh"
    );
    assert!(
        !line_has_lambda_param(line, "other"),
        "should NOT find unknown name"
    );
}

#[test]
fn lambda_brace_pos_single_param() {
    let line = "items.forEach { item -> item.name }";
    let pos = lambda_brace_pos_for_param(line, "item");
    assert_eq!(pos, Some(14)); // position of `{`
}

#[test]
fn lambda_brace_pos_second_lambda_on_line() {
    let line = "reloadableProduct(ProductKey.FAMILY, { isRefresh -> getFamilyAccount(isRefresh) }) { resultState ->";
    let brace = lambda_brace_pos_for_param(line, "resultState");
    assert!(brace.is_some(), "must find brace for resultState");
    let last_brace = line.rfind('{').unwrap();
    assert_eq!(
        brace.unwrap(),
        last_brace,
        "brace pos for resultState should be the last {{ on the line"
    );
}

#[test]
fn lambda_brace_pos_none_for_unknown_param() {
    let line = "items.forEach { item -> item.name }";
    assert_eq!(lambda_brace_pos_for_param(line, "unknown"), None);
}

#[test]
fn find_lambda_brace_returns_brace_pos_and_index() {
    let line = "items.forEach { item -> item.name }";
    assert_eq!(find_lambda_brace_for_param(line, "item"), Some((14, 0)));
}

#[test]
fn find_lambda_brace_multi_param() {
    let line = "fn { a, b -> a + b }";
    assert_eq!(find_lambda_brace_for_param(line, "b"), Some((3, 1)));
}

#[test]
fn find_lambda_brace_unknown_param() {
    let line = "fn { x -> x }";
    assert_eq!(find_lambda_brace_for_param(line, "y"), None);
}

#[test]
fn find_lambda_brace_extra_spaces() {
    let line = "{   name   -> name.foo }";
    assert_eq!(find_lambda_brace_for_param(line, "name"), Some((0, 0)));
}

#[test]
fn lambda_param_position_single() {
    assert_eq!(lambda_param_position_on_line("{ a -> }", "a"), 0);
}

#[test]
fn lambda_param_position_second() {
    assert_eq!(lambda_param_position_on_line("{ a, b -> }", "b"), 1);
}

#[test]
fn lambda_param_position_missing() {
    assert_eq!(lambda_param_position_on_line("{ a -> }", "x"), 0);
}

#[test]
fn has_named_params_detects_single_named() {
    assert!(has_named_params_not_it("item -> item.name"));
}

#[test]
fn has_named_params_detects_multi_named() {
    assert!(has_named_params_not_it(
        "loanId, isWustenrot -> setEvent(loanId)"
    ));
}

#[test]
fn has_named_params_rejects_implicit_it() {
    assert!(!has_named_params_not_it("it.name"));
}

#[test]
fn has_named_params_rejects_block_lambda() {
    assert!(!has_named_params_not_it("setEvent(something)"));
}

#[test]
fn has_named_params_rejects_empty() {
    assert!(!has_named_params_not_it(""));
}

#[test]
fn has_named_params_rejects_underscore() {
    // `_` is a valid anonymous param name — not considered "named"
    assert!(!has_named_params_not_it("_ -> something"));
}

#[test]
fn dot_at_depth_zero_simple() {
    assert_eq!(find_last_dot_at_depth_zero("items.forEach"), Some(5));
}

#[test]
fn dot_at_depth_zero_ignores_inner_dot() {
    // The dot inside `fn(Enum.VALUE,` is at depth 1 — should NOT match.
    assert_eq!(find_last_dot_at_depth_zero("fn(Enum.VALUE, "), None);
}

#[test]
fn dot_at_depth_zero_chained() {
    assert_eq!(find_last_dot_at_depth_zero("a.b(x).c"), Some(6));
}

#[test]
fn regression_immutable_list_extract_element_type() {
    // extract_collection_element_type must recognise ImmutableList, PersistentList, etc.
    assert_eq!(
        extract_collection_element_type("ImmutableList<ButtonModel>").as_deref(),
        Some("ButtonModel")
    );
    assert_eq!(
        extract_collection_element_type("PersistentList<Order>").as_deref(),
        Some("Order")
    );
    assert_eq!(
        extract_collection_element_type("ImmutableSet<Tag>").as_deref(),
        Some("Tag")
    );
}
