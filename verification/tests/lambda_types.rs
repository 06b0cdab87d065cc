//! What `it`, `this` and the named parameters of lambdas are taken for, given what is known of
//! the declarations round them.
use kmp_index::cst::LiveDoc;
use kmp_index::cst_lambda::{classify_this_lambda_context, ThisContext, ThisLambdaCtx};
use kmp_index::deps::FixedDeps;
use kmp_index::it_this::{
    find_it_element_type, find_it_element_type_in_lines, find_named_lambda_param_type,
    find_named_lambda_param_type_in_lines, find_this_context_in_lines,
    find_this_element_type_in_lines, is_inside_receiver_lambda,
};
use kmp_index::queries::cursor_node_at;
use kmp_index::receiver::lambda_receiver_type_from_context;
use kmp_index::syntax::{parse_live, Language};
use kmp_index::type_subst::{build_ext_fn_type_subst, resolve_member_type_on, subst_value};
use kmp_index::types::CursorPos;

fn uri(path: &str) -> String {
    format!("file:///test{path}")
}

fn test_uri() -> String {
    uri("/deps_test.kt")
}

fn names(list: &[&str]) -> Vec<String> {
    list.iter().map(|s| s.to_string()).collect()
}

fn lines_of(src: &str) -> Vec<String> {
    src.lines().map(String::from).collect()
}

fn tree(src: &str) -> LiveDoc {
    parse_live(src, Language::Kotlin).unwrap()
}

fn at(line: usize, utf16_col: usize) -> CursorPos {
    CursorPos { line, utf16_col }
}

fn it_in_tree(code: &str, pos: CursorPos, deps: &FixedDeps, u: &str) -> Option<String> {
    let doc = tree(code);
    let cursor = cursor_node_at(Some(&doc), pos);
    find_it_element_type_in_lines(&lines_of(code), pos, cursor.as_ref(), deps, u)
}

fn named_in_tree(
    code: &str,
    name: &str,
    pos: CursorPos,
    deps: &FixedDeps,
    u: &str,
) -> Option<String> {
    let doc = tree(code);
    let cursor = cursor_node_at(Some(&doc), pos);
    find_named_lambda_param_type_in_lines(&lines_of(code), name, pos, cursor.as_ref(), deps, u)
}

fn named_while_writing(
    code: &str,
    before: &str,
    name: &str,
    pos: CursorPos,
    deps: &FixedDeps,
    u: &str,
) -> Option<String> {
    let doc = tree(code);
    let cursor = cursor_node_at(Some(&doc), pos);
    let lines = lines_of(code);
    find_named_lambda_param_type(before, name, Some(&lines), cursor.as_ref(), deps, u, pos)
}

fn this_in_tree(code: &str, pos: CursorPos, deps: &FixedDeps, u: &str) -> ThisContext {
    let doc = tree(code);
    let cursor = cursor_node_at(Some(&doc), pos);
    find_this_context_in_lines(&lines_of(code), pos, cursor.as_ref(), deps, u)
}

fn this_in_text(lines: &Vec<String>, pos: CursorPos, deps: &FixedDeps, u: &str) -> Option<String> {
    find_this_element_type_in_lines(lines, pos, None, deps, u)
}

#[test]
fn test_deps_case_b_trailing_lambda_it_type() {
    // `loadData { it }` — trailing lambda, function registered in the facts.
    let u = test_uri();
    let deps = FixedDeps::new().with_fun(
        u.as_str(),
        "loadData",
        "block: (Product) -> Unit",
    );
    let result = lambda_receiver_type_from_context("loadData", &deps, &u);
    assert_eq!(
        result.as_deref(),
        Some("Product"),
        "Case B: trailing lambda param type from the facts"
    );
}

#[test]
fn test_deps_case_b_with_args() {
    // `loadData(key) { it }` — same, after `strip_trailing_call_args` strips `(key)`.
    let u = test_uri();
    let deps = FixedDeps::new().with_fun(
        u.as_str(),
        "loadData",
        "key: String, block: (Product) -> Unit",
    );
    let result = lambda_receiver_type_from_context("loadData(key)", &deps, &u);
    assert_eq!(
        result.as_deref(),
        Some("Product"),
        "Case B with args stripped: last param lambda type"
    );
}

#[test]
fn test_deps_case_a_receiver_dot_method() {
    // `items.map { it }` — receiver is `items: List<Item>`.
    let u = test_uri();
    let deps = FixedDeps::new().with_var(u.as_str(), "items", "List<Item>");
    let result = lambda_receiver_type_from_context("items.map", &deps, &u);
    assert_eq!(
        result.as_deref(),
        Some("Item"),
        "Case A: extract element type from List<Item>"
    );
}

#[test]
fn test_deps_case_a_var_type_no_collection() {
    // `repo.run { it }` — receiver type returned directly when no collection elem.
    let u = test_uri();
    let deps = FixedDeps::new()
        .with_var(u.as_str(), "repo", "Repository")
        .with_fun(u.as_str(), "run", "block: (Repository) -> Unit");
    // `run` is found so the method's lambda-param type wins.
    let result = lambda_receiver_type_from_context("repo.run", &deps, &u);
    assert_eq!(
        result.as_deref(),
        Some("Repository"),
        "Case A: non-collection receiver, method lambda param type"
    );
}

#[test]
fn test_deps_case_a_multi_segment_field_collection() {
    // `result.availableBanks.firstOrNull { it }` →
    //   receiver_expr = "result.availableBanks", method = "firstOrNull"
    //   outer_var = "result" (type "ResponseBody"), field = "availableBanks"
    //   field type = "MutableList<Bank>" → element "Bank"
    let u = test_uri();
    let deps = FixedDeps::new()
        .with_var(u.as_str(), "result", "ResponseBody")
        .with_field("ResponseBody", "availableBanks", "MutableList<Bank>");
    let result = lambda_receiver_type_from_context("result.availableBanks.firstOrNull", &deps, &u);
    assert_eq!(
        result.as_deref(),
        Some("Bank"),
        "multi-segment: element of field collection resolved via find_field_type"
    );
}

#[test]
fn test_deps_case_a_multi_segment_field_collection_map() {
    // `result.connectedAccounts.map { account -> }` →
    //   outer_var = "result" (type "ResponseBody"), field = "connectedAccounts"
    //   field type = "MutableList<MbAccount>" → element "MbAccount"
    let u = test_uri();
    let deps = FixedDeps::new()
        .with_var(u.as_str(), "result", "ResponseBody")
        .with_field(
            "ResponseBody",
            "connectedAccounts",
            "MutableList<MbAccount>",
        );
    let result = lambda_receiver_type_from_context("result.connectedAccounts.map", &deps, &u);
    assert_eq!(
        result.as_deref(),
        Some("MbAccount"),
        "multi-segment: element of connectedAccounts field via map"
    );
}

#[test]
fn test_deps_case_a_multi_segment_with_assignment_prefix() {
    // `account.bankName = result.availableBanks.firstOrNull { it }` →
    //   callee contains assignment prefix; last_ident_in correctly finds "result"
    let u = test_uri();
    let deps = FixedDeps::new()
        .with_var(u.as_str(), "result", "ResponseBody")
        .with_field("ResponseBody", "availableBanks", "MutableList<Bank>");
    // The callee string as extracted from the source line (assignment prefix included).
    let result = lambda_receiver_type_from_context(
        "account.bankName = result.availableBanks.firstOrNull",
        &deps,
        &u,
    );
    assert_eq!(
        result.as_deref(),
        Some("Bank"),
        "multi-segment with assignment prefix: element resolved correctly"
    );
}

#[test]
fn test_deps_case_a_multi_segment_field_non_collection_method_lambda() {
    // `result.foo.customOp { it }` where field `foo: Repo` and `customOp(block: (Bar) -> Unit)`.
    // The method's lambda param type wins over the field base type.
    let u = test_uri();
    let deps = FixedDeps::new()
        .with_var(u.as_str(), "result", "ResponseBody")
        .with_field("ResponseBody", "foo", "Repo")
        .with_fun(u.as_str(), "customOp", "block: (Bar) -> Unit");
    let result = lambda_receiver_type_from_context("result.foo.customOp", &deps, &u);
    assert_eq!(
        result.as_deref(),
        Some("Bar"),
        "multi-segment non-collection: method lambda param type wins over field base type"
    );
}

#[test]
fn test_deps_case_a_method_chain_return_type() {
    // `getAccountList(isRefresh).joinAllAccounts().firstOrNull { it }` →
    //   receiver_var = "joinAllAccounts", method = "firstOrNull"
    //   joinAllAccounts() returns List<Account> → element "Account"
    let u = test_uri();
    let deps = FixedDeps::new().with_return("joinAllAccounts", "List<Account>");
    let result = lambda_receiver_type_from_context(
        "getAccountList(isRefresh).joinAllAccounts().firstOrNull",
        &deps,
        &u,
    );
    assert_eq!(
        result.as_deref(),
        Some("Account"),
        "method-chain: element type from joinAllAccounts() return type"
    );
}

#[test]
fn test_deps_unknown_fn_returns_none() {
    // Function not registered → None.
    let u = test_uri();
    let deps = FixedDeps::new();
    let result = lambda_receiver_type_from_context("unknownFn", &deps, &u);
    assert_eq!(result, None, "unknown function should return None");
}

#[test]
fn apply_this_unresolved_receiver_returns_receiver_ctx() {
    // `unknown.apply { this }` — type of `unknown` not in index → Receiver (NOT NotReceiver)
    let u = uri("/t.kt");
    let deps = FixedDeps::new();
    let ctx = classify_this_lambda_context("unknown.apply ", &deps, &u, None);
    assert!(
        matches!(ctx, ThisLambdaCtx::Receiver),
        "apply with unresolvable receiver should be Receiver, got: {ctx:?}"
    );
}

#[test]
fn foreach_lambda_is_not_receiver_ctx() {
    // `list.forEach { this }` — forEach is NOT a scope function → NotReceiver
    let u = uri("/t.kt");
    let deps = FixedDeps::new();
    let ctx = classify_this_lambda_context("list.forEach ", &deps, &u, None);
    assert!(
        matches!(ctx, ThisLambdaCtx::NotReceiver),
        "forEach should yield NotReceiver, got: {ctx:?}"
    );
}

#[test]
fn with_this_unresolved_receiver_returns_receiver_ctx() {
    // `with(expr) { this }` — type of expr not found → Receiver
    let u = uri("/t.kt");
    let deps = FixedDeps::new();
    let ctx = classify_this_lambda_context("with(someExpr) ", &deps, &u, None);
    assert!(
        matches!(ctx, ThisLambdaCtx::Receiver),
        "with() with unresolvable arg should be Receiver, got: {ctx:?}"
    );
}

#[test]
fn chain_inference_single_hop_result_also() {
    // `resultWrapped.getOrNull()?.also { familyAccount -> }`
    // resultWrapped: Result<FamilyAccount> → getOrNull() returns FamilyAccount? → param: FamilyAccount
    let u = test_uri();
    let deps = FixedDeps::new().with_var(
        u.as_str(),
        "resultWrapped",
        "Result<FamilyAccount>",
    );
    let result = lambda_receiver_type_from_context("resultWrapped.getOrNull().also", &deps, &u);
    assert_eq!(
        result.as_deref(),
        Some("FamilyAccount"),
        "single-hop: Result<FamilyAccount>.getOrNull()?.also should yield FamilyAccount"
    );
}

#[test]
fn chain_inference_single_hop_optional_let() {
    // `maybeUser.getOrNull()?.let { user -> }`
    // maybeUser: Optional<User> → getOrNull() → param: User
    let u = test_uri();
    let deps =
        FixedDeps::new().with_var(u.as_str(), "maybeUser", "Optional<User>");
    let result = lambda_receiver_type_from_context("maybeUser.getOrNull().let", &deps, &u);
    assert_eq!(result.as_deref(), Some("User"));
}

#[test]
fn stdlib_let_generic_param_not_leaked() {
    // When stdlib `let` is indexed (sourcePaths includes stdlib sources),
    // its signature `block: (T) -> R` contains generic param `T`.
    // We must NOT leak `T` as the inferred type — the receiver's concrete
    // type should win via the uppercase fallback.
    let u = test_uri();
    let deps = FixedDeps::new()
        .with_var(u.as_str(), "familyCreationDate", "Long?")
        .with_fun(u.as_str(), "let", "block: (T) -> R");
    let result = lambda_receiver_type_from_context("familyCreationDate.let", &deps, &u);
    assert_eq!(
        result.as_deref(),
        Some("Long"),
        "should resolve to receiver type Long, not generic param T"
    );
}

#[test]
fn chain_inference_two_hop_field_method_also() {
    // `resultState.value.getOrNull()?.also { account -> }`
    // resultState: ResultState<Account>, value: Result<T>
    // With class params for ResultState: T→Account applied to field type → Result<Account>
    // fallback extracts first concrete type arg "Account"
    let u = test_uri();
    let deps = FixedDeps::new()
        .with_var(u.as_str(), "resultState", "ResultState<Account>")
        .with_field("ResultState", "value", "Result<T>")
        .with_class_params("ResultState", names(&["T"]));
    let result = lambda_receiver_type_from_context("resultState.value.getOrNull().also", &deps, &u);
    assert_eq!(
        result.as_deref(),
        Some("Account"),
        "two-hop: ResultState<Account>.value.getOrNull()?.also should yield Account"
    );
}

#[test]
fn chain_inference_two_hop_concrete_field_type() {
    // `wrapper.result.getOrNull()?.let { p -> }`
    // wrapper: Wrapper<X>, result: Result<Order> (concrete field type) → Order
    let u = test_uri();
    let deps = FixedDeps::new()
        .with_var(u.as_str(), "wrapper", "Wrapper<X>")
        .with_field("Wrapper", "result", "Result<Order>");
    let result = lambda_receiver_type_from_context("wrapper.result.getOrNull().let", &deps, &u);
    assert_eq!(
        result.as_deref(),
        Some("Order"),
        "two-hop: concrete field type Result<Order> wins over outer type arg"
    );
}

#[test]
fn chain_inference_proper_subst_with_method_return() {
    // Verifies proper substitution path: class params + method return → subst applied
    // `resultWrapped.getOrNull()?.also { account -> }`
    // With class params "Result" → ["T"] and method return "T?":
    //   subst = {"T": "FamilyAccount"}, apply to "T?" → "FamilyAccount?" → "FamilyAccount"
    let u = test_uri();
    let deps = FixedDeps::new()
        .with_var(u.as_str(), "resultWrapped", "Result<FamilyAccount>")
        .with_class_params("Result", names(&["T"]))
        .with_method_return_for_type("Result", "getOrNull", "T?");
    let result = lambda_receiver_type_from_context("resultWrapped.getOrNull().also", &deps, &u);
    assert_eq!(
        result.as_deref(),
        Some("FamilyAccount"),
        "proper subst: T? with T→FamilyAccount should yield FamilyAccount"
    );
}

#[test]
fn chain_inference_map_second_type_param() {
    // Verifies multi-param class substitution: Map<K,V> where V is what we want
    // `entries.getValue().also { val -> }` where entries: Map<String, Order>
    // With class params Map→["K","V"] and getValue() → "V":
    //   subst = {"K":"String","V":"Order"}, apply to "V" → "Order"
    let u = test_uri();
    let deps = FixedDeps::new()
        .with_var(u.as_str(), "entries", "Map<String, Order>")
        .with_class_params("Map", names(&["K", "V"]))
        .with_method_return_for_type("Map", "getValue", "V");
    let result = lambda_receiver_type_from_context("entries.getValue().also", &deps, &u);
    assert_eq!(
        result.as_deref(),
        Some("Order"),
        "multi-param: Map<String, Order>.getValue()?.also should yield Order (not String)"
    );
}

#[test]
fn chain_inference_dotted_nested_class_type() {
    // `resultState.value.getOrNull()?.also { familyAccount -> }`
    // resultState: ResultState.Success<Optional<FamilyAccount>>
    // Success class has field `value: T` (with type param T)
    // We need dotted_ident_prefix().last_segment() to extract "Success" for field lookup.
    let u = test_uri();
    let deps = FixedDeps::new()
        .with_var(
            u.as_str(),
            "resultState",
            "ResultState.Success<Optional<FamilyAccount>>",
        )
        .with_field("Success", "value", "T")
        .with_class_params("Success", names(&["T"]))
        .with_class_params("Optional", names(&["T"]))
        .with_method_return_for_type("Optional", "getOrNull", "T?");
    let result = lambda_receiver_type_from_context("resultState.value.getOrNull().also", &deps, &u);
    assert_eq!(
        result.as_deref(),
        Some("FamilyAccount"),
        "dotted nested class: ResultState.Success<Optional<FamilyAccount>>.value.getOrNull()?.also should yield FamilyAccount"
    );
}

#[test]
fn resolve_member_type_on_fallback_when_class_params_unindexed() {
    // Regression: when a class's type params are not in the index,
    // `build_type_arg_subst` returns an empty map and `apply_type_subst` returns the
    // raw generic placeholder ("T").  `resolve_member_type_on` must fall back to
    // `first_concrete_type_arg_str` so the CST forward-resolve path returns the
    // concrete type instead of leaking `:T` to the hover result.
    //
    // Reproduces: `resultState.value.getOrNull()?.also { familyAccount -> }`
    // where `ResultState.Success` type params are NOT indexed.
    let deps = FixedDeps::new().with_field("Success", "value", "T");
    // NO .with_class_params("Success", ...) — simulates unindexed class params

    // Without the fallback: apply_type_subst("T", {}) → "T" → leaked
    // With the fallback:    first_concrete_type_arg_str("ResultState.Success<Optional<FamilyAccount>>")
    //                       → "Optional<FamilyAccount>"
    let result = resolve_member_type_on(
        "ResultState.Success<Optional<FamilyAccount>>",
        "value",
        &deps,
        &test_uri(),
    );
    assert_eq!(
        result.as_deref(),
        Some("Optional<FamilyAccount>"),
        "unindexed class params: field 'T' with empty subst must fall back to first type arg"
    );
}

#[test]
fn resolve_member_type_on_fallback_method_return_unindexed() {
    // Same regression for method return type: Optional.getOrNull() returns T? but
    // Optional class params are not indexed → must fall back to first concrete type arg.
    let deps = FixedDeps::new().with_method_return_for_type(
        "Optional",
        "getOrNull",
        "T?",
    );
    // NO .with_class_params("Optional", ...)

    let result = resolve_member_type_on("Optional<FamilyAccount>", "getOrNull", &deps, &test_uri());
    assert_eq!(
        result.as_deref(),
        Some("FamilyAccount"),
        "unindexed Optional params: getOrNull returning T? must fall back to FamilyAccount"
    );
}

#[test]
fn inline_lambda_generic_ext_fn_no_var_type_capitalize_fallback() {
    // Reproduces the real-world `by lazy` case: `buildingSavingsReducer` has no
    // explicit type annotation, so `find_var_type` returns None. The fix should
    // capitalize `buildingSavingsReducer` → `BuildingSavingsReducer`, find
    // `reduce` on that class, and use its concrete return type for substitution.
    let u = test_uri();
    let deps = FixedDeps::new()
        // NO .with_var — simulates `by lazy` (no type annotation)
        .with_method_return_for_type(
            "BuildingSavingsReducer",
            "reduce",
            "Flow<ReducedResult<BuildingSavingsEffect, Sheet>>",
        )
        .with_fun(
            u.as_str(),
            "collectState",
            "setState: suspend (StateType) -> VMState, setEffect: suspend (EffectType) -> VMEffect",
        )
        .with_callable_info(
            "collectState",
            names(&["EffectType", "StateType", "VMState", "VMEffect"]),
            "Flow<ReducedResult<EffectType, StateType>>",
        );
    // First lambda (comma_count=0) → setState → StateType → Sheet
    let before_brace = "buildingSavingsReducer.reduce(event.events) { state().sheetState }\n    .collectState(\n            ";
    let result = lambda_receiver_type_from_context(before_brace, &deps, &u);
    assert_eq!(
        result.as_deref(),
        Some("Sheet"),
        "capitalize fallback: buildingSavingsReducer → BuildingSavingsReducer, \
         reduce returns Flow<ReducedResult<BuildingSavingsEffect, Sheet>>, \
         StateType should substitute to Sheet"
    );
}

#[test]
fn inline_lambda_generic_ext_fn_no_var_type_capitalize_second_param() {
    // Same as above but for the second lambda: EffectType → BuildingSavingsEffect
    let u = test_uri();
    let deps = FixedDeps::new()
        .with_method_return_for_type(
            "BuildingSavingsReducer",
            "reduce",
            "Flow<ReducedResult<BuildingSavingsEffect, Sheet>>",
        )
        .with_fun(
            u.as_str(),
            "collectState",
            "setState: suspend (StateType) -> VMState, setEffect: suspend (EffectType) -> VMEffect",
        )
        .with_callable_info(
            "collectState",
            names(&["EffectType", "StateType", "VMState", "VMEffect"]),
            "Flow<ReducedResult<EffectType, StateType>>",
        );
    let before_brace = "buildingSavingsReducer.reduce(event.events) { state().sheetState }\n    .collectState(\n            { sendState(state().copy(sheetState = it)) },\n            ";
    let result = lambda_receiver_type_from_context(before_brace, &deps, &u);
    assert_eq!(
        result.as_deref(),
        Some("BuildingSavingsEffect"),
        "capitalize fallback: second inline lambda param should substitute EffectType → BuildingSavingsEffect"
    );
}

#[test]
fn inline_lambda_generic_ext_fn_substitution_second_param() {
    // collectState(
    //   { sendState(state().copy(sheetState = it)) },   // it: StateType → SheetState
    //   { sendEffect(BuildingSavingsEffects(it)) })     // it: EffectType → BuildingSavingsEffect
    //
    // collectState declared as:
    //   fun <EffectType, StateType, VMState, VMEffect>
    //     Flow<ReducedResult<EffectType, StateType>>.collectState(
    //       setState: suspend (StateType) -> VMState,
    //       setEffect: suspend (EffectType) -> VMEffect)
    let u = test_uri();
    let deps = FixedDeps::new()
        .with_var(u.as_str(), "reducer", "BuildingSavingsReducer")
        .with_method_return_for_type(
            "BuildingSavingsReducer",
            "reduce",
            "Flow<ReducedResult<BuildingSavingsEffect, SheetState>>",
        )
        .with_fun(
            u.as_str(),
            "collectState",
            "setState: suspend (StateType) -> VMState, setEffect: suspend (EffectType) -> VMEffect",
        )
        .with_callable_info(
            "collectState",
            names(&["EffectType", "StateType", "VMState", "VMEffect"]),
            "Flow<ReducedResult<EffectType, StateType>>",
        );
    // Second lambda (comma_count=1) → setEffect param → EffectType → BuildingSavingsEffect
    let before_brace = "reducer.reduce(event.events) { state().sheetState }\n    .collectState(\n            { sendState(state().copy(sheetState = it)) },\n            ";
    let result = lambda_receiver_type_from_context(before_brace, &deps, &u);
    assert_eq!(
        result.as_deref(),
        Some("BuildingSavingsEffect"),
        "second inline lambda param should substitute EffectType → BuildingSavingsEffect"
    );
}

#[test]
fn inline_lambda_generic_ext_fn_substitution_first_param() {
    // Same as above but for the first lambda: it → StateType → SheetState
    let u = test_uri();
    let deps = FixedDeps::new()
        .with_var(u.as_str(), "reducer", "BuildingSavingsReducer")
        .with_method_return_for_type(
            "BuildingSavingsReducer",
            "reduce",
            "Flow<ReducedResult<BuildingSavingsEffect, SheetState>>",
        )
        .with_fun(
            u.as_str(),
            "collectState",
            "setState: suspend (StateType) -> VMState, setEffect: suspend (EffectType) -> VMEffect",
        )
        .with_callable_info(
            "collectState",
            names(&["EffectType", "StateType", "VMState", "VMEffect"]),
            "Flow<ReducedResult<EffectType, StateType>>",
        );
    // First lambda (comma_count=0) → setState param → StateType → SheetState
    let before_brace =
        "reducer.reduce(event.events) { state().sheetState }\n    .collectState(\n            ";
    let result = lambda_receiver_type_from_context(before_brace, &deps, &u);
    assert_eq!(
        result.as_deref(),
        Some("SheetState"),
        "first inline lambda param should substitute StateType → SheetState"
    );
}

#[test]
fn test_deps_collect_state_preserves_qualified_effect_type() {
    let u = test_uri();
    let deps = FixedDeps::new()
        .with_var(u.as_str(), "reducer", "ContractReducer")
        .with_method_return_for_type(
            "ContractReducer",
            "reduce",
            "Flow<ReducedResult<Contract.Effect, Contract.State>>",
        )
        .with_fun(
            u.as_str(),
            "collectState",
            "setState: suspend (Contract.State) -> VMState, setEffect: suspend (Contract.Effect) -> VMEffect",
        )
        .with_callable_info(
            "collectState",
            names(&["EffectType", "StateType", "VMState", "VMEffect"]),
            "Flow<ReducedResult<EffectType, StateType>>",
        );
    let before_brace = "reducer.reduce(event.events) { state().sheetState }\n    .collectState(\n            { sendState(state().copy(sheetState = it)) },\n            ";
    let result = lambda_receiver_type_from_context(before_brace, &deps, &u);
    assert_eq!(
        result.as_deref(),
        Some("Contract.Effect"),
        "second collectState lambda should preserve Contract.Effect"
    );
}

#[test]
fn method_chain_preserves_qualified_method_return_type() {
    let u = test_uri();
    let deps = FixedDeps::new()
        .with_var(u.as_str(), "box", "Optional<Contract.Effect>")
        .with_class_params("Optional", names(&["T"]))
        .with_method_return_for_type("Optional", "getOrNull", "T?")
        .with_fun(u.as_str(), "also", "block: (T) -> Unit");
    let result = lambda_receiver_type_from_context("box.getOrNull().also", &deps, &u);
    assert_eq!(
        result.as_deref(),
        Some("Contract.Effect"),
        "substituted method return Contract.Effect? should not truncate to Contract"
    );
}

#[test]
fn it_type_trailing_lambda_on_method_call_chain() {
    // `loanReducerFactory.create(sheetReloadActions.loan) { it }`
    // The `it` should resolve to the lambda parameter type of `create`'s last param,
    // NOT to the receiver type (`Factory`).
    let u = test_uri();
    let deps = FixedDeps::new()
        .with_var(u.as_str(), "loanReducerFactory", "Factory")
        .with_fun(
            u.as_str(),
            "create",
            "param: String, block: (LoanDetailSheetState) -> Unit",
        );
    // Before stripping: `loanReducerFactory.create(sheetReloadActions.loan)`
    // After stripping trailing args: `loanReducerFactory.create`
    let result = lambda_receiver_type_from_context(
        "loanReducerFactory.create(sheetReloadActions.loan)",
        &deps,
        &u,
    );
    assert_eq!(
        result.as_deref(),
        Some("LoanDetailSheetState"),
        "it in trailing lambda should resolve to the method's lambda param type, not the receiver type. got: {result:?}"
    );
}

#[test]
fn build_ext_fn_type_subst_nested_generics() {
    let map = build_ext_fn_type_subst(
        "Flow<ReducedResult<EffectType, StateType>>",
        "Flow<ReducedResult<BuildingSavingsEffect, SheetState>>",
        &names(&["EffectType", "StateType", "VMState", "VMEffect"]),
    );
    assert_eq!(
        subst_value(&map, "EffectType"),
        Some("BuildingSavingsEffect")
    );
    assert_eq!(subst_value(&map, "StateType"), Some("SheetState"));
    assert!(
        subst_value(&map, "VMState").is_none(),
        "VMState not in receiver, should be unmapped"
    );
    assert!(
        subst_value(&map, "VMEffect").is_none(),
        "VMEffect not in receiver, should be unmapped"
    );
}

#[test]
fn apply_this_resolved_receiver() {
    // `obj.apply { this }` where obj type is known
    let u = uri("/t.kt");
    let deps = FixedDeps::new().with_var(&u, "obj", "Foo");
    let ctx = classify_this_lambda_context("obj.apply ", &deps, &u, None);
    assert!(matches!(&ctx, ThisLambdaCtx::Resolved(t) if t == "Foo"));
}

#[test]
fn it_element_type_simple_foreach() {
    // `users.forEach { it.` — `it` should resolve to `User`
    let u = uri("/t.kt");
    let deps = FixedDeps::new().with_var(&u, "users", "List<User>");
    let result = find_it_element_type("users.forEach { it.", &deps, &u);
    assert_eq!(result.as_deref(), Some("User"));
}

#[test]
fn it_element_type_flow() {
    let u = uri("/t.kt");
    let deps = FixedDeps::new().with_var(&u, "events", "Flow<Event>");
    assert_eq!(
        find_it_element_type("events.collect { it.", &deps, &u).as_deref(),
        Some("Event")
    );
}

#[test]
fn it_element_type_unknown_var_returns_none() {
    let u = uri("/t.kt");
    assert_eq!(
        find_it_element_type("unknown.forEach { it.", &FixedDeps::new(), &u),
        None
    );
}

#[test]
fn it_element_type_scope_fn_let() {
    let u = uri("/t.kt");
    let deps = FixedDeps::new().with_var(&u, "user", "User");
    assert_eq!(
        find_it_element_type("user.let { it.", &deps, &u).as_deref(),
        Some("User")
    );
}

#[test]
fn it_type_let_still_infers_receiver() {
    let u = uri("/t.kt");
    let deps = FixedDeps::new().with_var(&u, "user", "User");
    assert_eq!(
        find_it_element_type("user.let { it.", &deps, &u).as_deref(),
        Some("User"),
        "let: it should still resolve to User"
    );
}

#[test]
fn it_type_second_of_two_lambdas_same_line() {
    let u = uri("/t.kt");
    let deps = FixedDeps::new()
        .with_fun(&u, "setState", "block: (State) -> Unit")
        .with_fun(&u, "setEffect", "block: (Effect) -> Unit");
    let before1 = "{ setState { ";
    let before2 = "{ setState { it } }, { setEffect { ";
    assert_eq!(
        find_it_element_type(before1, &deps, &u).as_deref(),
        Some("State"),
        "first it (inside setState) should resolve to State"
    );
    assert_eq!(
        find_it_element_type(before2, &deps, &u).as_deref(),
        Some("Effect"),
        "second it (inside setEffect) should resolve to Effect"
    );
}

#[test]
fn it_type_second_lambda_multiline_unindexed_inner() {
    // Only `observe` is known; `setState` and `setEffect` are not.
    let u = uri("/t.kt");
    let deps = FixedDeps::new().with_fun(
        &u,
        "observe",
        "onState: (State) -> Unit, onEffect: (Effect) -> Unit",
    );
    let code_src = "observe(\n    { setState { it } },\n    { setEffect { it } }\n)";
    let result = it_in_tree(code_src, at(2, 18), &deps, &u);
    assert_eq!(result.as_deref(), Some("Effect"));
}

#[test]
fn it_type_first_lambda_multiline_unindexed_inner() {
    let u = uri("/t.kt");
    let deps = FixedDeps::new().with_fun(
        &u,
        "observe",
        "onState: (State) -> Unit, onEffect: (Effect) -> Unit",
    );
    let code_src = "observe(\n    { setState { it } },\n    { setEffect { it } }\n)";
    let result = it_in_tree(code_src, at(1, 17), &deps, &u);
    assert_eq!(result.as_deref(), Some("State"));
}

#[test]
fn it_type_indexed_inner_fn_cst_still_works() {
    let u = uri("/t.kt");
    let deps = FixedDeps::new().with_fun(&u, "setState", "block: (State) -> Unit");
    let result = it_in_tree("setState { it }", at(0, 11), &deps, &u);
    assert_eq!(result.as_deref(), Some("State"));
}

#[test]
fn this_element_type_multiline_scope_fn() {
    let u = uri("/t.kt");
    let deps = FixedDeps::new().with_var(&u, "items", "List<String>");
    let lines = names(&["items.run {", "    this.", "}"]);
    assert_eq!(
        this_in_text(&lines, at(1, 9), &deps, &u).as_deref(),
        Some("List"),
        "run takes its receiver as this"
    );
}

#[test]
fn this_type_with_block() {
    let u = uri("/t.kt");
    let deps = FixedDeps::new().with_var(&u, "user", "User");
    let lines = names(&["with(user) {", "    this.", "}"]);
    assert_eq!(this_in_text(&lines, at(1, 9), &deps, &u).as_deref(), Some("User"));
}

#[test]
fn this_type_run_infers_receiver() {
    let u = uri("/t.kt");
    let deps = FixedDeps::new().with_var(&u, "user", "User");
    let lines = names(&["user.run {", "    this.", "}"]);
    assert_eq!(this_in_text(&lines, at(1, 9), &deps, &u).as_deref(), Some("User"));
}

#[test]
fn this_type_apply_infers_receiver() {
    let u = uri("/t.kt");
    let deps = FixedDeps::new().with_var(&u, "user", "User");
    let lines = names(&["user.apply {", "    this.", "}"]);
    assert_eq!(this_in_text(&lines, at(1, 9), &deps, &u).as_deref(), Some("User"));
}

#[test]
fn this_type_let_does_not_infer_receiver() {
    // `let` exposes the receiver as `it`, not `this`.
    let u = uri("/t.kt");
    let deps = FixedDeps::new().with_var(&u, "user", "User");
    let lines = names(&["user.let {", "    this.", "}"]);
    assert_eq!(this_in_text(&lines, at(1, 9), &deps, &u), None);
}

#[test]
fn this_type_also_does_not_infer_receiver() {
    // `also` exposes the receiver as `it`, not `this`.
    let u = uri("/t.kt");
    let deps = FixedDeps::new().with_var(&u, "user", "User");
    let lines = names(&["user.also {", "    this.", "}"]);
    assert_eq!(this_in_text(&lines, at(1, 9), &deps, &u), None);
}

#[test]
fn named_lambda_param_type_cst_fast_path() {
    let u = uri("/t.kt");
    let deps = FixedDeps::new().with_fun(&u, "consume", "block: (User) -> Unit");
    let code_src = "consume { user ->\n    user.name\n}";
    let before = "    user.";
    let pos = at(1, before.encode_utf16().count());
    let result = named_while_writing(code_src, before, "user", pos, &deps, &u);
    assert_eq!(result.as_deref(), Some("User"));
}

#[test]
fn named_lambda_param_type_in_lines_cst_uses_param_position() {
    let u = uri("/t.kt");
    let deps = FixedDeps::new().with_fun(&u, "zipUsers", "block: (LeftUser, RightUser) -> Unit");
    let code_src = "zipUsers { left, right ->\n    right.name\n}";
    let result = named_in_tree(code_src, "right", at(1, 0), &deps, &u);
    assert_eq!(result.as_deref(), Some("RightUser"));
}

#[test]
fn named_lambda_param_multiline_receiver_via_function_call() {
    let u = uri("/t.kt");
    let deps = FixedDeps::new()
        .with_fun(&u, "childCategory", "child: ChildAccount")
        .with_return("childCategory", "Int");
    let code_src = "childCategory(child)\n    .let { categoryAge ->\n        categoryAge\n    }";
    let col = lines_of(code_src)[1].find("categoryAge").unwrap();
    let result = named_in_tree(code_src, "categoryAge", at(1, col), &deps, &u);
    assert_eq!(result.as_deref(), Some("Int"));
}

fn lambda_in(doc: &LiveDoc) -> usize {
    (0..doc.nodes.len())
        .find(|&n| doc.nodes[n].kind == "lambda_literal")
        .unwrap()
}

#[test]
fn has_lambda_named_params_false_for_no_params() {
    let doc = tree("val x = items.map { it.name }");
    assert!(!doc.has_lambda_named_params(lambda_in(&doc)));
}

#[test]
fn has_lambda_named_params_false_for_it() {
    let doc = tree("val x = items.map { it -> it.name }");
    assert!(!doc.has_lambda_named_params(lambda_in(&doc)));
}

#[test]
fn has_lambda_named_params_true_for_named() {
    let doc = tree("val x = items.map { item -> item.name }");
    assert!(doc.has_lambda_named_params(lambda_in(&doc)));
}

#[test]
fn has_lambda_named_params_false_for_underscore() {
    let doc = tree("val x = items.map { _ -> 42 }");
    assert!(!doc.has_lambda_named_params(lambda_in(&doc)));
}

#[test]
fn is_inside_receiver_lambda_apply() {
    let src = "val _x = unknown.apply {\n    this\n}";
    let u = uri("/t.kt");
    let deps = FixedDeps::new();
    assert!(is_inside_receiver_lambda(&lines_of(src), at(1, 8), None, &deps, &u));
}

#[test]
fn is_inside_receiver_lambda_foreach_is_false() {
    let src = "val list = listOf(1)\nlist.forEach {\n    this\n}";
    let u = uri("/t.kt");
    let deps = FixedDeps::new();
    assert!(!is_inside_receiver_lambda(&lines_of(src), at(2, 8), None, &deps, &u));
}

#[test]
fn is_inside_receiver_lambda_apply_live_tree() {
    let src = "val user: User = User()\nuser.apply {\n    this\n}";
    let u = uri("/t.kt");
    let deps = FixedDeps::new().with_var(&u, "user", "User");
    let doc = tree(src);
    let pos = at(2, 8);
    let cursor = cursor_node_at(Some(&doc), pos);
    assert!(is_inside_receiver_lambda(&lines_of(src), pos, cursor.as_ref(), &deps, &u));
}

fn collect_state_deps(u: &str, reducer: &str, effect: &str, state: &str) -> FixedDeps {
    FixedDeps::new()
        .with_var(u, "reducer", reducer)
        .with_method_return_for_type(
            reducer,
            "reduce",
            &format!("Flow<ReducedResult<{effect}, {state}>>"),
        )
        .with_fun(
            u,
            "collectState",
            "setState: suspend (StateType) -> VMState, setEffect: suspend (EffectType) -> VMEffect",
        )
        .with_callable_info(
            "collectState",
            names(&["EffectType", "StateType", "VMState", "VMEffect"]),
            "Flow<ReducedResult<EffectType, StateType>>",
        )
}

#[test]
fn cst_resolve_it_in_collect_state_chain() {
    let u = uri("/code.kt");
    let deps = collect_state_deps(
        &u,
        "BuildingSavingsReducer",
        "BuildingSavingsEffect",
        "SheetState",
    );
    let code_src = "fun example(reducer: BuildingSavingsReducer) {\n    reducer.reduce(event) { state() }.collectState({ it })\n}";
    let col = lines_of(code_src)[1].find("{ it }").unwrap() + 2;
    let result = it_in_tree(code_src, at(1, col), &deps, &u);
    assert_eq!(result.as_deref(), Some("SheetState"));
}

#[test]
fn cst_resolve_it_with_long_type_names_triggering_detail_truncation() {
    let u = uri("/code.kt");
    let deps = collect_state_deps(
        &u,
        "ConcreteReducer",
        "ConcreteEffectType",
        "ConcreteStateType",
    );
    let code_src = "fun example(reducer: ConcreteReducer) {\n    reducer.reduce(event) { state() }.collectState({ it }, { it })\n}";
    let col = lines_of(code_src)[1].find("{ it }").unwrap() + 2;
    let result = it_in_tree(code_src, at(1, col), &deps, &u);
    assert_eq!(result.as_deref(), Some("ConcreteStateType"));
}

const CHAIN: &str = "\nimport java.util.Optional\nfun oneYearOlder(resultState: ResultState.Success<Optional<FamilyAccount>>) {\n    resultState.value.getOrNull()?.also { familyAccount ->\n        familyAccount\n    }\n}\n";

fn chain_deps(u: &str) -> FixedDeps {
    FixedDeps::new()
        .with_var(u, "resultState", "ResultState.Success<Optional<FamilyAccount>>")
        .with_field("Success", "value", "T")
        .with_class_params("Success", names(&["T"]))
        .with_class_params("ResultState", names(&["T"]))
}

#[test]
fn text_fallback_named_param_dotted_type_chain() {
    let u = uri("/ViewModel.kt");
    let deps = chain_deps(&u).with_method_return_for_type("Optional", "getOrNull", "T?");
    let lines = lines_of(CHAIN);
    let col = lines[3].find("familyAccount").unwrap();
    let result = find_named_lambda_param_type_in_lines(
        &lines,
        "familyAccount",
        at(3, col),
        None,
        &deps,
        &u,
    );
    assert_eq!(result.as_deref(), Some("FamilyAccount"));
}

#[test]
fn cst_named_param_unindexed_getornull_chain() {
    let u = uri("/ViewModel.kt");
    let deps = chain_deps(&u);
    let col = lines_of(CHAIN)[3].find("familyAccount").unwrap();
    let result = named_in_tree(CHAIN, "familyAccount", at(3, col), &deps, &u);
    assert_eq!(result.as_deref(), Some("FamilyAccount"));
}

#[test]
fn cst_named_param_dotted_type_chain() {
    let u = uri("/ViewModel.kt");
    let deps = chain_deps(&u).with_method_return_for_type("Optional", "getOrNull", "T?");
    let col = lines_of(CHAIN)[3].find("familyAccount").unwrap();
    let result = named_in_tree(CHAIN, "familyAccount", at(3, col), &deps, &u);
    assert_eq!(result.as_deref(), Some("FamilyAccount"));
}

#[test]
fn find_this_context_apply_unresolved_is_inside_receiver() {
    let src = "val _x = unknown.apply {\n    this\n}";
    let u = uri("/t.kt");
    let result = find_this_context_in_lines(&lines_of(src), at(1, 8), None, &FixedDeps::new(), &u);
    assert!(matches!(result, ThisContext::InsideReceiver));
}

#[test]
fn find_this_context_foreach_is_not_found() {
    let src = "val list = listOf(1)\nlist.forEach {\n    this\n}";
    let u = uri("/t.kt");
    let result = find_this_context_in_lines(&lines_of(src), at(2, 8), None, &FixedDeps::new(), &u);
    assert!(matches!(result, ThisContext::NotFound));
}

#[test]
fn find_this_context_apply_resolved_with_live_tree() {
    let src = "val user: User = User()\nuser.apply {\n    this\n}";
    let u = uri("/t.kt");
    let deps = FixedDeps::new().with_var(&u, "user", "User");
    let result = this_in_tree(src, at(2, 8), &deps, &u);
    assert!(matches!(result, ThisContext::Resolved(ref t) if t == "User"));
}

#[test]
fn find_this_context_with_dotted_receiver_resolved() {
    let src = [
        "class ViewHolder(val binding: FooBarBinding)",
        "fun bar(holder: ViewHolder) {",
        "    with(holder.binding) {",
        "        this",
        "    }",
        "}",
    ]
    .join("\n");
    let u = uri("/t.kt");
    let deps = FixedDeps::new()
        .with_var(&u, "holder", "ViewHolder")
        .with_field("ViewHolder", "binding", "FooBarBinding");
    let result = this_in_tree(&src, at(3, 12), &deps, &u);
    assert!(matches!(result, ThisContext::Resolved(ref t) if t == "FooBarBinding"));
}

#[test]
fn find_this_context_chained_apply_resolved_with_competing_view_holder() {
    let src = [
        "class ViewHolder(val binding: FooBarBinding)",
        "fun bar(holder: ViewHolder) {",
        "    holder.binding.apply {",
        "        this",
        "    }",
        "}",
    ]
    .join("\n");
    let u = uri("/main.kt");
    let deps = FixedDeps::new()
        .with_var(&u, "holder", "ViewHolder")
        .with_field("ViewHolder", "binding", "FooBarBinding");
    let result = this_in_tree(&src, at(3, 12), &deps, &u);
    assert!(matches!(result, ThisContext::Resolved(ref t) if t == "FooBarBinding"));
}

#[test]
fn find_it_element_type_chained_receiver_also_with_competing_view_holder() {
    let src = [
        "class ViewHolder(val binding: FooBarBinding)",
        "fun bar(holder: ViewHolder) {",
        "    holder.binding.also {",
        "        it",
        "    }",
        "}",
    ]
    .join("\n");
    let u = uri("/main.kt");
    let deps = FixedDeps::new()
        .with_var(&u, "holder", "ViewHolder")
        .with_field("ViewHolder", "binding", "FooBarBinding");
    let result = it_in_tree(&src, at(3, 12), &deps, &u);
    assert_eq!(result.as_deref(), Some("FooBarBinding"));
}

#[test]
fn find_this_context_nested_foreach_outer_apply() {
    let src = "val outer = unknown\nval list = listOf(1)\nouter.apply {\n    list.forEach {\n        this\n    }\n}";
    let u = uri("/t.kt");
    let result = find_this_context_in_lines(&lines_of(src), at(4, 12), None, &FixedDeps::new(), &u);
    assert!(matches!(result, ThisContext::InsideReceiver));
}

fn header_deps(u: &str, element: &str) -> FixedDeps {
    FixedDeps::new()
        .with_var(u, "header", "Header")
        .with_field("Header", "buttons", &format!("ImmutableList<{element}>"))
}

#[test]
fn it_type_generic_ext_fn_substitutes_type_param() {
    let u = uri("/t.kt");
    let deps = header_deps(&u, "CButtonData")
        .with_fun(&u, "fastForEach", "action: (T) -> Unit")
        .with_callable_info("fastForEach", names(&["T"]), "ImmutableList<T>");
    let code_src = "header.buttons.fastForEach { it }";
    let col = "header.buttons.fastForEach { ".encode_utf16().count();
    let result = it_in_tree(code_src, at(0, col), &deps, &u);
    assert_eq!(result.as_deref(), Some("CButtonData"));
}

#[test]
fn it_type_resolves_via_function_parameter_type() {
    let u = uri("/t.kt");
    let deps = header_deps(&u, "CButtonData")
        .with_fun(&u, "ProductHeader", "header: Header")
        .with_fun(&u, "fastForEach", "action: (T) -> Unit")
        .with_callable_info("fastForEach", names(&["T"]), "ImmutableList<T>");
    let code_src = "header.buttons.fastForEach { it }";
    let col = "header.buttons.fastForEach { ".encode_utf16().count();
    let result = it_in_tree(code_src, at(0, col), &deps, &u);
    assert_eq!(result.as_deref(), Some("CButtonData"));
}

#[test]
fn named_lambda_params_foreach_indexed_resolves_index_and_item() {
    let u = uri("/t.kt");
    let deps = header_deps(&u, "CButtonData")
        .with_fun(&u, "forEachIndexed", "action: (Int, T) -> Unit")
        .with_callable_info("forEachIndexed", names(&["T"]), "ImmutableList<T>");
    let code_src = "header.buttons.forEachIndexed { index, item ->\n    item\n}";
    let lines = lines_of(code_src);
    let col_item = lines[1].find("item").unwrap();
    let item = named_in_tree(code_src, "item", at(1, col_item), &deps, &u);
    assert_eq!(item.as_deref(), Some("CButtonData"));
    let col_index = lines[0].find("index").unwrap();
    let index = named_in_tree(code_src, "index", at(0, col_index), &deps, &u);
    assert_eq!(index.as_deref(), Some("Int"));
}

#[test]
fn regression_immutable_list_foreach_it_text_path() {
    let u = uri("/t.kt");
    let deps = header_deps(&u, "ButtonModel");
    let result = find_it_element_type("header.buttons.fastForEach { it.", &deps, &u);
    assert_eq!(result.as_deref(), Some("ButtonModel"));
}

#[test]
fn regression_generic_lambda_param_substituted_from_receiver_type_args() {
    let u = uri("/t.kt");
    let deps = FixedDeps::new()
        .with_var(&u, "buttons", "ImmutableList<ButtonModel>")
        .with_fun(&u, "fastForEach", "action: (T) -> Unit");
    let result = find_it_element_type("buttons.fastForEach { it.", &deps, &u);
    assert_eq!(result.as_deref(), Some("ButtonModel"));
}

#[test]
fn regression_jar_symbol_find_fun_callable_info_cst_path() {
    let u = uri("/t.kt");
    let deps = header_deps(&u, "ButtonModel")
        .with_fun(&u, "fastForEach", "action: (T) -> Unit")
        .with_callable_info("fastForEach", names(&["T"]), "ImmutableList<T>");
    let col = "header.buttons.fastForEach { ".encode_utf16().count();
    let result = it_in_tree("header.buttons.fastForEach { it }", at(0, col), &deps, &u);
    assert_eq!(result.as_deref(), Some("ButtonModel"));
}

#[test]
fn regression_jar_symbol_wrong_receiver_falls_back_to_text_path() {
    // The receiver of the function that is known does not match `List<User>`.
    let u = uri("/t.kt");
    let deps = FixedDeps::new()
        .with_var(&u, "users", "List<User>")
        .with_fun(&u, "forEach", "action: (T) -> Unit")
        .with_callable_info("forEach", names(&["T"]), "PersistentList<T>");
    let col = "users.forEach { ".encode_utf16().count();
    let result = it_in_tree("users.forEach { it }", at(0, col), &deps, &u);
    assert_eq!(result.as_deref(), Some("User"));
}

#[test]
fn regression_jar_descriptive_type_param_name_not_treated_as_generic() {
    let u = uri("/t.kt");
    let deps = FixedDeps::new()
        .with_fun(&u, "observe", "block: (Contract.Effect) -> Unit")
        .with_callable_info("observe", names(&["Effect"]), "UnrelatedReceiver<Effect>");
    let col = "state.observe { ".encode_utf16().count();
    let result = it_in_tree("state.observe { it }", at(0, col), &deps, &u);
    assert_eq!(result.as_deref(), Some("Contract.Effect"));
}

fn rows_deps(u: &str, item: &str, receiver: &str) -> FixedDeps {
    FixedDeps::new()
        .with_var(u, "item", item)
        .with_field("PortfolioProcessedItem", "tableRows", "ImmutableList<TableRowModel>")
        .with_fun(u, "fastForEach", "action: (T) -> Unit")
        .with_callable_info("fastForEach", names(&["T"]), receiver)
}

#[test]
fn regression_jar_fun_param_two_level_chain_fastforeach() {
    let u = uri("/t.kt");
    let deps = rows_deps(&u, "PortfolioProcessedItem", "List<T>");
    let code_src = "fun content(item: PortfolioProcessedItem) {\n  item.tableRows.fastForEach { it }\n}";
    let col = "  item.tableRows.fastForEach { ".encode_utf16().count();
    let result = it_in_tree(code_src, at(1, col), &deps, &u);
    assert_eq!(result.as_deref(), Some("TableRowModel"));
}

#[test]
fn regression_jar_fun_param_two_level_chain_fastforeach_jar_only() {
    let u = uri("/t.kt");
    let deps = rows_deps(&u, "PortfolioProcessedItem", "ImmutableList<T>");
    let code_src = "fun content(item: PortfolioProcessedItem) {\n  item.tableRows.fastForEach { it }\n}";
    let col = "  item.tableRows.fastForEach { ".encode_utf16().count();
    let result = it_in_tree(code_src, at(1, col), &deps, &u);
    assert_eq!(result.as_deref(), Some("TableRowModel"));
}

#[test]
fn regression_jar_nested_qualified_param_type_chain_fastforeach() {
    let u = uri("/t.kt");
    let item = "FundSection.PortfolioProcessed.PortfolioProcessedItem";
    let deps = rows_deps(&u, item, "List<T>");
    let code_src = "fun content(item: FundSection.PortfolioProcessed.PortfolioProcessedItem) {\n  item.tableRows.fastForEach { it }\n}";
    let col = "  item.tableRows.fastForEach { ".encode_utf16().count();
    let result = it_in_tree(code_src, at(1, col), &deps, &u);
    assert_eq!(result.as_deref(), Some("TableRowModel"));
}

fn collect_deps(u: &str, receiver: &str, params: &str) -> FixedDeps {
    FixedDeps::new()
        .with_fun(u, "collect", params)
        .with_callable_info("collect", names(&["T"]), receiver)
}

#[test]
fn regression_text_only_path_named_param_collect_not_t() {
    let u = uri("/t.kt");
    let deps = collect_deps(&u, "Flow<ResultState<T>>", "action: suspend (ResultState<T>) -> Unit");
    let lines = lines_of("productFlow(true).collect { result ->\n    result.\n}");
    let pos = at(1, "    result.".encode_utf16().count());
    let result = find_named_lambda_param_type_in_lines(&lines, "result", pos, None, &deps, &u);
    assert_ne!(result.as_deref(), Some("T"));
}

#[test]
fn regression_generic_t_not_leaked_as_named_lambda_param_type() {
    let u = uri("/t.kt");
    let deps = collect_deps(&u, "Flow<T>", "action: suspend (T) -> Unit").with_var(
        &u,
        "triggers",
        "Flow<Cause>",
    );
    let code_src = "triggers.collect { trigger ->\n    trigger.\n}";
    let before = "    trigger.";
    let pos = at(1, before.encode_utf16().count());
    let result = named_while_writing(code_src, before, "trigger", pos, &deps, &u);
    assert_ne!(result.as_deref(), Some("T"));
}

#[test]
fn regression_container_generic_arg_not_leaked_as_named_lambda_param_type() {
    let u = uri("/t.kt");
    let deps = collect_deps(&u, "Flow<ResultState<T>>", "action: suspend (ResultState<T>) -> Unit");
    let code_src = "productFlow(true).collect { result ->\n    result.\n}";
    let before = "    result.";
    let pos = at(1, before.encode_utf16().count());
    let result = named_while_writing(code_src, before, "result", pos, &deps, &u);
    assert_ne!(result.as_deref(), Some("ResultState<T>"));
}

#[test]
fn regression_jar_collect_on_flow_t_container_generic_not_leak() {
    let u = uri("/t.kt");
    let deps = collect_deps(&u, "Flow<T>", "action: suspend (T) -> Unit").with_var(
        &u,
        "productFlow",
        "Flow<ResultState<T>>",
    );
    let code_src = [
        "fun <T: Any> wrapper() {",
        "  val productFlow: Flow<ResultState<T>> = TODO()",
        "  productFlow.collect { result ->",
        "    result.",
        "  }",
        "}",
    ]
    .join("\n");
    let before = "    result.";
    let pos = at(2, before.encode_utf16().count());
    let result = named_while_writing(&code_src, before, "result", pos, &deps, &u);
    assert_ne!(result.as_deref(), Some("ResultState<T>"));
}

#[test]
fn regression_productflow_param_collect_result_not_t() {
    let u = uri("/t.kt");
    let deps = collect_deps(&u, "Flow<T>", "action: suspend (T) -> Unit").with_var(
        &u,
        "triggers",
        "Flow<Cause>",
    );
    let code_src = [
        "fun <T: Any> reloadableProduct(",
        "  key: ProductKey,",
        "  productFlow: (isRefresh: Boolean) -> Flow<ResultState<T>>,",
        "  map: (ResultState<T>) -> StatefulModel<SortableProducts>,",
        ") {",
        "  productFlow(true).collect { result ->",
        "    result.",
        "  }",
        "}",
    ]
    .join("\n");
    let before = "    result.";
    let pos = at(6, before.encode_utf16().count());
    let result = named_while_writing(&code_src, before, "result", pos, &deps, &u);
    assert_ne!(result.as_deref(), Some("T"), "must not leak bare generic T");
    assert_ne!(
        result.as_deref(),
        Some("ResultState<T>"),
        "must not leak T inside a container"
    );
}

#[test]
fn regression_jar_fun_param_collect_named_lambda_not_t_text_only() {
    let u = uri("/t.kt");
    let deps = collect_deps(&u, "Flow<T>", "action: suspend (T) -> Unit");
    let code_src = [
        "fun <T: Any> wrapper(productFlow: () -> Flow<ResultState<T>>) {",
        "  productFlow().collect { result ->",
        "    result.",
        "  }",
        "}",
    ]
    .join("\n");
    let pos = at(2, "    result.".encode_utf16().count());
    let result = find_named_lambda_param_type_in_lines(
        &lines_of(&code_src),
        "result",
        pos,
        None,
        &deps,
        &u,
    );
    assert_ne!(result.as_deref(), Some("T"));
}

#[test]
fn this_type_apply_on_constructor_call_infers_receiver() {
    let u = uri("/t.kt");
    let code = "User().apply {\n    this.\n}";
    let result = this_in_tree(code, at(1, 9), &FixedDeps::new(), &u);
    assert!(matches!(result, ThisContext::Resolved(ref t) if t == "User"));
}

#[test]
fn this_type_named_argument_builder_lambda_infers_receiver() {
    let u = uri("/t.kt");
    let deps = FixedDeps::new().with_fun(&u, "Foo", "content: LazyListScope.() -> Unit");
    let code = "Foo(content = {\n    this.\n})";
    let result = this_in_tree(code, at(1, 9), &deps, &u);
    assert!(matches!(result, ThisContext::Resolved(ref t) if t == "LazyListScope"));
}
